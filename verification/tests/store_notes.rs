use sha2::Digest;
use minute::model::{ActionItem, NoteStatus, SummaryDoc};
use minute::store::{
    audio_path, check_export_selection, check_restore, check_library_move, delete_marker, export_file,
    note_dir_totals, storage_totals, deleted_note_undo_checksum, join_path, marker_index, marker_label,
    recovery_token_is_valid, resolved_audio_path, reveal_target, safe_export_name,
    update_marker_label, AudioOnDisk, DeletedNoteUndo, DiagnosticsSnapshot, NoteFacts,
    StorageStats, Store,
};

const NOTE_ID: &str = "20260723-101530";

fn store() -> Store {
    Store::new("/library".to_string())
}

fn sample_summary() -> SummaryDoc {
    SummaryDoc {
        summary: "Discussed Q3 roadmap.".to_string(),
        topics: Vec::new(),
        decisions: vec!["Ship by Friday".to_string()],
        action_items: vec![ActionItem { text: "Write release notes".to_string(), done: false }],
    }
}

const NOTHING: AudioOnDisk = AudioOnDisk { wav: false, m4a: false };
const WAV: AudioOnDisk = AudioOnDisk { wav: true, m4a: false };
const M4A: AudioOnDisk = AudioOnDisk { wav: false, m4a: true };

#[test]
fn note_paths_hang_off_the_library_root() {
    let store = store();
    assert_eq!(store.root(), "/library");
    assert_eq!(store.notes_root(), "/library/notes");
    assert_eq!(store.note_dir(NOTE_ID), "/library/notes/20260723-101530");
    assert_eq!(store.note_file(NOTE_ID, "meta.json"), "/library/notes/20260723-101530/meta.json");
    assert_eq!(store.voice_profiles_path(), "/library/voice-profiles.json");
    assert_eq!(store.recovery_path("x-1"), "/library/.minute-trash/x-1");
    assert_eq!(join_path("/a/", "b"), "/a/b");
    assert_eq!(join_path("", "b"), "b");
    assert_eq!(join_path("/a", "/abs"), "/abs");
    assert_eq!(store.meta_path(NOTE_ID), "/library/notes/20260723-101530/meta.json");
    assert_eq!(store.meta_tmp_path(NOTE_ID), "/library/notes/20260723-101530/meta.json.tmp");
    assert_eq!(store.transcript_path(NOTE_ID), "/library/notes/20260723-101530/transcript.json");
    assert_eq!(store.transcript_tmp_path(NOTE_ID), "/library/notes/20260723-101530/transcript.json.tmp");
    assert_eq!(store.summary_path(NOTE_ID), "/library/notes/20260723-101530/summary.json");
    assert_eq!(store.summary_tmp_path(NOTE_ID), "/library/notes/20260723-101530/summary.json.tmp");
    assert_eq!(store.speaker_embeddings_path(NOTE_ID), "/library/notes/20260723-101530/speakers.json");
    assert_eq!(store.note_md_path(NOTE_ID), "/library/notes/20260723-101530/note.md");
    assert_eq!(store.note_md_tmp_path(NOTE_ID), "/library/notes/20260723-101530/note.md.tmp");
    assert_eq!(minute::settings::settings_path("/data"), "/data/settings.json");
    assert_eq!(minute::settings::settings_tmp_path("/data/"), "/data/settings.json.tmp");
}

#[test]
fn notes_default_to_the_microphone_as_their_only_source() {
    assert_eq!(minute::store::default_sources(), vec!["mic".to_string()]);
}

#[test]
fn reveal_target_returns_audio_wav_when_present() {
    let store = store();
    assert_eq!(store.reveal_target(NOTE_ID, WAV), "/library/notes/20260723-101530/audio.wav");
}

#[test]
fn reveal_target_falls_back_to_note_dir_when_audio_missing() {
    let store = store();
    assert_eq!(store.reveal_target(NOTE_ID, NOTHING), store.note_dir(NOTE_ID));
}

#[test]
fn reveal_target_on_nonexistent_note_dir_falls_back_to_it_anyway() {
    let missing = "/tmp/never-existed";
    assert_eq!(reveal_target(missing, NOTHING), missing);
}

#[test]
fn reveal_target_shows_the_compressed_audio_too() {
    assert_eq!(reveal_target("/n", M4A), "/n/audio.m4a");
}

#[test]
fn audio_path_returns_some_when_audio_wav_is_present() {
    let dir = store().note_dir(NOTE_ID);
    assert_eq!(audio_path(&dir, WAV), Some(format!("{dir}/audio.wav")));
}

#[test]
fn audio_path_returns_none_when_audio_wav_is_missing() {
    let dir = store().note_dir(NOTE_ID);
    assert_eq!(audio_path(&dir, NOTHING), None);
}

#[test]
fn audio_path_on_nonexistent_note_dir_returns_none() {
    assert_eq!(audio_path("/tmp/never-existed", NOTHING), None);
}

#[test]
fn resolved_audio_path_is_none_when_audio_deleted_even_if_a_stray_wav_exists() {
    let dir = store().note_dir(NOTE_ID);
    assert_eq!(resolved_audio_path(true, &dir, WAV), None);
}

#[test]
fn resolved_audio_path_is_some_when_not_deleted_and_wav_present() {
    let dir = store().note_dir(NOTE_ID);
    assert_eq!(resolved_audio_path(false, &dir, WAV), Some(format!("{dir}/audio.wav")));
}

#[test]
fn resolved_audio_path_is_none_when_not_deleted_and_wav_missing() {
    let dir = store().note_dir(NOTE_ID);
    assert_eq!(resolved_audio_path(false, &dir, NOTHING), None);
}

#[test]
fn resolved_audio_path_falls_back_to_audio_m4a_once_compressed() {
    let dir = store().note_dir(NOTE_ID);
    assert_eq!(resolved_audio_path(false, &dir, M4A), Some(format!("{dir}/audio.m4a")));
}

#[test]
fn toggle_action_item_flips_done_and_persists() {
    let updated = store().toggle_action_item(NOTE_ID, 0, true, Some(sample_summary())).unwrap();
    assert!(updated.action_items[0].done);
    assert_eq!(updated.action_items[0].text, "Write release notes");
    assert_eq!(updated.summary, "Discussed Q3 roadmap.");
    assert_eq!(updated.decisions, vec!["Ship by Friday".to_string()]);
    let back = store().toggle_action_item(NOTE_ID, 0, false, Some(updated)).unwrap();
    assert_eq!(back, sample_summary());
}

#[test]
fn toggle_action_item_out_of_bounds_index_errors() {
    let result = store().toggle_action_item(NOTE_ID, 5, true, Some(sample_summary()));
    assert!(result.is_err());
    assert_eq!(
        result.unwrap_err().message(),
        "action item index 5 out of bounds for note 20260723-101530 (1 item(s))"
    );
}

#[test]
fn toggle_action_item_without_a_summary_errors() {
    let result = store().toggle_action_item(NOTE_ID, 0, true, None);
    assert!(result.is_err());
    assert_eq!(result.unwrap_err().message(), "note 20260723-101530 has no summary yet");
}

#[test]
fn marker_rejects_blank_labels_without_mutating_the_note() {
    assert!(marker_label("   ").is_err());
    assert_eq!(marker_label("   ").unwrap_err().message(), "marker label cannot be empty");
    assert_eq!(marker_label("  Open question ").unwrap(), "Open question");
    let mut labels = vec!["Kept".to_string()];
    assert!(update_marker_label(&mut labels, 0, " ").is_err());
    assert_eq!(labels, vec!["Kept".to_string()]);
}

#[test]
fn marker_update_and_delete_reject_out_of_bounds_indices() {
    let mut labels: Vec<String> = Vec::new();
    assert!(update_marker_label(&mut labels, 0, "Missing").is_err());
    assert!(delete_marker(&mut labels, 0).is_err());
    assert_eq!(delete_marker(&mut labels, 0).unwrap_err().message(), "marker index out of bounds: 0");
    assert!(marker_index(0, 1).is_ok());
}

#[test]
fn update_and_delete_marker_persist_and_refresh_markdown() {
    let mut labels = vec!["Open question".to_string(), "Old label".to_string()];
    update_marker_label(&mut labels, 1, "Ship date").unwrap();
    assert_eq!(labels[1], "Ship date");
    delete_marker(&mut labels, 0).unwrap();
    assert_eq!(labels, vec!["Ship date".to_string()]);
}

#[test]
fn a_recovery_token_is_accepted_only_as_it_was_issued() {
    let checksum = deleted_note_undo_checksum(NOTE_ID, "20260723-101530-1");
    assert_eq!(checksum.len(), 64);
    assert!(checksum.chars().all(|c| c.is_ascii_hexdigit() && !c.is_ascii_uppercase()));
    let good = DeletedNoteUndo {
        id: NOTE_ID.to_string(),
        title: "Standup".to_string(),
        trash_name: "20260723-101530-1".to_string(),
        checksum: checksum.clone(),
    };
    assert!(recovery_token_is_valid(&good));
    let mut moved = good.clone();
    moved.trash_name = "20260723-101530-2".to_string();
    assert!(!recovery_token_is_valid(&moved));
    let mut forged = good.clone();
    forged.checksum = "0".repeat(64);
    assert!(!recovery_token_is_valid(&forged));
}

#[test]
fn recovery_checksum_is_the_sha256_of_the_framed_payload() {
    // SHA-256 of "minute-note-recovery\0a\0b".
    let expected = {
        let digest = sha2::Sha256::digest(b"minute-note-recovery\0a\0b");
        digest.iter().map(|b| format!("{b:02x}")).collect::<String>()
    };
    assert_eq!(deleted_note_undo_checksum("a", "b"), expected);
    assert_ne!(deleted_note_undo_checksum("a", "b"), deleted_note_undo_checksum("a", "c"));
}

#[test]
fn safe_export_name_keeps_words_and_collapses_everything_else() {
    assert_eq!(safe_export_name("Client call — Acme"), "Client-call---Acme");
    assert_eq!(safe_export_name("  Weekly   sync  "), "Weekly-sync");
    assert_eq!(safe_export_name("  !!!  "), "untitled");
    assert_eq!(safe_export_name(""), "untitled");
    assert_eq!(safe_export_name("a_b.c"), "a_b-c");
    let long = "x".repeat(100);
    assert_eq!(safe_export_name(&long).len(), 80);
}

#[test]
fn per_note_storage_splits_audio_from_documents() {
    let stats = store().note_storage_stats(1000, 600);
    assert_eq!(stats.total_bytes, 1000);
    assert_eq!(stats.audio_bytes, 600);
    assert_eq!(stats.document_bytes, 400);
    assert_eq!(store().note_storage_stats(10, 20).document_bytes, 0);
}

fn facts(id: &str, status: NoteStatus, sources: &[&str], deleted: bool, compressed: bool) -> NoteFacts {
    NoteFacts {
        id: id.to_string(),
        created_at: "2026-07-23T10:15:30Z".to_string(),
        status,
        audio_deleted: deleted,
        audio_compressed: compressed,
        sources: sources.iter().map(|s| s.to_string()).collect(),
    }
}

#[test]
fn diagnostics_exclude_private_note_content() {
    let notes = vec![
        facts("secret-1", NoteStatus::Ready, &["mic", "system"], false, true),
        facts("secret-2", NoteStatus::Recording, &["mic"], false, false),
        facts("secret-3", NoteStatus::Transcribed, &["mic"], true, false),
    ];
    let storage = StorageStats { models_bytes: 1, audio_bytes: 2, notes_bytes: 3 };
    let snap = DiagnosticsSnapshot::new(
        "2026-07-23T10:15:30Z".to_string(),
        "1.2.3".to_string(),
        "macos".to_string(),
        "aarch64".to_string(),
        &notes,
        storage,
    );
    assert_eq!(snap.note_count, 3);
    assert_eq!(snap.recording_notes, 1);
    assert_eq!(snap.transcribed_notes, 1);
    assert_eq!(snap.ready_notes, 1);
    assert_eq!(snap.notes_with_system_audio, 1);
    assert_eq!(snap.notes_with_audio_removed, 1);
    assert_eq!(snap.notes_with_audio_compressed, 1);
    assert_eq!(snap.storage, storage);
    assert_eq!(
        snap.privacy,
        "Aggregate operational metadata only. No note ids, titles, transcript text, filenames, or paths."
    );
    let rendered = format!("{snap:?}");
    assert!(!rendered.contains("secret"));
}

#[test]
fn bulk_export_names_files_by_position_and_title() {
    assert_eq!(export_file(0, "Alpha / planning"), "001-Alpha---planning.md");
    assert_eq!(export_file(1, "Beta review"), "002-Beta-review.md");
    assert_eq!(export_file(999, "x"), "1000-x.md");
    assert!(check_export_selection(2).is_ok());
    assert_eq!(check_export_selection(0).unwrap_err().message(), "select at least one note to export");
}

#[test]
fn move_library_rejects_a_destination_with_an_existing_notes_folder() {
    let err = check_library_move(true, "/new", "/old", Some("/old/notes"), true).unwrap_err();
    assert!(err.message().contains("already contains"));
}

#[test]
fn move_library_rejects_the_current_root() {
    let err = check_library_move(true, "/old", "/old", Some("/old/notes"), false).unwrap_err();
    assert!(err.message().contains("already lives"));
}

#[test]
fn move_library_rejects_a_missing_destination() {
    let err = check_library_move(false, "/old/does-not-exist", "/old", Some("/old/notes"), false).unwrap_err();
    assert!(err.message().contains("does not exist"));
}

#[test]
fn move_library_rejects_a_folder_inside_the_current_library() {
    let err = check_library_move(true, "/old/notes/sub", "/old", Some("/old/notes"), false).unwrap_err();
    assert!(err.message().contains("inside the current library"));
    let err = check_library_move(true, "/old/notes", "/old", Some("/old/notes"), false).unwrap_err();
    assert!(err.message().contains("inside the current library"));
}

#[test]
fn move_library_accepts_a_sibling_whose_name_merely_starts_alike() {
    assert!(check_library_move(true, "/old/notes-archive", "/old", Some("/old/notes"), false).is_ok());
    assert!(check_library_move(true, "/elsewhere", "/old", None, false).is_ok());
}

#[test]
fn note_dir_stats_counts_audio_m4a_as_audio_bytes_once_compressed() {
    let entries = vec![("audio.m4a".to_string(), 9), ("meta.json".to_string(), 2)];
    let (total, audio) = note_dir_totals(&entries);
    assert_eq!(audio, "aac bytes".len() as u64);
    assert!(total >= audio);
    assert_eq!(total, 11);
}

#[test]
fn note_dir_stats_on_vanished_dir_returns_zero() {
    assert_eq!(note_dir_totals(&[]), (0, 0));
}

#[test]
fn storage_stats_counts_audio_separately_from_notes() {
    let stats = storage_totals(100, &[(50, 30), (20, 0), (5, 10)]);
    assert_eq!(stats.models_bytes, 100);
    assert_eq!(stats.audio_bytes, 40);
    assert_eq!(stats.notes_bytes, 40);
}

#[test]
fn delete_note_can_be_restored_without_overwriting_an_existing_note() {
    let trash_name = format!("{NOTE_ID}-1784801730000000000");
    let undo = DeletedNoteUndo {
        id: NOTE_ID.to_string(),
        title: "Recover me".to_string(),
        trash_name: trash_name.clone(),
        checksum: deleted_note_undo_checksum(NOTE_ID, &trash_name),
    };
    // Recovery folder present, id free: restored.
    assert!(check_restore(&undo, true, false).is_ok());
    // Restoring again: the recovery folder has moved back and the note exists.
    assert!(check_restore(&undo, false, true).is_err());
    assert_eq!(
        check_restore(&undo, true, true).unwrap_err().message(),
        "cannot restore note 20260723-101530 because that id already exists"
    );
    assert_eq!(check_restore(&undo, false, false).unwrap_err().message(), "recoverable note is no longer available");
    let mut tampered = undo;
    tampered.trash_name.push_str("-changed");
    assert_eq!(check_restore(&tampered, true, false).unwrap_err().message(), "invalid note recovery token");
}
