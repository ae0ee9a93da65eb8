use minute::clock::created_at_text;
use minute::model::NoteStatus;
use minute::store::NoteFacts;
use minute::sweep::{
    compare_created_at, compress_candidates, first_compress_step, first_free_id, format_id,
    next_compress_action, note_id_attempt, sweep_candidates, CompressAction, CompressStep,
    NANOS_PER_DAY,
};
use time::format_description::well_known::Rfc3339;
use time::{Duration, OffsetDateTime, UtcOffset};

fn at(text: &str) -> OffsetDateTime {
    OffsetDateTime::parse(text, &Rfc3339).unwrap()
}

fn rfc3339(dt: OffsetDateTime) -> String {
    dt.format(&Rfc3339).unwrap()
}

fn nanos(dt: OffsetDateTime) -> i128 {
    dt.unix_timestamp_nanos()
}

fn sweep_meta(id: &str, created_at: &str, status: NoteStatus, audio_deleted: bool) -> NoteFacts {
    NoteFacts {
        id: id.to_string(),
        created_at: created_at.to_string(),
        status,
        audio_deleted,
        audio_compressed: false,
        sources: vec!["mic".to_string()],
    }
}

fn compress_meta(
    id: &str,
    created_at: &str,
    status: NoteStatus,
    audio_deleted: bool,
    audio_compressed: bool,
) -> NoteFacts {
    let mut meta = sweep_meta(id, created_at, status, audio_deleted);
    meta.audio_compressed = audio_compressed;
    meta
}

fn midnight() -> OffsetDateTime {
    at("2026-07-23T00:00:00Z")
}

#[test]
fn sweep_candidates_selects_a_note_strictly_older_than_30_days() {
    let now = midnight();
    let just_over_30_days = now - Duration::days(30) - Duration::seconds(1);
    let meta = sweep_meta("old", &rfc3339(just_over_30_days), NoteStatus::Ready, false);
    assert_eq!(sweep_candidates(&[meta], nanos(now)), vec!["old".to_string()]);
}

#[test]
fn sweep_candidates_excludes_a_note_exactly_30_days_old() {
    let now = midnight();
    let exactly_30_days = now - Duration::days(30);
    let meta = sweep_meta("boundary", &rfc3339(exactly_30_days), NoteStatus::Ready, false);
    assert!(sweep_candidates(&[meta], nanos(now)).is_empty());
}

#[test]
fn sweep_candidates_excludes_a_note_younger_than_30_days() {
    let now = midnight();
    let recent = now - Duration::days(1);
    let meta = sweep_meta("recent", &rfc3339(recent), NoteStatus::Ready, false);
    assert!(sweep_candidates(&[meta], nanos(now)).is_empty());
}

#[test]
fn sweep_candidates_excludes_recording_status_no_matter_how_old() {
    let now = midnight();
    let ancient = now - Duration::days(365);
    let meta = sweep_meta("still-recording", &rfc3339(ancient), NoteStatus::Recording, false);
    assert!(sweep_candidates(&[meta], nanos(now)).is_empty());
}

#[test]
fn sweep_candidates_includes_transcribed_status_not_just_ready() {
    let now = midnight();
    let ancient = now - Duration::days(60);
    let meta = sweep_meta("transcribed-old", &rfc3339(ancient), NoteStatus::Transcribed, false);
    assert_eq!(sweep_candidates(&[meta], nanos(now)), vec!["transcribed-old".to_string()]);
}

#[test]
fn sweep_candidates_excludes_notes_already_audio_deleted() {
    let now = midnight();
    let ancient = now - Duration::days(60);
    let meta = sweep_meta("already-swept", &rfc3339(ancient), NoteStatus::Ready, true);
    assert!(sweep_candidates(&[meta], nanos(now)).is_empty());
}

#[test]
fn sweep_candidates_skips_a_note_with_malformed_created_at_without_panicking() {
    let now = midnight();
    let meta = sweep_meta("corrupt", "not-a-real-timestamp", NoteStatus::Ready, false);
    assert!(sweep_candidates(&[meta], nanos(now)).is_empty());
}

#[test]
fn sweep_candidates_only_returns_the_matching_ids_out_of_a_mixed_set() {
    let now = midnight();
    let ancient = now - Duration::days(60);
    let recent = now - Duration::days(1);
    let notes = vec![
        sweep_meta("eligible", &rfc3339(ancient), NoteStatus::Ready, false),
        sweep_meta("too-young", &rfc3339(recent), NoteStatus::Ready, false),
        sweep_meta("recording", &rfc3339(ancient), NoteStatus::Recording, false),
        sweep_meta("already-deleted", &rfc3339(ancient), NoteStatus::Transcribed, true),
    ];
    assert_eq!(sweep_candidates(&notes, nanos(now)), vec!["eligible".to_string()]);
}

#[test]
fn sweep_candidates_reads_the_instant_not_the_written_offset() {
    // 31 days and one hour old, written in UTC+02:00.
    let now = midnight();
    let meta = sweep_meta("offset", "2026-06-22T01:00:00+02:00", NoteStatus::Ready, false);
    assert_eq!(sweep_candidates(&[meta], nanos(now)), vec!["offset".to_string()]);
    assert_eq!(NANOS_PER_DAY, 86_400 * 1_000_000_000);
}

#[test]
fn compress_candidates_selects_a_note_strictly_older_than_the_configured_days() {
    let now = midnight();
    let just_over_7_days = now - Duration::days(7) - Duration::seconds(1);
    let meta = compress_meta("old", &rfc3339(just_over_7_days), NoteStatus::Ready, false, false);
    assert_eq!(compress_candidates(&[meta], nanos(now), 7), vec!["old".to_string()]);
}

#[test]
fn compress_candidates_excludes_a_note_exactly_at_the_day_boundary() {
    let now = midnight();
    let exactly_14_days = now - Duration::days(14);
    let meta = compress_meta("boundary", &rfc3339(exactly_14_days), NoteStatus::Ready, false, false);
    assert!(compress_candidates(&[meta], nanos(now), 14).is_empty());
}

#[test]
fn compress_candidates_excludes_a_note_younger_than_the_configured_days() {
    let now = midnight();
    let recent = now - Duration::days(2);
    let meta = compress_meta("recent", &rfc3339(recent), NoteStatus::Ready, false, false);
    assert!(compress_candidates(&[meta], nanos(now), 30).is_empty());
}

#[test]
fn compress_candidates_excludes_recording_status_no_matter_how_old() {
    let now = midnight();
    let ancient = now - Duration::days(365);
    let meta = compress_meta("still-recording", &rfc3339(ancient), NoteStatus::Recording, false, false);
    assert!(compress_candidates(&[meta], nanos(now), 7).is_empty());
}

#[test]
fn compress_candidates_excludes_notes_already_audio_deleted() {
    let now = midnight();
    let ancient = now - Duration::days(60);
    let meta = compress_meta("deleted", &rfc3339(ancient), NoteStatus::Ready, true, false);
    assert!(compress_candidates(&[meta], nanos(now), 7).is_empty());
}

#[test]
fn compress_candidates_excludes_notes_already_compressed() {
    let now = midnight();
    let ancient = now - Duration::days(60);
    let meta = compress_meta("already-compressed", &rfc3339(ancient), NoteStatus::Ready, false, true);
    assert!(compress_candidates(&[meta], nanos(now), 7).is_empty());
}

#[test]
fn compress_candidates_skips_a_note_with_malformed_created_at_without_panicking() {
    let now = midnight();
    let meta = compress_meta("corrupt", "not-a-real-timestamp", NoteStatus::Ready, false, false);
    assert!(compress_candidates(&[meta], nanos(now), 7).is_empty());
}

#[test]
fn compress_candidates_includes_transcribed_status_not_just_ready() {
    let now = midnight();
    let ancient = now - Duration::days(30);
    let meta = compress_meta("transcribed-old", &rfc3339(ancient), NoteStatus::Transcribed, false, false);
    assert_eq!(compress_candidates(&[meta], nanos(now), 7), vec!["transcribed-old".to_string()]);
}

fn id_for(dt: OffsetDateTime) -> String {
    let utc = dt.to_offset(UtcOffset::UTC);
    format_id(
        utc.year() as u16,
        u8::from(utc.month()),
        utc.day(),
        utc.hour(),
        utc.minute(),
        utc.second(),
    )
}

#[test]
fn create_note_id_matches_expected_format() {
    let id = id_for(at("2026-07-23T10:15:30Z"));
    assert_eq!(id, "20260723-101530");
    assert!(id.len() == 15);
    let (date_part, time_part) = id.split_once('-').unwrap();
    assert_eq!(date_part.len(), 8);
    assert!(date_part.chars().all(|c| c.is_ascii_digit()));
    assert_eq!(time_part.len(), 6);
    assert!(time_part.chars().all(|c| c.is_ascii_digit()));
}

#[test]
fn create_note_normalizes_non_utc_offset_to_utc() {
    let local = at("2026-07-23T10:15:30+05:00");
    assert_eq!(id_for(local), "20260723-051530");
}

#[test]
fn format_id_pads_every_field() {
    assert_eq!(format_id(2026, 1, 2, 3, 4, 5), "20260102-030405");
    assert_eq!(format_id(987, 12, 31, 23, 59, 59), "09871231-235959");
}

#[test]
fn create_note_collision_appends_suffix() {
    let base = id_for(at("2026-07-23T10:15:30Z"));
    assert_eq!(note_id_attempt(&base, 0), "20260723-101530");
    assert_eq!(note_id_attempt(&base, 1), "20260723-101530-2");
    assert_eq!(note_id_attempt(&base, 2), "20260723-101530-3");
}

fn sorted_desc(mut created: Vec<String>) -> Vec<String> {
    created.sort_by(|a, b| compare_created_at(b, a).cmp(&0));
    created
}

#[test]
fn list_notes_sorted_desc_by_created_at() {
    let t1 = rfc3339(at("2026-07-23T08:00:00Z"));
    let t2 = rfc3339(at("2026-07-23T09:00:00Z"));
    let t3 = rfc3339(at("2026-07-23T10:00:00Z"));
    let sorted = sorted_desc(vec![t1.clone(), t3.clone(), t2.clone()]);
    assert_eq!(sorted, vec![t3, t2, t1]);
}

#[test]
fn list_notes_sorts_correctly_across_omitted_vs_present_fractional_seconds() {
    let earlier = rfc3339(at("2026-07-23T10:15:30Z"));
    let later = rfc3339(at("2026-07-23T10:15:30.5Z"));
    assert!(later < earlier);
    let sorted = sorted_desc(vec![earlier.clone(), later.clone()]);
    assert_eq!(sorted, vec![later, earlier]);
}

#[test]
fn compare_created_at_falls_back_to_text_when_a_side_does_not_parse() {
    assert_eq!(compare_created_at("2026-07-23T10:15:30Z", "2026-07-23T10:15:30.5Z"), -1);
    assert_eq!(compare_created_at("2026-07-23T10:15:30.5Z", "2026-07-23T10:15:30Z"), 1);
    assert_eq!(compare_created_at("2026-07-23T12:15:30+02:00", "2026-07-23T10:15:30Z"), 0);
    assert_eq!(compare_created_at("garbage", "garbage"), 0);
    assert_eq!(compare_created_at("abc", "abd"), -1);
    assert_eq!(compare_created_at("zzz", "2026-07-23T10:15:30Z"), 1);
}

#[test]
fn compression_replaces_the_wav_only_after_the_m4a_is_verified() {
    let mut step = first_compress_step();
    assert_eq!(step, CompressStep::CheckWav);
    let mut steps = vec![step];
    loop {
        match next_compress_action(step, true) {
            CompressAction::Do(next) => {
                step = next;
                steps.push(next);
            }
            other => {
                assert_eq!(other, CompressAction::Compressed);
                break;
            }
        }
    }
    assert_eq!(
        steps,
        vec![
            CompressStep::CheckWav,
            CompressStep::RemoveStaleTmp,
            CompressStep::Encode,
            CompressStep::CheckOutput,
            CompressStep::Finalize,
            CompressStep::RemoveWav,
            CompressStep::MarkCompressed,
        ]
    );
    assert_eq!(next_compress_action(CompressStep::CheckWav, false), CompressAction::Skip);
    assert_eq!(next_compress_action(CompressStep::Encode, false), CompressAction::CleanUpAndSkip);
    assert_eq!(next_compress_action(CompressStep::CheckOutput, false), CompressAction::CleanUpAndSkip);
    assert_eq!(next_compress_action(CompressStep::Finalize, false), CompressAction::CleanUpAndSkip);
    assert_eq!(next_compress_action(CompressStep::RemoveWav, false), CompressAction::Skip);
    assert_eq!(next_compress_action(CompressStep::MarkCompressed, false), CompressAction::Skip);
}

#[test]
fn first_free_id_takes_the_first_attempt_not_taken() {
    let taken = ["20240301-091500", "20240301-091500-2"];
    let id = first_free_id("20240301-091500", |id: &str| taken.contains(&id)).unwrap();
    assert_eq!(id, "20240301-091500-3");
    let fresh = first_free_id("20240301-091500", |_: &str| false).unwrap();
    assert_eq!(fresh, "20240301-091500");
}

#[test]
fn created_at_is_rfc3339_in_utc() {
    assert_eq!(created_at_text(0).unwrap(), "1970-01-01T00:00:00Z");
    assert_eq!(created_at_text(1_700_000_000_000_000_000i128).unwrap(), "2023-11-14T22:13:20Z");
    assert_eq!(created_at_text(1_700_000_000_250_000_000i128).unwrap(), "2023-11-14T22:13:20.25Z");
    let created = created_at_text(1_700_000_000_000_000_000i128).unwrap();
    assert_eq!(compare_created_at(&created, "2023-11-14T22:13:20Z"), 0);
}

#[test]
fn created_at_for_an_instant_time_cannot_hold_is_an_error() {
    let err = created_at_text(i128::MAX).unwrap_err();
    assert!(err.message().starts_with("failed to format createdAt: "));
}
