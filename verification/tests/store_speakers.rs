use minute::aliases::AliasMap;
use minute::digest::sha256_hex;
use minute::error::MinuteError;
use minute::speakers::{
    apply_speaker_names, check_merge_undo, current_name, display_label, embedding_key_for,
    merge_names, merge_speaker_labels, relabel_segments, rename_speaker_labels, speaker_count,
    speaker_name, undo_merge_labels, NameOutcome, NoteSpeakers, ProposedName, SpeakerMergeUndo,
};

/// A note's speaker state held in memory the way the store keeps it on
/// disk: one label per transcript turn, the naming maps, and the count.
struct Note {
    id: String,
    labels: Vec<String>,
    speakers: NoteSpeakers,
    count: usize,
}

fn s(x: &str) -> String {
    x.to_string()
}

impl Note {
    fn with_turns(labels: &[&str]) -> Note {
        let labels: Vec<String> = labels.iter().map(|l| s(l)).collect();
        let count = speaker_count(&labels);
        Note {
            id: s("20260730-090000"),
            labels,
            speakers: NoteSpeakers {
                aliases: AliasMap::new(),
                suggestions: AliasMap::new(),
                auto_applied: AliasMap::new(),
            },
            count,
        }
    }

    fn rename(&mut self, from: &str, to: &str) -> Result<(), MinuteError> {
        let to = speaker_name(to)?;
        rename_speaker_labels(&mut self.labels, from, &to)?;
        self.count = speaker_count(&self.labels);
        self.speakers.after_rename(from, &to);
        Ok(())
    }

    fn fingerprint(&self, from: &str, into: &str, indices: &[usize]) -> String {
        let payload = serde_json::to_vec(&(&self.id, from, into, indices, &self.labels)).unwrap();
        sha256_hex(&payload)
    }

    fn merge(&mut self, from: &str, into: &str) -> Result<SpeakerMergeUndo, MinuteError> {
        let (from, into) = merge_names(from, into)?;
        let indices = merge_speaker_labels(&mut self.labels, &from, &into)?;
        self.count = speaker_count(&self.labels);
        self.speakers.after_merge(&from, &into);
        let checksum = self.fingerprint(&from, &into, &indices);
        Ok(SpeakerMergeUndo { from, into, segment_indices: indices, checksum })
    }

    fn undo(&mut self, undo: &SpeakerMergeUndo) -> Result<(), MinuteError> {
        check_merge_undo(undo)?;
        let expected = self.fingerprint(&undo.from, &undo.into, &undo.segment_indices);
        undo_merge_labels(&mut self.labels, undo, &expected)?;
        self.count = speaker_count(&self.labels);
        self.speakers.after_undo(&undo.from, &undo.into);
        Ok(())
    }

    fn update_segment_speakers(&mut self, labels: &[&str]) -> Result<(), MinuteError> {
        let labels: Vec<String> = labels.iter().map(|l| s(l)).collect();
        self.labels = relabel_segments(self.labels.len(), &labels, &self.speakers.aliases)?;
        self.count = speaker_count(&self.labels);
        Ok(())
    }

    fn append_segment(&mut self, label: &str) {
        self.labels.push(display_label(&self.speakers.aliases, label));
    }

    /// One diarization pass's names: `candidate` label -> name, the ones of
    /// them matched automatically, and fresh suggestions. The pass owns the
    /// suggestion and auto-applied maps, so both are rebuilt.
    fn apply_names(&mut self, candidate: &[(&str, &str)], applied: &[(&str, &str)], suggestions: &[(&str, &str)]) {
        let proposed: Vec<ProposedName> =
            candidate.iter().map(|(l, n)| ProposedName { label: s(l), name: s(n) }).collect();
        let outcomes = apply_speaker_names(&mut self.speakers, &proposed);
        let mut kept = AliasMap::new();
        let mut fresh = AliasMap::new();
        for (label, name) in suggestions {
            fresh.insert(s(label), s(name));
        }
        for (p, outcome) in proposed.iter().zip(outcomes) {
            let auto = applied.iter().find(|(l, _)| *l == p.label);
            match (outcome, auto) {
                (NameOutcome::Applied, Some((l, n))) => kept.insert(s(l), s(n)),
                (NameOutcome::Demoted, Some((l, n))) => fresh.insert(s(l), s(n)),
                _ => {}
            }
        }
        self.speakers.auto_applied = kept;
        self.speakers.suggestions = fresh;
    }
}

#[test]
fn a_user_correction_outranks_a_rerun_auto_apply() {
    let mut note = Note::with_turns(&["Speaker 1"]);
    let candidate = [("Speaker 1", "Sarah")];
    note.apply_names(&candidate, &candidate, &[]);
    note.update_segment_speakers(&["Speaker 1"]).unwrap();
    note.rename("Sarah", "Sara").unwrap();

    note.apply_names(&candidate, &candidate, &[]);
    assert_eq!(note.speakers.aliases.get("Speaker 1"), Some(s("Sara")));
    assert_eq!(note.speakers.auto_applied.len(), 0);
    note.update_segment_speakers(&["Speaker 1"]).unwrap();
    assert_eq!(note.labels[0], "Sara");
}

#[test]
fn auto_apply_never_collapses_two_speakers_under_one_name() {
    let mut note = Note::with_turns(&["Speaker 1", "Speaker 2"]);
    note.rename("Speaker 2", "Sarah").unwrap();
    let candidate = [("Speaker 1", "Sarah")];
    note.apply_names(&candidate, &candidate, &[]);

    assert_eq!(note.speakers.aliases.get("Speaker 1"), None);
    assert_eq!(note.speakers.auto_applied.len(), 0);
    assert_eq!(note.speakers.suggestions.get("Speaker 1"), Some(s("Sarah")));
}

#[test]
fn merging_away_an_auto_applied_name_clears_its_notice() {
    let mut note = Note::with_turns(&["Speaker 1", "Priya"]);
    let candidate = [("Speaker 1", "Sarah")];
    note.apply_names(&candidate, &candidate, &[]);
    note.update_segment_speakers(&["Speaker 1", "Priya"]).unwrap();
    assert_eq!(note.speakers.auto_applied.len(), 1);

    note.merge("Sarah", "Priya").unwrap();
    assert_eq!(note.speakers.auto_applied.len(), 0);
}

#[test]
fn reverting_a_rename_does_not_resurrect_the_old_name_on_rerun() {
    let mut note = Note::with_turns(&["Speaker 1"]);
    note.rename("Speaker 1", "Sam").unwrap();
    note.rename("Sam", "Speaker 1").unwrap();
    note.update_segment_speakers(&["Speaker 1"]).unwrap();
    assert_eq!(note.labels[0], "Speaker 1", "the reverted rename must stay reverted after a re-run");
}

#[test]
fn chained_renames_reapply_the_final_name_on_rerun() {
    let mut note = Note::with_turns(&["Speaker 1"]);
    note.rename("Speaker 1", "Sarah").unwrap();
    note.rename("Sarah", "Sara").unwrap();
    note.update_segment_speakers(&["Speaker 1"]).unwrap();
    assert_eq!(note.labels[0], "Sara", "a re-run must land on the final rename, not the intermediate one");
}

#[test]
fn update_segment_speakers_rejects_a_label_count_mismatch() {
    let mut note = Note::with_turns(&["Speaker 1"]);
    let before = note.count;
    let err = note.update_segment_speakers(&["Speaker 1", "Speaker 2"]).unwrap_err();
    assert!(err.message().contains("do not match"));
    assert_eq!(err.message(), "speaker labels (2) do not match transcript segments (1)");
    assert_eq!(note.labels[0], "Speaker 1");
    assert_eq!(note.count, before);
}

#[test]
fn update_segment_speakers_relabels_through_aliases() {
    let mut note = Note::with_turns(&["Speaker 1", "Speaker 2"]);
    note.rename("Speaker 1", "Sam").unwrap();
    note.update_segment_speakers(&["Speaker 1", "Speaker 2"]).unwrap();
    assert_eq!(note.labels, vec![s("Sam"), s("Speaker 2")]);
    assert_eq!(note.count, 2);
}

#[test]
fn confirmed_speaker_name_applies_to_later_turns_from_the_same_raw_label() {
    let mut note = Note::with_turns(&[]);
    note.append_segment("Speaker 2");
    note.rename("Speaker 2", "Jordan").unwrap();
    note.append_segment("Speaker 2");
    assert_eq!(note.speakers.aliases.get("Speaker 2"), Some(s("Jordan")));
    assert_eq!(note.labels[0], "Jordan");
    assert_eq!(note.labels[1], "Jordan");
}

#[test]
fn speaker_merge_rejects_invalid_or_stale_operations_without_mutating_transcript() {
    let mut note = Note::with_turns(&["Speaker 1", "Sam"]);
    let original = note.labels.clone();

    assert!(note.rename("Speaker 1", "Sam").is_err());
    assert!(note.merge("Speaker 1", "Missing").is_err());
    assert!(note.merge("Sam", "Sam").is_err());
    assert_eq!(note.labels, original);

    let merged = note.merge("Speaker 1", "Sam").unwrap();
    let after_merge = note.labels.clone();
    let stale = SpeakerMergeUndo {
        from: merged.from.clone(),
        into: merged.into.clone(),
        segment_indices: vec![1],
        checksum: merged.checksum.clone(),
    };
    assert!(note.undo(&stale).is_err());
    assert_eq!(note.labels, after_merge, "a rejected undo must leave the merged transcript untouched");
}

#[test]
fn merge_speakers_returns_exact_undo_and_restores_only_changed_turns() {
    let mut note = Note::with_turns(&["Speaker 1", "Sam", "Speaker 1"]);
    let merged = note.merge("Speaker 1", "Sam").unwrap();
    assert_eq!(merged.segment_indices, vec![0, 2]);
    assert_eq!(note.labels, vec![s("Sam"), s("Sam"), s("Sam")]);
    assert_eq!(note.count, 1);
    assert_eq!(note.speakers.aliases.get("Speaker 1"), Some(s("Sam")));

    note.undo(&merged).unwrap();
    assert_eq!(note.labels, vec![s("Speaker 1"), s("Sam"), s("Speaker 1")]);
    assert_eq!(note.count, 2);
    assert_eq!(note.speakers.aliases.get("Speaker 1"), None);
}

#[test]
fn merge_and_rename_errors_say_what_went_wrong() {
    let mut note = Note::with_turns(&["Speaker 1", "Sam"]);
    assert_eq!(note.rename("Speaker 1", "  ").unwrap_err().message(), "speaker name cannot be empty");
    assert_eq!(
        note.rename("Speaker 1", "Sam").unwrap_err().message(),
        "speaker name already exists; use merge speakers instead"
    );
    assert_eq!(note.rename("Nobody", "Alex").unwrap_err().message(), "speaker not found: Nobody");
    assert_eq!(note.merge(" ", "Sam").unwrap_err().message(), "speaker names cannot be empty");
    assert_eq!(note.merge("Sam", " Sam ").unwrap_err().message(), "cannot merge a speaker into itself");
    assert_eq!(note.merge("Speaker 1", "Missing").unwrap_err().message(), "destination speaker not found: Missing");
    assert_eq!(note.merge("Nobody", "Sam").unwrap_err().message(), "speaker not found: Nobody");
}

#[test]
fn undo_tokens_are_checked_before_the_transcript_is_read() {
    let token = |from: &str, into: &str, idx: Vec<usize>| SpeakerMergeUndo {
        from: s(from),
        into: s(into),
        segment_indices: idx,
        checksum: s("x"),
    };
    assert_eq!(check_merge_undo(&token("", "Sam", vec![0])).unwrap_err().message(), "invalid speaker merge undo token");
    assert_eq!(check_merge_undo(&token("Sam", "Sam", vec![0])).unwrap_err().message(), "invalid speaker merge undo token");
    assert_eq!(check_merge_undo(&token("A", "B", vec![])).unwrap_err().message(), "speaker merge undo token has no turns");
    assert_eq!(
        check_merge_undo(&token("A", "B", vec![1, 0, 1])).unwrap_err().message(),
        "speaker merge undo token contains duplicate turns"
    );
    assert!(check_merge_undo(&token("A", "B", vec![1, 0])).is_ok());
}

#[test]
fn embedding_for_speaker_follows_the_alias_chain_to_the_current_name() {
    let mut note = Note::with_turns(&["Speaker 2"]);
    let keys = vec![s("Speaker 2")];

    assert_eq!(embedding_key_for(&keys, &note.speakers.aliases, "Speaker 2"), Some(0));

    note.rename("Speaker 2", "Sarah").unwrap();
    note.rename("Sarah", "Sara").unwrap();
    assert_eq!(current_name(&note.speakers.aliases, "Speaker 2"), "Sara");
    assert_eq!(embedding_key_for(&keys, &note.speakers.aliases, "Sara"), Some(0));
    assert_eq!(embedding_key_for(&keys, &note.speakers.aliases, "Nobody"), None);
}

#[test]
fn a_cyclic_alias_file_does_not_loop_forever() {
    let mut aliases = AliasMap::new();
    aliases.insert(s("A"), s("B"));
    aliases.insert(s("B"), s("A"));
    assert_eq!(current_name(&aliases, "A"), "A");
    assert_eq!(current_name(&aliases, "C"), "C");
}

#[test]
fn speaker_count_counts_distinct_labels() {
    assert_eq!(speaker_count(&vec![]), 0);
    assert_eq!(speaker_count(&vec![s("A"), s("B"), s("A")]), 2);
}

#[test]
fn alias_labels_list_every_aliased_label_once() {
    let mut aliases = AliasMap::new();
    aliases.insert(s("Speaker 1"), s("Sam"));
    aliases.insert(s("Speaker 2"), s("Priya"));
    aliases.insert(s("Speaker 1"), s("Sara"));
    let mut labels = aliases.labels();
    labels.sort();
    assert_eq!(labels, vec![s("Speaker 1"), s("Speaker 2")]);
    assert_eq!(aliases.get("Speaker 1"), Some(s("Sara")));
}
