use minute::search::{find_snippet, is_blank_query, search_notes, SearchHitKind, SearchableNote};

fn note(id: &str, title: &str, segments: &[&str]) -> SearchableNote {
    SearchableNote {
        id: id.to_string(),
        title: title.to_string(),
        segments: segments.iter().map(|s| s.to_string()).collect(),
    }
}

#[test]
fn find_snippet_no_match_returns_none() {
    assert_eq!(find_snippet("Hello there", "goodbye"), None);
}

#[test]
fn find_snippet_empty_needle_returns_none() {
    assert_eq!(find_snippet("Hello there", ""), None);
}

#[test]
fn find_snippet_is_case_insensitive() {
    let snippet = find_snippet("The Roadmap Discussion", "roadmap").unwrap();
    assert!(snippet.contains("Roadmap"));
}

#[test]
fn find_snippet_preserves_original_casing_not_lowercased() {
    let snippet = find_snippet("The Roadmap Discussion", "roadmap").unwrap();
    assert_eq!(snippet, "The Roadmap Discussion");
}

#[test]
fn find_snippet_windows_around_the_match_with_radius_40_chars() {
    let filler_before = "x".repeat(100);
    let filler_after = "y".repeat(100);
    let haystack = format!("{filler_before}NEEDLE{filler_after}");
    let snippet = find_snippet(&haystack, "needle").unwrap();
    assert!(snippet.contains("NEEDLE"));
    assert!(snippet.starts_with('…'));
    assert!(snippet.ends_with('…'));
    let before_in_snippet = snippet.split("NEEDLE").next().unwrap();
    let after_in_snippet = snippet.split("NEEDLE").nth(1).unwrap();
    assert_eq!(before_in_snippet.chars().count(), 41);
    assert_eq!(after_in_snippet.chars().count(), 41);
}

#[test]
fn find_snippet_no_ellipsis_when_the_whole_haystack_fits_in_the_window() {
    let snippet = find_snippet("A short title with NEEDLE inside", "needle").unwrap();
    assert!(!snippet.contains('…'));
}

#[test]
fn find_snippet_match_near_the_start_does_not_underflow() {
    let haystack = "NEEDLE and then some more trailing text after it";
    let snippet = find_snippet(haystack, "needle").unwrap();
    assert!(snippet.starts_with("NEEDLE"));
    assert!(!snippet.starts_with('…'));
}

#[test]
fn find_snippet_match_near_the_end_does_not_overflow() {
    let haystack = "some leading text before the NEEDLE";
    let snippet = find_snippet(haystack, "needle").unwrap();
    assert!(snippet.ends_with("NEEDLE"));
    assert!(!snippet.contains('…'));
}

#[test]
fn find_snippet_handles_emoji_around_the_match_without_panicking() {
    let haystack = "🎉🎉🎉 celebrating the NEEDLE launch 🚀🚀🚀";
    let snippet = find_snippet(haystack, "needle").unwrap();
    assert!(snippet.contains("NEEDLE"));
    assert!(snippet.contains('🎉'));
    assert!(snippet.contains('🚀'));
}

#[test]
fn find_snippet_handles_cjk_text_without_panicking() {
    let haystack = "会議の議題は来週のNEEDLE予算計画についてです";
    let snippet = find_snippet(haystack, "needle").unwrap();
    assert!(snippet.contains("NEEDLE"));
    assert!(snippet.contains('議'));
}

#[test]
fn find_snippet_handles_accented_latin_text_without_panicking() {
    let haystack = "L'équipe a discuté du NEEDLE budget à Zürich, café compris";
    let snippet = find_snippet(haystack, "needle").unwrap();
    assert!(snippet.contains("NEEDLE"));
    assert!(snippet.contains('é'));
}

#[test]
fn find_snippet_needle_longer_than_haystack_returns_none() {
    assert_eq!(find_snippet("hi", "hello there"), None);
}

#[test]
fn find_snippet_turkish_capital_i_with_dot_preserves_original_casing_and_does_not_panic() {
    let haystack = "MEETING İ NOTES";
    let snippet = find_snippet(haystack, "meeting").unwrap();
    assert_eq!(snippet, "MEETING İ NOTES");
    assert!(snippet.starts_with("MEETING"));
    assert!(!snippet.starts_with("meeting"));
}

#[test]
fn find_snippet_turkish_capital_i_with_dot_matches_a_query_after_it_too() {
    let haystack = "MEETING İ NOTES";
    let snippet = find_snippet(haystack, "notes").unwrap();
    assert_eq!(snippet, "MEETING İ NOTES");
    assert!(snippet.ends_with("NOTES"));
}

#[test]
fn find_snippet_german_eszett_matches_itself_case_insensitively_without_panicking() {
    let haystack = "Wir treffen uns in der Straße heute";
    let snippet = find_snippet(haystack, "straße").unwrap();
    assert!(snippet.contains("Straße"));
}

#[test]
fn find_snippet_german_eszett_vs_double_s_spelling_does_not_panic_either_way() {
    assert_eq!(find_snippet("Wir treffen uns in der Straße heute", "strasse"), None);
    assert_eq!(find_snippet("Wir treffen uns in der Strasse heute", "straße"), None);
    assert!(find_snippet("Wir treffen uns in der Strasse heute", "strasse").is_some());
}

#[test]
fn find_snippet_exact_window_value() {
    let haystack = format!("{}abcNEEDLEdef", "x".repeat(50));
    let snippet = find_snippet(&haystack, "needle").unwrap();
    assert_eq!(snippet, format!("…{}abcNEEDLEdef", "x".repeat(37)));
}

#[test]
fn search_notes_empty_query_returns_empty_without_scanning() {
    let notes = vec![note("n1", "Standup", &[])];
    assert!(search_notes(&notes, "").is_empty());
    assert!(search_notes(&notes, "   ").is_empty());
}

#[test]
fn search_notes_finds_a_title_match_case_insensitively() {
    let notes = vec![note("n1", "Client Call — Acme", &[])];
    let hits = search_notes(&notes, "acme");
    assert_eq!(hits.len(), 1);
    assert_eq!(hits[0].note_id, "n1");
    assert_eq!(hits[0].kind, SearchHitKind::Title);
    assert_eq!(hits[0].segment_index, None);
    assert!(hits[0].snippet.contains("Acme"));
}

#[test]
fn search_notes_finds_a_transcript_segment_match_case_insensitively() {
    let notes = vec![note("n1", "Standup", &["Let's discuss the ROADMAP next."])];
    let hits = search_notes(&notes, "roadmap");
    assert_eq!(hits.len(), 1);
    assert_eq!(hits[0].note_id, "n1");
    assert_eq!(hits[0].kind, SearchHitKind::Transcript);
    assert_eq!(hits[0].segment_index, Some(0));
    assert!(hits[0].snippet.contains("ROADMAP"));
}

#[test]
fn search_notes_matches_on_both_title_and_transcript_for_the_same_query() {
    let notes = vec![note("n1", "Budget planning", &["The budget is tight this quarter."])];
    let hits = search_notes(&notes, "budget");
    assert_eq!(hits.len(), 2);
    assert_eq!(hits[0].kind, SearchHitKind::Title);
    assert_eq!(hits[1].kind, SearchHitKind::Transcript);
}

#[test]
fn search_notes_title_hits_are_ranked_before_transcript_hits_across_different_notes() {
    let notes = vec![
        note("newer", "Sprint kickoff", &[]),
        note("older", "Standup", &["Sprint update"]),
    ];
    let hits = search_notes(&notes, "sprint");
    assert_eq!(hits.len(), 2);
    assert_eq!(hits[0].note_id, "newer");
    assert_eq!(hits[0].kind, SearchHitKind::Title);
    assert_eq!(hits[1].note_id, "older");
    assert_eq!(hits[1].kind, SearchHitKind::Transcript);
}

#[test]
fn search_notes_orders_hits_within_a_kind_by_created_desc() {
    let notes = vec![
        note("newer", "Roadmap review — v2", &[]),
        note("older", "Roadmap review — v1", &[]),
    ];
    let hits = search_notes(&notes, "roadmap");
    assert_eq!(hits.len(), 2);
    assert_eq!(hits[0].note_id, "newer");
    assert_eq!(hits[1].note_id, "older");
}

#[test]
fn search_notes_caps_transcript_hits_at_3_per_note() {
    let segments: Vec<String> = (0..5).map(|i| format!("mention number {i} of the keyword")).collect();
    let refs: Vec<&str> = segments.iter().map(|s| s.as_str()).collect();
    let notes = vec![note("n1", "Long meeting", &refs)];
    let hits = search_notes(&notes, "keyword");
    assert_eq!(hits.len(), 3);
    assert!(hits.iter().all(|h| h.kind == SearchHitKind::Transcript));
    assert_eq!(hits.iter().map(|h| h.segment_index).collect::<Vec<_>>(), vec![Some(0), Some(1), Some(2)]);
}

#[test]
fn search_notes_caps_total_hits_at_50() {
    let notes: Vec<SearchableNote> =
        (0..60).map(|i| note(&format!("n{i}"), &format!("Keyword meeting {i}"), &[])).collect();
    let hits = search_notes(&notes, "keyword");
    assert_eq!(hits.len(), 50);
    assert_eq!(hits[49].note_id, "n49");
}

#[test]
fn search_notes_tolerates_a_note_with_no_transcript_json() {
    let notes = vec![note("n1", "Keyword title only", &[])];
    let hits = search_notes(&notes, "keyword");
    assert_eq!(hits.len(), 1);
    assert_eq!(hits[0].kind, SearchHitKind::Title);
}

#[test]
fn search_notes_no_matches_returns_empty_vec() {
    let notes = vec![note("n1", "Standup", &[])];
    assert!(search_notes(&notes, "nonexistent-term").is_empty());
}

#[test]
fn search_notes_handles_unicode_titles_without_panicking() {
    let notes = vec![note("n1", "会議 🎉 planning NEEDLE session", &[])];
    let hits = search_notes(&notes, "needle");
    assert_eq!(hits.len(), 1);
    assert!(hits[0].snippet.contains("NEEDLE"));
    assert!(hits[0].snippet.contains('会'));
}

#[test]
fn search_notes_lowercases_the_whole_query_including_a_final_sigma() {
    // `str::to_lowercase` lowers a word-final Σ to ς.
    let notes = vec![note("n1", "ΟΔΟΣ", &[])];
    assert_eq!(search_notes(&notes, "ΟΔΟΣ").len(), 0);
    let notes = vec![note("n1", "οδος", &[])];
    assert_eq!(search_notes(&notes, "ΟΔΟ").len(), 1);
}

#[test]
fn a_blank_query_is_recognized_before_any_note_is_read() {
    assert!(is_blank_query(""));
    assert!(is_blank_query("  \t\n "));
    assert!(!is_blank_query(" pricing "));
    let notes = vec![note("a", "Pricing", &["pricing talk"])];
    assert!(search_notes(&notes, "   ").is_empty());
}
