use minute::model::{ActionItem, StoredSegment, SummaryDoc, SummaryTopic};
use minute::render::{format_date_label, render_note_md, transcript_body, MarkerLine, NoteHeading};

/// Whole minutes of a duration in seconds, rounded as a note's heading
/// rounds them. That rounding is floating-point work and happens where a
/// note's metadata is read, outside the library; `render_note_md` is handed
/// the minutes it yields.
fn minutes(duration_sec: f64) -> i64 {
    (duration_sec / 60.0).round() as i64
}

fn md_meta(overrides: impl FnOnce(&mut NoteHeading)) -> NoteHeading {
    let mut meta = NoteHeading {
        title: "Client call — Acme".to_string(),
        created_at: "2026-05-21T14:00:00.000Z".to_string(),
        duration_minutes: minutes(48.0 * 60.0),
        speakers: 4,
        markers: Vec::new(),
    };
    overrides(&mut meta);
    meta
}

fn seg(speaker: &str, start: f64, text: &str) -> StoredSegment {
    StoredSegment {
        speaker: speaker.to_string(),
        start_secs: start.max(0.0).floor() as u64,
        text: text.to_string(),
    }
}

#[test]
fn render_note_md_without_summary_matches_the_frontend_generators_output() {
    let meta = md_meta(|_| {});
    let transcript = vec![
        seg("Speaker 1", 41.0, "Thanks for making time."),
        seg("Speaker 1", 94.0, "Short answer: nowhere."),
    ];
    let markdown = render_note_md(&meta, None, &transcript);
    assert_eq!(
        markdown,
        "# Client call — Acme\n\
         \n\
         **Date:** May 21, 2026 · **Duration:** 48 min · **Speakers:** 4\n\
         \n\
         ## Transcript\n\
         \n\
         **Speaker 1** (00:41)\n\
         Thanks for making time.\n\
         \n\
         **Speaker 1** (01:34)\n\
         Short answer: nowhere.",
    );
}

#[test]
fn render_note_md_without_summary_and_empty_transcript_matches_frontend() {
    let meta = md_meta(|_| {});
    let markdown = render_note_md(&meta, None, &[]);
    assert_eq!(
        markdown,
        "# Client call — Acme\n\
         \n\
         **Date:** May 21, 2026 · **Duration:** 48 min · **Speakers:** 4\n\
         \n\
         ## Transcript\n\
         \n\
         _No speech detected._",
    );
}

#[test]
fn render_note_md_date_label_matches_frontend_month_day_year_format() {
    let meta = md_meta(|m| m.created_at = "2026-01-03T09:00:00.000Z".to_string());
    let markdown = render_note_md(&meta, None, &[]);
    assert!(markdown.contains("**Date:** January 3, 2026"));
}

#[test]
fn render_note_md_rounds_duration_to_whole_minutes() {
    let meta = md_meta(|m| {
        m.duration_minutes = minutes(95.0);
        m.speakers = 1;
    });
    let markdown = render_note_md(&meta, None, &[]);
    assert!(markdown.contains("**Duration:** 2 min · **Speakers:** 1"));
}

#[test]
fn render_note_md_with_summary_includes_summary_decisions_and_action_items() {
    let meta = md_meta(|_| {});
    let summary = SummaryDoc {
        summary: "Reviewed the roadmap and aligned on priorities.".to_string(),
        topics: Vec::new(),
        decisions: vec![
            "Ship the beta by Friday".to_string(),
            "Skip the redesign this quarter".to_string(),
        ],
        action_items: vec![
            ActionItem { text: "Write release notes".to_string(), done: true },
            ActionItem { text: "Schedule the retro".to_string(), done: false },
        ],
    };
    let markdown = render_note_md(&meta, Some(&summary), &[]);
    assert_eq!(
        markdown,
        "# Client call — Acme\n\
         \n\
         **Date:** May 21, 2026 · **Duration:** 48 min · **Speakers:** 4\n\
         \n\
         ## Summary\n\
         \n\
         Reviewed the roadmap and aligned on priorities.\n\
         \n\
         ## Decisions\n\
         \n\
         - Ship the beta by Friday\n\
         - Skip the redesign this quarter\n\
         \n\
         ## Action items\n\
         \n\
         - [x] Write release notes\n\
         - [ ] Schedule the retro\n\
         \n\
         ## Transcript\n\
         \n\
         _No speech detected._",
    );
}

#[test]
fn render_note_md_renders_the_topic_breakdown_between_summary_and_decisions() {
    let meta = md_meta(|_| {});
    let summary = SummaryDoc {
        summary: "Reviewed the roadmap.".to_string(),
        topics: vec![
            SummaryTopic {
                title: "Pricing".to_string(),
                summary: "Locked at $29. The annual discount was deferred.".to_string(),
            },
            SummaryTopic { title: "Rollout".to_string(), summary: String::new() },
        ],
        decisions: vec!["Ship the beta by Friday".to_string()],
        action_items: Vec::new(),
    };
    let markdown = render_note_md(&meta, Some(&summary), &[]);
    assert_eq!(
        markdown,
        "# Client call — Acme\n\
         \n\
         **Date:** May 21, 2026 · **Duration:** 48 min · **Speakers:** 4\n\
         \n\
         ## Summary\n\
         \n\
         Reviewed the roadmap.\n\
         \n\
         ## Topics\n\
         \n\
         ### Pricing\n\
         \n\
         Locked at $29. The annual discount was deferred.\n\
         \n\
         ### Rollout\n\
         \n\
         ## Decisions\n\
         \n\
         - Ship the beta by Friday\n\
         \n\
         ## Transcript\n\
         \n\
         _No speech detected._",
    );
}

#[test]
fn render_note_md_omits_the_topics_section_entirely_when_there_are_none() {
    let meta = md_meta(|_| {});
    let summary = SummaryDoc {
        summary: "Reviewed the roadmap.".to_string(),
        topics: Vec::new(),
        decisions: Vec::new(),
        action_items: Vec::new(),
    };
    let markdown = render_note_md(&meta, Some(&summary), &[]);
    assert!(!markdown.contains("## Topics"));
    assert!(!markdown.contains("###"));
}

#[test]
fn render_note_md_omits_empty_decisions_and_action_items_sections() {
    let meta = md_meta(|_| {});
    let summary = SummaryDoc {
        summary: "Quick sync, nothing decided.".to_string(),
        topics: Vec::new(),
        decisions: vec![],
        action_items: vec![],
    };
    let markdown = render_note_md(&meta, Some(&summary), &[]);
    assert!(markdown.contains("## Summary"));
    assert!(!markdown.contains("## Decisions"));
    assert!(!markdown.contains("## Action items"));
    assert_eq!(
        markdown,
        "# Client call — Acme\n\
         \n\
         **Date:** May 21, 2026 · **Duration:** 48 min · **Speakers:** 4\n\
         \n\
         ## Summary\n\
         \n\
         Quick sync, nothing decided.\n\
         \n\
         ## Transcript\n\
         \n\
         _No speech detected._",
    );
}

#[test]
fn render_note_md_omits_only_decisions_when_action_items_present() {
    let meta = md_meta(|_| {});
    let summary = SummaryDoc {
        summary: "x".to_string(),
        topics: Vec::new(),
        decisions: vec![],
        action_items: vec![ActionItem { text: "Follow up".to_string(), done: false }],
    };
    let markdown = render_note_md(&meta, Some(&summary), &[]);
    assert!(!markdown.contains("## Decisions"));
    assert!(markdown.contains("## Action items"));
    assert!(markdown.contains("- [ ] Follow up"));
}

#[test]
fn render_note_md_lists_markers_before_the_transcript() {
    let meta = md_meta(|m| {
        m.markers = vec![
            MarkerLine { whole_secs: 5, label: "Intro".to_string() },
            MarkerLine { whole_secs: 125, label: "Budget".to_string() },
        ]
    });
    let markdown = render_note_md(&meta, None, &[]);
    assert!(markdown.ends_with(
        "## Markers\n\n- [00:05] Intro\n- [02:05] Budget\n\n## Transcript\n\n_No speech detected._"
    ));
}

#[test]
fn format_date_label_falls_back_to_the_raw_text() {
    assert_eq!(format_date_label("not a date"), "not a date");
    assert_eq!(format_date_label("2026-12-31T23:59:59+02:00"), "December 31, 2026");
}

#[test]
fn transcript_body_renders_turns_blank_line_separated() {
    assert_eq!(transcript_body(&[]), "_No speech detected._");
    let body = transcript_body(&[seg("A", 0.0, "hi"), seg("B", 61.0, "yo")]);
    assert_eq!(body, "**A** (00:00)\nhi\n\n**B** (01:01)\nyo");
}

#[test]
fn render_note_md_prints_a_negative_duration_with_its_sign() {
    let meta = md_meta(|m| m.duration_minutes = -3);
    assert!(render_note_md(&meta, None, &[]).contains("**Duration:** -3 min"));
}
