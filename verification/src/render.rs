//! A note rendered as Markdown: header, summary sections, markers and the
//! transcript — the single rendering both `note.md` and exports use.
use vstd::prelude::*;

use crate::clock::{parse_rfc3339, parsed_rfc3339, Rfc3339Moment};
use crate::model::{ActionItemView, StoredSegment, SummaryDoc, SummaryDocView, SummaryTopicView};
use crate::prompt::{format_mm_ss, mm_ss};
use crate::text::{
    chars_of, decimal, is_blank, is_whitespace, push_chars, push_decimal, push_str,
    string_from_chars, trim, trim_chars,
};

verus! {

/// A timestamped marker as a rendered note shows it: whole seconds and
/// its label.
pub struct MarkerLine {
    pub whole_secs: u64,
    pub label: String,
}

/// What a rendered note's header and marker section show.
pub struct NoteHeading {
    pub title: String,
    pub created_at: String,
    /// The recording's length rounded to whole minutes.
    pub duration_minutes: i64,
    pub speakers: u32,
    pub markers: Vec<MarkerLine>,
}

/// `parts` joined with `sep` between consecutive parts.
pub open spec fn join(parts: Seq<Seq<char>>, sep: Seq<char>) -> Seq<char>
    decreases parts.len(),
{
    if parts.len() == 0 {
        Seq::empty()
    } else if parts.len() == 1 {
        parts[0]
    } else {
        join(parts.drop_last(), sep) + sep + parts.last()
    }
}

proof fn lemma_join_step(parts: Seq<Seq<char>>, sep: Seq<char>, i: int)
    requires
        0 <= i < parts.len(),
    ensures
        join(parts.take(i + 1), sep) == if i == 0 {
            parts[0]
        } else {
            join(parts.take(i), sep) + sep + parts[i]
        },
{
    assert(parts.take(i + 1).drop_last() =~= parts.take(i));
    if i == 0 {
        assert(parts.take(1).len() == 1);
    }
}

/// English month name for months 1-12.
pub open spec fn month_name(m: int) -> Seq<char> {
    if m == 1 {
        "January"@
    } else if m == 2 {
        "February"@
    } else if m == 3 {
        "March"@
    } else if m == 4 {
        "April"@
    } else if m == 5 {
        "May"@
    } else if m == 6 {
        "June"@
    } else if m == 7 {
        "July"@
    } else if m == 8 {
        "August"@
    } else if m == 9 {
        "September"@
    } else if m == 10 {
        "October"@
    } else if m == 11 {
        "November"@
    } else {
        "December"@
    }
}

/// The month of a date label is the calendar month's English name, and
/// no two months share a name.
pub proof fn law_month_names()
    ensures
        month_name(1) == "January"@,
        month_name(2) == "February"@,
        month_name(3) == "March"@,
        month_name(4) == "April"@,
        month_name(5) == "May"@,
        month_name(6) == "June"@,
        month_name(7) == "July"@,
        month_name(8) == "August"@,
        month_name(9) == "September"@,
        month_name(10) == "October"@,
        month_name(11) == "November"@,
        month_name(12) == "December"@,
        forall|i: int, j: int|
            1 <= i <= 12 && 1 <= j <= 12 && i != j ==> #[trigger] month_name(i) != #[trigger] month_name(j),
{
    reveal_strlit("January");
    reveal_strlit("February");
    reveal_strlit("March");
    reveal_strlit("April");
    reveal_strlit("May");
    reveal_strlit("June");
    reveal_strlit("July");
    reveal_strlit("August");
    reveal_strlit("September");
    reveal_strlit("October");
    reveal_strlit("November");
    reveal_strlit("December");
    assert forall|i: int, j: int|
        1 <= i <= 12 && 1 <= j <= 12 && i != j implies #[trigger] month_name(i) != #[trigger] month_name(
        j,
    ) by {
        let a = month_name(i);
        let b = month_name(j);
        if a == b {
            assert(a.len() == b.len() && a[0] == b[0] && a[2] == b[2]);
        }
    }
}

fn month_text(m: u8) -> (r: &'static str)
    ensures
        r@ == month_name(m as int),
{
    if m == 1 {
        "January"
    } else if m == 2 {
        "February"
    } else if m == 3 {
        "March"
    } else if m == 4 {
        "April"
    } else if m == 5 {
        "May"
    } else if m == 6 {
        "June"
    } else if m == 7 {
        "July"
    } else if m == 8 {
        "August"
    } else if m == 9 {
        "September"
    } else if m == 10 {
        "October"
    } else if m == 11 {
        "November"
    } else {
        "December"
    }
}

/// `Month D, YYYY` for a parsed timestamp, the raw text when it did not
/// parse.
pub open spec fn date_label_of(parsed: Option<(int, int, int, int)>, created_at: Seq<char>) -> Seq<
    char,
> {
    match parsed {
        Some((_, y, m, d)) => month_name(m) + seq![' '] + decimal(d as nat) + ", "@ + decimal(
            y as nat,
        ),
        None => created_at,
    }
}

/// A note's `createdAt` as the rendered date label.
pub open spec fn date_label(created_at: Seq<char>) -> Seq<char> {
    date_label_of(parsed_rfc3339(created_at), created_at)
}

/// The date label for a timestamp already read: `Month D, YYYY`, or
/// `created_at` unchanged when it did not parse.
pub fn format_date_label_from(parsed: &Option<Rfc3339Moment>, created_at: &str) -> (r: String)
    requires
        parsed matches Some(m) ==> 0 <= m.year && 1 <= m.month <= 12,
    ensures
        r@ == date_label_of(
            match parsed {
                Some(m) => Some(crate::clock::moment_tuple(*m)),
                None => None,
            },
            created_at@,
        ),
{
    match parsed {
        Some(m) => {
            let mut out: Vec<char> = Vec::new();
            push_str(&mut out, month_text(m.month));
            out.push(' ');
            push_decimal(&mut out, m.day as u64);
            push_str(&mut out, ", ");
            push_decimal(&mut out, m.year as u64);
            string_from_chars(&out)
        },
        None => String::from_str(created_at),
    }
}

/// Formats an RFC 3339 `createdAt` as `Month D, YYYY`, falling back to the
/// raw text when it does not parse.
pub fn format_date_label(created_at: &str) -> (r: String)
    ensures
        r@ == date_label(created_at@),
{
    let parsed = parse_rfc3339(created_at);
    format_date_label_from(&parsed, created_at)
}

/// A signed whole number in decimal.
pub open spec fn signed_decimal(n: int) -> Seq<char> {
    if n < 0 {
        seq!['-'] + decimal((-n) as nat)
    } else {
        decimal(n as nat)
    }
}

fn push_signed(out: &mut Vec<char>, n: i64)
    ensures
        final(out)@ == old(out)@ + signed_decimal(n as int),
{
    if n < 0 {
        out.push('-');
        let m: u64 = if n == i64::MIN {
            9223372036854775808u64
        } else {
            (-n) as u64
        };
        push_decimal(out, m);
        assert(final(out)@ =~= old(out)@ + signed_decimal(n as int));
    } else {
        push_decimal(out, n as u64);
    }
}

/// The header line block.
pub open spec fn header_text(h: NoteHeading) -> Seq<char> {
    "# "@ + h.title@ + "\n\n**Date:** "@ + date_label(h.created_at@) + " \u{b7} **Duration:** "@
        + signed_decimal(h.duration_minutes as int) + " min \u{b7} **Speakers:** "@ + decimal(
        h.speakers as nat,
    )
}

/// One topic of the breakdown: a bare heading when it has no body.
pub open spec fn topic_block(t: SummaryTopicView) -> Seq<char> {
    if is_blank(t.summary) {
        "### "@ + t.title
    } else {
        "### "@ + t.title + "\n\n"@ + t.summary
    }
}

/// One action item as a task-list line.
pub open spec fn action_line(a: ActionItemView) -> Seq<char> {
    if a.done {
        "- [x] "@ + a.text
    } else {
        "- [ ] "@ + a.text
    }
}

/// The summary's sections: the prose always, topics, decisions and action
/// items only when there are any.
pub open spec fn summary_sections(s: SummaryDocView) -> Seq<char> {
    let topics = if s.topics.len() == 0 {
        Seq::empty()
    } else {
        "\n\n## Topics\n\n"@ + join(Seq::new(s.topics.len(), |i: int| topic_block(s.topics[i])), "\n\n"@)
    };
    let decisions = if s.decisions.len() == 0 {
        Seq::empty()
    } else {
        "\n\n## Decisions\n\n"@ + join(
            Seq::new(s.decisions.len(), |i: int| "- "@ + s.decisions[i]),
            "\n"@,
        )
    };
    let items = if s.action_items.len() == 0 {
        Seq::empty()
    } else {
        "\n\n## Action items\n\n"@ + join(
            Seq::new(s.action_items.len(), |i: int| action_line(s.action_items[i])),
            "\n"@,
        )
    };
    "\n\n## Summary\n\n"@ + s.summary + topics + decisions + items
}

/// One marker line.
pub open spec fn marker_line(m: MarkerLine) -> Seq<char> {
    "- ["@ + mm_ss(m.whole_secs as nat) + "] "@ + m.label@
}

/// The markers section, absent when there are none.
pub open spec fn markers_section(ms: Seq<MarkerLine>) -> Seq<char> {
    if ms.len() == 0 {
        Seq::empty()
    } else {
        "\n\n## Markers\n\n"@ + join(Seq::new(ms.len(), |i: int| marker_line(ms[i])), "\n"@)
    }
}

/// One transcript turn: the speaker in bold, its start, then its text.
pub open spec fn segment_block(s: StoredSegment) -> Seq<char> {
    "**"@ + s.speaker@ + "** ("@ + mm_ss(s.start_secs as nat) + ")\n"@ + s.text@
}

/// The transcript section's body.
pub open spec fn transcript_body_text(segs: Seq<StoredSegment>) -> Seq<char> {
    if segs.len() == 0 {
        "_No speech detected._"@
    } else {
        join(Seq::new(segs.len(), |i: int| segment_block(segs[i])), "\n\n"@)
    }
}

/// The whole rendered note.
pub open spec fn note_markdown(
    h: NoteHeading,
    summary: Option<SummaryDocView>,
    segs: Seq<StoredSegment>,
) -> Seq<char> {
    header_text(h) + match summary {
        Some(s) => summary_sections(s),
        None => Seq::empty(),
    } + markers_section(h.markers@) + "\n\n## Transcript\n\n"@ + transcript_body_text(segs)
}

fn push_topics(out: &mut Vec<char>, doc: &SummaryDoc)
    ensures
        final(out)@ == old(out)@ + join(
            Seq::new(doc@.topics.len(), |i: int| topic_block(doc@.topics[i])),
            "\n\n"@,
        ),
{
    let ghost parts = Seq::new(doc@.topics.len(), |i: int| topic_block(doc@.topics[i]));
    let ghost start = out@;
    let mut i: usize = 0;
    assert(parts.take(0) =~= Seq::<Seq<char>>::empty());
    while i < doc.topics.len()
        invariant
            i <= doc.topics@.len(),
            parts.len() == doc.topics@.len(),
            doc@.topics.len() == doc.topics@.len(),
            parts == Seq::new(doc@.topics.len(), |i: int| topic_block(doc@.topics[i])),
            out@ == start + join(parts.take(i as int), "\n\n"@),
        decreases doc.topics@.len() - i,
    {
        proof {
            lemma_join_step(parts, "\n\n"@, i as int);
        }
        if i > 0 {
            push_str(out, "\n\n");
        }
        let t = &doc.topics[i];
        push_str(out, "### ");
        push_str(out, t.title.as_str());
        let body = chars_of(t.summary.as_str());
        let trimmed = trim_chars(&body);
        proof {
            crate::text::lemma_trim_empty_iff_blank(t.summary@);
        }
        if trimmed.len() > 0 {
            push_str(out, "\n\n");
            push_str(out, t.summary.as_str());
        }
        assert(doc@.topics[i as int] == t@);
        assert(out@ =~= start + join(parts.take(i + 1), "\n\n"@));
        i = i + 1;
    }
    assert(parts.take(i as int) =~= parts);
}

fn push_decisions(out: &mut Vec<char>, doc: &SummaryDoc)
    ensures
        final(out)@ == old(out)@ + join(
            Seq::new(doc@.decisions.len(), |i: int| "- "@ + doc@.decisions[i]),
            "\n"@,
        ),
{
    let ghost parts = Seq::new(doc@.decisions.len(), |i: int| "- "@ + doc@.decisions[i]);
    let ghost start = out@;
    let mut i: usize = 0;
    assert(parts.take(0) =~= Seq::<Seq<char>>::empty());
    while i < doc.decisions.len()
        invariant
            i <= doc.decisions@.len(),
            parts.len() == doc.decisions@.len(),
            doc@.decisions.len() == doc.decisions@.len(),
            parts == Seq::new(doc@.decisions.len(), |i: int| "- "@ + doc@.decisions[i]),
            out@ == start + join(parts.take(i as int), "\n"@),
        decreases doc.decisions@.len() - i,
    {
        proof {
            lemma_join_step(parts, "\n"@, i as int);
        }
        if i > 0 {
            push_str(out, "\n");
        }
        push_str(out, "- ");
        push_str(out, doc.decisions[i].as_str());
        assert(doc@.decisions[i as int] == doc.decisions@[i as int]@);
        assert(out@ =~= start + join(parts.take(i + 1), "\n"@));
        i = i + 1;
    }
    assert(parts.take(i as int) =~= parts);
}

fn push_action_items(out: &mut Vec<char>, doc: &SummaryDoc)
    ensures
        final(out)@ == old(out)@ + join(
            Seq::new(doc@.action_items.len(), |i: int| action_line(doc@.action_items[i])),
            "\n"@,
        ),
{
    let ghost parts = Seq::new(doc@.action_items.len(), |i: int| action_line(doc@.action_items[i]));
    let ghost start = out@;
    let mut i: usize = 0;
    assert(parts.take(0) =~= Seq::<Seq<char>>::empty());
    while i < doc.action_items.len()
        invariant
            i <= doc.action_items@.len(),
            parts.len() == doc.action_items@.len(),
            doc@.action_items.len() == doc.action_items@.len(),
            parts == Seq::new(doc@.action_items.len(), |i: int| action_line(doc@.action_items[i])),
            out@ == start + join(parts.take(i as int), "\n"@),
        decreases doc.action_items@.len() - i,
    {
        proof {
            lemma_join_step(parts, "\n"@, i as int);
        }
        if i > 0 {
            push_str(out, "\n");
        }
        let a = &doc.action_items[i];
        if a.done {
            push_str(out, "- [x] ");
        } else {
            push_str(out, "- [ ] ");
        }
        push_str(out, a.text.as_str());
        assert(doc@.action_items[i as int] == a@);
        assert(out@ =~= start + join(parts.take(i + 1), "\n"@));
        i = i + 1;
    }
    assert(parts.take(i as int) =~= parts);
}

fn push_markers(out: &mut Vec<char>, ms: &Vec<MarkerLine>)
    ensures
        final(out)@ == old(out)@ + join(Seq::new(ms@.len(), |i: int| marker_line(ms@[i])), "\n"@),
{
    let ghost parts = Seq::new(ms@.len(), |i: int| marker_line(ms@[i]));
    let ghost start = out@;
    let mut i: usize = 0;
    assert(parts.take(0) =~= Seq::<Seq<char>>::empty());
    while i < ms.len()
        invariant
            i <= ms@.len(),
            parts == Seq::new(ms@.len(), |i: int| marker_line(ms@[i])),
            out@ == start + join(parts.take(i as int), "\n"@),
        decreases ms@.len() - i,
    {
        proof {
            lemma_join_step(parts, "\n"@, i as int);
        }
        if i > 0 {
            push_str(out, "\n");
        }
        push_str(out, "- [");
        let t = format_mm_ss(ms[i].whole_secs);
        push_str(out, t.as_str());
        push_str(out, "] ");
        push_str(out, ms[i].label.as_str());
        assert(out@ =~= start + join(parts.take(i + 1), "\n"@));
        i = i + 1;
    }
    assert(parts.take(i as int) =~= parts);
}

fn push_segments(out: &mut Vec<char>, segs: &[StoredSegment])
    ensures
        final(out)@ == old(out)@ + join(
            Seq::new(segs@.len(), |i: int| segment_block(segs@[i])),
            "\n\n"@,
        ),
{
    let ghost parts = Seq::new(segs@.len(), |i: int| segment_block(segs@[i]));
    let ghost start = out@;
    let mut i: usize = 0;
    assert(parts.take(0) =~= Seq::<Seq<char>>::empty());
    while i < segs.len()
        invariant
            i <= segs@.len(),
            parts == Seq::new(segs@.len(), |i: int| segment_block(segs@[i])),
            out@ == start + join(parts.take(i as int), "\n\n"@),
        decreases segs@.len() - i,
    {
        proof {
            lemma_join_step(parts, "\n\n"@, i as int);
        }
        if i > 0 {
            push_str(out, "\n\n");
        }
        push_str(out, "**");
        push_str(out, segs[i].speaker.as_str());
        push_str(out, "** (");
        let t = format_mm_ss(segs[i].start_secs);
        push_str(out, t.as_str());
        push_str(out, ")\n");
        push_str(out, segs[i].text.as_str());
        assert(out@ =~= start + join(parts.take(i + 1), "\n\n"@));
        i = i + 1;
    }
    assert(parts.take(i as int) =~= parts);
}

/// Renders the transcript section's body: `_No speech detected._` for an
/// empty transcript, else each turn, blank-line separated.
pub fn transcript_body(segments: &[StoredSegment]) -> (r: String)
    ensures
        r@ == transcript_body_text(segments@),
{
    if segments.len() == 0 {
        return String::from_str("_No speech detected._");
    }
    let mut out: Vec<char> = Vec::new();
    push_segments(&mut out, segments);
    assert(out@ =~= transcript_body_text(segments@));
    string_from_chars(&out)
}

/// Appends the summary's prose and its non-empty list sections.
fn push_summary(out: &mut Vec<char>, doc: &SummaryDoc)
    ensures
        final(out)@ == old(out)@ + summary_sections(doc@),
{
    let ghost start = out@;
    push_str(out, "\n\n## Summary\n\n");
    push_str(out, doc.summary.as_str());
    if doc.topics.len() > 0 {
        push_str(out, "\n\n## Topics\n\n");
        push_topics(out, doc);
    }
    if doc.decisions.len() > 0 {
        push_str(out, "\n\n## Decisions\n\n");
        push_decisions(out, doc);
    }
    if doc.action_items.len() > 0 {
        push_str(out, "\n\n## Action items\n\n");
        push_action_items(out, doc);
    }
    assert(out@ =~= start + summary_sections(doc@));
}

/// A note rendered as Markdown: header, then (with a summary) its prose,
/// topics, decisions and action items, then markers, then the transcript.
/// Empty lists leave their section out entirely.
pub fn render_note_md(
    meta: &NoteHeading,
    summary: Option<&SummaryDoc>,
    transcript: &[StoredSegment],
) -> (r: String)
    ensures
        r@ == note_markdown(
            *meta,
            match summary {
                Some(s) => Some(s@),
                None => None,
            },
            transcript@,
        ),
{
    let mut out: Vec<char> = Vec::new();
    push_str(&mut out, "# ");
    push_str(&mut out, meta.title.as_str());
    push_str(&mut out, "\n\n**Date:** ");
    let date = format_date_label(meta.created_at.as_str());
    push_str(&mut out, date.as_str());
    push_str(&mut out, " \u{b7} **Duration:** ");
    push_signed(&mut out, meta.duration_minutes);
    push_str(&mut out, " min \u{b7} **Speakers:** ");
    push_decimal(&mut out, meta.speakers as u64);
    let ghost after_header = out@;
    assert(after_header =~= header_text(*meta));
    match summary {
        Some(doc) => push_summary(&mut out, doc),
        None => {},
    }
    let ghost after_summary = out@;
    if meta.markers.len() > 0 {
        push_str(&mut out, "\n\n## Markers\n\n");
        push_markers(&mut out, &meta.markers);
    }
    assert(out@ =~= after_summary + markers_section(meta.markers@));
    push_str(&mut out, "\n\n## Transcript\n\n");
    let body = transcript_body(transcript);
    push_str(&mut out, body.as_str());
    assert(out@ =~= note_markdown(
        *meta,
        match summary {
            Some(s) => Some(s@),
            None => None,
        },
        transcript@,
    ));
    string_from_chars(&out)
}

} // verus!
