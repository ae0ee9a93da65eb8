//! Finding the summary object in a model's response and reading a
//! [`SummaryDoc`] out of it, tolerating prose around the object, incidental
//! brace pairs before it, and entries of the wrong shape inside it.
use vstd::prelude::*;

use crate::error::{error_message, MinuteError};
use crate::extract::{after_reasoning, fence_stripped, snippet, snippet_of, strip_code_fence, strip_reasoning};
use crate::json::{json_seq_view, json_view, members_view, Json, JsonMember, JsonView};
use crate::model::{ActionItem, ActionItemView, SummaryDoc, SummaryDocView, SummaryTopic, SummaryTopicView};
use crate::text::{
    char_width, chars_of, lemma_utf8_len_take_mono, lemma_utf8_len_take_step, push_chars, push_str,
    slice_vec, string_from_chars, utf8_len,
};

verus! {

// ---------------------------------------------------------------------------
// The brace scan
// ---------------------------------------------------------------------------

/// How many `{` positions [`extract_summary_parts`] tries before settling.
pub const MAX_JSON_CANDIDATES: usize = 50;

/// The brace scan's state after reading `t`: nesting depth, whether it is
/// inside a JSON string, and whether the previous char was a backslash
/// inside that string.
pub open spec fn brace_state(t: Seq<char>) -> (int, bool, bool)
    decreases t.len(),
{
    if t.len() == 0 {
        (0, false, false)
    } else {
        let prev = brace_state(t.drop_last());
        let c = t.last();
        if prev.1 {
            if prev.2 {
                (prev.0, true, false)
            } else if c == '\\' {
                (prev.0, true, true)
            } else if c == '"' {
                (prev.0, false, false)
            } else {
                (prev.0, true, false)
            }
        } else if c == '"' {
            (prev.0, true, false)
        } else if c == '{' {
            (prev.0 + 1, false, false)
        } else if c == '}' {
            (prev.0 - 1, false, false)
        } else {
            (prev.0, false, false)
        }
    }
}

/// The object opened by `t[0]` closes with the `k`-th char: a `}` outside
/// any string that brings the depth back to zero.
pub open spec fn closes_at(t: Seq<char>, k: int) -> bool {
    &&& 1 <= k <= t.len()
    &&& t[k - 1] == '}'
    &&& !brace_state(t.take(k - 1)).1
    &&& brace_state(t.take(k - 1)).0 == 1
}

/// Length of the balanced `{...}` object at the start of `t`: the first
/// place it closes, or `None` when it never does.
#[verifier::opaque]
pub open spec fn balanced_len(t: Seq<char>) -> Option<int> {
    if exists|k: int| closes_at(t, k) {
        Some(choose|k: int| closes_at(t, k) && forall|j: int| 1 <= j < k ==> !closes_at(t, j))
    } else {
        None
    }
}

proof fn lemma_first_close(t: Seq<char>, k: int)
    requires
        closes_at(t, k),
        forall|j: int| 1 <= j < k ==> !closes_at(t, j),
    ensures
        balanced_len(t) == Some(k),
{
    reveal(balanced_len);
    let c = choose|m: int| closes_at(t, m) && forall|j: int| 1 <= j < m ==> !closes_at(t, j);
    assert(c == k) by {
        if c < k {
        } else if k < c {
        }
    }
}

proof fn lemma_no_close(t: Seq<char>)
    requires
        forall|j: int| 1 <= j <= t.len() ==> !closes_at(t, j),
    ensures
        balanced_len(t) is None,
{
    reveal(balanced_len);
}

/// Length of the balanced object that opens at `s[start]` (a `{`), scanning
/// with string contents and escapes respected.
fn balanced_object_len(s: &[char], start: usize) -> (r: Option<usize>)
    requires
        start < s@.len(),
        s@[start as int] == '{',
    ensures
        match r {
            Some(k) => balanced_len(s@.skip(start as int)) == Some(k as int) && start + k
                <= s@.len(),
            None => balanced_len(s@.skip(start as int)) is None,
        },
{
    let ghost t = s@.skip(start as int);
    let n = s.len();
    let mut depth: i128 = 0;
    let mut in_string = false;
    let mut escape = false;
    let mut i: usize = start;
    assert(t.take(0) =~= Seq::<char>::empty());
    while i < n
        invariant
            start <= i <= n,
            n == s@.len(),
            t == s@.skip(start as int),
            t.len() == n - start,
            t[0] == '{',
            (depth as int, in_string, escape) == brace_state(t.take(i - start)),
            i > start ==> depth >= 1,
            -(i - start) <= depth <= i - start,
            forall|j: int| 1 <= j <= i - start ==> !closes_at(t, j),
        decreases n - i,
    {
        let ghost k = i - start;
        assert(t.take(k + 1).drop_last() =~= t.take(k));
        assert(t[k] == s@[i as int]);
        let c = s[i];
        if in_string {
            if escape {
                escape = false;
            } else if c == '\\' {
                escape = true;
            } else if c == '"' {
                in_string = false;
            }
        } else if c == '"' {
            in_string = true;
        } else if c == '{' {
            depth = depth + 1;
        } else if c == '}' {
            if depth == 1 {
                assert(closes_at(t, k + 1));
                proof {
                    lemma_first_close(t, k + 1);
                }
                return Some(i - start + 1);
            }
            depth = depth - 1;
        }
        proof {
            if k == 0 {
                assert(t[0] == '{');
            }
            assert(!closes_at(t, k + 1));
        }
        i = i + 1;
    }
    proof {
        lemma_no_close(t);
    }
    None
}

/// The byte offset, in UTF-8, at which char `k` of `s` begins.
pub open spec fn byte_offset(s: Seq<char>, k: int) -> int {
    utf8_len(s.take(k)) as int
}

proof fn lemma_byte_offset_strict(s: Seq<char>, i: int, j: int)
    requires
        0 <= i < j <= s.len(),
    ensures
        byte_offset(s, i) < byte_offset(s, j),
{
    lemma_utf8_len_take_mono(s, i, j);
}

/// The index of the char of `cs` that begins at byte offset `b`.
fn char_index_at_byte(cs: &Vec<char>, b: usize) -> (k: usize)
    requires
        exists|k: int| 0 <= k < cs@.len() && byte_offset(cs@, k) == b,
    ensures
        k < cs@.len(),
        byte_offset(cs@, k as int) == b,
{
    let ghost target = choose|k: int| 0 <= k < cs@.len() && byte_offset(cs@, k) == b;
    let n = cs.len();
    let mut i: usize = 0;
    let mut acc: usize = 0;
    assert(cs@.take(0) =~= Seq::<char>::empty());
    while acc < b
        invariant
            0 <= target < cs@.len(),
            n == cs@.len(),
            byte_offset(cs@, target) == b,
            i <= target,
            acc == byte_offset(cs@, i as int),
            acc <= b,
        decreases b - acc,
    {
        proof {
            if i == target {
                assert(false);
            }
            lemma_utf8_len_take_step(cs@, i as int);
            if i + 1 < target {
                lemma_byte_offset_strict(cs@, i + 1, target);
            }
        }
        assert(i < target);
        acc = acc + char_width(cs[i]);
        i = i + 1;
    }
    proof {
        if i < target {
            lemma_byte_offset_strict(cs@, i as int, target);
        }
    }
    i
}

/// The balanced `{...}` object starting at byte offset `start` of `s`
/// (the start of a `{` in `s`), or `None` when it never closes. Braces
/// inside JSON strings, and escaped quotes, do not count.
pub fn balanced_json_object_at(s: &str, start: usize) -> (r: Option<String>)
    requires
        exists|k: int| 0 <= k < s@.len() && byte_offset(s@, k) == start && s@[k] == '{',
    ensures
        forall|k: int|
            0 <= k < s@.len() && byte_offset(s@, k) == start ==> match balanced_len(s@.skip(k)) {
                Some(n) => r matches Some(o) && o@ == s@.subrange(k, k + n),
                None => r is None,
            },
{
    let cs = chars_of(s);
    let n = cs.len();
    let ghost w = choose|k: int| 0 <= k < s@.len() && byte_offset(s@, k) == start && s@[k] == '{';
    let i = char_index_at_byte(&cs, start);
    proof {
        if (i as int) < w {
            lemma_byte_offset_strict(s@, i as int, w);
        } else if w < (i as int) {
            lemma_byte_offset_strict(s@, w, i as int);
        }
        assert forall|k: int| 0 <= k < s@.len() && byte_offset(s@, k) == start implies k == i by {
            if k < i {
                lemma_byte_offset_strict(s@, k, i as int);
            } else if i < k {
                lemma_byte_offset_strict(s@, i as int, k);
            }
        }
    }
    match balanced_object_len(&cs, i) {
        Some(k) => {
            assert(i + k <= n);
            let o = slice_vec(&cs, i, i + k);
            Some(string_from_chars(&o))
        },
        None => None,
    }
}

// ---------------------------------------------------------------------------
// Reading JSON values
// ---------------------------------------------------------------------------

/// The value stored under `key` among an object's members.
pub open spec fn lookup(members: Seq<(Seq<char>, JsonView)>, key: Seq<char>) -> Option<JsonView>
    decreases members.len(),
{
    if members.len() == 0 {
        None
    } else if members[0].0 == key {
        Some(members[0].1)
    } else {
        lookup(members.drop_first(), key)
    }
}

proof fn lemma_members_view_step(ms: Seq<JsonMember>, i: int)
    requires
        0 <= i < ms.len(),
    ensures
        members_view(ms.skip(i)) == seq![(ms[i].key@, json_view(ms[i].value))] + members_view(
            ms.skip(i + 1),
        ),
{
    assert(ms.skip(i).drop_first() =~= ms.skip(i + 1));
}

proof fn lemma_json_seq_view(items: Seq<Json>)
    ensures
        json_seq_view(items).len() == items.len(),
        forall|k: int| 0 <= k < items.len() ==> json_seq_view(items)[k] == json_view(items[k]),
    decreases items.len(),
{
    if items.len() > 0 {
        lemma_json_seq_view(items.drop_first());
    }
}

/// Index of the member stored under `key`.
fn find_member(members: &Vec<JsonMember>, key: &str) -> (r: Option<usize>)
    ensures
        match r {
            Some(i) => i < members@.len() && lookup(members_view(members@), key@) == Some(
                json_view(members@[i as int].value),
            ),
            None => lookup(members_view(members@), key@) is None,
        },
{
    let mut i: usize = 0;
    assert(members@.skip(0) =~= members@);
    while i < members.len()
        invariant
            i <= members@.len(),
            lookup(members_view(members@), key@) == lookup(members_view(members@.skip(i as int)), key@),
        decreases members@.len() - i,
    {
        proof {
            lemma_members_view_step(members@, i as int);
            assert((seq![(members@[i as int].key@, json_view(members@[i as int].value))]
                + members_view(members@.skip(i + 1))).drop_first() =~= members_view(
                members@.skip(i + 1),
            ));
        }
        if crate::text::str_eq(members[i].key.as_str(), key) {
            return Some(i);
        }
        i = i + 1;
    }
    None
}

/// The string stored under `key`, if the member exists and holds a string.
fn member_str(members: &Vec<JsonMember>, key: &str) -> (r: Option<String>)
    ensures
        match lookup(members_view(members@), key@) {
            Some(JsonView::Str(s)) => r matches Some(x) && x@ == s,
            _ => r is None,
        },
{
    match find_member(members, key) {
        Some(i) => match &members[i].value {
            Json::Str(s) => Some(s.clone()),
            _ => None,
        },
        None => None,
    }
}

// ---------------------------------------------------------------------------
// Action items and topics
// ---------------------------------------------------------------------------

/// An `action_items` entry read as an action item: a bare string, or an
/// object with a string `text`; always not yet done.
pub open spec fn action_item_of(v: JsonView) -> Option<ActionItemView> {
    match v {
        JsonView::Str(t) => Some(ActionItemView { text: t, done: false }),
        JsonView::Object(ms) => match lookup(ms, "text"@) {
            Some(JsonView::Str(t)) => Some(ActionItemView { text: t, done: false }),
            _ => None,
        },
        _ => None,
    }
}

/// Converts one raw `action_items` entry to an [`ActionItem`], or `None`
/// for an entry of any other shape.
pub fn action_item_from_value(value: &Json) -> (r: Option<ActionItem>)
    ensures
        match action_item_of(value@) {
            Some(a) => r matches Some(x) && x@ == a,
            None => r is None,
        },
{
    match value {
        Json::Str(text) => Some(ActionItem { text: text.clone(), done: false }),
        Json::Object(members) => match member_str(members, "text") {
            Some(text) => Some(ActionItem { text, done: false }),
            None => None,
        },
        _ => None,
    }
}

/// A `topics` entry read as a topic: a bare string is a title-only topic; an
/// object needs a string `title` (or, with no `title` member, a string
/// `topic`), and its `summary` is kept when it is a string.
pub open spec fn topic_of(v: JsonView) -> Option<SummaryTopicView> {
    match v {
        JsonView::Str(t) => Some(SummaryTopicView { title: t, summary: Seq::empty() }),
        JsonView::Object(ms) => {
            let title = match lookup(ms, "title"@) {
                Some(t) => Some(t),
                None => lookup(ms, "topic"@),
            };
            let summary = match lookup(ms, "summary"@) {
                Some(JsonView::Str(s)) => s,
                _ => Seq::empty(),
            };
            match title {
                Some(JsonView::Str(t)) => Some(SummaryTopicView { title: t, summary }),
                _ => None,
            }
        },
        _ => None,
    }
}

/// Converts one raw `topics` entry to a [`SummaryTopic`], or `None` when it
/// has no usable title.
pub fn summary_topic_from_value(value: &Json) -> (r: Option<SummaryTopic>)
    ensures
        match topic_of(value@) {
            Some(t) => r matches Some(x) && x@ == t,
            None => r is None,
        },
{
    match value {
        Json::Str(title) => Some(SummaryTopic { title: title.clone(), summary: String::new() }),
        Json::Object(members) => {
            let title = match find_member(members, "title") {
                Some(i) => match &members[i].value {
                    Json::Str(t) => Some(t.clone()),
                    _ => None,
                },
                None => member_str(members, "topic"),
            };
            match title {
                Some(title) => {
                    let summary = match member_str(members, "summary") {
                        Some(s) => s,
                        None => String::new(),
                    };
                    Some(SummaryTopic { title, summary })
                },
                None => None,
            }
        },
        _ => None,
    }
}

/// The usable action items among `vs`, in order.
pub open spec fn action_items_of(vs: Seq<JsonView>) -> Seq<ActionItemView>
    decreases vs.len(),
{
    if vs.len() == 0 {
        Seq::empty()
    } else {
        let prev = action_items_of(vs.drop_last());
        match action_item_of(vs.last()) {
            Some(a) => prev.push(a),
            None => prev,
        }
    }
}

/// The usable topics among `vs`, in order.
pub open spec fn topics_of(vs: Seq<JsonView>) -> Seq<SummaryTopicView>
    decreases vs.len(),
{
    if vs.len() == 0 {
        Seq::empty()
    } else {
        let prev = topics_of(vs.drop_last());
        match topic_of(vs.last()) {
            Some(t) => prev.push(t),
            None => prev,
        }
    }
}

fn action_items_from_values(items: &Vec<Json>) -> (r: Vec<ActionItem>)
    ensures
        r@.map_values(|a: ActionItem| a@) == action_items_of(json_seq_view(items@)),
{
    proof {
        lemma_json_seq_view(items@);
    }
    let ghost vs = json_seq_view(items@);
    let mut out: Vec<ActionItem> = Vec::new();
    let mut i: usize = 0;
    assert(vs.take(0) =~= Seq::<JsonView>::empty());
    while i < items.len()
        invariant
            i <= items@.len(),
            vs == json_seq_view(items@),
            vs.len() == items@.len(),
            forall|k: int| 0 <= k < items@.len() ==> vs[k] == json_view(items@[k]),
            out@.map_values(|a: ActionItem| a@) == action_items_of(vs.take(i as int)),
        decreases items@.len() - i,
    {
        assert(vs.take(i + 1).drop_last() =~= vs.take(i as int));
        match action_item_from_value(&items[i]) {
            Some(a) => {
                out.push(a);
            },
            None => {},
        }
        assert(out@.map_values(|a: ActionItem| a@) =~= action_items_of(vs.take(i + 1)));
        i = i + 1;
    }
    assert(vs.take(i as int) =~= vs);
    out
}

fn topics_from_values(items: &Vec<Json>) -> (r: Vec<SummaryTopic>)
    ensures
        r@.map_values(|t: SummaryTopic| t@) == topics_of(json_seq_view(items@)),
{
    proof {
        lemma_json_seq_view(items@);
    }
    let ghost vs = json_seq_view(items@);
    let mut out: Vec<SummaryTopic> = Vec::new();
    let mut i: usize = 0;
    assert(vs.take(0) =~= Seq::<JsonView>::empty());
    while i < items.len()
        invariant
            i <= items@.len(),
            vs == json_seq_view(items@),
            vs.len() == items@.len(),
            forall|k: int| 0 <= k < items@.len() ==> vs[k] == json_view(items@[k]),
            out@.map_values(|t: SummaryTopic| t@) == topics_of(vs.take(i as int)),
        decreases items@.len() - i,
    {
        assert(vs.take(i + 1).drop_last() =~= vs.take(i as int));
        match summary_topic_from_value(&items[i]) {
            Some(t) => {
                out.push(t);
            },
            None => {},
        }
        assert(out@.map_values(|t: SummaryTopic| t@) =~= topics_of(vs.take(i + 1)));
        i = i + 1;
    }
    assert(vs.take(i as int) =~= vs);
    out
}

// ---------------------------------------------------------------------------
// The summary record
// ---------------------------------------------------------------------------

/// The summary record the model is asked for, as read from one candidate
/// object: a field the object leaves out reads as empty, members the schema
/// does not name are skipped, and the `topics` and `action_items` entries
/// are kept as they came, to be read one by one.
#[derive(Debug)]
pub struct RawSummary {
    /// The note title the model suggested; never part of the summary.
    pub title: String,
    pub summary: String,
    pub topics: Vec<Json>,
    pub decisions: Vec<String>,
    pub action_items: Vec<Json>,
}

/// The content of a [`RawSummary`].
pub struct RawSummaryView {
    pub title: Seq<char>,
    pub summary: Seq<char>,
    pub topics: Seq<JsonView>,
    pub decisions: Seq<Seq<char>>,
    pub action_items: Seq<JsonView>,
}

impl View for RawSummary {
    type V = RawSummaryView;

    open spec fn view(&self) -> RawSummaryView {
        RawSummaryView {
            title: self.title@,
            summary: self.summary@,
            topics: json_seq_view(self.topics@),
            decisions: self.decisions@.map_values(|d: String| d@),
            action_items: json_seq_view(self.action_items@),
        }
    }
}

/// The content of a record read from a candidate, if one was read.
pub open spec fn raw_view(r: Option<RawSummary>) -> Option<RawSummaryView> {
    match r {
        Some(x) => Some(x@),
        None => None,
    }
}

/// `read` reads text the way `f` says: whatever it returns for a text is
/// `f` of that text (`None` where the text is not a summary record).
pub open spec fn reads_as<F: Fn(&str) -> Option<RawSummary>>(
    read: F,
    f: spec_fn(Seq<char>) -> Option<RawSummaryView>,
) -> bool {
    forall|t: &str, r: Option<RawSummary>| #[trigger] call_ensures(read, (t,), r) ==> raw_view(r) == f(t@)
}

/// What one summarization generation yields: the summary, and the note
/// title the model suggested beside it (empty when it offered none).
#[derive(Debug)]
pub struct SummaryExtraction {
    pub doc: SummaryDoc,
    pub suggested_title: String,
}

/// The content of a [`SummaryExtraction`].
pub struct SummaryExtractionView {
    pub doc: SummaryDocView,
    pub suggested_title: Seq<char>,
}

impl View for SummaryExtraction {
    type V = SummaryExtractionView;

    open spec fn view(&self) -> SummaryExtractionView {
        SummaryExtractionView { doc: self.doc@, suggested_title: self.suggested_title@ }
    }
}

/// The extraction a record yields: its summary with the malformed action
/// items and topics dropped, and its `title` set aside.
pub open spec fn extraction_of(r: RawSummaryView) -> SummaryExtractionView {
    SummaryExtractionView {
        doc: SummaryDocView {
            summary: r.summary,
            topics: topics_of(r.topics),
            decisions: r.decisions,
            action_items: action_items_of(r.action_items),
        },
        suggested_title: r.title,
    }
}

/// The summary holds something worth showing.
pub open spec fn doc_nonempty(d: SummaryDocView) -> bool {
    d.summary.len() > 0 || d.topics.len() > 0 || d.decisions.len() > 0 || d.action_items.len() > 0
}

/// Converts a read record into a [`SummaryDoc`]: each `topics` and
/// `action_items` entry converted on its own, a malformed one skipped
/// rather than failing the whole summary; every action item starts not
/// done. The record's `title` is not part of the summary.
pub fn raw_to_summary_doc(parsed: RawSummary) -> (d: SummaryDoc)
    ensures
        d@ == extraction_of(parsed@).doc,
        forall|i: int| 0 <= i < d@.action_items.len() ==> !(#[trigger] d@.action_items[i]).done,
{
    proof {
        lemma_action_items_not_done(parsed@.action_items);
    }
    let topics = topics_from_values(&parsed.topics);
    let action_items = action_items_from_values(&parsed.action_items);
    SummaryDoc { summary: parsed.summary, topics, decisions: parsed.decisions, action_items }
}

/// No action item read from a model's answer is done yet.
proof fn lemma_action_items_not_done(vs: Seq<JsonView>)
    ensures
        forall|i: int| 0 <= i < action_items_of(vs).len() ==> !(#[trigger] action_items_of(vs)[i]).done,
    decreases vs.len(),
{
    if vs.len() > 0 {
        lemma_action_items_not_done(vs.drop_last());
        let prev = action_items_of(vs.drop_last());
        match action_item_of(vs.last()) {
            Some(a) => {
                assert(!a.done);
                assert forall|i: int| 0 <= i < prev.push(a).len() implies !(
                #[trigger] prev.push(a)[i]).done by {
                    if i < prev.len() {
                        assert(prev.push(a)[i] == prev[i]);
                    }
                }
            },
            None => {},
        }
    }
}

/// The summary and the suggested title of a read record.
fn extraction_from_raw(parsed: RawSummary) -> (x: SummaryExtraction)
    ensures
        x@ == extraction_of(parsed@),
        forall|i: int| 0 <= i < x@.doc.action_items.len() ==> !(#[trigger] x@.doc.action_items[i]).done,
{
    let suggested_title = parsed.title.clone();
    let doc = raw_to_summary_doc(parsed);
    SummaryExtraction { doc, suggested_title }
}

/// Whether `doc` has anything worth showing: a prose summary, a topic, a
/// decision, or an action item.
pub fn is_nonempty_summary(doc: &SummaryDoc) -> (b: bool)
    ensures
        b == doc_nonempty(doc@),
{
    !doc.summary.as_str().is_empty() || doc.topics.len() > 0 || doc.decisions.len() > 0
        || doc.action_items.len() > 0
}

/// What [`require_nonempty_summary`] rejects an empty summary with.
pub open spec fn empty_summary_message() -> Seq<char> {
    "the summary model returned nothing usable \u{2014} try again, or switch summary model in Settings"@
}

/// Rejects a summary with nothing in it at all, passing anything else
/// through unchanged.
pub fn require_nonempty_summary(doc: SummaryDoc) -> (r: Result<SummaryDoc, MinuteError>)
    ensures
        match r {
            Ok(d) => d@ == doc@ && doc_nonempty(doc@),
            Err(e) => !doc_nonempty(doc@) && error_message(e) == empty_summary_message(),
        },
{
    if is_nonempty_summary(&doc) {
        Ok(doc)
    } else {
        Err(
            MinuteError::Other(
                String::from_str(
                    "the summary model returned nothing usable \u{2014} try again, or switch summary model in Settings",
                ),
            ),
        )
    }
}

/// The extraction the candidate object opening at `s[start]` yields, if it
/// balances and `read` finds a summary record in it.
pub open spec fn candidate_at(
    s: Seq<char>,
    start: int,
    read: spec_fn(Seq<char>) -> Option<RawSummaryView>,
) -> Option<SummaryExtractionView> {
    match balanced_len(s.skip(start)) {
        Some(k) => match read(s.subrange(start, start + k)) {
            Some(r) => Some(extraction_of(r)),
            None => None,
        },
        None => None,
    }
}

/// The candidate scan from position `pos`, with `tried` candidates spent
/// and `first_empty` the first well-formed but empty one met so far: the
/// first non-empty candidate wins; when the text or the candidate allowance
/// runs out, the first empty one is the answer.
pub open spec fn scan_candidates(
    s: Seq<char>,
    pos: int,
    tried: int,
    first_empty: Option<SummaryExtractionView>,
    read: spec_fn(Seq<char>) -> Option<RawSummaryView>,
) -> Option<SummaryExtractionView>
    decreases s.len() - pos,
{
    if tried >= 50 || pos < 0 || pos >= s.len() {
        first_empty
    } else if s[pos] != '{' {
        scan_candidates(s, pos + 1, tried, first_empty, read)
    } else {
        match candidate_at(s, pos, read) {
            Some(x) => if doc_nonempty(x.doc) {
                Some(x)
            } else {
                scan_candidates(
                    s,
                    pos + 1,
                    tried + 1,
                    if first_empty is Some {
                        first_empty
                    } else {
                        Some(x)
                    },
                    read,
                )
            },
            None => scan_candidates(s, pos + 1, tried + 1, first_empty, read),
        }
    }
}

/// What [`extract_summary_parts`] makes of a raw response when candidates
/// are read as `read` says: the reasoning and fence stripped, then the
/// candidate scan over what is left; the error message when that finds
/// nothing.
pub open spec fn summary_extraction(
    raw: Seq<char>,
    read: spec_fn(Seq<char>) -> Option<RawSummaryView>,
) -> Result<SummaryExtractionView, Seq<char>> {
    match after_reasoning(raw) {
        None => Err("model produced only reasoning"@),
        Some(a) => match scan_candidates(fence_stripped(a), 0, 0, None, read) {
            Some(x) => Ok(x),
            None => Err("no JSON object found in model output: "@ + snippet_of(raw)),
        },
    }
}

pub open spec fn extraction_view(o: Option<SummaryExtraction>) -> Option<SummaryExtractionView> {
    match o {
        Some(x) => Some(x@),
        None => None,
    }
}

/// Tolerantly extracts the summary and the suggested title from a model's
/// raw output. Each balanced `{...}` candidate is handed to `read`, which
/// reads it as the summary record (`None` when it is not one); for any
/// `read` that answers every text the same way each time, the result is
/// [`summary_extraction`] of the output under that reading.
pub fn extract_summary_parts<F: Fn(&str) -> Option<RawSummary>>(raw: &str, read: F) -> (r: Result<
    SummaryExtraction,
    MinuteError,
>)
    requires
        forall|t: &str| read.requires((t,)),
    ensures
        forall|f: spec_fn(Seq<char>) -> Option<RawSummaryView>| #[trigger]
            reads_as(read, f) ==> match r {
                Ok(x) => summary_extraction(raw@, f) == Ok::<SummaryExtractionView, Seq<char>>(x@),
                Err(e) => summary_extraction(raw@, f) == Err::<SummaryExtractionView, Seq<char>>(
                    error_message(e),
                ),
            },
        r matches Ok(x) ==> forall|i: int|
            0 <= i < x@.doc.action_items.len() ==> !(#[trigger] x@.doc.action_items[i]).done,
{
    let after = match strip_reasoning(raw) {
        Ok(a) => a,
        Err(e) => {
            return Err(e);
        },
    };
    let cleaned_text = strip_code_fence(after.as_str());
    let cleaned = chars_of(cleaned_text.as_str());
    let ghost c = cleaned@;
    let n = cleaned.len();
    let mut pos: usize = 0;
    let mut tried: usize = 0;
    let mut first_empty: Option<SummaryExtraction> = None;
    while pos < n && tried < MAX_JSON_CANDIDATES
        invariant
            pos <= n,
            n == c.len(),
            c == cleaned@,
            after_reasoning(raw@) == Some(after@),
            c == fence_stripped(after@),
            tried <= 50,
            forall|t: &str| read.requires((t,)),
            first_empty matches Some(x) ==> forall|i: int|
                0 <= i < x@.doc.action_items.len() ==> !(#[trigger] x@.doc.action_items[i]).done,
            forall|f: spec_fn(Seq<char>) -> Option<RawSummaryView>| #[trigger]
                reads_as(read, f) ==> scan_candidates(c, 0, 0, None, f) == scan_candidates(
                    c,
                    pos as int,
                    tried as int,
                    extraction_view(first_empty),
                    f,
                ),
        decreases n - pos,
    {
        let ghost pos0 = pos as int;
        let ghost tried0 = tried as int;
        let ghost fe0 = extraction_view(first_empty);
        if cleaned[pos] == '{' {
            tried = tried + 1;
            match balanced_object_len(&cleaned, pos) {
                Some(k) => {
                    assert(pos + k <= n);
                    let piece = slice_vec(&cleaned, pos, pos + k);
                    let text = string_from_chars(&piece);
                    let t = text.as_str();
                    assert(t@ == c.subrange(pos as int, pos + k));
                    let got = read(t);
                    match got {
                        Some(parsed) => {
                            let x = extraction_from_raw(parsed);
                            assert forall|f: spec_fn(Seq<char>) -> Option<RawSummaryView>|
                                #[trigger] reads_as(read, f) implies candidate_at(c, pos0, f) == Some(
                                x@,
                            ) by {
                                assert(raw_view(got) == f(t@));
                            }
                            if is_nonempty_summary(&x.doc) {
                                return Ok(x);
                            }
                            if first_empty.is_none() {
                                first_empty = Some(x);
                            }
                        },
                        None => {
                            assert forall|f: spec_fn(Seq<char>) -> Option<RawSummaryView>|
                                #[trigger] reads_as(read, f) implies candidate_at(c, pos0, f)
                                is None by {
                                assert(raw_view(got) == f(t@));
                            }
                        },
                    }
                },
                None => {},
            }
        }
        pos = pos + 1;
    }
    match first_empty {
        Some(x) => Ok(x),
        None => {
            let mut out: Vec<char> = Vec::new();
            push_str(&mut out, "no JSON object found in model output: ");
            let sn = snippet(raw);
            let sc = chars_of(sn.as_str());
            push_chars(&mut out, &sc);
            Err(MinuteError::Other(string_from_chars(&out)))
        },
    }
}

} // verus!
