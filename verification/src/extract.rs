//! Recovering what a model meant from what it emitted: reasoning blocks and
//! code fences stripped, the question answer, a note title worth keeping,
//! and the summary object found among whatever prose surrounds it.
use vstd::prelude::*;
use vstd::string::*;

use crate::error::{error_message, MinuteError};
use crate::text::{
    chars_eq, chars_of, contains_chars, contains_seq, find_seq, first_index_of, fits_prefix,
    floor_chars, floor_chars_exec, is_ws, is_whitespace, last_index_of, lemma_fits_prefix_exists,
    lemma_index_of_some, lemma_trim_end_at, lemma_utf8_len_take_mono, push_chars, push_str,
    rfind_seq, slice_vec, starts_with_chars, string_from_chars, trim, trim_chars, trim_end,
    trim_end_at, trim_end_chars, utf8_len, utf8_len_of,
};

verus! {

pub open spec fn starts_with(s: Seq<char>, prefix: Seq<char>) -> bool {
    prefix.len() <= s.len() && s.take(prefix.len() as int) == prefix
}

// ---------------------------------------------------------------------------
// Reasoning blocks and code fences
// ---------------------------------------------------------------------------

/// What is left of a response once its `<think>` blocks are set aside:
/// `None` when a block opens and never closes (reasoning with no answer);
/// the text after the last `</think>` when one closes; the whole response
/// when there is no block at all.
pub open spec fn after_reasoning(raw: Seq<char>) -> Option<Seq<char>> {
    let has_open = contains_seq(raw, "<think>"@);
    let has_close = contains_seq(raw, "</think>"@);
    if has_open && !has_close {
        None
    } else if has_close {
        Some(raw.skip(last_index_of(raw, "</think>"@)->0 + 8))
    } else {
        Some(raw)
    }
}

/// Strips `<think>...</think>` reasoning blocks from a model's response.
pub fn strip_reasoning(raw: &str) -> (r: Result<String, MinuteError>)
    ensures
        match r {
            Ok(s) => after_reasoning(raw@) == Some(s@),
            Err(e) => after_reasoning(raw@) is None && error_message(e)
                == "model produced only reasoning"@,
        },
{
    let cs = chars_of(raw);
    let open = chars_of("<think>");
    let close = chars_of("</think>");
    let has_open = contains_chars(&cs, &open);
    let has_close = contains_chars(&cs, &close);
    if has_open && !has_close {
        return Err(MinuteError::Other(String::from_str("model produced only reasoning")));
    }
    if has_close {
        proof {
            crate::text::lemma_index_of_some(raw@, close@);
        }
        let i = rfind_seq(&cs, &close).unwrap();
        proof {
            reveal_strlit("</think>");
        }
        assert(close@.len() == 8);
        let n = cs.len();
        assert(i + 8 <= n);
        let rest = slice_vec(&cs, i + 8, n);
        assert(rest@ =~= raw@.skip(i + 8));
        return Ok(string_from_chars(&rest));
    }
    Ok(String::from_str(raw))
}

/// A response with one wrapping markdown code fence removed (an optional
/// language tag on the opening line), trimmed either way.
pub open spec fn fence_stripped(s: Seq<char>) -> Seq<char> {
    let t = trim(s);
    if starts_with(t, "```"@) {
        let after_open = t.skip(3);
        let after_lang = match first_index_of(after_open, seq!['\n']) {
            Some(i) => after_open.skip(i + 1),
            None => after_open,
        };
        match last_index_of(after_lang, "```"@) {
            Some(i) => trim(after_lang.take(i)),
            None => trim(after_lang),
        }
    } else {
        t
    }
}

fn strip_code_fence_chars(s: &[char]) -> (r: Vec<char>)
    ensures
        r@ == fence_stripped(s@),
{
    let t = trim_chars(s);
    let fence = chars_of("```");
    proof {
        reveal_strlit("```");
    }
    if !starts_with_chars(&t, &fence) {
        return t;
    }
    let after_open = slice_vec(&t, 3, t.len());
    assert(after_open@ =~= t@.skip(3));
    let nl = ['\n'];
    assert(nl@ =~= seq!['\n']);
    let after_lang = match find_seq(&after_open, &nl) {
        Some(i) => {
            let a = slice_vec(&after_open, i + 1, after_open.len());
            assert(a@ =~= after_open@.skip(i + 1));
            a
        },
        None => after_open,
    };
    match rfind_seq(&after_lang, &fence) {
        Some(i) => {
            let body = slice_vec(&after_lang, 0, i);
            assert(body@ =~= after_lang@.take(i as int));
            trim_chars(&body)
        },
        None => trim_chars(&after_lang),
    }
}

/// Strips a single wrapping markdown code fence if the trimmed input
/// starts with one; returns the trimmed input otherwise.
pub fn strip_code_fence(s: &str) -> (r: String)
    ensures
        r@ == fence_stripped(s@),
{
    let cs = chars_of(s);
    let r = strip_code_fence_chars(&cs);
    string_from_chars(&r)
}

/// At most 200 chars of the trimmed response, with `…` when cut.
pub open spec fn snippet_of(raw: Seq<char>) -> Seq<char> {
    let t = trim(raw);
    if t.len() <= 200 {
        t
    } else {
        t.take(200) + seq!['…']
    }
}

/// Truncates `raw` to at most 200 chars for an error message.
pub fn snippet(raw: &str) -> (r: String)
    ensures
        r@ == snippet_of(raw@),
{
    let cs = chars_of(raw);
    let t = trim_chars(&cs);
    if t.len() <= 200 {
        return string_from_chars(&t);
    }
    let mut head = slice_vec(&t, 0, 200);
    head.push('…');
    assert(head@ =~= snippet_of(raw@));
    string_from_chars(&head)
}

/// The answer a question prompt's response carries, or why there is none.
pub open spec fn ask_answer(raw: Seq<char>) -> Result<Seq<char>, Seq<char>> {
    match after_reasoning(raw) {
        None => Err("model produced only reasoning"@),
        Some(a) => {
            let answer = trim(fence_stripped(a));
            if answer.len() == 0 {
                Err("model produced an empty answer: "@ + snippet_of(raw))
            } else {
                Ok(answer)
            }
        },
    }
}

/// Extracts the answer text from a model's raw response to a question:
/// reasoning blocks and a wrapping code fence stripped, trimmed; an error
/// when nothing is left.
pub fn extract_ask_answer(raw: &str) -> (r: Result<String, MinuteError>)
    ensures
        match r {
            Ok(s) => ask_answer(raw@) == Ok::<Seq<char>, Seq<char>>(s@),
            Err(e) => ask_answer(raw@) == Err::<Seq<char>, Seq<char>>(error_message(e)),
        },
{
    let after = match strip_reasoning(raw) {
        Ok(a) => a,
        Err(e) => {
            return Err(e);
        },
    };
    let after_chars = chars_of(after.as_str());
    let cleaned = strip_code_fence_chars(&after_chars);
    let trimmed = trim_chars(&cleaned);
    if trimmed.len() == 0 {
        let mut msg: Vec<char> = Vec::new();
        push_str(&mut msg, "model produced an empty answer: ");
        let snip = snippet(raw);
        push_str(&mut msg, snip.as_str());
        return Err(MinuteError::Other(string_from_chars(&msg)));
    }
    Ok(string_from_chars(&trimmed))
}

// ---------------------------------------------------------------------------
// Citations
// ---------------------------------------------------------------------------

pub open spec fn is_digit(c: char) -> bool {
    '0' <= c <= '9'
}

/// `[mm:ss]` (two digits, a colon, two digits, in square brackets) starts
/// at position `i` of `s`.
pub open spec fn citation_at(s: Seq<char>, i: int) -> bool {
    0 <= i && i + 6 < s.len() && s[i] == '[' && is_digit(s[i + 1]) && is_digit(s[i + 2]) && s[i
        + 3] == ':' && is_digit(s[i + 4]) && is_digit(s[i + 5]) && s[i + 6] == ']'
}

/// Whether `s` contains at least one `[mm:ss]`-shaped citation.
pub fn contains_mm_ss_citation(s: &str) -> (b: bool)
    ensures
        b == exists|i: int| citation_at(s@, i),
{
    let cs = chars_of(s);
    let mut i: usize = 0;
    while i < cs.len()
        invariant
            i <= cs@.len(),
            cs@ == s@,
            forall|j: int| 0 <= j < i ==> !citation_at(s@, j),
        decreases cs@.len() - i,
    {
        if cs[i] == '[' && cs.len() - i > 6 {
            let d1 = cs[i + 1];
            let d2 = cs[i + 2];
            let d4 = cs[i + 4];
            let d5 = cs[i + 5];
            if '0' <= d1 && d1 <= '9' && '0' <= d2 && d2 <= '9' && cs[i + 3] == ':' && '0' <= d4
                && d4 <= '9' && '0' <= d5 && d5 <= '9' && cs[i + 6] == ']' {
                assert(citation_at(s@, i as int));
                return true;
            }
        }
        i = i + 1;
    }
    false
}

// ---------------------------------------------------------------------------
// Suggested note titles
// ---------------------------------------------------------------------------

/// The title every note is created with, before it is given a real one.
pub const DEFAULT_NOTE_TITLE: &'static str = "New recording";

pub open spec fn default_note_title() -> Seq<char> {
    "New recording"@
}

/// Longest title, in bytes, a suggestion is cut down to.
pub const MAX_SUGGESTED_TITLE_LEN: usize = 60;

/// How many leading chars of `s` satisfy `p`.
pub open spec fn lead_matching(s: Seq<char>, p: spec_fn(char) -> bool) -> int
    decreases s.len(),
{
    if s.len() == 0 {
        0
    } else if p(s[0]) {
        1 + lead_matching(s.drop_first(), p)
    } else {
        0
    }
}

/// One past the last char of `s` not satisfying `p` (0 if all do).
pub open spec fn trail_keep(s: Seq<char>, p: spec_fn(char) -> bool) -> int
    decreases s.len(),
{
    if s.len() == 0 {
        0
    } else if p(s.last()) {
        trail_keep(s.drop_last(), p)
    } else {
        s.len() as int
    }
}

pub proof fn lemma_lead_matching(s: Seq<char>, p: spec_fn(char) -> bool, k: int)
    requires
        0 <= k <= s.len(),
        forall|i: int| 0 <= i < k ==> p(#[trigger] s[i]),
        k < s.len() ==> !p(s[k]),
    ensures
        lead_matching(s, p) == k,
    decreases s.len(),
{
    if s.len() > 0 && k > 0 {
        assert forall|i: int| 0 <= i < k - 1 implies p(#[trigger] s.drop_first()[i]) by {
            assert(s.drop_first()[i] == s[i + 1]);
        }
        lemma_lead_matching(s.drop_first(), p, k - 1);
    }
}

pub proof fn lemma_trail_keep(s: Seq<char>, p: spec_fn(char) -> bool, k: int)
    requires
        0 <= k <= s.len(),
        forall|i: int| k <= i < s.len() ==> p(#[trigger] s[i]),
        k > 0 ==> !p(s[k - 1]),
    ensures
        trail_keep(s, p) == k,
    decreases s.len(),
{
    if s.len() > 0 && k < s.len() {
        assert forall|i: int| k <= i < s.len() - 1 implies p(#[trigger] s.drop_last()[i]) by {
            assert(s.drop_last()[i] == s[i]);
        }
        lemma_trail_keep(s.drop_last(), p, k);
    }
}

pub open spec fn is_quote(c: char) -> bool {
    c == '"' || c == '\'' || c == '\u{201c}' || c == '\u{201d}'
}

pub open spec fn is_period(c: char) -> bool {
    c == '.'
}

/// `str::trim_matches` with quote characters.
pub open spec fn strip_quotes(s: Seq<char>) -> Seq<char> {
    let a = s.skip(lead_matching(s, |c: char| is_quote(c)));
    a.take(trail_keep(a, |c: char| is_quote(c)))
}

fn strip_quotes_chars(s: &[char]) -> (r: Vec<char>)
    ensures
        r@ == strip_quotes(s@),
{
    let ghost q = |c: char| is_quote(c);
    let mut i: usize = 0;
    while i < s.len() && (s[i] == '"' || s[i] == '\'' || s[i] == '\u{201c}' || s[i] == '\u{201d}')
        invariant
            i <= s@.len(),
            forall|j: int| 0 <= j < i ==> is_quote(#[trigger] s@[j]),
        decreases s@.len() - i,
    {
        i = i + 1;
    }
    proof {
        lemma_lead_matching(s@, q, i as int);
    }
    let a = slice_vec(s, i, s.len());
    assert(a@ =~= s@.skip(lead_matching(s@, q)));
    let mut k: usize = a.len();
    while k > 0 && (a[k - 1] == '"' || a[k - 1] == '\'' || a[k - 1] == '\u{201c}' || a[k - 1]
        == '\u{201d}')
        invariant
            k <= a@.len(),
            forall|j: int| k <= j < a@.len() ==> is_quote(#[trigger] a@[j]),
        decreases k,
    {
        k = k - 1;
    }
    proof {
        lemma_trail_keep(a@, q, k as int);
    }
    let r = slice_vec(&a, 0, k);
    assert(r@ =~= strip_quotes(s@));
    r
}

/// `str::trim_end_matches('.')`.
pub open spec fn strip_trailing_periods(s: Seq<char>) -> Seq<char> {
    s.take(trail_keep(s, |c: char| is_period(c)))
}

fn strip_trailing_periods_chars(s: &[char]) -> (r: Vec<char>)
    ensures
        r@ == strip_trailing_periods(s@),
{
    let mut k: usize = s.len();
    while k > 0 && s[k - 1] == '.'
        invariant
            k <= s@.len(),
            forall|j: int| k <= j < s@.len() ==> is_period(#[trigger] s@[j]),
        decreases k,
    {
        k = k - 1;
    }
    proof {
        lemma_trail_keep(s@, |c: char| is_period(c), k as int);
    }
    let r = slice_vec(s, 0, k);
    assert(r@ =~= strip_trailing_periods(s@));
    r
}

/// The words of `s` (maximal whitespace-free runs) joined by single spaces,
/// as the state of a left-to-right scan: the text so far, whether a space
/// is owed before the next word, whether any word has been seen.
pub open spec fn collapse_state(s: Seq<char>) -> (Seq<char>, bool, bool)
    decreases s.len(),
{
    if s.len() == 0 {
        (Seq::empty(), false, false)
    } else {
        let prev = collapse_state(s.drop_last());
        let c = s.last();
        if is_ws(c) {
            (prev.0, prev.2, prev.2)
        } else if prev.1 {
            (prev.0.push(' ').push(c), false, true)
        } else {
            (prev.0.push(c), false, true)
        }
    }
}

/// `s.split_whitespace().collect::<Vec<_>>().join(" ")`.
pub open spec fn collapse_ws(s: Seq<char>) -> Seq<char> {
    collapse_state(s).0
}

fn collapse_ws_chars(s: &[char]) -> (r: Vec<char>)
    ensures
        r@ == collapse_ws(s@),
{
    let mut out: Vec<char> = Vec::new();
    let mut pending = false;
    let mut started = false;
    let mut i: usize = 0;
    while i < s.len()
        invariant
            i <= s@.len(),
            (out@, pending, started) == collapse_state(s@.take(i as int)),
        decreases s@.len() - i,
    {
        assert(s@.take(i + 1).drop_last() =~= s@.take(i as int));
        let c = s[i];
        if is_whitespace(c) {
            pending = started;
        } else {
            if pending {
                out.push(' ');
            }
            out.push(c);
            pending = false;
            started = true;
        }
        i = i + 1;
    }
    assert(s@.take(i as int) =~= s@);
    out
}

pub open spec fn ascii_lower(c: char) -> int {
    if 'A' <= c <= 'Z' {
        (c as u32) + 32int
    } else {
        (c as u32) as int
    }
}

/// `str::eq_ignore_ascii_case` against an ASCII string.
pub open spec fn eq_ignore_ascii_case(a: Seq<char>, b: Seq<char>) -> bool {
    a.len() == b.len() && forall|i: int| 0 <= i < a.len() ==> ascii_lower(a[i]) == ascii_lower(b[i])
}

fn eq_ignore_ascii_case_chars(a: &[char], b: &[char]) -> (r: bool)
    ensures
        r == eq_ignore_ascii_case(a@, b@),
{
    if a.len() != b.len() {
        return false;
    }
    let mut i: usize = 0;
    while i < a.len()
        invariant
            i <= a@.len(),
            a@.len() == b@.len(),
            forall|j: int| 0 <= j < i ==> ascii_lower(a@[j]) == ascii_lower(b@[j]),
        decreases a@.len() - i,
    {
        let x = a[i];
        let y = b[i];
        let lx: u32 = if 'A' <= x && x <= 'Z' { x as u32 + 32 } else { x as u32 };
        let ly: u32 = if 'A' <= y && y <= 'Z' { y as u32 + 32 } else { y as u32 };
        if lx != ly {
            return false;
        }
        i = i + 1;
    }
    true
}

/// The first line of `s` (up to its first newline).
pub open spec fn first_line(s: Seq<char>) -> Seq<char> {
    match first_index_of(s, seq!['\n']) {
        Some(i) => s.take(i),
        None => s,
    }
}

/// The suggestion reduced to one clean line: first line, quotes and trailing
/// periods off, whitespace collapsed to single spaces.
pub open spec fn collapsed_title(raw: Seq<char>) -> Seq<char> {
    let unquoted = trim(strip_quotes(trim(first_line(raw))));
    collapse_ws(trim(strip_trailing_periods(unquoted)))
}

/// A model-suggested title cleaned for the sidebar, or `None` when nothing
/// usable survives; over-long ones are cut on the last word boundary within
/// [`MAX_SUGGESTED_TITLE_LEN`] bytes (a hard char-boundary cut when one word
/// is longer than that).
pub open spec fn sanitized_title(raw: Seq<char>) -> Option<Seq<char>> {
    let collapsed = collapsed_title(raw);
    if collapsed.len() == 0 || eq_ignore_ascii_case(collapsed, default_note_title()) {
        None
    } else if utf8_len(collapsed) <= 60 {
        Some(collapsed)
    } else {
        let hard = floor_chars(collapsed, 60);
        let cut = match last_index_of(collapsed.take(hard), seq![' ']) {
            Some(i) => i,
            None => hard,
        };
        let truncated = trim_end(collapsed.take(cut));
        if truncated.len() == 0 {
            None
        } else {
            Some(truncated)
        }
    }
}

/// A cleaned title suggestion is never empty and never longer than
/// [`MAX_SUGGESTED_TITLE_LEN`] bytes.
pub proof fn law_suggested_title_fits(raw: Seq<char>)
    ensures
        sanitized_title(raw) matches Some(t) ==> 0 < t.len() && utf8_len(t) <= 60,
{
    let collapsed = collapsed_title(raw);
    if collapsed.len() > 0 && !eq_ignore_ascii_case(collapsed, default_note_title()) && utf8_len(
        collapsed,
    ) > 60 {
        lemma_fits_prefix_exists(collapsed, 60);
        let hard = floor_chars(collapsed, 60);
        let head = collapsed.take(hard);
        lemma_index_of_some(head, seq![' ']);
        let cut = match last_index_of(head, seq![' ']) {
            Some(i) => i,
            None => hard,
        };
        assert(0 <= cut <= hard);
        let part = collapsed.take(cut);
        lemma_trim_end_at(part);
        let e = trim_end_at(part);
        assert(part.take(e) =~= collapsed.take(e));
        lemma_utf8_len_take_mono(collapsed, e, hard);
    }
}

fn option_string(o: Option<Vec<char>>) -> (r: Option<String>)
    ensures
        match o {
            Some(v) => r matches Some(s) && s@ == v@,
            None => r is None,
        },
{
    match o {
        Some(v) => Some(string_from_chars(&v)),
        None => None,
    }
}

fn sanitized_title_chars(raw: &[char]) -> (r: Option<Vec<char>>)
    ensures
        match sanitized_title(raw@) {
            Some(t) => r matches Some(v) && v@ == t,
            None => r is None,
        },
{
    let nl = ['\n'];
    assert(nl@ =~= seq!['\n']);
    let line = match find_seq(raw, &nl) {
        Some(i) => slice_vec(raw, 0, i),
        None => slice_vec(raw, 0, raw.len()),
    };
    assert(line@ =~= first_line(raw@));
    let t1 = trim_chars(&line);
    let q = strip_quotes_chars(&t1);
    let unquoted = trim_chars(&q);
    let p = strip_trailing_periods_chars(&unquoted);
    let t2 = trim_chars(&p);
    let collapsed = collapse_ws_chars(&t2);
    assert(collapsed@ == collapsed_title(raw@));
    let default_title = chars_of("New recording");
    if collapsed.len() == 0 || eq_ignore_ascii_case_chars(&collapsed, &default_title) {
        return None;
    }
    let total = utf8_len_of(&collapsed);
    if total <= 60 {
        return Some(collapsed);
    }
    let hard = floor_chars_exec(&collapsed, 60);
    let head = slice_vec(&collapsed, 0, hard);
    assert(head@ =~= collapsed@.take(hard as int));
    let sp = [' '];
    assert(sp@ =~= seq![' ']);
    let cut = match rfind_seq(&head, &sp) {
        Some(i) => i,
        None => hard,
    };
    let kept = slice_vec(&collapsed, 0, cut);
    assert(kept@ =~= collapsed@.take(cut as int));
    let truncated = trim_end_chars(&kept);
    if truncated.len() == 0 {
        None
    } else {
        Some(truncated)
    }
}

/// Cleans a model-authored note title into something worth putting in the
/// sidebar, or `None` if nothing usable survives.
pub fn sanitize_suggested_title(raw: &str) -> (r: Option<String>)
    ensures
        match sanitized_title(raw@) {
            Some(t) => r matches Some(s) && s@ == t,
            None => r is None,
        },
{
    let cs = chars_of(raw);
    option_string(sanitized_title_chars(&cs))
}

/// The title a just-summarized note should take: `Some` only when the note
/// still carries the default title and the suggestion survives
/// sanitizing — a title the user chose is never overwritten.
pub open spec fn rename_to(current: Seq<char>, suggested: Seq<char>) -> Option<Seq<char>> {
    if current != default_note_title() {
        None
    } else {
        sanitized_title(suggested)
    }
}

/// The new title a just-summarized note should take, or `None` to leave it
/// alone.
pub fn rename_target(current_title: &str, suggested: &str) -> (r: Option<String>)
    ensures
        match rename_to(current_title@, suggested@) {
            Some(t) => r matches Some(s) && s@ == t,
            None => r is None,
        },
        current_title@ != default_note_title() ==> r is None,
{
    if !crate::text::str_eq(current_title, DEFAULT_NOTE_TITLE) {
        return None;
    }
    sanitize_suggested_title(suggested)
}

} // verus!
