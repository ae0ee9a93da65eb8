//! Case-insensitive search over notes' titles and transcript turns, with a
//! short excerpt around each match.
use vstd::prelude::*;

use crate::text::{
    chars_of, char_to_lowercase, find_seq, lemma_trim_idempotent, first_index_of, lowercase_of, lowercase_str,
    occurs_at, push_chars, slice_vec, str_to_lowercase, string_from_chars, trim, trim_chars,
};

verus! {

/// How many hits one search returns at most.
pub const SEARCH_HIT_CAP: usize = 50;

/// How many transcript hits one note contributes at most.
pub const SEARCH_PER_NOTE_TRANSCRIPT_CAP: usize = 3;

/// How many chars an excerpt keeps either side of the match.
pub const SEARCH_SNIPPET_RADIUS: usize = 40;

/// `s` lowercased char by char (a char may lower to several).
pub open spec fn lowered(s: Seq<char>) -> Seq<char>
    decreases s.len(),
{
    if s.len() == 0 {
        Seq::empty()
    } else {
        lowered(s.drop_last()) + lowercase_of(s.last())
    }
}

/// For every char of [`lowered`]`(s)`, the position in `s` of the char it
/// came from.
pub open spec fn lowered_origin(s: Seq<char>) -> Seq<int>
    decreases s.len(),
{
    if s.len() == 0 {
        Seq::empty()
    } else {
        lowered_origin(s.drop_last()) + Seq::new(lowercase_of(s.last()).len(), |k: int| s.len() - 1)
    }
}

proof fn lemma_origin(s: Seq<char>)
    ensures
        lowered_origin(s).len() == lowered(s).len(),
        forall|k: int|
            0 <= k < lowered_origin(s).len() ==> 0 <= #[trigger] lowered_origin(s)[k] < s.len(),
        forall|a: int, b: int|
            0 <= a <= b < lowered_origin(s).len() ==> lowered_origin(s)[a] <= lowered_origin(s)[b],
    decreases s.len(),
{
    if s.len() > 0 {
        lemma_origin(s.drop_last());
    }
}

/// The excerpt around the first match of `needle` (already lowercased) in
/// `haystack` lowercased: up to 40 chars of the original text either side
/// of the original chars the match came from, with `…` where it was cut.
pub open spec fn snippet_window(haystack: Seq<char>, needle: Seq<char>) -> Option<Seq<char>> {
    if needle.len() == 0 {
        None
    } else {
        match first_index_of(lowered(haystack), needle) {
            None => None,
            Some(st) => {
                let origin = lowered_origin(haystack);
                let os = origin[st];
                let oe = origin[st + needle.len() - 1] + 1;
                let ss = if os >= 40 {
                    os - 40
                } else {
                    0
                };
                let se = if oe + 40 <= haystack.len() {
                    oe + 40
                } else {
                    haystack.len() as int
                };
                Some(
                    (if ss > 0 {
                        seq!['…']
                    } else {
                        Seq::empty()
                    }) + haystack.subrange(ss, se) + (if se < haystack.len() {
                        seq!['…']
                    } else {
                        Seq::empty()
                    }),
                )
            },
        }
    }
}

/// The excerpt of `haystack` around the first case-insensitive match of
/// `needle_lower` (already lowercased), or `None` when it does not occur.
/// Always cut from the original text, never the lowercased copy.
pub fn find_snippet(haystack: &str, needle_lower: &str) -> (r: Option<String>)
    ensures
        match snippet_window(haystack@, needle_lower@) {
            Some(w) => r matches Some(s) && s@ == w,
            None => r is None,
        },
{
    let needle = chars_of(needle_lower);
    if needle.len() == 0 {
        return None;
    }
    let orig = chars_of(haystack);
    let ghost h = orig@;
    let mut low: Vec<char> = Vec::new();
    let mut origin: Vec<usize> = Vec::new();
    let n = orig.len();
    let mut i: usize = 0;
    assert(h.take(0) =~= Seq::<char>::empty());
    while i < n
        invariant
            i <= n,
            n == h.len(),
            h == orig@,
            low@ == lowered(h.take(i as int)),
            origin@.map_values(|u: usize| u as int) == lowered_origin(h.take(i as int)),
        decreases n - i,
    {
        assert(h.take(i + 1).drop_last() =~= h.take(i as int));
        let lc = char_to_lowercase(orig[i]);
        let ghost low0 = low@;
        let ghost org0 = origin@;
        let mut k: usize = 0;
        while k < lc.len()
            invariant
                k <= lc@.len(),
                i < n,
                low@ == low0 + lc@.take(k as int),
                origin@.len() == org0.len() + k,
                forall|a: int| 0 <= a < org0.len() ==> origin@[a] == org0[a],
                forall|a: int| org0.len() <= a < origin@.len() ==> origin@[a] == i,
            decreases lc@.len() - k,
        {
            low.push(lc[k]);
            origin.push(i);
            assert(low@ =~= low0 + lc@.take(k + 1));
            k = k + 1;
        }
        assert(lc@.take(k as int) =~= lc@);
        assert(low@ =~= lowered(h.take(i + 1)));
        assert(origin@.map_values(|u: usize| u as int) =~= lowered_origin(h.take(i + 1)));
        i = i + 1;
    }
    assert(h.take(i as int) =~= h);
    proof {
        lemma_origin(h);
    }
    let st = match find_seq(&low, &needle) {
        Some(st) => st,
        None => {
            return None;
        },
    };
    let ghost org = lowered_origin(h);
    assert(origin@[st as int] as int == org[st as int]);
    let os = origin[st];
    let nl = needle.len();
    let lowlen = low.len();
    assert(st + nl <= lowlen);
    let last = st + nl - 1;
    assert(origin@[last as int] as int == org[last as int]);
    let oe = origin[last] + 1;
    let ss: usize = if os >= 40 {
        os - 40
    } else {
        0
    };
    let se: usize = if n - oe >= 40 {
        oe + 40
    } else {
        n
    };
    assert(ss <= se);
    let mut out: Vec<char> = Vec::new();
    if ss > 0 {
        out.push('…');
    }
    let core = slice_vec(&orig, ss, se);
    push_chars(&mut out, &core);
    if se < n {
        out.push('…');
    }
    assert(out@ =~= snippet_window(haystack@, needle_lower@)->0);
    Some(string_from_chars(&out))
}

// ---------------------------------------------------------------------------
// Searching the library
// ---------------------------------------------------------------------------

/// Which text of a note a hit matched: its title or a transcript turn.
#[derive(Clone, Copy, Debug, PartialEq, Eq, Structural)]
pub enum SearchHitKind {
    Title,
    Transcript,
}

/// A note as search reads it: id, title, and its turns' text in order.
#[derive(Debug, Clone, PartialEq)]
pub struct SearchableNote {
    pub id: String,
    pub title: String,
    pub segments: Vec<String>,
}

/// One hit: which note, which turn (none for a title hit), the excerpt.
#[derive(Debug, Clone, PartialEq)]
pub struct SearchMatch {
    pub note_id: String,
    pub title: String,
    pub snippet: String,
    pub segment_index: Option<usize>,
    pub kind: SearchHitKind,
}

/// What a hit holds.
pub struct SearchMatchView {
    pub note_id: Seq<char>,
    pub title: Seq<char>,
    pub snippet: Seq<char>,
    pub segment_index: Option<int>,
    pub kind: SearchHitKind,
}

impl View for SearchMatch {
    type V = SearchMatchView;

    open spec fn view(&self) -> SearchMatchView {
        SearchMatchView {
            note_id: self.note_id@,
            title: self.title@,
            snippet: self.snippet@,
            segment_index: match self.segment_index {
                Some(i) => Some(i as int),
                None => None,
            },
            kind: self.kind,
        }
    }
}

/// The title hits over `notes`, in note order.
pub open spec fn title_hits(notes: Seq<SearchableNote>, needle: Seq<char>) -> Seq<SearchMatchView>
    decreases notes.len(),
{
    if notes.len() == 0 {
        Seq::empty()
    } else {
        let prev = title_hits(notes.drop_last(), needle);
        let n = notes.last();
        match snippet_window(n.title@, needle) {
            Some(w) => prev.push(
                SearchMatchView {
                    note_id: n.id@,
                    title: n.title@,
                    snippet: w,
                    segment_index: None,
                    kind: SearchHitKind::Title,
                },
            ),
            None => prev,
        }
    }
}

/// One note's transcript hits over its first `k` turns, at most three.
pub open spec fn note_turn_hits(n: SearchableNote, needle: Seq<char>, k: int) -> Seq<SearchMatchView>
    decreases k,
{
    if k <= 0 {
        Seq::empty()
    } else {
        let prev = note_turn_hits(n, needle, k - 1);
        if prev.len() >= 3 {
            prev
        } else {
            match snippet_window(n.segments@[k - 1]@, needle) {
                Some(w) => prev.push(
                    SearchMatchView {
                        note_id: n.id@,
                        title: n.title@,
                        snippet: w,
                        segment_index: Some(k - 1),
                        kind: SearchHitKind::Transcript,
                    },
                ),
                None => prev,
            }
        }
    }
}

/// The transcript hits over `notes`, note by note.
pub open spec fn transcript_hits(notes: Seq<SearchableNote>, needle: Seq<char>) -> Seq<SearchMatchView>
    decreases notes.len(),
{
    if notes.len() == 0 {
        Seq::empty()
    } else {
        transcript_hits(notes.drop_last(), needle) + note_turn_hits(
            notes.last(),
            needle,
            notes.last().segments@.len() as int,
        )
    }
}

/// What a search for `query` over `notes` (newest first) returns: nothing
/// for a blank query; otherwise every title hit, then the transcript hits,
/// cut to 50.
pub open spec fn search_results(notes: Seq<SearchableNote>, query: Seq<char>) -> Seq<SearchMatchView> {
    let t = trim(query);
    if t.len() == 0 {
        Seq::empty()
    } else {
        let needle = lowercase_str(t);
        let all = title_hits(notes, needle) + transcript_hits(notes, needle);
        if all.len() > 50 {
            all.take(50)
        } else {
            all
        }
    }
}

proof fn lemma_turn_hits(n: SearchableNote, needle: Seq<char>, k: int)
    ensures
        note_turn_hits(n, needle, k).len() <= 3,
        forall|i: int|
            0 <= i < note_turn_hits(n, needle, k).len() ==> (#[trigger] note_turn_hits(
                n,
                needle,
                k,
            )[i]).kind == SearchHitKind::Transcript,
    decreases k,
{
    if k > 0 {
        lemma_turn_hits(n, needle, k - 1);
    }
}

proof fn lemma_title_hits_kind(notes: Seq<SearchableNote>, needle: Seq<char>)
    ensures
        forall|i: int|
            0 <= i < title_hits(notes, needle).len() ==> (#[trigger] title_hits(notes, needle)[i]).kind
                == SearchHitKind::Title,
    decreases notes.len(),
{
    if notes.len() > 0 {
        lemma_title_hits_kind(notes.drop_last(), needle);
    }
}

proof fn lemma_transcript_hits_kind(notes: Seq<SearchableNote>, needle: Seq<char>)
    ensures
        forall|i: int|
            0 <= i < transcript_hits(notes, needle).len() ==> (#[trigger] transcript_hits(
                notes,
                needle,
            )[i]).kind == SearchHitKind::Transcript,
    decreases notes.len(),
{
    if notes.len() > 0 {
        let n = notes.last();
        let k = n.segments@.len() as int;
        lemma_transcript_hits_kind(notes.drop_last(), needle);
        lemma_turn_hits(n, needle, k);
        let a = transcript_hits(notes.drop_last(), needle);
        let b = note_turn_hits(n, needle, k);
        assert forall|i: int| 0 <= i < (a + b).len() implies (#[trigger] (a + b)[i]).kind
            == SearchHitKind::Transcript by {
            if i >= a.len() {
                assert((a + b)[i] == b[i - a.len()]);
            }
        }
    }
}

/// A search returns at most 50 hits, and every title hit comes before
/// every transcript hit; one note's turns give at most three hits.
pub proof fn law_search_caps(notes: Seq<SearchableNote>, query: Seq<char>, n: SearchableNote, needle: Seq<char>)
    ensures
        search_results(notes, query).len() <= 50,
        forall|i: int, j: int|
            0 <= i < j < search_results(notes, query).len() && (#[trigger] search_results(
                notes,
                query,
            )[j]).kind == SearchHitKind::Title ==> (#[trigger] search_results(notes, query)[i]).kind
                == SearchHitKind::Title,
        note_turn_hits(n, needle, n.segments@.len() as int).len() <= 3,
{
    lemma_turn_hits(n, needle, n.segments@.len() as int);
    let t = trim(query);
    if t.len() > 0 {
        let needle_q = lowercase_str(t);
        let a = title_hits(notes, needle_q);
        let b = transcript_hits(notes, needle_q);
        lemma_title_hits_kind(notes, needle_q);
        lemma_transcript_hits_kind(notes, needle_q);
        let all = a + b;
        assert forall|i: int, j: int|
            0 <= i < j < all.len() && (#[trigger] all[j]).kind == SearchHitKind::Title implies (
            #[trigger] all[i]).kind == SearchHitKind::Title by {
            if j >= a.len() {
                assert(all[j] == b[j - a.len()]);
            }
            assert(all[i] == a[i]);
        }
        let r = search_results(notes, query);
        assert forall|i: int, j: int|
            0 <= i < j < r.len() && (#[trigger] r[j]).kind == SearchHitKind::Title implies (
            #[trigger] r[i]).kind == SearchHitKind::Title by {
            assert(r[j] == all[j]);
            assert(r[i] == all[i]);
        }
    }
}

/// A search looks for the query with the whitespace around it trimmed: a
/// query and its trimmed form find the same hits, whatever the notes hold.
pub proof fn law_search_trims_the_query(notes: Seq<SearchableNote>, query: Seq<char>)
    ensures
        search_results(notes, query) == search_results(notes, trim(query)),
{
    lemma_trim_idempotent(query);
}

pub open spec fn match_views(v: Seq<SearchMatch>) -> Seq<SearchMatchView> {
    v.map_values(|m: SearchMatch| m@)
}

/// Whether `query` is blank, nothing left once whitespace is trimmed: a
/// search for it finds nothing, whatever the notes hold.
pub fn is_blank_query(query: &str) -> (b: bool)
    ensures
        b == (trim(query@).len() == 0),
        b ==> forall|notes: Seq<SearchableNote>| #[trigger] search_results(notes, query@).len() == 0,
{
    let qc = chars_of(query);
    let t = trim_chars(&qc);
    t.len() == 0
}

/// Case-insensitive search over every note's title and transcript turns:
/// title hits before transcript hits, each group in note order (newest
/// first, as given), at most three transcript hits per note and 50 in all;
/// a blank query finds nothing.
pub fn search_notes(notes: &[SearchableNote], query: &str) -> (r: Vec<SearchMatch>)
    ensures
        match_views(r@) == search_results(notes@, query@),
{
    let qc = chars_of(query);
    let t = trim_chars(&qc);
    if t.len() == 0 {
        let r: Vec<SearchMatch> = Vec::new();
        assert(match_views(r@) =~= Seq::<SearchMatchView>::empty());
        return r;
    }
    let ts = string_from_chars(&t);
    let needle = str_to_lowercase(ts.as_str());
    let ghost nd = needle@;
    let mut titles: Vec<SearchMatch> = Vec::new();
    let mut turns: Vec<SearchMatch> = Vec::new();
    let mut i: usize = 0;
    assert(notes@.take(0) =~= Seq::<SearchableNote>::empty());
    while i < notes.len()
        invariant
            i <= notes@.len(),
            nd == needle@,
            match_views(titles@) == title_hits(notes@.take(i as int), nd),
            match_views(turns@) == transcript_hits(notes@.take(i as int), nd),
        decreases notes@.len() - i,
    {
        assert(notes@.take(i + 1).drop_last() =~= notes@.take(i as int));
        let note = &notes[i];
        match find_snippet(note.title.as_str(), needle.as_str()) {
            Some(w) => {
                titles.push(
                    SearchMatch {
                        note_id: note.id.clone(),
                        title: note.title.clone(),
                        snippet: w,
                        segment_index: None,
                        kind: SearchHitKind::Title,
                    },
                );
            },
            None => {},
        }
        assert(match_views(titles@) =~= title_hits(notes@.take(i + 1), nd));
        let ghost turns0 = match_views(turns@);
        let mut hits_here: usize = 0;
        let mut k: usize = 0;
        while k < note.segments.len() && hits_here < 3
            invariant
                k <= note.segments@.len(),
                nd == needle@,
                note_turn_hits(*note, nd, k as int).len() == hits_here,
                hits_here <= 3,
                match_views(turns@) == turns0 + note_turn_hits(*note, nd, k as int),
            decreases note.segments@.len() - k,
        {
            let ghost before = turns@;
            match find_snippet(note.segments[k].as_str(), needle.as_str()) {
                Some(w) => {
                    turns.push(
                        SearchMatch {
                            note_id: note.id.clone(),
                            title: note.title.clone(),
                            snippet: w,
                            segment_index: Some(k),
                            kind: SearchHitKind::Transcript,
                        },
                    );
                    hits_here = hits_here + 1;
                    assert(match_views(turns@) =~= match_views(before).push(turns@[turns@.len() - 1]@));
                },
                None => {},
            }
            assert(match_views(turns@) =~= turns0 + note_turn_hits(*note, nd, k + 1));
            k = k + 1;
        }
        proof {
            lemma_turn_hits_saturate(*note, nd, k as int, note.segments@.len() as int);
        }
        assert(match_views(turns@) =~= transcript_hits(notes@.take(i + 1), nd));
        i = i + 1;
    }
    assert(notes@.take(i as int) =~= notes@);
    let mut all = titles;
    let mut j: usize = 0;
    let ghost t0 = match_views(all@);
    while j < turns.len()
        invariant
            j <= turns@.len(),
            match_views(all@) == t0 + match_views(turns@).take(j as int),
        decreases turns@.len() - j,
    {
        let m = &turns[j];
        let ghost before = all@;
        all.push(
            SearchMatch {
                note_id: m.note_id.clone(),
                title: m.title.clone(),
                snippet: m.snippet.clone(),
                segment_index: m.segment_index,
                kind: m.kind,
            },
        );
        assert(all@[all@.len() - 1]@ == turns@[j as int]@);
        assert(match_views(all@) =~= match_views(before).push(turns@[j as int]@));
        assert(match_views(turns@).take(j + 1) =~= match_views(turns@).take(j as int).push(turns@[j as int]@));
        assert(match_views(all@) =~= t0 + match_views(turns@).take(j + 1));
        j = j + 1;
    }
    assert(match_views(turns@).take(j as int) =~= match_views(turns@));
    if all.len() > SEARCH_HIT_CAP {
        all.truncate(SEARCH_HIT_CAP);
        assert(match_views(all@) =~= search_results(notes@, query@));
    }
    all
}

proof fn lemma_turn_hits_saturate(n: SearchableNote, needle: Seq<char>, k: int, total: int)
    requires
        0 <= k <= total,
        total == n.segments@.len(),
        k < total ==> note_turn_hits(n, needle, k).len() >= 3,
    ensures
        note_turn_hits(n, needle, total) == note_turn_hits(n, needle, k),
    decreases total - k,
{
    if k < total {
        lemma_turn_hits_saturate(n, needle, k + 1, total);
    }
}

} // verus!
