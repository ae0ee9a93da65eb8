//! Character-level text primitives shared by the prompt builder, the model
//! output extractor and the library search: UTF-8 byte accounting over
//! `char` sequences, whitespace trimming, line and substring search, and
//! decimal rendering.
use vstd::prelude::*;
use vstd::string::*;

verus! {

// ---------------------------------------------------------------------------
// Conversions between `str`/`String` and character vectors
// ---------------------------------------------------------------------------

/// The characters of `s`, in order.
pub fn chars_of(s: &str) -> (r: Vec<char>)
    ensures
        r@ == s@,
{
    let mut out: Vec<char> = Vec::new();
    for c in it: s.chars()
        invariant
            out@ == it.seq().take(it.index() as int),
            it.seq() == s@,
    {
        out.push(c);
    }
    out
}

/// Builds a `String` holding exactly `chars` (std's `FromIterator<&char>`
/// for `String`); claimed: the result's characters are `chars`, in order.
#[verifier::external_body]
pub(crate) fn string_from_chars(chars: &[char]) -> (s: String)
    ensures
        s@ == chars@,
{
    chars.iter().collect()
}

// ---------------------------------------------------------------------------
// UTF-8 byte accounting
// ---------------------------------------------------------------------------

/// Number of bytes UTF-8 spends on `c`.
pub open spec fn utf8_width(c: char) -> nat {
    if (c as u32) < 0x80 {
        1
    } else if (c as u32) < 0x800 {
        2
    } else if (c as u32) < 0x10000 {
        3
    } else {
        4
    }
}

/// Number of bytes of the UTF-8 encoding of `s`.
pub open spec fn utf8_len(s: Seq<char>) -> nat
    decreases s.len(),
{
    if s.len() == 0 {
        0
    } else {
        utf8_len(s.drop_last()) + utf8_width(s.last())
    }
}

/// `c`'s UTF-8 width.
pub fn char_width(c: char) -> (w: usize)
    ensures
        w == utf8_width(c),
        1 <= w <= 4,
{
    let v = c as u32;
    if v < 0x80 {
        1
    } else if v < 0x800 {
        2
    } else if v < 0x10000 {
        3
    } else {
        4
    }
}

pub proof fn lemma_utf8_len_take_step(s: Seq<char>, k: int)
    requires
        0 <= k < s.len(),
    ensures
        utf8_len(s.take(k + 1)) == utf8_len(s.take(k)) + utf8_width(s[k]),
{
    assert(s.take(k + 1).drop_last() =~= s.take(k));
}

pub proof fn lemma_utf8_len_bounds(s: Seq<char>)
    ensures
        s.len() <= utf8_len(s) <= 4 * s.len(),
    decreases s.len(),
{
    if s.len() > 0 {
        lemma_utf8_len_bounds(s.drop_last());
    }
}

pub proof fn lemma_utf8_len_concat(a: Seq<char>, b: Seq<char>)
    ensures
        utf8_len(a + b) == utf8_len(a) + utf8_len(b),
    decreases b.len(),
{
    if b.len() == 0 {
        assert(a + b =~= a);
    } else {
        assert((a + b).drop_last() =~= a + b.drop_last());
        lemma_utf8_len_concat(a, b.drop_last());
    }
}

pub proof fn lemma_utf8_len_take_mono(s: Seq<char>, i: int, j: int)
    requires
        0 <= i <= j <= s.len(),
    ensures
        utf8_len(s.take(i)) + (j - i) <= utf8_len(s.take(j)),
    decreases j - i,
{
    if i < j {
        lemma_utf8_len_take_mono(s, i, j - 1);
        lemma_utf8_len_take_step(s, j - 1);
    }
}

/// Byte length of `s`, computed without overflow.
pub fn utf8_len_of(s: &[char]) -> (n: u128)
    ensures
        n == utf8_len(s@),
{
    let mut n: u128 = 0;
    let mut i: usize = 0;
    while i < s.len()
        invariant
            i <= s@.len(),
            n == utf8_len(s@.take(i as int)),
            n <= 4 * i,
        decreases s@.len() - i,
    {
        proof {
            lemma_utf8_len_take_step(s@, i as int);
        }
        n = n + char_width(s[i]) as u128;
        i = i + 1;
    }
    proof {
        assert(s@.take(i as int) =~= s@);
    }
    n
}

/// The number of leading characters of `s` whose UTF-8 encoding fits in
/// `budget` bytes: the last char boundary at or before byte `budget`.
pub open spec fn fits_prefix(s: Seq<char>, budget: int, k: int) -> bool {
    &&& 0 <= k <= s.len()
    &&& utf8_len(s.take(k)) <= budget
    &&& (k == s.len() || utf8_len(s.take(k + 1)) > budget)
}

#[verifier::opaque]
pub open spec fn floor_chars(s: Seq<char>, budget: int) -> int {
    choose|k: int| fits_prefix(s, budget, k)
}

/// The number of leading characters of `s` needed to cover at least
/// `target` bytes (all of `s` when it is shorter): the first char boundary
/// at or after byte `target`.
pub open spec fn covers_prefix(s: Seq<char>, target: int, k: int) -> bool {
    &&& 0 <= k <= s.len()
    &&& (utf8_len(s.take(k)) >= target || k == s.len())
    &&& (k == 0 || utf8_len(s.take(k - 1)) < target)
}

#[verifier::opaque]
pub open spec fn ceil_chars(s: Seq<char>, target: int) -> int {
    choose|k: int| covers_prefix(s, target, k)
}

pub proof fn lemma_fits_prefix_exists(s: Seq<char>, budget: int)
    requires
        budget >= 0,
    ensures
        fits_prefix(s, budget, floor_chars(s, budget)),
    decreases s.len(),
{
    reveal(floor_chars);
    if s.len() == 0 {
        assert(s.take(0) =~= Seq::<char>::empty());
        assert(fits_prefix(s, budget, 0));
    } else {
        let d = s.drop_last();
        lemma_fits_prefix_exists(d, budget);
        let k = floor_chars(d, budget);
        assert(s.take(k) =~= d.take(k));
        if k < d.len() {
            assert(s.take(k + 1) =~= d.take(k + 1));
            assert(fits_prefix(s, budget, k));
        } else {
            assert(d.take(k) =~= d);
            if utf8_len(s.take(s.len() as int)) <= budget {
                assert(fits_prefix(s, budget, s.len() as int));
            } else {
                assert(fits_prefix(s, budget, k));
            }
        }
    }
}

pub proof fn lemma_covers_prefix_exists(s: Seq<char>, target: int)
    ensures
        covers_prefix(s, target, ceil_chars(s, target)),
    decreases s.len(),
{
    reveal(ceil_chars);
    if s.len() == 0 {
        assert(covers_prefix(s, target, 0));
    } else {
        let d = s.drop_last();
        lemma_covers_prefix_exists(d, target);
        let k = ceil_chars(d, target);
        assert(s.take(k) =~= d.take(k));
        if k > 0 {
            assert(s.take(k - 1) =~= d.take(k - 1));
        }
        if k < d.len() || utf8_len(d.take(k)) >= target {
            assert(covers_prefix(s, target, k));
        } else {
            assert(d.take(k) =~= d);
            assert(s.take(s.len() - 1) =~= d);
            assert(covers_prefix(s, target, s.len() as int));
        }
    }
}

pub proof fn lemma_fits_prefix_unique(s: Seq<char>, budget: int, k1: int, k2: int)
    requires
        fits_prefix(s, budget, k1),
        fits_prefix(s, budget, k2),
    ensures
        k1 == k2,
{
    if k1 < k2 {
        lemma_utf8_len_take_mono(s, k1 + 1, k2);
    } else if k2 < k1 {
        lemma_utf8_len_take_mono(s, k2 + 1, k1);
    }
}

pub proof fn lemma_covers_prefix_unique(s: Seq<char>, target: int, k1: int, k2: int)
    requires
        covers_prefix(s, target, k1),
        covers_prefix(s, target, k2),
    ensures
        k1 == k2,
{
    if k1 < k2 {
        lemma_utf8_len_take_mono(s, k1, k2 - 1);
    } else if k2 < k1 {
        lemma_utf8_len_take_mono(s, k2, k1 - 1);
    }
}

/// Exec form of [`floor_chars`].
pub fn floor_chars_exec(s: &[char], budget: u128) -> (k: usize)
    ensures
        fits_prefix(s@, budget as int, k as int),
        k == floor_chars(s@, budget as int),
{
    reveal(floor_chars);
    let mut bytes: u128 = 0;
    let mut i: usize = 0;
    while i < s.len()
        invariant
            i <= s@.len(),
            bytes == utf8_len(s@.take(i as int)),
            bytes <= budget,
            bytes <= 4 * i,
        decreases s@.len() - i,
    {
        proof {
            lemma_utf8_len_take_step(s@, i as int);
        }
        let w = char_width(s[i]) as u128;
        if bytes + w > budget {
            proof {
                reveal(floor_chars);
                assert(fits_prefix(s@, budget as int, i as int));
                lemma_fits_prefix_unique(s@, budget as int, i as int, floor_chars(s@, budget as int));
            }
            return i;
        }
        bytes = bytes + w;
        i = i + 1;
    }
    proof {
        assert(fits_prefix(s@, budget as int, i as int));
        lemma_fits_prefix_unique(s@, budget as int, i as int, floor_chars(s@, budget as int));
    }
    i
}

/// Exec form of [`ceil_chars`].
pub fn ceil_chars_exec(s: &[char], target: u128) -> (k: usize)
    ensures
        covers_prefix(s@, target as int, k as int),
        k == ceil_chars(s@, target as int),
{
    reveal(ceil_chars);
    let mut bytes: u128 = 0;
    let mut i: usize = 0;
    while i < s.len() && bytes < target
        invariant
            i <= s@.len(),
            bytes == utf8_len(s@.take(i as int)),
            i == 0 || utf8_len(s@.take(i - 1)) < target,
            bytes <= 4 * i,
        decreases s@.len() - i,
    {
        proof {
            lemma_utf8_len_take_step(s@, i as int);
        }
        bytes = bytes + char_width(s[i]) as u128;
        i = i + 1;
    }
    proof {
        assert(covers_prefix(s@, target as int, i as int));
        lemma_covers_prefix_unique(s@, target as int, i as int, ceil_chars(s@, target as int));
    }
    i
}

// ---------------------------------------------------------------------------
// Whitespace and trimming
// ---------------------------------------------------------------------------

/// Unicode `White_Space`, the set `char::is_whitespace` (and so `str::trim`
/// and `str::split_whitespace`) tests against.
pub open spec fn is_ws(c: char) -> bool {
    let v = c as u32;
    (0x9 <= v && v <= 0xd) || v == 0x20 || v == 0x85 || v == 0xa0 || v == 0x1680 || (0x2000 <= v
        && v <= 0x200a) || v == 0x2028 || v == 0x2029 || v == 0x202f || v == 0x205f || v == 0x3000
}

pub fn is_whitespace(c: char) -> (b: bool)
    ensures
        b == is_ws(c),
{
    let v = c as u32;
    (0x9 <= v && v <= 0xd) || v == 0x20 || v == 0x85 || v == 0xa0 || v == 0x1680 || (0x2000 <= v
        && v <= 0x200a) || v == 0x2028 || v == 0x2029 || v == 0x202f || v == 0x205f || v == 0x3000
}

/// Index of the first non-whitespace char of `s` (its length if none).
pub open spec fn trim_start_at(s: Seq<char>) -> int
    decreases s.len(),
{
    if s.len() == 0 {
        0
    } else if is_ws(s[0]) {
        1 + trim_start_at(s.drop_first())
    } else {
        0
    }
}

/// One past the last non-whitespace char of `s` (0 if none).
pub open spec fn trim_end_at(s: Seq<char>) -> int
    decreases s.len(),
{
    if s.len() == 0 {
        0
    } else if is_ws(s.last()) {
        trim_end_at(s.drop_last())
    } else {
        s.len() as int
    }
}

pub open spec fn trim_end(s: Seq<char>) -> Seq<char> {
    s.take(trim_end_at(s))
}

pub open spec fn trim_start(s: Seq<char>) -> Seq<char> {
    s.skip(trim_start_at(s))
}

/// `str::trim`.
pub open spec fn trim(s: Seq<char>) -> Seq<char> {
    trim_end(trim_start(s))
}

pub proof fn lemma_trim_start_at(s: Seq<char>)
    ensures
        0 <= trim_start_at(s) <= s.len(),
        forall|i: int| 0 <= i < trim_start_at(s) ==> is_ws(#[trigger] s[i]),
        trim_start_at(s) < s.len() ==> !is_ws(s[trim_start_at(s)]),
    decreases s.len(),
{
    if s.len() > 0 && is_ws(s[0]) {
        lemma_trim_start_at(s.drop_first());
        assert forall|i: int| 0 <= i < trim_start_at(s) implies is_ws(#[trigger] s[i]) by {
            if i > 0 {
                assert(s[i] == s.drop_first()[i - 1]);
            }
        }
    }
}

pub proof fn lemma_trim_end_at(s: Seq<char>)
    ensures
        0 <= trim_end_at(s) <= s.len(),
        forall|i: int| trim_end_at(s) <= i < s.len() ==> is_ws(#[trigger] s[i]),
        trim_end_at(s) > 0 ==> !is_ws(s[trim_end_at(s) - 1]),
    decreases s.len(),
{
    if s.len() > 0 && is_ws(s.last()) {
        lemma_trim_end_at(s.drop_last());
        assert forall|i: int| trim_end_at(s) <= i < s.len() implies is_ws(#[trigger] s[i]) by {
            if i < s.len() - 1 {
                assert(s[i] == s.drop_last()[i]);
            }
        }
    }
}

/// A position `k` is the trim-start point iff everything before it is
/// whitespace and the char at it (if any) is not.
pub proof fn lemma_trim_start_at_char(s: Seq<char>, k: int)
    requires
        0 <= k <= s.len(),
        forall|i: int| 0 <= i < k ==> is_ws(#[trigger] s[i]),
        k < s.len() ==> !is_ws(s[k]),
    ensures
        trim_start_at(s) == k,
{
    lemma_trim_start_at(s);
    if trim_start_at(s) < k {
        assert(is_ws(s[trim_start_at(s)]));
    } else if trim_start_at(s) > k {
        assert(is_ws(s[k]));
    }
}

pub proof fn lemma_trim_end_at_char(s: Seq<char>, k: int)
    requires
        0 <= k <= s.len(),
        forall|i: int| k <= i < s.len() ==> is_ws(#[trigger] s[i]),
        k > 0 ==> !is_ws(s[k - 1]),
    ensures
        trim_end_at(s) == k,
{
    lemma_trim_end_at(s);
    if trim_end_at(s) < k {
        assert(is_ws(s[k - 1]));
    } else if trim_end_at(s) > k {
        assert(is_ws(s[trim_end_at(s) - 1]));
    }
}

/// Trimming twice trims no more than trimming once.
pub proof fn lemma_trim_idempotent(s: Seq<char>)
    ensures
        trim(trim(s)) == trim(s),
{
    let u = trim_start(s);
    let t = trim(s);
    lemma_trim_start_at(s);
    lemma_trim_end_at(u);
    if t.len() == 0 {
        lemma_trim_start_at_char(t, 0);
        assert(trim_start(t) =~= t);
        lemma_trim_end_at_char(t, 0);
        assert(trim(t) =~= t);
    } else {
        assert(t[0] == u[0]);
        assert(u[0] == s[trim_start_at(s)]);
        assert(t[t.len() - 1] == u[t.len() - 1]);
        lemma_trim_start_at_char(t, 0);
        assert(trim_start(t) =~= t);
        lemma_trim_end_at_char(t, t.len() as int);
        assert(trim(t) =~= t);
    }
}

pub fn trim_start_index(s: &[char]) -> (k: usize)
    ensures
        k == trim_start_at(s@),
        k <= s@.len(),
{
    let mut i: usize = 0;
    while i < s.len() && is_whitespace(s[i])
        invariant
            i <= s@.len(),
            forall|j: int| 0 <= j < i ==> is_ws(#[trigger] s@[j]),
        decreases s@.len() - i,
    {
        i = i + 1;
    }
    proof {
        lemma_trim_start_at_char(s@, i as int);
    }
    i
}

pub fn trim_end_index(s: &[char]) -> (k: usize)
    ensures
        k == trim_end_at(s@),
        k <= s@.len(),
{
    let mut i: usize = s.len();
    while i > 0 && is_whitespace(s[i - 1])
        invariant
            i <= s@.len(),
            forall|j: int| i <= j < s@.len() ==> is_ws(#[trigger] s@[j]),
        decreases i,
    {
        i = i - 1;
    }
    proof {
        lemma_trim_end_at_char(s@, i as int);
    }
    i
}

/// Copies `s[from..to]`.
pub fn slice_vec(s: &[char], from: usize, to: usize) -> (r: Vec<char>)
    requires
        from <= to <= s@.len(),
    ensures
        r@ == s@.subrange(from as int, to as int),
{
    let mut out: Vec<char> = Vec::new();
    let mut i = from;
    while i < to
        invariant
            from <= i <= to,
            to <= s@.len(),
            out@ == s@.subrange(from as int, i as int),
        decreases to - i,
    {
        out.push(s[i]);
        i = i + 1;
    }
    out
}

/// `str::trim` over characters.
pub fn trim_chars(s: &[char]) -> (r: Vec<char>)
    ensures
        r@ == trim(s@),
{
    let a = trim_start_index(s);
    let rest = slice_vec(s, a, s.len());
    assert(rest@ =~= trim_start(s@));
    let b = trim_end_index(&rest);
    let r = slice_vec(&rest, 0, b);
    assert(r@ =~= trim(s@));
    r
}

/// `str::trim_end` over characters.
pub fn trim_end_chars(s: &[char]) -> (r: Vec<char>)
    ensures
        r@ == trim_end(s@),
{
    let b = trim_end_index(s);
    let r = slice_vec(s, 0, b);
    assert(r@ =~= trim_end(s@));
    r
}

/// Whether `s` is empty or all whitespace (`s.trim().is_empty()`).
pub open spec fn is_blank(s: Seq<char>) -> bool {
    forall|i: int| 0 <= i < s.len() ==> is_ws(#[trigger] s[i])
}

pub proof fn lemma_trim_empty_iff_blank(s: Seq<char>)
    ensures
        (trim(s).len() == 0) == is_blank(s),
{
    lemma_trim_start_at(s);
    let t = trim_start(s);
    lemma_trim_end_at(t);
    if is_blank(s) {
        if trim_start_at(s) < s.len() {
            assert(is_ws(s[trim_start_at(s)]));
        }
        assert(t.len() == 0);
    } else {
        let i = choose|i: int| 0 <= i < s.len() && !is_ws(#[trigger] s[i]);
        assert(trim_start_at(s) <= i);
        assert(t.len() > 0);
        assert(!is_ws(t[0]));
        if trim_end_at(t) == 0 {
            assert(is_ws(t[0]));
        }
    }
}

// ---------------------------------------------------------------------------
// Searching
// ---------------------------------------------------------------------------

/// `needle` occurs in `s` at position `i`.
pub open spec fn occurs_at(s: Seq<char>, needle: Seq<char>, i: int) -> bool {
    0 <= i && i + needle.len() <= s.len() && s.subrange(i, i + needle.len()) == needle
}

pub open spec fn contains_seq(s: Seq<char>, needle: Seq<char>) -> bool {
    exists|i: int| occurs_at(s, needle, i)
}

/// First occurrence of `needle` in `s` (`str::find`).
#[verifier::opaque]
pub open spec fn first_index_of(s: Seq<char>, needle: Seq<char>) -> Option<int> {
    if contains_seq(s, needle) {
        Some(
            choose|i: int|
                occurs_at(s, needle, i) && forall|j: int| 0 <= j < i ==> !occurs_at(s, needle, j),
        )
    } else {
        None
    }
}

/// Last occurrence of `needle` in `s` (`str::rfind`).
#[verifier::opaque]
pub open spec fn last_index_of(s: Seq<char>, needle: Seq<char>) -> Option<int> {
    if contains_seq(s, needle) {
        Some(
            choose|i: int|
                occurs_at(s, needle, i) && forall|j: int|
                    i < j <= s.len() ==> !occurs_at(s, needle, j),
        )
    } else {
        None
    }
}

proof fn lemma_first_occurrence_exists(s: Seq<char>, needle: Seq<char>, k: int)
    requires
        occurs_at(s, needle, k),
    ensures
        exists|i: int|
            occurs_at(s, needle, i) && forall|j: int| 0 <= j < i ==> !occurs_at(s, needle, j),
    decreases k,
{
    if exists|j: int| 0 <= j < k && occurs_at(s, needle, j) {
        let j = choose|j: int| 0 <= j < k && occurs_at(s, needle, j);
        lemma_first_occurrence_exists(s, needle, j);
    } else {
        assert(occurs_at(s, needle, k) && forall|j: int| 0 <= j < k ==> !occurs_at(s, needle, j));
    }
}

proof fn lemma_last_occurrence_exists(s: Seq<char>, needle: Seq<char>, k: int)
    requires
        occurs_at(s, needle, k),
    ensures
        exists|i: int|
            occurs_at(s, needle, i) && forall|j: int| i < j <= s.len() ==> !occurs_at(s, needle, j),
    decreases s.len() - k,
{
    if exists|j: int| k < j <= s.len() && occurs_at(s, needle, j) {
        let j = choose|j: int| k < j <= s.len() && occurs_at(s, needle, j);
        lemma_last_occurrence_exists(s, needle, j);
    } else {
        assert(occurs_at(s, needle, k) && forall|j: int|
            k < j <= s.len() ==> !occurs_at(s, needle, j));
    }
}

pub proof fn lemma_index_of_some(s: Seq<char>, needle: Seq<char>)
    ensures
        (first_index_of(s, needle) is Some) == contains_seq(s, needle),
        (last_index_of(s, needle) is Some) == contains_seq(s, needle),
        first_index_of(s, needle) matches Some(i) ==> occurs_at(s, needle, i),
        last_index_of(s, needle) matches Some(i) ==> occurs_at(s, needle, i),
{
    reveal(first_index_of);
    reveal(last_index_of);
    if contains_seq(s, needle) {
        let k = choose|k: int| occurs_at(s, needle, k);
        lemma_first_occurrence_exists(s, needle, k);
        lemma_last_occurrence_exists(s, needle, k);
    }
}

pub fn occurs_at_exec(s: &[char], needle: &[char], i: usize) -> (b: bool)
    ensures
        b == occurs_at(s@, needle@, i as int),
{
    if i > s.len() || needle.len() > s.len() - i {
        return false;
    }
    let mut j: usize = 0;
    while j < needle.len()
        invariant
            j <= needle@.len(),
            i + needle@.len() <= s@.len(),
            s@.len() == s.len(),
            forall|t: int| 0 <= t < j ==> s@[i + t] == needle@[t],
        decreases needle@.len() - j,
    {
        assert(i + j < s@.len());
        if s[i + j] != needle[j] {
            assert(s@.subrange(i as int, i + needle@.len())[j as int] != needle@[j as int]);
            return false;
        }
        j = j + 1;
    }
    assert(s@.subrange(i as int, i + needle@.len()) =~= needle@);
    true
}

/// `str::find` from position `from` onwards.
pub fn find_from(s: &[char], needle: &[char], from: usize) -> (r: Option<usize>)
    requires
        from <= s@.len(),
    ensures
        match r {
            Some(i) => from <= i && occurs_at(s@, needle@, i as int) && forall|j: int|
                from <= j < i ==> !occurs_at(s@, needle@, j),
            None => forall|j: int| from <= j ==> !occurs_at(s@, needle@, j),
        },
{
    let mut i = from;
    loop
        invariant
            from <= i <= s@.len(),
            forall|j: int| from <= j < i ==> !occurs_at(s@, needle@, j),
        decreases s@.len() - i,
    {
        if occurs_at_exec(s, needle, i) {
            return Some(i);
        }
        if i == s.len() {
            return None;
        }
        i = i + 1;
    }
}

pub fn find_seq(s: &[char], needle: &[char]) -> (r: Option<usize>)
    ensures
        r is None <==> first_index_of(s@, needle@) is None,
        r matches Some(i) ==> first_index_of(s@, needle@) == Some(i as int) && occurs_at(
            s@,
            needle@,
            i as int,
        ),
{
    reveal(first_index_of);
    let r = find_from(s, needle, 0);
    match r {
        Some(i) => {
            assert(contains_seq(s@, needle@));
            let ghost k = first_index_of(s@, needle@)->0;
            assert(occurs_at(s@, needle@, k));
            assert(k == i) by {
                if k < i {
                } else if i < k {
                }
            }
        },
        None => {
            assert(!contains_seq(s@, needle@));
        },
    }
    r
}

pub fn rfind_seq(s: &[char], needle: &[char]) -> (r: Option<usize>)
    ensures
        r is None <==> last_index_of(s@, needle@) is None,
        r matches Some(i) ==> last_index_of(s@, needle@) == Some(i as int) && occurs_at(
            s@,
            needle@,
            i as int,
        ),
{
    let mut i = s.len();
    loop
        invariant
            i <= s@.len(),
            forall|j: int| i < j ==> !occurs_at(s@, needle@, j),
        decreases i,
    {
        if occurs_at_exec(s, needle, i) {
            proof {
                reveal(last_index_of);
                assert(contains_seq(s@, needle@));
                let k = last_index_of(s@, needle@)->0;
                assert(occurs_at(s@, needle@, k));
                assert(k == i) by {
                    if k < i {
                    } else if i < k {
                    }
                }
            }
            return Some(i);
        }
        if i == 0 {
            proof {
                reveal(last_index_of);
                assert forall|j: int| !occurs_at(s@, needle@, j) by {
                    if j == 0 {
                    } else if j > 0 {
                    }
                }
                assert(!contains_seq(s@, needle@));
            }
            return None;
        }
        i = i - 1;
    }
}

/// Whether `needle` occurs in `s`.
pub fn contains_chars(s: &[char], needle: &[char]) -> (b: bool)
    ensures
        b == contains_seq(s@, needle@),
{
    let r = find_seq(s, needle);
    proof {
        reveal(first_index_of);
    }
    r.is_some()
}

pub fn starts_with_chars(s: &[char], prefix: &[char]) -> (b: bool)
    ensures
        b == (prefix@.len() <= s@.len() && s@.take(prefix@.len() as int) == prefix@),
{
    let b = occurs_at_exec(s, prefix, 0);
    assert(s@.subrange(0, prefix@.len() as int) =~= s@.take(prefix@.len() as int));
    b
}

/// Whether two char sequences are equal.
pub fn chars_eq(a: &[char], b: &[char]) -> (r: bool)
    ensures
        r == (a@ == b@),
{
    if a.len() != b.len() {
        return false;
    }
    let mut i: usize = 0;
    while i < a.len()
        invariant
            i <= a@.len(),
            a@.len() == b@.len(),
            forall|j: int| 0 <= j < i ==> a@[j] == b@[j],
        decreases a@.len() - i,
    {
        if a[i] != b[i] {
            return false;
        }
        i = i + 1;
    }
    assert(a@ =~= b@);
    true
}

/// Whether two strings hold the same characters.
pub fn str_eq(a: &str, b: &str) -> (r: bool)
    ensures
        r == (a@ == b@),
{
    let ca = chars_of(a);
    let cb = chars_of(b);
    chars_eq(&ca, &cb)
}

// ---------------------------------------------------------------------------
// Decimal rendering
// ---------------------------------------------------------------------------

pub open spec fn digit_char(d: nat) -> char {
    let d = d % 10;
    if d == 0 { '0' } else if d == 1 { '1' } else if d == 2 { '2' } else if d == 3 { '3' }
    else if d == 4 { '4' } else if d == 5 { '5' } else if d == 6 { '6' } else if d == 7 { '7' }
    else if d == 8 { '8' } else { '9' }
}

fn digit(d: u64) -> (c: char)
    ensures
        c == digit_char(d as nat),
{
    let d = d % 10;
    if d == 0 { '0' } else if d == 1 { '1' } else if d == 2 { '2' } else if d == 3 { '3' }
    else if d == 4 { '4' } else if d == 5 { '5' } else if d == 6 { '6' } else if d == 7 { '7' }
    else if d == 8 { '8' } else { '9' }
}

/// Decimal digits of `n`, no leading zeros (`"0"` for zero).
pub open spec fn decimal(n: nat) -> Seq<char>
    decreases n,
{
    if n < 10 {
        seq![digit_char(n)]
    } else {
        decimal(n / 10).push(digit_char(n % 10))
    }
}

/// Every char of `s` is a decimal digit.
pub open spec fn all_digits(s: Seq<char>) -> bool {
    forall|i: int| 0 <= i < s.len() ==> 48 <= #[trigger] (s[i] as int) <= 57
}

/// The number a run of decimal digits spells, most significant first.
pub open spec fn digits_value(s: Seq<char>) -> int
    decreases s.len(),
{
    if s.len() == 0 {
        0
    } else {
        digits_value(s.drop_last()) * 10 + (s.last() as int - 48)
    }
}

proof fn lemma_digit_char_value(d: nat)
    ensures
        digit_char(d) as int == 48 + d % 10,
{
}

/// The decimal text of `n` is digits only, with no leading zero, and
/// reads back as `n`.
pub proof fn law_decimal_reads_back(n: nat)
    ensures
        decimal(n).len() >= 1,
        all_digits(decimal(n)),
        digits_value(decimal(n)) == n,
        n > 0 ==> decimal(n)[0] != '0',
    decreases n,
{
    lemma_digit_char_value(n);
    if n < 10 {
        assert(decimal(n) == seq![digit_char(n)]);
        assert(decimal(n).drop_last() =~= Seq::<char>::empty());
        assert(digits_value(Seq::<char>::empty()) == 0);
        assert(decimal(n).last() == digit_char(n));
    } else {
        law_decimal_reads_back(n / 10);
        lemma_digit_char_value(n % 10);
        let p = decimal(n / 10);
        assert(decimal(n) == p.push(digit_char(n % 10)));
        assert(decimal(n).drop_last() =~= p);
        assert(decimal(n)[0] == p[0]);
        assert(decimal(n).last() == digit_char(n % 10));
        assert((n / 10) * 10 + n % 10 == n);
        assert forall|i: int| 0 <= i < decimal(n).len() implies 48 <= #[trigger] (decimal(n)[i] as int)
            <= 57 by {
            if i < p.len() {
                assert(decimal(n)[i] == p[i]);
            }
        }
    }
}

/// The two-digit padded text of `n` is digits only, at least two of them,
/// exactly two below 100, and reads back as `n`.
pub proof fn law_decimal2_reads_back(n: nat)
    ensures
        decimal2(n).len() >= 2,
        n < 100 ==> decimal2(n).len() == 2,
        all_digits(decimal2(n)),
        digits_value(decimal2(n)) == n,
{
    law_decimal_reads_back(n);
    lemma_digit_char_value(n);
    if n < 10 {
        let t = decimal2(n);
        assert(t == seq!['0', digit_char(n)]);
        assert(t.drop_last() =~= seq!['0']);
        assert(t.drop_last().drop_last() =~= Seq::<char>::empty());
        assert(digits_value(Seq::<char>::empty()) == 0);
        assert(digits_value(seq!['0']) == 0);
        assert(t.last() == digit_char(n));
    } else {
        law_decimal_reads_back(n / 10);
        if n < 100 {
            assert(decimal(n / 10) == seq![digit_char(n / 10)]);
        }
    }
}

/// Decimal digits of `n` left-padded with zeros to at least two digits
/// (`{:02}`).
pub open spec fn decimal2(n: nat) -> Seq<char> {
    if n < 10 {
        seq!['0', digit_char(n)]
    } else {
        decimal(n)
    }
}

pub fn push_decimal(out: &mut Vec<char>, n: u64)
    ensures
        final(out)@ == old(out)@ + decimal(n as nat),
    decreases n,
{
    if n >= 10 {
        push_decimal(out, n / 10);
    }
    out.push(digit(n));
    proof {
        if n >= 10 {
            assert(decimal(n as nat) == decimal((n / 10) as nat).push(digit_char((n % 10) as nat)));
        }
    }
}

pub fn push_decimal2(out: &mut Vec<char>, n: u64)
    ensures
        final(out)@ == old(out)@ + decimal2(n as nat),
{
    if n < 10 {
        out.push('0');
    }
    push_decimal(out, n);
}

/// Appends the characters of `s`.
pub fn push_str(out: &mut Vec<char>, s: &str)
    ensures
        final(out)@ == old(out)@ + s@,
{
    let cs = chars_of(s);
    push_chars(out, &cs);
}

/// Appends `s`.
pub fn push_chars(out: &mut Vec<char>, s: &[char])
    ensures
        final(out)@ == old(out)@ + s@,
{
    let mut i: usize = 0;
    while i < s.len()
        invariant
            i <= s@.len(),
            out@ == old(out)@ + s@.take(i as int),
        decreases s@.len() - i,
    {
        out.push(s[i]);
        i = i + 1;
    }
    assert(s@.take(i as int) =~= s@);
}

} // verus!

verus! {

// ---------------------------------------------------------------------------
// Unicode character classes held by std
// ---------------------------------------------------------------------------

/// What `char::is_alphanumeric` answers for `c` (Unicode `Alphabetic` or
/// `Numeric`).
pub uninterp spec fn is_alphanumeric_char(c: char) -> bool;

/// `char::is_alphanumeric`; claimed: the answer is [`is_alphanumeric_char`]
/// of `c`, and every ASCII letter and digit counts.
#[verifier::external_body]
pub(crate) fn char_is_alphanumeric(c: char) -> (b: bool)
    ensures
        b == is_alphanumeric_char(c),
        ('a' <= c <= 'z' || 'A' <= c <= 'Z' || '0' <= c <= '9') ==> b,
{
    c.is_alphanumeric()
}

/// What `char::to_lowercase` yields for `c` (one to three chars).
pub uninterp spec fn lowercase_of(c: char) -> Seq<char>;

/// `char::to_lowercase`; claimed: the chars it yields are
/// [`lowercase_of`] of `c`, at least one of them.
#[verifier::external_body]
pub(crate) fn char_to_lowercase(c: char) -> (r: Vec<char>)
    ensures
        r@ == lowercase_of(c),
        r@.len() >= 1,
{
    c.to_lowercase().collect()
}

/// What `str::to_lowercase` returns for `s`.
pub uninterp spec fn lowercase_str(s: Seq<char>) -> Seq<char>;

/// `str::to_lowercase`; claimed: the result is [`lowercase_str`] of `s`.
#[verifier::external_body]
pub(crate) fn str_to_lowercase(s: &str) -> (r: String)
    ensures
        r@ == lowercase_str(s@),
{
    s.to_lowercase()
}

} // verus!
