//! Editing who spoke: renaming a speaker, merging one into another and
//! undoing that merge exactly, relabeling after diarization, and applying
//! names matched from voice profiles — over a transcript's speaker labels
//! (one per turn) and the naming state a note's metadata keeps.
use vstd::prelude::*;

use crate::aliases::{redirected, AliasMap};
use crate::error::{error_message, MinuteError};
use crate::text::{chars_of, decimal, push_decimal, push_str, str_eq, string_from_chars, trim, trim_chars};

verus! {

/// The labels of a transcript's turns, as text.
pub open spec fn label_seq(v: Seq<String>) -> Seq<Seq<char>> {
    v.map_values(|s: String| s@)
}

/// Some turn is labeled `x`.
pub open spec fn has_label(labels: Seq<Seq<char>>, x: Seq<char>) -> bool {
    exists|i: int| 0 <= i < labels.len() && labels[i] == x
}

/// Every turn labeled `from` relabeled `to`.
pub open spec fn relabeled(labels: Seq<Seq<char>>, from: Seq<char>, to: Seq<char>) -> Seq<Seq<char>> {
    labels.map_values(|l: Seq<char>| if l == from { to } else { l })
}

/// The turn positions labeled `x`, in order.
pub open spec fn positions(labels: Seq<Seq<char>>, x: Seq<char>) -> Seq<int>
    decreases labels.len(),
{
    if labels.len() == 0 {
        Seq::empty()
    } else {
        let prev = positions(labels.drop_last(), x);
        if labels.last() == x {
            prev.push(labels.len() - 1)
        } else {
            prev
        }
    }
}

proof fn lemma_positions(labels: Seq<Seq<char>>, x: Seq<char>)
    ensures
        forall|k: int|
            0 <= k < positions(labels, x).len() ==> 0 <= #[trigger] positions(labels, x)[k]
                < labels.len() && labels[positions(labels, x)[k]] == x,
        forall|k1: int, k2: int|
            0 <= k1 < k2 < positions(labels, x).len() ==> positions(labels, x)[k1] < positions(
                labels,
                x,
            )[k2],
        forall|i: int|
            0 <= i < labels.len() && labels[i] == x ==> #[trigger] positions(labels, x).contains(i),
        positions(labels, x).len() == 0 <==> !has_label(labels, x),
    decreases labels.len(),
{
    if labels.len() > 0 {
        let p = labels.drop_last();
        lemma_positions(p, x);
        let prev = positions(p, x);
        assert forall|i: int| 0 <= i < labels.len() && labels[i] == x implies #[trigger] positions(
            labels,
            x,
        ).contains(i) by {
            if i < labels.len() - 1 {
                assert(p[i] == x);
                assert(prev.contains(i));
                let k = choose|k: int| 0 <= k < prev.len() && prev[k] == i;
                assert(positions(labels, x)[k] == i);
            } else {
                assert(positions(labels, x).last() == i);
            }
        }
        if has_label(labels, x) {
            let i = choose|i: int| 0 <= i < labels.len() && labels[i] == x;
            assert(positions(labels, x).contains(i));
        }
        if positions(labels, x).len() > 0 {
            let j = positions(labels, x)[0];
            assert(labels[j] == x);
        }
    }
}

// ---------------------------------------------------------------------------
// Naming state
// ---------------------------------------------------------------------------

/// The speaker-naming state a note's metadata keeps: confirmed aliases,
/// pending suggestions, and names applied automatically — each from a
/// label to a name.
pub struct NoteSpeakers {
    pub aliases: AliasMap,
    pub suggestions: AliasMap,
    pub auto_applied: AliasMap,
}

impl NoteSpeakers {
    pub open spec fn wf(&self) -> bool {
        self.aliases.wf() && self.suggestions.wf() && self.auto_applied.wf()
    }

    /// Settles the metadata after `from` was renamed `to`: aliases that
    /// pointed at `from` point at `to` (one that becomes `X -> X` goes),
    /// `from` maps to `to`, its suggestion is answered, and auto-applied
    /// notices for the name `from` are dropped.
    pub fn after_rename(&mut self, from: &str, to: &str)
        requires
            old(self).wf(),
        ensures
            final(self).wf(),
            final(self).aliases.map() == renamed_aliases(old(self).aliases.map(), from@, to@),
            final(self).suggestions.map() == old(self).suggestions.map().remove(from@),
            final(self).auto_applied.map() == old(self).auto_applied.map().restrict(
                old(self).auto_applied.map().dom().filter(
                    |k: Seq<char>| old(self).auto_applied.map()[k] != from@,
                ),
            ),
    {
        self.aliases.redirect(from, to);
        self.aliases.insert(String::from_str(from), String::from_str(to));
        self.suggestions.remove(from);
        self.auto_applied.retain_names_not(from);
    }

    /// Settles the metadata after `from` was merged into `into`.
    pub fn after_merge(&mut self, from: &str, into: &str)
        requires
            old(self).wf(),
        ensures
            final(self).wf(),
            final(self).aliases.map() == old(self).aliases.map().insert(from@, into@),
            final(self).suggestions.map() == old(self).suggestions.map(),
            final(self).auto_applied.map() == old(self).auto_applied.map().restrict(
                old(self).auto_applied.map().dom().filter(
                    |k: Seq<char>| old(self).auto_applied.map()[k] != from@,
                ),
            ),
    {
        self.aliases.insert(String::from_str(from), String::from_str(into));
        self.auto_applied.retain_names_not(from);
    }

    /// Settles the metadata after a merge of `from` into `into` was undone:
    /// the alias the merge recorded goes, if it is still there. Reports
    /// whether anything changed.
    pub fn after_undo(&mut self, from: &str, into: &str) -> (changed: bool)
        requires
            old(self).wf(),
        ensures
            final(self).wf(),
            changed == (old(self).aliases.map().contains_key(from@) && old(self).aliases.map()[from@]
                == into@),
            changed ==> final(self).aliases.map() == old(self).aliases.map().remove(from@),
            !changed ==> final(self).aliases.map() == old(self).aliases.map(),
            final(self).suggestions.map() == old(self).suggestions.map(),
            final(self).auto_applied.map() == old(self).auto_applied.map(),
    {
        match self.aliases.get(from) {
            Some(v) => {
                if str_eq(v.as_str(), into) {
                    self.aliases.remove(from);
                    true
                } else {
                    false
                }
            },
            None => false,
        }
    }
}

// ---------------------------------------------------------------------------
// Renaming
// ---------------------------------------------------------------------------

/// A new speaker name, trimmed; an empty one is refused.
pub fn speaker_name(to: &str) -> (r: Result<String, MinuteError>)
    ensures
        match r {
            Ok(s) => s@ == trim(to@) && trim(to@).len() > 0,
            Err(e) => trim(to@).len() == 0 && error_message(e) == "speaker name cannot be empty"@,
        },
{
    let cs = chars_of(to);
    let t = trim_chars(&cs);
    if t.len() == 0 {
        return Err(MinuteError::Other(String::from_str("speaker name cannot be empty")));
    }
    Ok(string_from_chars(&t))
}

fn find_label(labels: &Vec<String>, x: &str) -> (r: bool)
    ensures
        r == has_label(label_seq(labels@), x@),
{
    let mut i: usize = 0;
    while i < labels.len()
        invariant
            i <= labels@.len(),
            forall|j: int| 0 <= j < i ==> labels@[j]@ != x@,
        decreases labels@.len() - i,
    {
        if str_eq(labels[i].as_str(), x) {
            assert(label_seq(labels@)[i as int] == x@);
            return true;
        }
        i = i + 1;
    }
    false
}

fn relabel_all(labels: &mut Vec<String>, from: &str, to: &str)
    ensures
        label_seq(final(labels)@) == relabeled(label_seq(old(labels)@), from@, to@),
{
    let n = labels.len();
    let mut i: usize = 0;
    while i < n
        invariant
            i <= n,
            n == labels@.len(),
            labels@.len() == old(labels)@.len(),
            forall|j: int|
                0 <= j < i ==> labels@[j]@ == (if old(labels)@[j]@ == from@ {
                    to@
                } else {
                    old(labels)@[j]@
                }),
            forall|j: int| i <= j < n ==> labels@[j] == old(labels)@[j],
        decreases n - i,
    {
        if str_eq(labels[i].as_str(), from) {
            labels.set(i, String::from_str(to));
        }
        i = i + 1;
    }
    assert(label_seq(labels@) =~= relabeled(label_seq(old(labels)@), from@, to@));
}

/// Why renaming `from` to `to` over `labels` is refused, if it is.
pub open spec fn rename_refusal(labels: Seq<Seq<char>>, from: Seq<char>, to: Seq<char>) -> Option<
    Seq<char>,
> {
    if from != to && has_label(labels, to) {
        Some("speaker name already exists; use merge speakers instead"@)
    } else if !has_label(labels, from) {
        Some("speaker not found: "@ + from)
    } else {
        None
    }
}

/// Renames every turn labeled `from` to `to` (an already trimmed,
/// non-empty name). Refused when `to` already names another speaker
/// (merge instead) or no turn is labeled `from`; the labels are then left
/// as they were.
pub fn rename_speaker_labels(labels: &mut Vec<String>, from: &str, to: &str) -> (r: Result<
    (),
    MinuteError,
>)
    ensures
        match rename_refusal(label_seq(old(labels)@), from@, to@) {
            Some(msg) => r matches Err(e) && error_message(e) == msg && final(labels)@ == old(
                labels,
            )@,
            None => r is Ok && label_seq(final(labels)@) == relabeled(
                label_seq(old(labels)@),
                from@,
                to@,
            ),
        },
{
    if !str_eq(from, to) && find_label(labels, to) {
        return Err(
            MinuteError::Other(
                String::from_str("speaker name already exists; use merge speakers instead"),
            ),
        );
    }
    if !find_label(labels, from) {
        let mut out: Vec<char> = Vec::new();
        push_str(&mut out, "speaker not found: ");
        push_str(&mut out, from);
        return Err(MinuteError::Other(string_from_chars(&out)));
    }
    relabel_all(labels, from, to);
    Ok(())
}

// ---------------------------------------------------------------------------
// Merging, and undoing a merge
// ---------------------------------------------------------------------------

/// Exact information to reverse one merge: the turns it relabeled, and a
/// fingerprint of the transcript right after it.
#[derive(Debug, Clone, PartialEq)]
pub struct SpeakerMergeUndo {
    pub from: String,
    pub into: String,
    pub segment_indices: Vec<usize>,
    pub checksum: String,
}

/// Why merging `from` into `into` is refused before the transcript is
/// read, if it is (both names trimmed).
pub open spec fn merge_names_refusal(from: Seq<char>, into: Seq<char>) -> Option<Seq<char>> {
    if trim(from).len() == 0 || trim(into).len() == 0 {
        Some("speaker names cannot be empty"@)
    } else if trim(from) == trim(into) {
        Some("cannot merge a speaker into itself"@)
    } else {
        None
    }
}

/// The two speaker names of a merge, trimmed; refused when either is empty
/// or they are the same.
pub fn merge_names(from: &str, into: &str) -> (r: Result<(String, String), MinuteError>)
    ensures
        match merge_names_refusal(from@, into@) {
            Some(msg) => r matches Err(e) && error_message(e) == msg,
            None => r matches Ok((f, i)) && f@ == trim(from@) && i@ == trim(into@),
        },
{
    let f = trim_chars(&chars_of(from));
    let i = trim_chars(&chars_of(into));
    if f.len() == 0 || i.len() == 0 {
        return Err(MinuteError::Other(String::from_str("speaker names cannot be empty")));
    }
    if crate::text::chars_eq(&f, &i) {
        return Err(MinuteError::Other(String::from_str("cannot merge a speaker into itself")));
    }
    Ok((string_from_chars(&f), string_from_chars(&i)))
}

/// Why merging `from` into `into` over `labels` is refused, if it is.
pub open spec fn merge_refusal(labels: Seq<Seq<char>>, from: Seq<char>, into: Seq<char>) -> Option<
    Seq<char>,
> {
    if !has_label(labels, into) {
        Some("destination speaker not found: "@ + into)
    } else if !has_label(labels, from) {
        Some("speaker not found: "@ + from)
    } else {
        None
    }
}

pub open spec fn index_seq(v: Seq<usize>) -> Seq<int> {
    v.map_values(|u: usize| u as int)
}

/// Relabels every turn of `from` as `into` (an existing speaker) and
/// returns the relabeled positions, in order. Refused, with the labels
/// untouched, when either speaker has no turn.
pub fn merge_speaker_labels(labels: &mut Vec<String>, from: &str, into: &str) -> (r: Result<
    Vec<usize>,
    MinuteError,
>)
    ensures
        match merge_refusal(label_seq(old(labels)@), from@, into@) {
            Some(msg) => r matches Err(e) && error_message(e) == msg && final(labels)@ == old(
                labels,
            )@,
            None => r matches Ok(idx) && index_seq(idx@) == positions(
                label_seq(old(labels)@),
                from@,
            ) && label_seq(final(labels)@) == relabeled(label_seq(old(labels)@), from@, into@),
        },
{
    if !find_label(labels, into) {
        let mut out: Vec<char> = Vec::new();
        push_str(&mut out, "destination speaker not found: ");
        push_str(&mut out, into);
        return Err(MinuteError::Other(string_from_chars(&out)));
    }
    let ghost before = label_seq(labels@);
    let mut indices: Vec<usize> = Vec::new();
    let n = labels.len();
    let mut i: usize = 0;
    assert(before.take(0) =~= Seq::<Seq<char>>::empty());
    while i < n
        invariant
            i <= n,
            n == labels@.len(),
            before == label_seq(labels@),
            index_seq(indices@) == positions(before.take(i as int), from@),
        decreases n - i,
    {
        assert(before.take(i + 1).drop_last() =~= before.take(i as int));
        if str_eq(labels[i].as_str(), from) {
            indices.push(i);
            assert(index_seq(indices@) =~= positions(before.take(i + 1), from@));
        } else {
            assert(index_seq(indices@) =~= positions(before.take(i + 1), from@));
        }
        i = i + 1;
    }
    assert(before.take(i as int) =~= before);
    proof {
        lemma_positions(before, from@);
    }
    if indices.len() == 0 {
        let mut out: Vec<char> = Vec::new();
        push_str(&mut out, "speaker not found: ");
        push_str(&mut out, from);
        return Err(MinuteError::Other(string_from_chars(&out)));
    }
    relabel_all(labels, from, into);
    Ok(indices)
}

/// Why an undo token is refused before the transcript is read, if it is.
pub open spec fn undo_token_refusal(
    from: Seq<char>,
    into: Seq<char>,
    indices: Seq<int>,
) -> Option<Seq<char>> {
    if trim(from).len() == 0 || trim(into).len() == 0 || from == into {
        Some("invalid speaker merge undo token"@)
    } else if indices.len() == 0 {
        Some("speaker merge undo token has no turns"@)
    } else if !indices.no_duplicates() {
        Some("speaker merge undo token contains duplicate turns"@)
    } else {
        None
    }
}

/// The checks an undo token must pass before the transcript is read: both
/// names non-empty and different, at least one turn, no turn twice.
pub fn check_merge_undo(undo: &SpeakerMergeUndo) -> (r: Result<(), MinuteError>)
    ensures
        match undo_token_refusal(undo.from@, undo.into@, index_seq(undo.segment_indices@)) {
            Some(msg) => r matches Err(e) && error_message(e) == msg,
            None => r is Ok,
        },
{
    let f = trim_chars(&chars_of(undo.from.as_str()));
    let t = trim_chars(&chars_of(undo.into.as_str()));
    if f.len() == 0 || t.len() == 0 || str_eq(undo.from.as_str(), undo.into.as_str()) {
        return Err(MinuteError::Other(String::from_str("invalid speaker merge undo token")));
    }
    let n = undo.segment_indices.len();
    if n == 0 {
        return Err(MinuteError::Other(String::from_str("speaker merge undo token has no turns")));
    }
    let ghost idx = index_seq(undo.segment_indices@);
    assert(trim(undo.from@).len() != 0 && trim(undo.into@).len() != 0 && undo.from@ != undo.into@);
    let mut i: usize = 0;
    while i < n
        invariant
            i <= n,
            n > 0,
            trim(undo.from@).len() != 0 && trim(undo.into@).len() != 0 && undo.from@ != undo.into@,
            n == undo.segment_indices@.len(),
            idx == index_seq(undo.segment_indices@),
            forall|a: int, b: int| 0 <= a < b < n && a < i ==> idx[a] != idx[b],
        decreases n - i,
    {
        let mut j: usize = i + 1;
        while j < n
            invariant
                i < j <= n,
                n > 0,
                trim(undo.from@).len() != 0 && trim(undo.into@).len() != 0 && undo.from@ != undo.into@,
                n == undo.segment_indices@.len(),
                idx == index_seq(undo.segment_indices@),
                forall|a: int, b: int| 0 <= a < b < n && a < i ==> idx[a] != idx[b],
                forall|b: int| i < b < j ==> idx[i as int] != idx[b],
            decreases n - j,
        {
            if undo.segment_indices[i] == undo.segment_indices[j] {
                assert(!idx.no_duplicates()) by {
                    assert(idx[i as int] == idx[j as int]);
                }
                assert(undo_token_refusal(undo.from@, undo.into@, idx) == Some(
                    "speaker merge undo token contains duplicate turns"@,
                ));
                return Err(
                    MinuteError::Other(
                        String::from_str("speaker merge undo token contains duplicate turns"),
                    ),
                );
            }
            j = j + 1;
        }
        i = i + 1;
    }
    assert(idx.no_duplicates()) by {
        assert forall|a: int, b: int| 0 <= a < idx.len() && 0 <= b < idx.len() && a != b implies idx[a]
            != idx[b] by {
            if a < b {
            } else {
                assert(idx[b] != idx[a]);
            }
        }
    }
    Ok(())
}

/// A turn an undo may restore: it exists and still carries `into`.
pub open spec fn turn_restorable(labels: Seq<Seq<char>>, i: int, into: Seq<char>) -> bool {
    0 <= i < labels.len() && labels[i] == into
}

/// The first position (in token order) of a turn that cannot be
/// restored, if any.
pub open spec fn first_bad_turn(labels: Seq<Seq<char>>, idx: Seq<int>, into: Seq<char>) -> Option<
    int,
>
    decreases idx.len(),
{
    if idx.len() == 0 {
        None
    } else {
        match first_bad_turn(labels, idx.drop_last(), into) {
            Some(k) => Some(k),
            None => if turn_restorable(labels, idx.last(), into) {
                None
            } else {
                Some(idx.len() - 1)
            },
        }
    }
}

/// `labels` with every listed turn labeled `from`.
pub open spec fn restored(labels: Seq<Seq<char>>, idx: Seq<int>, from: Seq<char>) -> Seq<Seq<char>> {
    Seq::new(labels.len(), |i: int| if idx.contains(i) { from } else { labels[i] })
}

/// What undoing the merge recorded as `idx` does to `labels` whose
/// fingerprint matched: the restored labels, or why it cannot.
pub open spec fn undo_outcome(
    labels: Seq<Seq<char>>,
    idx: Seq<int>,
    from: Seq<char>,
    into: Seq<char>,
) -> Result<Seq<Seq<char>>, Seq<char>> {
    match first_bad_turn(labels, idx, into) {
        Some(k) => Err(
            if 0 <= idx[k] < labels.len() {
                "speaker merge can no longer be undone at turn "@ + decimal(idx[k] as nat)
            } else {
                "speaker merge undo turn is missing: "@ + decimal(idx[k] as nat)
            },
        ),
        None => Ok(restored(labels, idx, from)),
    }
}

proof fn lemma_first_bad_none(labels: Seq<Seq<char>>, idx: Seq<int>, into: Seq<char>, k: int)
    requires
        first_bad_turn(labels, idx, into) is None,
        0 <= k < idx.len(),
    ensures
        turn_restorable(labels, idx[k], into),
    decreases idx.len(),
{
    if k < idx.len() - 1 {
        assert(idx.drop_last()[k] == idx[k]);
        lemma_first_bad_none(labels, idx.drop_last(), into, k);
    }
}

proof fn lemma_first_bad_at(labels: Seq<Seq<char>>, idx: Seq<int>, into: Seq<char>, k: int)
    requires
        0 <= k < idx.len(),
        forall|j: int| 0 <= j < k ==> turn_restorable(labels, idx[j], into),
        !turn_restorable(labels, idx[k], into),
    ensures
        first_bad_turn(labels, idx, into) == Some(k),
    decreases idx.len(),
{
    if k < idx.len() - 1 {
        assert forall|j: int| 0 <= j < k implies turn_restorable(labels, idx.drop_last()[j], into) by {
            assert(idx.drop_last()[j] == idx[j]);
        }
        assert(idx.drop_last()[k] == idx[k]);
        lemma_first_bad_at(labels, idx.drop_last(), into, k);
    } else {
        lemma_all_good_prefix(labels, idx.drop_last(), into);
    }
}

proof fn lemma_all_good_prefix(labels: Seq<Seq<char>>, idx: Seq<int>, into: Seq<char>)
    requires
        forall|j: int| 0 <= j < idx.len() ==> turn_restorable(labels, idx[j], into),
    ensures
        first_bad_turn(labels, idx, into) is None,
    decreases idx.len(),
{
    if idx.len() > 0 {
        assert forall|j: int| 0 <= j < idx.len() - 1 implies turn_restorable(labels, idx.drop_last()[j], into) by {
            assert(idx.drop_last()[j] == idx[j]);
        }
        lemma_all_good_prefix(labels, idx.drop_last(), into);
    }
}

/// Undoes a merge on the current `labels` whose fingerprint is
/// `expected_checksum`: refused when the token's checksum differs, or a
/// listed turn is missing or no longer carries the merged-into name;
/// otherwise every listed turn gets its old label back. Labels are left
/// untouched when refused.
pub fn undo_merge_labels(labels: &mut Vec<String>, undo: &SpeakerMergeUndo, expected_checksum: &str) -> (r:
    Result<(), MinuteError>)
    ensures
        undo.checksum@ != expected_checksum@ ==> (r matches Err(e) && error_message(e)
            == "speaker merge undo token is stale or invalid"@ && final(labels)@ == old(labels)@),
        undo.checksum@ == expected_checksum@ ==> match undo_outcome(
            label_seq(old(labels)@),
            index_seq(undo.segment_indices@),
            undo.from@,
            undo.into@,
        ) {
            Err(msg) => r matches Err(e) && error_message(e) == msg && final(labels)@ == old(
                labels,
            )@,
            Ok(restored_labels) => r is Ok && label_seq(final(labels)@) == restored_labels,
        },
{
    if !str_eq(undo.checksum.as_str(), expected_checksum) {
        return Err(
            MinuteError::Other(String::from_str("speaker merge undo token is stale or invalid")),
        );
    }
    let ghost ls = label_seq(labels@);
    let ghost idx = index_seq(undo.segment_indices@);
    let n = undo.segment_indices.len();
    let mut k: usize = 0;
    while k < n
        invariant
            k <= n,
            n == undo.segment_indices@.len(),
            idx == index_seq(undo.segment_indices@),
            ls == label_seq(labels@),
            undo.checksum@ == expected_checksum@,
            forall|j: int| 0 <= j < k ==> turn_restorable(ls, idx[j], undo.into@),
        decreases n - k,
    {
        let index = undo.segment_indices[k];
        if index >= labels.len() {
            proof {
                lemma_first_bad_at(ls, idx, undo.into@, k as int);
            }
            let mut out: Vec<char> = Vec::new();
            push_str(&mut out, "speaker merge undo turn is missing: ");
            push_decimal(&mut out, index as u64);
            return Err(MinuteError::Other(string_from_chars(&out)));
        }
        if !str_eq(labels[index].as_str(), undo.into.as_str()) {
            proof {
                lemma_first_bad_at(ls, idx, undo.into@, k as int);
            }
            let mut out: Vec<char> = Vec::new();
            push_str(&mut out, "speaker merge can no longer be undone at turn ");
            push_decimal(&mut out, index as u64);
            return Err(MinuteError::Other(string_from_chars(&out)));
        }
        k = k + 1;
    }
    proof {
        lemma_all_good_prefix(ls, idx, undo.into@);
        assert forall|j: int| 0 <= j < n implies 0 <= #[trigger] idx[j] < ls.len() by {
            lemma_first_bad_none(ls, idx, undo.into@, j);
        }
    }
    let ghost before = labels@;
    let mut k: usize = 0;
    while k < n
        invariant
            k <= n,
            n == undo.segment_indices@.len(),
            idx == index_seq(undo.segment_indices@),
            ls == label_seq(before),
            undo.checksum@ == expected_checksum@,
            first_bad_turn(ls, idx, undo.into@) is None,
            labels@.len() == before.len(),
            forall|j: int| 0 <= j < n ==> 0 <= #[trigger] idx[j] < before.len(),
            forall|i: int|
                0 <= i < before.len() ==> labels@[i]@ == (if idx.take(k as int).contains(i) {
                    undo.from@
                } else {
                    before[i]@
                }),
        decreases n - k,
    {
        proof {
            lemma_first_bad_none(ls, idx, undo.into@, k as int);
        }
        let index = undo.segment_indices[k];
        labels.set(index, undo.from.clone());
        proof {
            assert forall|i: int| 0 <= i < before.len() implies labels@[i]@ == (if idx.take(k + 1).contains(i) {
                undo.from@
            } else {
                before[i]@
            }) by {
                if i == index {
                    assert(idx.take(k + 1)[k as int] == i);
                } else {
                    let t1 = idx.take(k + 1);
                    let t0 = idx.take(k as int);
                    if t1.contains(i) {
                        let j = choose|j: int| 0 <= j < t1.len() && #[trigger] t1[j] == i;
                        assert(j != k);
                        assert(t0[j] == i);
                    }
                    if t0.contains(i) {
                        let j = choose|j: int| 0 <= j < t0.len() && #[trigger] t0[j] == i;
                        assert(t1[j] == i);
                    }
                }
            }
        }
        k = k + 1;
    }
    proof {
        assert(idx.take(n as int) =~= idx);
        assert(label_seq(labels@) =~= restored(ls, idx, undo.from@));
    }
    Ok(())
}

/// Undoing a merge gives every turn back the label it had: a merge of
/// `from` into `into` over `labels`, then an undo (with a matching
/// fingerprint) of the turns it reported, leaves the labels as they were.
pub proof fn law_undo_reverses_merge(labels: Seq<Seq<char>>, from: Seq<char>, into: Seq<char>)
    requires
        merge_refusal(labels, from, into) is None,
        from != into,
    ensures
        undo_outcome(relabeled(labels, from, into), positions(labels, from), from, into) == Ok::<
            Seq<Seq<char>>,
            Seq<char>,
        >(labels),
{
    let merged = relabeled(labels, from, into);
    let idx = positions(labels, from);
    lemma_positions(labels, from);
    assert forall|j: int| 0 <= j < idx.len() implies turn_restorable(merged, idx[j], into) by {
        assert(labels[idx[j]] == from);
    }
    lemma_all_good_prefix(merged, idx, into);
    assert(restored(merged, idx, from) =~= labels) by {
        assert forall|i: int| 0 <= i < labels.len() implies restored(merged, idx, from)[i] == labels[i] by {
            if labels[i] == from {
                assert(idx.contains(i));
            } else {
                if idx.contains(i) {
                    let k = choose|k: int| 0 <= k < idx.len() && idx[k] == i;
                    assert(labels[idx[k]] == from);
                }
            }
        }
    }
}

// ---------------------------------------------------------------------------
// Relabeling after diarization, and counting speakers
// ---------------------------------------------------------------------------

/// The aliases after `from` was renamed `to` (see [`NoteSpeakers::after_rename`]).
pub open spec fn renamed_aliases(m: Map<Seq<char>, Seq<char>>, from: Seq<char>, to: Seq<char>) -> Map<
    Seq<char>,
    Seq<char>,
> {
    redirected(m, from, to).insert(from, to)
}

/// Renames compact: after `a` is renamed `b` and then `b` renamed `c`, a
/// turn labeled `a` is shown as `c` straight away, and renaming `b` back
/// to `a` leaves no alias for `a` at all, so a later pass cannot bring
/// `b` back.
pub proof fn law_renames_compact(m: Map<Seq<char>, Seq<char>>, a: Seq<char>, b: Seq<char>, c: Seq<char>)
    requires
        a != b,
        b != c,
        a != c,
    ensures
        displayed(renamed_aliases(renamed_aliases(m, a, b), b, c), a) == c,
        !renamed_aliases(renamed_aliases(m, a, b), b, a).contains_key(a),
{
    let m1 = renamed_aliases(m, a, b);
    assert(m1.contains_key(a) && m1[a] == b);
    let m2 = renamed_aliases(m1, b, c);
    assert(redirected(m1, b, c).contains_key(a));
    assert(m2[a] == c);
    let back = redirected(m1, b, a);
    assert(!back.contains_key(a));
}

/// A label as displayed: its alias when it has one.
pub open spec fn displayed(aliases: Map<Seq<char>, Seq<char>>, label: Seq<char>) -> Seq<char> {
    if aliases.contains_key(label) {
        aliases[label]
    } else {
        label
    }
}

/// The label a live segment is stored under: its alias when it has one.
pub fn display_label(aliases: &AliasMap, label: &str) -> (r: String)
    requires
        aliases.wf(),
    ensures
        r@ == displayed(aliases.map(), label@),
{
    match aliases.get(label) {
        Some(v) => v,
        None => String::from_str(label),
    }
}

/// New diarization labels for every turn, each through its alias;
/// refused when there are not exactly as many labels as turns.
pub fn relabel_segments(segment_count: usize, labels: &[String], aliases: &AliasMap) -> (r: Result<
    Vec<String>,
    MinuteError,
>)
    requires
        aliases.wf(),
    ensures
        segment_count != labels@.len() ==> (r matches Err(e) && error_message(e) == "speaker labels ("@
            + decimal(labels@.len()) + ") do not match transcript segments ("@ + decimal(
            segment_count as nat,
        ) + ")"@),
        segment_count == labels@.len() ==> (r matches Ok(v) && v@.len() == labels@.len() && forall|
            i: int,
        |
            0 <= i < labels@.len() ==> #[trigger] v@[i]@ == displayed(aliases.map(), labels@[i]@)),
{
    if segment_count != labels.len() {
        let mut out: Vec<char> = Vec::new();
        push_str(&mut out, "speaker labels (");
        push_decimal(&mut out, labels.len() as u64);
        push_str(&mut out, ") do not match transcript segments (");
        push_decimal(&mut out, segment_count as u64);
        push_str(&mut out, ")");
        return Err(MinuteError::Other(string_from_chars(&out)));
    }
    let mut v: Vec<String> = Vec::new();
    let mut i: usize = 0;
    while i < labels.len()
        invariant
            aliases.wf(),
            i <= labels@.len(),
            v@.len() == i,
            forall|j: int| 0 <= j < i ==> #[trigger] v@[j]@ == displayed(aliases.map(), labels@[j]@),
        decreases labels@.len() - i,
    {
        v.push(display_label(aliases, labels[i].as_str()));
        i = i + 1;
    }
    Ok(v)
}

/// How many distinct labels `labels` holds.
pub open spec fn distinct_count(labels: Seq<Seq<char>>) -> nat {
    labels.to_set().len()
}

/// How many distinct speakers the labels name.
pub fn speaker_count(labels: &Vec<String>) -> (n: usize)
    ensures
        n == distinct_count(label_seq(labels@)),
{
    let ghost ls = label_seq(labels@);
    let mut count: usize = 0;
    let mut i: usize = 0;
    assert(ls.take(0).to_set() =~= Set::<Seq<char>>::empty());
    while i < labels.len()
        invariant
            i <= labels@.len(),
            ls == label_seq(labels@),
            count == ls.take(i as int).to_set().len(),
            count <= i,
            ls.take(i as int).to_set().finite(),
        decreases labels@.len() - i,
    {
        let mut seen = false;
        let mut j: usize = 0;
        while j < i
            invariant
                j <= i,
                i < labels@.len(),
                ls == label_seq(labels@),
                seen == exists|a: int| 0 <= a < j && ls[a] == ls[i as int],
            decreases i - j,
        {
            let ghost before_seen = seen;
            if str_eq(labels[j].as_str(), labels[i].as_str()) {
                seen = true;
                assert(ls[j as int] == ls[i as int]);
            }
            proof {
                if seen && !before_seen {
                    assert(ls[j as int] == ls[i as int]);
                } else if !seen {
                    assert(ls[j as int] != ls[i as int]);
                    assert forall|a: int| 0 <= a < j + 1 implies ls[a] != ls[i as int] by {
                        if a < j {
                        }
                    }
                }
            }
            j = j + 1;
        }
        let ghost prev = ls.take(i as int).to_set();
        assert(ls.take(i + 1).to_set() =~= prev.insert(ls[i as int])) by {
            assert(ls.take(i + 1) =~= ls.take(i as int).push(ls[i as int]));
            ls.take(i as int).lemma_push_to_set_commute(ls[i as int]);
        }
        if seen {
            assert(prev.contains(ls[i as int])) by {
                let a = choose|a: int| 0 <= a < i && ls[a] == ls[i as int];
                assert(ls.take(i as int)[a] == ls[i as int]);
            }
            assert(prev.insert(ls[i as int]) =~= prev);
        } else {
            assert(!prev.contains(ls[i as int])) by {
                if prev.contains(ls[i as int]) {
                    let a = choose|a: int| 0 <= a < i && ls.take(i as int)[a] == ls[i as int];
                    assert(ls[a] == ls[i as int]);
                }
            }
            count = count + 1;
        }
        proof {
            vstd::seq_lib::seq_to_set_is_finite(ls.take(i + 1));
        }
        i = i + 1;
    }
    assert(ls.take(i as int) =~= ls);
    count
}

// ---------------------------------------------------------------------------
// Following a renamed label to its current name
// ---------------------------------------------------------------------------

/// `label` followed through at most `n` alias links.
pub open spec fn follow(aliases: Map<Seq<char>, Seq<char>>, label: Seq<char>, n: nat) -> Seq<char>
    decreases n,
{
    if n == 0 || !aliases.contains_key(label) {
        label
    } else {
        follow(aliases, aliases[label], (n - 1) as nat)
    }
}

/// The name a diarization label is displayed under now, after every rename
/// since: its alias chain followed, for at most as many links as there are
/// aliases (so a cyclic alias file cannot loop forever).
pub fn current_name(aliases: &AliasMap, original: &str) -> (r: String)
    requires
        aliases.wf(),
    ensures
        r@ == follow(aliases.map(), original@, aliases.map().dom().len()),
{
    let n = aliases.len();
    let mut current = String::from_str(original);
    let mut k: usize = 0;
    while k < n
        invariant
            aliases.wf(),
            k <= n,
            n == aliases.map().dom().len(),
            follow(aliases.map(), original@, n as nat) == follow(
                aliases.map(),
                current@,
                (n - k) as nat,
            ),
        decreases n - k,
    {
        match aliases.get(current.as_str()) {
            Some(next) => {
                current = next;
            },
            None => {
                return current;
            },
        }
        k = k + 1;
    }
    current
}

/// A label's current name under `aliases`.
pub open spec fn current(aliases: Map<Seq<char>, Seq<char>>, label: Seq<char>) -> Seq<char> {
    follow(aliases, label, aliases.dom().len())
}

/// Which of a note's voice-embedding keys (the labels a diarization pass
/// wrote, in key order) holds the voice now shown as `label`: the key
/// `label` itself when there is one, else the first key whose alias chain
/// ends at `label`; `None` when no key does.
pub fn embedding_key_for(keys: &[String], aliases: &AliasMap, label: &str) -> (r: Option<usize>)
    requires
        aliases.wf(),
    ensures
        match r {
            Some(i) => i < keys@.len() && if keys@[i as int]@ == label@ {
                forall|j: int| 0 <= j < i ==> #[trigger] keys@[j]@ != label@
            } else {
                &&& forall|j: int| 0 <= j < keys@.len() ==> #[trigger] keys@[j]@ != label@
                &&& current(aliases.map(), keys@[i as int]@) == label@
                &&& forall|j: int|
                    0 <= j < i ==> current(aliases.map(), #[trigger] keys@[j]@) != label@
            },
            None => forall|j: int|
                0 <= j < keys@.len() ==> #[trigger] keys@[j]@ != label@ && current(
                    aliases.map(),
                    keys@[j]@,
                ) != label@,
        },
{
    let mut i: usize = 0;
    while i < keys.len()
        invariant
            i <= keys@.len(),
            forall|j: int| 0 <= j < i ==> #[trigger] keys@[j]@ != label@,
        decreases keys@.len() - i,
    {
        if str_eq(keys[i].as_str(), label) {
            return Some(i);
        }
        i = i + 1;
    }
    let mut k: usize = 0;
    while k < keys.len()
        invariant
            aliases.wf(),
            k <= keys@.len(),
            forall|j: int| 0 <= j < keys@.len() ==> #[trigger] keys@[j]@ != label@,
            forall|j: int| 0 <= j < k ==> current(aliases.map(), #[trigger] keys@[j]@) != label@,
        decreases keys@.len() - k,
    {
        let name = current_name(aliases, keys[k].as_str());
        if str_eq(name.as_str(), label) {
            return Some(k);
        }
        k = k + 1;
    }
    None
}

// ---------------------------------------------------------------------------
// Names matched from voice profiles
// ---------------------------------------------------------------------------

/// What became of one name a diarization pass proposed for a label.
#[derive(Clone, Copy, Debug, PartialEq, Eq, Structural)]
pub enum NameOutcome {
    /// The user renamed this label themselves: their name stays.
    UserOwned,
    /// Another label already shows this name: kept as a suggestion only.
    Demoted,
    /// The alias was set.
    Applied,
}

/// One proposed `label -> name`.
#[derive(Debug, Clone, PartialEq)]
pub struct ProposedName {
    pub label: String,
    pub name: String,
}

/// The outcome for `label -> name` against the aliases so far and the
/// labels named automatically before this pass.
pub open spec fn name_outcome(
    aliases: Map<Seq<char>, Seq<char>>,
    auto_before: Map<Seq<char>, Seq<char>>,
    label: Seq<char>,
    name: Seq<char>,
) -> NameOutcome {
    if aliases.contains_key(label) && aliases[label] != name && !auto_before.contains_key(label) {
        NameOutcome::UserOwned
    } else if exists|other: Seq<char>|
        #![trigger aliases.contains_key(other)]
        aliases.contains_key(other) && other != label && aliases[other] == name {
        NameOutcome::Demoted
    } else {
        NameOutcome::Applied
    }
}

/// The aliases and outcomes after proposals `ps`, taken in order.
pub open spec fn apply_names(
    aliases: Map<Seq<char>, Seq<char>>,
    auto_before: Map<Seq<char>, Seq<char>>,
    ps: Seq<(Seq<char>, Seq<char>)>,
) -> (Map<Seq<char>, Seq<char>>, Seq<NameOutcome>)
    decreases ps.len(),
{
    if ps.len() == 0 {
        (aliases, Seq::empty())
    } else {
        let (m, outs) = apply_names(aliases, auto_before, ps.drop_last());
        let (label, name) = ps.last();
        let o = name_outcome(m, auto_before, label, name);
        (
            if o == NameOutcome::Applied {
                m.insert(label, name)
            } else {
                m
            },
            outs.push(o),
        )
    }
}

/// No name is shown by two different labels.
pub open spec fn names_distinct(m: Map<Seq<char>, Seq<char>>) -> bool {
    forall|a: Seq<char>, b: Seq<char>|
        m.contains_key(a) && m.contains_key(b) && a != b ==> #[trigger] m[a] != #[trigger] m[b]
}

/// Names matched from voice profiles never collapse two speakers into
/// one: when no name was shown by two labels before a pass, none is after.
pub proof fn law_applied_names_never_collapse_speakers(
    aliases: Map<Seq<char>, Seq<char>>,
    auto_before: Map<Seq<char>, Seq<char>>,
    ps: Seq<(Seq<char>, Seq<char>)>,
)
    requires
        names_distinct(aliases),
    ensures
        names_distinct(apply_names(aliases, auto_before, ps).0),
    decreases ps.len(),
{
    if ps.len() > 0 {
        law_applied_names_never_collapse_speakers(aliases, auto_before, ps.drop_last());
        let m = apply_names(aliases, auto_before, ps.drop_last()).0;
        let (label, name) = ps.last();
        if name_outcome(m, auto_before, label, name) == NameOutcome::Applied {
            let m2 = m.insert(label, name);
            assert forall|a: Seq<char>, b: Seq<char>|
                m2.contains_key(a) && m2.contains_key(b) && a != b implies #[trigger] m2[a]
                != #[trigger] m2[b] by {
                if a == label {
                    assert(m.contains_key(b));
                } else if b == label {
                    assert(m.contains_key(a));
                } else {
                    assert(m.contains_key(a) && m.contains_key(b));
                }
            }
        }
    }
}

pub open spec fn proposal_seq(ps: Seq<ProposedName>) -> Seq<(Seq<char>, Seq<char>)> {
    ps.map_values(|p: ProposedName| (p.label@, p.name@))
}

/// Applies one diarization pass's proposed names, in order: a label the
/// user renamed (to something else, and not by an earlier automatic pass)
/// keeps its name; a name another label already shows is only suggested;
/// anything else becomes the label's alias. Returns each proposal's
/// outcome; the caller replaces the pass-owned suggestion and auto-applied
/// maps from them.
pub fn apply_speaker_names(speakers: &mut NoteSpeakers, proposed: &[ProposedName]) -> (r: Vec<
    NameOutcome,
>)
    requires
        old(speakers).wf(),
    ensures
        final(speakers).wf(),
        (final(speakers).aliases.map(), r@) == apply_names(
            old(speakers).aliases.map(),
            old(speakers).auto_applied.map(),
            proposal_seq(proposed@),
        ),
        final(speakers).suggestions.map() == old(speakers).suggestions.map(),
        final(speakers).auto_applied.map() == old(speakers).auto_applied.map(),
{
    let ghost ps = proposal_seq(proposed@);
    let ghost start = speakers.aliases.map();
    let ghost auto = speakers.auto_applied.map();
    let ghost sugg = speakers.suggestions.map();
    let mut outs: Vec<NameOutcome> = Vec::new();
    let mut i: usize = 0;
    assert(ps.take(0) =~= Seq::<(Seq<char>, Seq<char>)>::empty());
    while i < proposed.len()
        invariant
            speakers.wf(),
            i <= proposed@.len(),
            ps == proposal_seq(proposed@),
            auto == speakers.auto_applied.map(),
            sugg == speakers.suggestions.map(),
            (speakers.aliases.map(), outs@) == apply_names(start, auto, ps.take(i as int)),
        decreases proposed@.len() - i,
    {
        assert(ps.take(i + 1).drop_last() =~= ps.take(i as int));
        let p = &proposed[i];
        let label = p.label.as_str();
        let name = p.name.as_str();
        let user_owned = match speakers.aliases.get(label) {
            Some(current) => !str_eq(current.as_str(), name) && speakers.auto_applied.get(label).is_none(),
            None => false,
        };
        if user_owned {
            outs.push(NameOutcome::UserOwned);
        } else if speakers.aliases.name_taken_by_other(label, name) {
            outs.push(NameOutcome::Demoted);
        } else {
            speakers.aliases.insert(p.label.clone(), p.name.clone());
            outs.push(NameOutcome::Applied);
        }
        i = i + 1;
    }
    assert(ps.take(i as int) =~= ps);
    outs
}

} // verus!
