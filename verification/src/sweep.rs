//! Time-based library rules: which notes lose or compress their audio,
//! the steps of compressing one note's audio safely, how notes order by
//! creation time, and a new note's id.
use vstd::prelude::*;

use crate::clock::{moment_tuple, parse_rfc3339, parsed_rfc3339, Rfc3339Moment};
use crate::model::NoteStatus;
use crate::store::NoteFacts;
use crate::text::{push_decimal, push_str, string_from_chars};

verus! {

/// Nanoseconds in one day.
pub const NANOS_PER_DAY: i128 = 86400000000000;

/// The earliest instant, in Unix nanoseconds, a sweep is asked about
/// (far beyond any date the timestamp parser accepts).
pub open spec fn earliest_now() -> int {
    -1267650600228229401496703205376
}

/// A note of a status whose audio the sweeps may touch: finished, never
/// one still recording.
pub open spec fn settled(s: NoteStatus) -> bool {
    s == NoteStatus::Ready || s == NoteStatus::Transcribed
}

/// The note was created strictly more than `days` whole days before `now`
/// (Unix nanoseconds), by a `createdAt` that parses; an unparseable one
/// never counts as old.
pub open spec fn created_before(parsed: Option<(int, int, int, int)>, now: int, days: int) -> bool {
    match parsed {
        Some((t, _, _, _)) => t < now - days * 86400000000000,
        None => false,
    }
}

pub open spec fn opt_moment(m: Option<Rfc3339Moment>) -> Option<(int, int, int, int)> {
    match m {
        Some(x) => Some(moment_tuple(x)),
        None => None,
    }
}

/// The audio sweep's rule for one note, its `createdAt` already read:
/// audio not yet deleted, a settled status, and older than `days` days.
pub fn is_sweep_candidate(note: &NoteFacts, created: &Option<Rfc3339Moment>, now_unix_nanos: i128, days: u32) -> (b: bool)
    requires
        now_unix_nanos >= earliest_now(),
    ensures
        b == (!note.audio_deleted && settled(note.status) && created_before(
            opt_moment(*created),
            now_unix_nanos as int,
            days as int,
        )),
{
    if note.audio_deleted {
        return false;
    }
    match note.status {
        NoteStatus::Recording => {
            return false;
        },
        _ => {},
    }
    match created {
        Some(m) => {
            let span: i128 = (days as i128) * NANOS_PER_DAY;
            m.unix_nanos < now_unix_nanos - span
        },
        None => false,
    }
}

/// The ids, in order, of the notes the audio sweep deletes the audio of:
/// not yet deleted, settled, and created strictly more than 30 days
/// before `now`.
pub open spec fn sweep_ids(notes: Seq<NoteFacts>, now: int) -> Seq<Seq<char>>
    decreases notes.len(),
{
    if notes.len() == 0 {
        Seq::empty()
    } else {
        let prev = sweep_ids(notes.drop_last(), now);
        let n = notes.last();
        if !n.audio_deleted && settled(n.status) && created_before(
            parsed_rfc3339(n.created_at@),
            now,
            30,
        ) {
            prev.push(n.id@)
        } else {
            prev
        }
    }
}

/// The ids, in order, of the notes the compression sweep encodes: neither
/// deleted nor already compressed, settled, and created strictly more than
/// `days` days before `now`.
pub open spec fn compress_ids(notes: Seq<NoteFacts>, now: int, days: int) -> Seq<Seq<char>>
    decreases notes.len(),
{
    if notes.len() == 0 {
        Seq::empty()
    } else {
        let prev = compress_ids(notes.drop_last(), now, days);
        let n = notes.last();
        if !n.audio_deleted && !n.audio_compressed && settled(n.status) && created_before(
            parsed_rfc3339(n.created_at@),
            now,
            days,
        ) {
            prev.push(n.id@)
        } else {
            prev
        }
    }
}

pub open spec fn id_views(v: Seq<String>) -> Seq<Seq<char>> {
    v.map_values(|s: String| s@)
}

/// Which notes the 30-day audio sweep deletes the audio of, given the
/// current instant in Unix nanoseconds.
pub fn sweep_candidates(notes: &[NoteFacts], now_unix_nanos: i128) -> (r: Vec<String>)
    requires
        now_unix_nanos >= earliest_now(),
    ensures
        id_views(r@) == sweep_ids(notes@, now_unix_nanos as int),
{
    let mut out: Vec<String> = Vec::new();
    let mut i: usize = 0;
    assert(notes@.take(0) =~= Seq::<NoteFacts>::empty());
    while i < notes.len()
        invariant
            i <= notes@.len(),
            now_unix_nanos >= earliest_now(),
            id_views(out@) == sweep_ids(notes@.take(i as int), now_unix_nanos as int),
        decreases notes@.len() - i,
    {
        assert(notes@.take(i + 1).drop_last() =~= notes@.take(i as int));
        let n = &notes[i];
        let created = parse_rfc3339(n.created_at.as_str());
        if is_sweep_candidate(n, &created, now_unix_nanos, 30) {
            out.push(n.id.clone());
        }
        assert(id_views(out@) =~= sweep_ids(notes@.take(i + 1), now_unix_nanos as int));
        i = i + 1;
    }
    assert(notes@.take(i as int) =~= notes@);
    out
}

/// Which notes the compression sweep encodes, given the current instant in
/// Unix nanoseconds and the configured age in days.
pub fn compress_candidates(notes: &[NoteFacts], now_unix_nanos: i128, days: u32) -> (r: Vec<String>)
    requires
        now_unix_nanos >= earliest_now(),
    ensures
        id_views(r@) == compress_ids(notes@, now_unix_nanos as int, days as int),
{
    let mut out: Vec<String> = Vec::new();
    let mut i: usize = 0;
    assert(notes@.take(0) =~= Seq::<NoteFacts>::empty());
    while i < notes.len()
        invariant
            i <= notes@.len(),
            now_unix_nanos >= earliest_now(),
            id_views(out@) == compress_ids(notes@.take(i as int), now_unix_nanos as int, days as int),
        decreases notes@.len() - i,
    {
        assert(notes@.take(i + 1).drop_last() =~= notes@.take(i as int));
        let n = &notes[i];
        let created = parse_rfc3339(n.created_at.as_str());
        if !n.audio_compressed && is_sweep_candidate(n, &created, now_unix_nanos, days) {
            out.push(n.id.clone());
        }
        assert(id_views(out@) =~= compress_ids(
            notes@.take(i + 1),
            now_unix_nanos as int,
            days as int,
        ));
        i = i + 1;
    }
    assert(notes@.take(i as int) =~= notes@);
    out
}

/// The audio sweeps never pick a note that is still recording, nor one
/// whose audio is already gone, nor one whose `createdAt` does not parse.
pub proof fn law_sweeps_spare_recordings_and_unreadable_dates(
    notes: Seq<NoteFacts>,
    now: int,
    days: int,
    id: Seq<char>,
)
    ensures
        sweep_ids(notes, now).contains(id) ==> exists|i: int|
            #![trigger notes[i]]
            0 <= i < notes.len() && notes[i].id@ == id && !notes[i].audio_deleted && settled(
                notes[i].status,
            ) && parsed_rfc3339(notes[i].created_at@) is Some,
        compress_ids(notes, now, days).contains(id) ==> exists|i: int|
            #![trigger notes[i]]
            0 <= i < notes.len() && notes[i].id@ == id && !notes[i].audio_deleted
                && !notes[i].audio_compressed && settled(notes[i].status) && parsed_rfc3339(
                notes[i].created_at@,
            ) is Some,
    decreases notes.len(),
{
    if notes.len() > 0 {
        let p = notes.drop_last();
        law_sweeps_spare_recordings_and_unreadable_dates(p, now, days, id);
        let last = notes.len() - 1;
        if sweep_ids(notes, now).contains(id) {
            if sweep_ids(p, now).contains(id) {
                let i = choose|i: int|
                    #![trigger p[i]]
                    0 <= i < p.len() && p[i].id@ == id && !p[i].audio_deleted && settled(p[i].status)
                        && parsed_rfc3339(p[i].created_at@) is Some;
                assert(notes[i] == p[i]);
            } else {
                assert(notes[last].id@ == id);
            }
        }
        if compress_ids(notes, now, days).contains(id) {
            if compress_ids(p, now, days).contains(id) {
                let i = choose|i: int|
                    #![trigger p[i]]
                    0 <= i < p.len() && p[i].id@ == id && !p[i].audio_deleted && !p[i].audio_compressed
                        && settled(p[i].status) && parsed_rfc3339(p[i].created_at@) is Some;
                assert(notes[i] == p[i]);
            } else {
                assert(notes[last].id@ == id);
            }
        }
    }
}

/// Each note is judged on its own: sweeping two runs of notes one after the
/// other picks what sweeping them together picks, in the same order.
pub proof fn law_sweeps_judge_each_note_alone(a: Seq<NoteFacts>, b: Seq<NoteFacts>, now: int, days: int)
    ensures
        sweep_ids(a + b, now) == sweep_ids(a, now) + sweep_ids(b, now),
        compress_ids(a + b, now, days) == compress_ids(a, now, days) + compress_ids(b, now, days),
    decreases b.len(),
{
    if b.len() == 0 {
        assert(a + b =~= a);
        assert(sweep_ids(a, now) + sweep_ids(b, now) =~= sweep_ids(a, now));
        assert(compress_ids(a, now, days) + compress_ids(b, now, days) =~= compress_ids(a, now, days));
    } else {
        law_sweeps_judge_each_note_alone(a, b.drop_last(), now, days);
        assert((a + b).drop_last() =~= a + b.drop_last());
        assert((a + b).last() == b.last());
        assert(sweep_ids(a, now) + sweep_ids(b.drop_last(), now).push(b.last().id@) =~= (sweep_ids(
            a,
            now,
        ) + sweep_ids(b.drop_last(), now)).push(b.last().id@));
        assert(compress_ids(a, now, days) + compress_ids(b.drop_last(), now, days).push(b.last().id@)
            =~= (compress_ids(a, now, days) + compress_ids(b.drop_last(), now, days)).push(
            b.last().id@,
        ));
    }
}

/// Every note that qualifies is picked: the 30-day sweep takes each note
/// whose audio is still there, whose status is settled, and whose
/// `createdAt` lies more than 30 days before `now`; the compression sweep
/// takes each such note not yet compressed that is more than `days` days
/// old.
pub proof fn law_sweeps_pick_every_eligible_note(notes: Seq<NoteFacts>, now: int, days: int, i: int)
    requires
        0 <= i < notes.len(),
    ensures
        !notes[i].audio_deleted && settled(notes[i].status) && created_before(
            parsed_rfc3339(notes[i].created_at@),
            now,
            30,
        ) ==> sweep_ids(notes, now).contains(notes[i].id@),
        !notes[i].audio_deleted && !notes[i].audio_compressed && settled(notes[i].status)
            && created_before(parsed_rfc3339(notes[i].created_at@), now, days) ==> compress_ids(
            notes,
            now,
            days,
        ).contains(notes[i].id@),
    decreases notes.len(),
{
    let p = notes.drop_last();
    let last = notes.len() - 1;
    if i < last {
        law_sweeps_pick_every_eligible_note(p, now, days, i);
        assert(p[i] == notes[i]);
        let sp = sweep_ids(p, now);
        if sp.contains(notes[i].id@) {
            let k = choose|k: int| 0 <= k < sp.len() && sp[k] == notes[i].id@;
            assert(sp.push(notes[last].id@)[k] == sp[k]);
        }
        let cp = compress_ids(p, now, days);
        if cp.contains(notes[i].id@) {
            let k = choose|k: int| 0 <= k < cp.len() && cp[k] == notes[i].id@;
            assert(cp.push(notes[last].id@)[k] == cp[k]);
        }
    } else {
        let sp = sweep_ids(p, now);
        assert(sp.push(notes[i].id@)[sp.len() as int] == notes[i].id@);
        let cp = compress_ids(p, now, days);
        assert(cp.push(notes[i].id@)[cp.len() as int] == notes[i].id@);
    }
}

// ---------------------------------------------------------------------------
// Compressing one note's audio
// ---------------------------------------------------------------------------

/// One step of compressing a note's `audio.wav` into `audio.m4a`.
#[derive(Clone, Copy, Debug, PartialEq, Eq, Structural)]
pub enum CompressStep {
    /// Check that `audio.wav` is on disk.
    CheckWav,
    /// Remove a temporary output left by an earlier crashed attempt.
    RemoveStaleTmp,
    /// Encode the WAV into the temporary output.
    Encode,
    /// Check that the temporary output exists and is not empty.
    CheckOutput,
    /// Rename the temporary output onto `audio.m4a`.
    Finalize,
    /// Remove `audio.wav`.
    RemoveWav,
    /// Re-read the note's metadata and persist it as compressed.
    MarkCompressed,
}

/// What to do after a step.
#[derive(Clone, Copy, Debug, PartialEq, Eq, Structural)]
pub enum CompressAction {
    /// Perform this step next.
    Do(CompressStep),
    /// Remove the temporary output, leave the WAV alone, go to the next note.
    CleanUpAndSkip,
    /// Leave things as they are and go to the next note.
    Skip,
    /// This note is compressed: count it.
    Compressed,
}

/// What follows `step` when it succeeded (`ok`) or failed. Cleanup
/// stands behind every failure between encoding and renaming, and the
/// original is only removed once its replacement is renamed into place.
pub open spec fn compress_next(step: CompressStep, ok: bool) -> CompressAction {
    match step {
        CompressStep::CheckWav => if ok {
            CompressAction::Do(CompressStep::RemoveStaleTmp)
        } else {
            CompressAction::Skip
        },
        CompressStep::RemoveStaleTmp => CompressAction::Do(CompressStep::Encode),
        CompressStep::Encode => if ok {
            CompressAction::Do(CompressStep::CheckOutput)
        } else {
            CompressAction::CleanUpAndSkip
        },
        CompressStep::CheckOutput => if ok {
            CompressAction::Do(CompressStep::Finalize)
        } else {
            CompressAction::CleanUpAndSkip
        },
        CompressStep::Finalize => if ok {
            CompressAction::Do(CompressStep::RemoveWav)
        } else {
            CompressAction::CleanUpAndSkip
        },
        CompressStep::RemoveWav => if ok {
            CompressAction::Do(CompressStep::MarkCompressed)
        } else {
            CompressAction::Skip
        },
        CompressStep::MarkCompressed => if ok {
            CompressAction::Compressed
        } else {
            CompressAction::Skip
        },
    }
}

/// The step a note's compression starts with.
pub fn first_compress_step() -> (s: CompressStep)
    ensures
        s == CompressStep::CheckWav,
{
    CompressStep::CheckWav
}

/// What to do after `step` came out `ok` (or not).
pub fn next_compress_action(step: CompressStep, ok: bool) -> (r: CompressAction)
    ensures
        r == compress_next(step, ok),
{
    match step {
        CompressStep::CheckWav => if ok {
            CompressAction::Do(CompressStep::RemoveStaleTmp)
        } else {
            CompressAction::Skip
        },
        CompressStep::RemoveStaleTmp => CompressAction::Do(CompressStep::Encode),
        CompressStep::Encode => if ok {
            CompressAction::Do(CompressStep::CheckOutput)
        } else {
            CompressAction::CleanUpAndSkip
        },
        CompressStep::CheckOutput => if ok {
            CompressAction::Do(CompressStep::Finalize)
        } else {
            CompressAction::CleanUpAndSkip
        },
        CompressStep::Finalize => if ok {
            CompressAction::Do(CompressStep::RemoveWav)
        } else {
            CompressAction::CleanUpAndSkip
        },
        CompressStep::RemoveWav => if ok {
            CompressAction::Do(CompressStep::MarkCompressed)
        } else {
            CompressAction::Skip
        },
        CompressStep::MarkCompressed => if ok {
            CompressAction::Compressed
        } else {
            CompressAction::Skip
        },
    }
}

/// `trace` is a run of the step machine for one note: it starts by
/// checking the WAV, and every step is the one the previous step's outcome
/// called for.
pub open spec fn is_compress_run(trace: Seq<(CompressStep, bool)>) -> bool {
    &&& trace.len() > 0
    &&& trace[0].0 == CompressStep::CheckWav
    &&& forall|i: int|
        0 <= i < trace.len() - 1 ==> #[trigger] compress_next(trace[i].0, trace[i].1)
            == CompressAction::Do(trace[i + 1].0)
}

proof fn lemma_step_before(s: CompressStep, ok: bool, next: CompressStep)
    requires
        compress_next(s, ok) == CompressAction::Do(next),
    ensures
        next == CompressStep::RemoveWav ==> s == CompressStep::Finalize && ok,
        next == CompressStep::Finalize ==> s == CompressStep::CheckOutput && ok,
        next == CompressStep::CheckOutput ==> s == CompressStep::Encode && ok,
        next == CompressStep::Encode ==> s == CompressStep::RemoveStaleTmp,
        next == CompressStep::MarkCompressed ==> s == CompressStep::RemoveWav && ok,
        next != CompressStep::CheckWav,
{
}

proof fn lemma_run_step(trace: Seq<(CompressStep, bool)>, i: int)
    requires
        is_compress_run(trace),
        0 < i < trace.len(),
    ensures
        compress_next(trace[i - 1].0, trace[i - 1].1) == CompressAction::Do(trace[i].0),
{
    let j = i - 1;
    assert(compress_next(trace[j].0, trace[j].1) == CompressAction::Do(trace[j + 1].0));
}

/// A note's only audio is never removed unless its replacement is good:
/// in any run, the WAV is removed right after the output was encoded,
/// found non-empty and renamed into place, each of them successfully; and
/// a note is counted compressed only after the WAV was removed.
pub proof fn law_wav_removed_only_after_verified_replacement(trace: Seq<(CompressStep, bool)>, i: int)
    requires
        is_compress_run(trace),
        0 <= i < trace.len(),
    ensures
        trace[i].0 == CompressStep::RemoveWav ==> i >= 4 && trace[i - 1] == (
            CompressStep::Finalize,
            true,
        ) && trace[i - 2] == (CompressStep::CheckOutput, true) && trace[i - 3] == (
            CompressStep::Encode,
            true,
        ),
        compress_next(trace[i].0, trace[i].1) == CompressAction::Compressed ==> i >= 5
            && trace[i - 1] == (CompressStep::RemoveWav, true),
    decreases i,
{
    if trace[i].0 == CompressStep::RemoveWav {
        assert(i != 0);
        lemma_run_step(trace, i);
        lemma_step_before(trace[i - 1].0, trace[i - 1].1, trace[i].0);
        assert(i - 1 != 0);
        lemma_run_step(trace, i - 1);
        lemma_step_before(trace[i - 2].0, trace[i - 2].1, trace[i - 1].0);
        assert(i - 2 != 0);
        lemma_run_step(trace, i - 2);
        lemma_step_before(trace[i - 3].0, trace[i - 3].1, trace[i - 2].0);
        assert(i - 3 != 0);
        lemma_run_step(trace, i - 3);
        lemma_step_before(trace[i - 4].0, trace[i - 4].1, trace[i - 3].0);
    }
    if compress_next(trace[i].0, trace[i].1) == CompressAction::Compressed {
        assert(trace[i].0 == CompressStep::MarkCompressed);
        assert(i != 0);
        lemma_run_step(trace, i);
        lemma_step_before(trace[i - 1].0, trace[i - 1].1, trace[i].0);
        law_wav_removed_only_after_verified_replacement(trace, i - 1);
    }
}

// ---------------------------------------------------------------------------
// Ordering notes, and new note ids
// ---------------------------------------------------------------------------

/// How two `createdAt` texts order: by instant when both parse, else as
/// text.
pub open spec fn created_at_order(a: Seq<char>, b: Seq<char>) -> int {
    match (parsed_rfc3339(a), parsed_rfc3339(b)) {
        (Some((ta, _, _, _)), Some((tb, _, _, _))) => if ta < tb {
            -1
        } else if ta == tb {
            0
        } else {
            1
        },
        _ => text_order(a, b),
    }
}

/// Lexicographic order of two texts by code point: -1, 0 or 1.
pub open spec fn text_order(a: Seq<char>, b: Seq<char>) -> int
    decreases a.len(),
{
    if a.len() == 0 {
        if b.len() == 0 {
            0
        } else {
            -1
        }
    } else if b.len() == 0 {
        1
    } else if (a[0] as u32) < (b[0] as u32) {
        -1
    } else if (a[0] as u32) > (b[0] as u32) {
        1
    } else {
        text_order(a.drop_first(), b.drop_first())
    }
}

fn compare_text(a: &[char], b: &[char]) -> (r: i8)
    ensures
        r as int == text_order(a@, b@),
{
    let mut i: usize = 0;
    assert(a@.skip(0) =~= a@);
    assert(b@.skip(0) =~= b@);
    loop
        invariant
            i <= a@.len(),
            i <= b@.len(),
            text_order(a@, b@) == text_order(a@.skip(i as int), b@.skip(i as int)),
        decreases a@.len() - i,
    {
        if i == a.len() {
            return if i == b.len() {
                0
            } else {
                -1
            };
        }
        if i == b.len() {
            return 1;
        }
        let x = a[i] as u32;
        let y = b[i] as u32;
        if x < y {
            return -1;
        }
        if x > y {
            return 1;
        }
        assert(a@.skip(i as int).drop_first() =~= a@.skip(i + 1));
        assert(b@.skip(i as int).drop_first() =~= b@.skip(i + 1));
        i = i + 1;
    }
}

/// Compares two `createdAt` timestamps chronologically: -1, 0 or 1, by
/// instant when both parse as RFC 3339, else as plain text.
pub fn compare_created_at(a: &str, b: &str) -> (r: i8)
    ensures
        r as int == created_at_order(a@, b@),
{
    let pa = parse_rfc3339(a);
    let pb = parse_rfc3339(b);
    match (pa, pb) {
        (Some(x), Some(y)) => if x.unix_nanos < y.unix_nanos {
            -1
        } else if x.unix_nanos == y.unix_nanos {
            0
        } else {
            1
        },
        _ => compare_text(&crate::text::chars_of(a), &crate::text::chars_of(b)),
    }
}

/// `n` in decimal, zero-padded to at least `w` digits.
pub open spec fn padded(n: nat, w: nat) -> Seq<char>
    decreases w,
{
    if w <= 1 {
        crate::text::decimal(n)
    } else if n < pow10((w - 1) as nat) {
        seq!['0'] + padded(n, (w - 1) as nat)
    } else {
        crate::text::decimal(n)
    }
}

pub open spec fn pow10(k: nat) -> nat
    decreases k,
{
    if k == 0 {
        1
    } else {
        10 * pow10((k - 1) as nat)
    }
}

pub(crate) fn push_padded(out: &mut Vec<char>, n: u64, w: u64)
    requires
        w <= 4,
    ensures
        final(out)@ == old(out)@ + padded(n as nat, w as nat),
    decreases w,
{
    if w <= 1 {
        push_decimal(out, n);
        return;
    }
    let p: u64 = if w == 2 {
        10
    } else if w == 3 {
        100
    } else {
        1000
    };
    assert(p == pow10((w - 1) as nat)) by {
        assert(pow10(0) == 1);
        assert(pow10(1) == 10);
        assert(pow10(2) == 100);
        assert(pow10(3) == 1000);
    }
    if n < p {
        out.push('0');
        let ghost mid = out@;
        push_padded(out, n, w - 1);
        assert(final(out)@ =~= old(out)@ + padded(n as nat, w as nat));
    } else {
        push_decimal(out, n);
    }
}

/// A note id for a UTC creation time: `YYYYMMDD-HHMMSS`.
pub open spec fn note_id_text(year: nat, month: nat, day: nat, hour: nat, minute: nat, second: nat) -> Seq<char> {
    padded(year, 4) + padded(month, 2) + padded(day, 2) + seq!['-'] + padded(hour, 2) + padded(
        minute,
        2,
    ) + padded(second, 2)
}

/// Formats a UTC creation time as a note id, `YYYYMMDD-HHMMSS`.
pub fn format_id(year: u16, month: u8, day: u8, hour: u8, minute: u8, second: u8) -> (r: String)
    ensures
        r@ == note_id_text(
            year as nat,
            month as nat,
            day as nat,
            hour as nat,
            minute as nat,
            second as nat,
        ),
{
    let mut out: Vec<char> = Vec::new();
    push_padded(&mut out, year as u64, 4);
    push_padded(&mut out, month as u64, 2);
    push_padded(&mut out, day as u64, 2);
    out.push('-');
    push_padded(&mut out, hour as u64, 2);
    push_padded(&mut out, minute as u64, 2);
    push_padded(&mut out, second as u64, 2);
    assert(out@ =~= note_id_text(
        year as nat,
        month as nat,
        day as nat,
        hour as nat,
        minute as nat,
        second as nat,
    ));
    string_from_chars(&out)
}

/// The id tried on attempt `attempt` (from 0) when earlier ones were taken:
/// the base id, then `base-2`, `base-3`, ...
pub open spec fn id_attempt(base: Seq<char>, attempt: nat) -> Seq<char> {
    if attempt == 0 {
        base
    } else {
        base + seq!['-'] + crate::text::decimal(attempt + 1)
    }
}

/// The note id to try on attempt `attempt` (from 0).
pub fn note_id_attempt(base: &str, attempt: u64) -> (r: String)
    requires
        attempt < u64::MAX,
    ensures
        r@ == id_attempt(base@, attempt as nat),
{
    if attempt == 0 {
        return String::from_str(base);
    }
    let mut out: Vec<char> = Vec::new();
    push_str(&mut out, base);
    out.push('-');
    push_decimal(&mut out, attempt + 1);
    string_from_chars(&out)
}

/// `taken` answered that some text viewed as `id` is taken.
pub open spec fn reported_taken<F: Fn(&str) -> bool>(taken: F, id: Seq<char>) -> bool {
    exists|t: &str| t@ == id && #[trigger] call_ensures(taken, (t,), true)
}

/// `taken` answered that some text viewed as `id` is free.
pub open spec fn reported_free<F: Fn(&str) -> bool>(taken: F, id: Seq<char>) -> bool {
    exists|t: &str| t@ == id && #[trigger] call_ensures(taken, (t,), false)
}

/// The first free id among the attempts on `base` (the base itself, then
/// `base-2`, `base-3`, ...), asking `taken` about each in turn: the answer
/// is the first attempt `taken` called free, every earlier one having been
/// called taken. `None` only when every attempt a `u64` can count was
/// called taken.
pub fn first_free_id<F: Fn(&str) -> bool>(base: &str, taken: F) -> (r: Option<String>)
    requires
        forall|t: &str| taken.requires((t,)),
    ensures
        match r {
            Some(id) => exists|k: nat|
                #![trigger id_attempt(base@, k)]
                k < u64::MAX && id@ == id_attempt(base@, k) && reported_free(taken, id@) && forall|j: nat|
                    j < k ==> reported_taken(taken, #[trigger] id_attempt(base@, j)),
            None => forall|j: nat| j < u64::MAX ==> reported_taken(taken, #[trigger] id_attempt(base@, j)),
        },
{
    let mut attempt: u64 = 0;
    loop
        invariant
            attempt < u64::MAX,
            forall|t: &str| taken.requires((t,)),
            forall|j: nat| j < attempt ==> reported_taken(taken, #[trigger] id_attempt(base@, j)),
        decreases u64::MAX - attempt,
    {
        let id = note_id_attempt(base, attempt);
        let t = id.as_str();
        let is_taken = taken(t);
        if !is_taken {
            assert(reported_free(taken, id@));
            assert(id@ == id_attempt(base@, attempt as nat));
            return Some(id);
        }
        assert(reported_taken(taken, id_attempt(base@, attempt as nat)));
        if attempt == u64::MAX - 1 {
            return None;
        }
        attempt = attempt + 1;
    }
}

} // verus!
