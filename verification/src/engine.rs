//! The decisions around the loaded summary model: how large a context
//! window to load it with, when an idle model is unloaded, how a transcript
//! is shrunk until its prompt fits, and the order in which waiting notes get
//! the engine.
use vstd::prelude::*;

use crate::error::MinuteError;

verus! {

// ---------------------------------------------------------------------------
// Context window
// ---------------------------------------------------------------------------

/// Floor context window, in tokens: what machines under 16 GB of RAM get.
pub const LLM_CONTEXT_TOKENS: u32 = 8192;

/// Floor for a user-chosen context override.
pub const MIN_CONTEXT_TOKENS: u32 = 2048;

/// The context window tiered by total RAM (< 16 / 16-31 / >= 32 GB).
pub open spec fn ram_tier(total_ram_gb: u64) -> u32 {
    if total_ram_gb < 16 {
        8192
    } else if total_ram_gb < 32 {
        16384
    } else {
        32768
    }
}

/// Picks the context window for a freshly loaded model: the RAM tier, capped
/// at the model's trained context when the model reports one.
pub fn context_tokens_for(total_ram_gb: u64, n_ctx_train: u32) -> (r: u32)
    ensures
        n_ctx_train == 0 ==> r == ram_tier(total_ram_gb),
        n_ctx_train > 0 ==> r == if ram_tier(total_ram_gb) <= n_ctx_train {
            ram_tier(total_ram_gb)
        } else {
            n_ctx_train
        },
{
    let tier: u32 = if total_ram_gb < 16 {
        LLM_CONTEXT_TOKENS
    } else if total_ram_gb < 32 {
        16384
    } else {
        32768
    };
    if n_ctx_train == 0 {
        return tier;
    }
    if tier <= n_ctx_train {
        tier
    } else {
        n_ctx_train
    }
}

/// The context window a generation runs with: the Settings override when
/// present (raised to [`MIN_CONTEXT_TOKENS`], then capped at the trained
/// context when the model reports one), otherwise the automatic pick of
/// [`context_tokens_for`] for this machine's `total_ram_gb`.
pub fn resolve_context_tokens(preferred: Option<u32>, n_ctx_train: u32, total_ram_gb: u64) -> (r:
    u32)
    ensures
        match preferred {
            Some(p) => {
                let raised = if p < 2048 {
                    2048
                } else {
                    p
                };
                r == if n_ctx_train == 0 || raised <= n_ctx_train {
                    raised
                } else {
                    n_ctx_train
                }
            },
            None => r == if n_ctx_train == 0 || ram_tier(total_ram_gb) <= n_ctx_train {
                ram_tier(total_ram_gb)
            } else {
                n_ctx_train
            },
        },
{
    match preferred {
        Some(p) => {
            let p = if p < MIN_CONTEXT_TOKENS {
                MIN_CONTEXT_TOKENS
            } else {
                p
            };
            if n_ctx_train == 0 || p <= n_ctx_train {
                p
            } else {
                n_ctx_train
            }
        },
        None => context_tokens_for(total_ram_gb, n_ctx_train),
    }
}

// ---------------------------------------------------------------------------
// Idle unload
// ---------------------------------------------------------------------------

/// How long, in seconds, a loaded model may sit idle before it is unloaded.
pub const IDLE_UNLOAD_AFTER_SECS: u64 = 300;

#[verifier::external_type_specification]
#[verifier::external_body]
pub struct ExInstant(std::time::Instant);

/// What `Instant::duration_since` gives for `now` and `earlier`: a function
/// of the two clock readings the instants hold (zero when `earlier` is the
/// later one).
pub uninterp spec fn elapsed_between(now: std::time::Instant, earlier: std::time::Instant) -> std::time::Duration;

/// What `Duration::as_secs` gives for `d`: its whole seconds.
pub uninterp spec fn whole_secs_of(d: std::time::Duration) -> u64;

/// `Instant::duration_since`, which saturates to zero rather than panic.
/// Claimed: the result is [`elapsed_between`] of the two instants.
#[verifier::external_body]
fn duration_since(now: std::time::Instant, earlier: std::time::Instant) -> (r: std::time::Duration)
    ensures
        r == elapsed_between(now, earlier),
{
    now.duration_since(earlier)
}

/// `Duration::as_secs`. Claimed: the result is [`whole_secs_of`] of `d`.
#[verifier::external_body]
fn whole_secs(d: std::time::Duration) -> (r: u64)
    ensures
        r == whole_secs_of(d),
{
    d.as_secs()
}

/// The whole seconds a model last used at `last_used` has sat idle at `now`.
pub open spec fn idle_secs(last_used: std::time::Instant, now: std::time::Instant) -> u64 {
    whole_secs_of(elapsed_between(now, last_used))
}

/// The unload decision on an idle time in whole seconds: unload iff no
/// generation is in flight and at least [`IDLE_UNLOAD_AFTER_SECS`] have
/// passed (the boundary itself counts).
pub fn should_unload_after(idle_secs: u64, busy: bool) -> (r: bool)
    ensures
        r == (!busy && idle_secs >= IDLE_UNLOAD_AFTER_SECS),
{
    !busy && idle_secs >= IDLE_UNLOAD_AFTER_SECS
}

/// Should the loaded model be unloaded right now? Never while a generation
/// is in flight; otherwise when `last_used` lies at least
/// [`IDLE_UNLOAD_AFTER_SECS`] whole seconds before `now`.
pub fn should_unload(last_used: std::time::Instant, now: std::time::Instant, busy: bool) -> (r:
    bool)
    ensures
        r == (!busy && idle_secs(last_used, now) >= IDLE_UNLOAD_AFTER_SECS),
{
    if busy {
        return false;
    }
    let idle = duration_since(now, last_used);
    should_unload_after(whole_secs(idle), busy)
}

/// Takes the loaded value out of `loaded` when it is time to unload it,
/// handing it back (the caller drops it); leaves `loaded` alone otherwise.
pub fn unload_if_idle<T>(
    loaded: &mut Option<T>,
    last_used: std::time::Instant,
    now: std::time::Instant,
    busy: bool,
) -> (r: Option<T>)
    ensures
        r is Some <==> (*old(loaded) is Some && !busy && idle_secs(last_used, now)
            >= IDLE_UNLOAD_AFTER_SECS),
        r is Some ==> r == *old(loaded) && *final(loaded) is None,
        r is None ==> *final(loaded) == *old(loaded),
{
    if loaded.is_none() {
        return None;
    }
    if !should_unload(last_used, now, busy) {
        return None;
    }
    loaded.take()
}

// ---------------------------------------------------------------------------
// Fitting the transcript to the context window
// ---------------------------------------------------------------------------

/// Generation attempts per [`generate_fitting_transcript`] call.
pub const MAX_PROMPT_FIT_ATTEMPTS: usize = 4;

/// Floor for the shrinking transcript budget, in bytes.
pub const MIN_TRANSCRIPT_BUDGET: usize = 2048;

/// `x * y` as `usize::saturating_mul` computes it.
pub open spec fn sat_mul(x: int, y: int) -> int {
    if x * y > usize::MAX {
        usize::MAX as int
    } else {
        x * y
    }
}

fn saturating_mul(x: usize, y: usize) -> (r: usize)
    ensures
        r == sat_mul(x as int, y as int),
{
    match x.checked_mul(y) {
        Some(p) => p,
        None => usize::MAX,
    }
}

/// The proportional-shrink step, as a number: the transcript bytes scaled
/// by `available / actual` tokens, less a 10% margin.
pub open spec fn shrunk_budget(effective_bytes: int, prompt_tokens: int, available_tokens: int) -> int {
    sat_mul(sat_mul(effective_bytes, available_tokens) / prompt_tokens, 9) / 10
}

/// The next transcript budget after a too-long prompt, or `None` when no
/// useful retry exists: zero prompt tokens, a step that would not shrink,
/// or a result under [`MIN_TRANSCRIPT_BUDGET`].
pub fn next_transcript_budget(
    effective_bytes: usize,
    prompt_tokens: usize,
    available_tokens: usize,
) -> (r: Option<usize>)
    ensures
        prompt_tokens == 0 ==> r is None,
        prompt_tokens > 0 ==> {
            let next = shrunk_budget(
                effective_bytes as int,
                prompt_tokens as int,
                available_tokens as int,
            );
            if next >= effective_bytes || next < MIN_TRANSCRIPT_BUDGET {
                r is None
            } else {
                r == Some(next as usize)
            }
        },
        r matches Some(n) ==> MIN_TRANSCRIPT_BUDGET <= n < effective_bytes,
{
    if prompt_tokens == 0 {
        return None;
    }
    let scaled = saturating_mul(effective_bytes, available_tokens) / prompt_tokens;
    let next = saturating_mul(scaled, 9) / 10;
    if next >= effective_bytes || next < MIN_TRANSCRIPT_BUDGET {
        return None;
    }
    Some(next)
}

/// [`next_transcript_budget`] as a number.
pub open spec fn next_budget_of(effective: int, prompt_tokens: int, available: int) -> Option<int> {
    if prompt_tokens == 0 {
        None
    } else {
        let next = shrunk_budget(effective, prompt_tokens, available);
        if next >= effective || next < MIN_TRANSCRIPT_BUDGET {
            None
        } else {
            Some(next)
        }
    }
}

/// The budget the fitting loop retries with after an attempt with
/// `budget` came back `outcome`: only a too-long prompt is retried, with
/// the budget shrunk from what was actually sent; `None` stops the loop.
pub open spec fn fit_next(budget: int, outcome: Result<String, MinuteError>, bytes: int, available: int) -> Option<
    int,
> {
    match outcome {
        Err(MinuteError::PromptTooLong { prompt_tokens, .. }) => next_budget_of(
            if budget < bytes {
                budget
            } else {
                bytes
            },
            prompt_tokens as int,
            available,
        ),
        _ => None,
    }
}

/// `attempts` (each a transcript budget and what generating from it came
/// back with) is a run of the fitting loop: the first asks for the whole
/// transcript, each next budget is the one the previous outcome called
/// for, and the run ends at the first outcome that calls for no retry or
/// after [`MAX_PROMPT_FIT_ATTEMPTS`] attempts.
pub open spec fn is_fitting_run(
    attempts: Seq<(usize, Result<String, MinuteError>)>,
    bytes: int,
    available: int,
) -> bool {
    &&& 1 <= attempts.len() <= MAX_PROMPT_FIT_ATTEMPTS
    &&& attempts[0].0 == usize::MAX
    &&& forall|i: int|
        0 <= i < attempts.len() - 1 ==> fit_next(
            attempts[i].0 as int,
            #[trigger] attempts[i].1,
            bytes,
            available,
        ) == Some(attempts[i + 1].0 as int)
    &&& attempts.len() < MAX_PROMPT_FIT_ATTEMPTS ==> fit_next(
        attempts.last().0 as int,
        attempts.last().1,
        bytes,
        available,
    ) is None
}

/// Runs `generate` on prompts from `build_prompt`, fitting the transcript
/// to the model's context by retry: the first attempt asks for the whole
/// transcript (`usize::MAX`); each [`MinuteError::PromptTooLong`] shrinks
/// the budget by [`next_transcript_budget`] from what was actually sent
/// (`min(budget, transcript_bytes)`) and retries, up to
/// [`MAX_PROMPT_FIT_ATTEMPTS`] attempts. Any other outcome is returned as
/// it came; when no shrink helps, the last too-long error is.
pub fn generate_fitting_transcript(
    generate: impl Fn(&str) -> Result<String, MinuteError>,
    build_prompt: impl Fn(usize) -> String,
    transcript_bytes: usize,
    available_tokens: usize,
) -> (r: Result<String, MinuteError>)
    requires
        forall|p: &str| generate.requires((p,)),
        forall|b: usize| build_prompt.requires((b,)),
    ensures
        exists|attempts: Seq<(usize, Result<String, MinuteError>)>|
            {
                &&& is_fitting_run(attempts, transcript_bytes as int, available_tokens as int)
                &&& r == attempts.last().1
                &&& forall|i: int|
                    0 <= i < attempts.len() ==> exists|s: String, p: &str|
                        call_ensures(build_prompt, (#[trigger] attempts[i].0,), s) && p@ == s@
                            && call_ensures(generate, (p,), attempts[i].1)
            },
{
    let mut budget: usize = usize::MAX;
    let mut last_err: Option<MinuteError> = None;
    let mut attempt: usize = 0;
    let ghost mut attempts: Seq<(usize, Result<String, MinuteError>)> = Seq::empty();
    while attempt < MAX_PROMPT_FIT_ATTEMPTS
        invariant
            attempt <= MAX_PROMPT_FIT_ATTEMPTS,
            forall|p: &str| generate.requires((p,)),
            forall|b: usize| build_prompt.requires((b,)),
            attempts.len() == attempt,
            attempt == 0 ==> budget == usize::MAX && last_err is None,
            attempt > 0 ==> attempts[0].0 == usize::MAX,
            attempt > 0 ==> (last_err matches Some(e) && attempts.last().1 == Err::<
                String,
                MinuteError,
            >(e) && fit_next(
                attempts.last().0 as int,
                attempts.last().1,
                transcript_bytes as int,
                available_tokens as int,
            ) == Some(budget as int)),
            forall|i: int|
                0 <= i < attempts.len() - 1 ==> fit_next(
                    attempts[i].0 as int,
                    #[trigger] attempts[i].1,
                    transcript_bytes as int,
                    available_tokens as int,
                ) == Some(attempts[i + 1].0 as int),
            forall|i: int|
                0 <= i < attempts.len() ==> exists|s: String, p: &str|
                    call_ensures(build_prompt, (#[trigger] attempts[i].0,), s) && p@ == s@
                        && call_ensures(generate, (p,), attempts[i].1),
        decreases MAX_PROMPT_FIT_ATTEMPTS - attempt,
    {
        let prompt = build_prompt(budget);
        let text = prompt.as_str();
        let out = generate(text);
        let ghost prev = attempts;
        proof {
            attempts = attempts.push((budget, out));
            assert(attempts[attempt as int].0 == budget);
            assert forall|i: int| 0 <= i < attempts.len() implies exists|s: String, p: &str|
                call_ensures(build_prompt, (#[trigger] attempts[i].0,), s) && p@ == s@
                    && call_ensures(generate, (p,), attempts[i].1) by {
                if i < prev.len() {
                    assert(attempts[i] == prev[i]);
                } else {
                    assert(call_ensures(build_prompt, (budget,), prompt) && text@ == prompt@
                        && call_ensures(generate, (text,), out));
                }
            }
            assert forall|i: int| 0 <= i < attempts.len() - 1 implies fit_next(
                attempts[i].0 as int,
                #[trigger] attempts[i].1,
                transcript_bytes as int,
                available_tokens as int,
            ) == Some(attempts[i + 1].0 as int) by {
                assert(attempts[i] == prev[i]);
                if i < prev.len() - 1 {
                    assert(attempts[i + 1] == prev[i + 1]);
                }
            }
        }
        match out {
            Err(MinuteError::PromptTooLong { prompt_tokens, max_tokens, context_tokens }) => {
                let effective = if budget < transcript_bytes {
                    budget
                } else {
                    transcript_bytes
                };
                match next_transcript_budget(effective, prompt_tokens, available_tokens) {
                    Some(next) => {
                        budget = next;
                        last_err = Some(
                            MinuteError::PromptTooLong { prompt_tokens, max_tokens, context_tokens },
                        );
                    },
                    None => {
                        assert(is_fitting_run(
                            attempts,
                            transcript_bytes as int,
                            available_tokens as int,
                        ));
                        return Err(
                            MinuteError::PromptTooLong { prompt_tokens, max_tokens, context_tokens },
                        );
                    },
                }
            },
            other => {
                assert(is_fitting_run(attempts, transcript_bytes as int, available_tokens as int));
                return other;
            },
        }
        attempt = attempt + 1;
    }
    assert(is_fitting_run(attempts, transcript_bytes as int, available_tokens as int));
    match last_err {
        Some(e) => Err(e),
        None => Err(MinuteError::Other(String::from_str("prompt fitting exhausted its attempts"))),
    }
}

// ---------------------------------------------------------------------------
// Notes waiting for the engine
// ---------------------------------------------------------------------------

/// What [`spawn_or_enqueue_summarize`] did with a request.
#[derive(Clone, Copy, Debug, PartialEq, Eq, Structural)]
pub enum SummarizeDisposition {
    /// The engine was free: the request is to run now.
    Started,
    /// The engine was busy: the note is waiting its turn.
    Queued,
    /// The engine was busy and the note was already waiting: nothing added.
    AlreadyQueued,
}

/// One summarization waiting for the engine, under its note's id.
pub struct PendingSummary<T> {
    pub note_id: String,
    pub ctx: T,
}

/// Summarizations waiting for the engine, oldest first.
pub struct SummarizeQueue<T> {
    items: Vec<PendingSummary<T>>,
}

impl<T> SummarizeQueue<T> {
    /// The waiting requests, oldest first, as `(note id, request)` pairs.
    pub closed spec fn pending(&self) -> Seq<(Seq<char>, T)> {
        self.items@.map_values(|p: PendingSummary<T>| (p.note_id@, p.ctx))
    }

    /// An empty queue.
    pub fn new() -> (q: Self)
        ensures
            q.pending().len() == 0,
    {
        let q = SummarizeQueue { items: Vec::new() };
        assert(q.pending() =~= Seq::<(Seq<char>, T)>::empty());
        q
    }

    /// How many requests are waiting.
    pub fn len(&self) -> (n: usize)
        ensures
            n == self.pending().len(),
    {
        self.items.len()
    }

    /// Whether a request for `note_id` is waiting.
    pub fn is_queued(&self, note_id: &str) -> (b: bool)
        ensures
            b == exists|i: int| 0 <= i < self.pending().len() && self.pending()[i].0 == note_id@,
    {
        let mut i: usize = 0;
        while i < self.items.len()
            invariant
                i <= self.items@.len(),
                self.pending().len() == self.items@.len(),
                forall|j: int| 0 <= j < self.items@.len() ==> #[trigger] self.pending()[j] == (
                    self.items@[j].note_id@,
                    self.items@[j].ctx,
                ),
                forall|j: int| 0 <= j < i ==> self.pending()[j].0 != note_id@,
            decreases self.items@.len() - i,
        {
            if crate::text::str_eq(self.items[i].note_id.as_str(), note_id) {
                assert(self.pending()[i as int].0 == note_id@);
                return true;
            }
            i = i + 1;
        }
        false
    }

    /// Takes the oldest waiting request.
    pub fn pop_front(&mut self) -> (r: Option<(String, T)>)
        ensures
            old(self).pending().len() == 0 ==> r is None && final(self).pending() == old(
                self,
            ).pending(),
            old(self).pending().len() > 0 ==> (r matches Some((id, ctx)) && (id@, ctx) == old(
                self,
            ).pending()[0] && final(self).pending() == old(self).pending().drop_first()),
    {
        if self.items.len() == 0 {
            return None;
        }
        let p = self.items.remove(0);
        assert(self.pending() =~= old(self).pending().drop_first());
        Some((p.note_id, p.ctx))
    }

    /// Puts a request back at the front, ahead of everything waiting.
    pub fn push_front(&mut self, note_id: String, ctx: T)
        ensures
            final(self).pending() == seq![(note_id@, ctx)] + old(self).pending(),
    {
        self.items.insert(0, PendingSummary { note_id, ctx });
        assert(self.pending() =~= seq![(note_id@, ctx)] + old(self).pending());
    }
}

/// No note waits twice.
pub open spec fn distinct_notes<T>(pending: Seq<(Seq<char>, T)>) -> bool {
    forall|i: int, j: int| 0 <= i < j < pending.len() ==> pending[i].0 != pending[j].0
}

/// Decides what becomes of a summarization request for `note_id`, given
/// whether the engine's busy flag was just claimed for it: run it now
/// (handed back), or queue it behind whatever is running unless that note
/// is already waiting.
pub fn spawn_or_enqueue_summarize<T>(
    queue: &mut SummarizeQueue<T>,
    note_id: String,
    ctx: T,
    claimed: bool,
) -> (r: (SummarizeDisposition, Option<T>))
    ensures
        claimed ==> r == (SummarizeDisposition::Started, Some(ctx)) && final(queue).pending()
            == old(queue).pending(),
        !claimed && (exists|i: int|
            0 <= i < old(queue).pending().len() && old(queue).pending()[i].0 == note_id@) ==> r
            == (SummarizeDisposition::AlreadyQueued, None::<T>) && final(queue).pending() == old(
            queue,
        ).pending(),
        !claimed && !(exists|i: int|
            0 <= i < old(queue).pending().len() && old(queue).pending()[i].0 == note_id@) ==> r
            == (SummarizeDisposition::Queued, None::<T>) && final(queue).pending() == old(
            queue,
        ).pending().push((note_id@, ctx)),
        distinct_notes(old(queue).pending()) ==> distinct_notes(final(queue).pending()),
{
    if claimed {
        return (SummarizeDisposition::Started, Some(ctx));
    }
    if queue.is_queued(note_id.as_str()) {
        return (SummarizeDisposition::AlreadyQueued, None);
    }
    queue.items.push(PendingSummary { note_id, ctx });
    assert(queue.pending() =~= old(queue).pending().push((note_id@, ctx)));
    (SummarizeDisposition::Queued, None)
}

/// Hands out the oldest waiting request if the engine can be claimed for
/// it (`claim` is asked only when something is waiting); a request that
/// loses the claim goes back to the front, so nothing is dropped.
pub fn drain_summarize_queue<T>(queue: &mut SummarizeQueue<T>, claim: impl FnOnce() -> bool) -> (r:
    Option<T>)
    requires
        claim.requires(()),
    ensures
        old(queue).pending().len() == 0 ==> r is None,
        r matches Some(ctx) ==> old(queue).pending().len() > 0 && ctx == old(queue).pending()[0].1
            && final(queue).pending() == old(queue).pending().drop_first(),
        r is None ==> final(queue).pending() == old(queue).pending(),
        r is Some ==> call_ensures(claim, (), true),
        r is None && old(queue).pending().len() > 0 ==> call_ensures(claim, (), false),
        distinct_notes(old(queue).pending()) ==> distinct_notes(final(queue).pending()),
{
    match queue.pop_front() {
        None => None,
        Some((note_id, ctx)) => {
            if claim() {
                Some(ctx)
            } else {
                queue.push_front(note_id, ctx);
                assert(queue.pending() =~= old(queue).pending());
                None
            }
        },
    }
}

} // verus!
