//! Live transcription's bookkeeping: cutting a sample stream into
//! overlapping fixed-size windows, and the worker's status events.
use vstd::prelude::*;

verus! {

/// One window handed back by [`Chunker::push`] or [`Chunker::flush`]: its
/// samples, and the stream position of the first one.
#[derive(Debug, Clone, PartialEq)]
pub struct SampleChunk<T> {
    pub samples: Vec<T>,
    pub start_sample: u64,
}

/// Accumulates streamed samples into fixed-size windows; consecutive
/// windows share `overlap_samples` samples.
pub struct Chunker<T> {
    window_samples: usize,
    overlap_samples: usize,
    min_flush_samples: usize,
    buffer: Vec<T>,
    buffer_start_sample: u64,
}

impl<T: Copy> Chunker<T> {
    /// The samples waiting for the next window.
    pub closed spec fn pending(&self) -> Seq<T> {
        self.buffer@
    }

    /// The stream position of the first waiting sample.
    pub closed spec fn start(&self) -> int {
        self.buffer_start_sample as int
    }

    pub closed spec fn window(&self) -> int {
        self.window_samples as int
    }

    pub closed spec fn overlap(&self) -> int {
        self.overlap_samples as int
    }

    pub closed spec fn min_flush(&self) -> int {
        self.min_flush_samples as int
    }

    /// A chunker cutting `window_samples`-sample windows that overlap by
    /// `overlap_samples`, whose final flush keeps a tail of at least
    /// `min_flush_samples`.
    pub fn new(window_samples: usize, overlap_samples: usize, min_flush_samples: usize) -> (c: Self)
        requires
            overlap_samples <= window_samples,
        ensures
            c.pending().len() == 0,
            c.start() == 0,
            c.window() == window_samples,
            c.overlap() == overlap_samples,
            c.min_flush() == min_flush_samples,
    {
        Chunker {
            window_samples,
            overlap_samples,
            min_flush_samples,
            buffer: Vec::new(),
            buffer_start_sample: 0,
        }
    }

    /// Appends `samples`; when that fills a window, returns it and keeps its
    /// last `overlap_samples` samples as the start of the next one. At most
    /// one window per call: call again with no samples to drain more.
    pub fn push(&mut self, samples: &[T]) -> (r: Option<SampleChunk<T>>)
        requires
            old(self).overlap() <= old(self).window(),
            old(self).start() + old(self).pending().len() + samples@.len() <= u64::MAX,
        ensures
            final(self).window() == old(self).window(),
            final(self).overlap() == old(self).overlap(),
            final(self).min_flush() == old(self).min_flush(),
            ({
                let all = old(self).pending() + samples@;
                if all.len() < old(self).window() {
                    r is None && final(self).pending() == all && final(self).start() == old(
                        self,
                    ).start()
                } else {
                    let keep_from = old(self).window() - old(self).overlap();
                    r matches Some(c) && c.samples@ == all.take(old(self).window())
                        && c.start_sample == old(self).start() && final(self).pending()
                        == all.skip(keep_from) && final(self).start() == old(self).start()
                        + keep_from
                }
            }),
    {
        let ghost all = self.buffer@ + samples@;
        let mut i: usize = 0;
        while i < samples.len()
            invariant
                i <= samples@.len(),
                self.buffer@ == old(self).buffer@ + samples@.take(i as int),
                self.window_samples == old(self).window_samples,
                self.overlap_samples == old(self).overlap_samples,
                self.min_flush_samples == old(self).min_flush_samples,
                self.buffer_start_sample == old(self).buffer_start_sample,
            decreases samples@.len() - i,
        {
            self.buffer.push(samples[i]);
            assert(self.buffer@ =~= old(self).buffer@ + samples@.take(i + 1));
            i = i + 1;
        }
        assert(samples@.take(i as int) =~= samples@);
        let n = self.buffer.len();
        if n < self.window_samples {
            return None;
        }
        let w = self.window_samples;
        let mut window: Vec<T> = Vec::new();
        let mut k: usize = 0;
        while k < w
            invariant
                k <= w,
                w <= self.buffer@.len(),
                window@ == self.buffer@.take(k as int),
            decreases w - k,
        {
            window.push(self.buffer[k]);
            assert(window@ =~= self.buffer@.take(k + 1));
            k = k + 1;
        }
        let start = self.buffer_start_sample;
        let keep_from = self.window_samples - self.overlap_samples;
        let mut rest: Vec<T> = Vec::new();
        let mut j: usize = keep_from;
        while j < n
            invariant
                keep_from <= j <= n,
                n == self.buffer@.len(),
                rest@ == self.buffer@.subrange(keep_from as int, j as int),
            decreases n - j,
        {
            rest.push(self.buffer[j]);
            assert(rest@ =~= self.buffer@.subrange(keep_from as int, j + 1));
            j = j + 1;
        }
        assert(rest@ =~= all.skip(keep_from as int));
        self.buffer = rest;
        self.buffer_start_sample = start + keep_from as u64;
        Some(SampleChunk { samples: window, start_sample: start })
    }

    /// Hands back what is left as a final window when it holds at least
    /// `min_flush_samples` samples; either way the buffer is emptied.
    pub fn flush(&mut self) -> (r: Option<SampleChunk<T>>)
        ensures
            final(self).pending().len() == 0,
            final(self).start() == old(self).start(),
            final(self).window() == old(self).window(),
            final(self).overlap() == old(self).overlap(),
            final(self).min_flush() == old(self).min_flush(),
            old(self).pending().len() < old(self).min_flush() ==> r is None,
            old(self).pending().len() >= old(self).min_flush() ==> (r matches Some(c) && c.samples@
                == old(self).pending() && c.start_sample == old(self).start()),
    {
        if self.buffer.len() < self.min_flush_samples {
            self.buffer = Vec::new();
            return None;
        }
        let mut samples: Vec<T> = Vec::new();
        std::mem::swap(&mut samples, &mut self.buffer);
        Some(SampleChunk { samples, start_sample: self.buffer_start_sample })
    }
}

/// Consecutive windows overlap as promised: when a push over `all` (the
/// waiting samples plus the new ones) emits a window, and the next push
/// (adding `more`) emits one too, the second window's first `overlap`
/// samples are the first window's last `overlap`.
pub proof fn law_consecutive_windows_share_the_overlap<T>(
    all: Seq<T>,
    more: Seq<T>,
    window: int,
    overlap: int,
)
    requires
        0 <= overlap <= window,
        all.len() >= window,
        all.skip(window - overlap).len() + more.len() >= window,
    ensures
        (all.skip(window - overlap) + more).take(window).take(overlap) == all.take(window).skip(
            window - overlap,
        ),
{
    let keep = window - overlap;
    let next = all.skip(keep) + more;
    assert(next.take(window).take(overlap) =~= all.take(window).skip(keep)) by {
        assert forall|i: int| 0 <= i < overlap implies next.take(window).take(overlap)[i]
            == all.take(window).skip(keep)[i] by {
            assert(next[i] == all.skip(keep)[i]);
        }
    }
}

/// Where live transcription stands.
#[derive(Clone, Copy, Debug, PartialEq, Eq, Structural)]
pub enum SttStatusState {
    Loading,
    Ready,
    Finalizing,
    Error,
}

/// An `stt-status` event's payload.
#[derive(Debug, Clone, PartialEq)]
pub struct SttStatusPayload {
    pub note_id: String,
    pub state: SttStatusState,
    pub error: Option<String>,
}

/// The worker that turns a recording's sample stream into transcript turns.
pub struct SttWorker;

/// The label every live turn is stored under until diarization runs.
pub const SPEAKER_PLACEHOLDER: &'static str = "Speaker 1";

} // verus!
