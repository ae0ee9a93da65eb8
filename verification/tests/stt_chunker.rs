use minute::transcription::{Chunker, SampleChunk};

const SR: usize = 16_000;

fn samples(n: usize, fill: f32) -> Vec<f32> {
    vec![fill; n]
}

/// An 8 s window with 1 s of overlap and a 0.5 s minimum flush, at 16 kHz.
fn chunker() -> Chunker<f32> {
    Chunker::new(8 * SR, SR, SR / 2)
}

fn offset_secs(chunk: &SampleChunk<f32>) -> f64 {
    chunk.start_sample as f64 / SR as f64
}

#[test]
fn push_uneven_chunks_summing_to_window_emits_one_chunk_at_offset_zero() {
    let mut chunker = chunker();
    assert!(chunker.push(&samples(3 * SR, 0.1)).is_none());
    assert!(chunker.push(&samples(2 * SR, 0.2)).is_none());
    let out = chunker.push(&samples(3 * SR, 0.3)).unwrap();
    assert_eq!(out.samples.len(), 8 * SR);
    assert_eq!(offset_secs(&out), 0.0);
}

#[test]
fn second_window_starts_at_7s_offset_due_to_1s_overlap() {
    let mut chunker = chunker();
    let first = chunker.push(&samples(8 * SR, 0.1));
    assert!(first.is_some());
    let second = chunker.push(&samples(7 * SR, 0.2)).unwrap();
    assert_eq!(second.samples.len(), 8 * SR);
    assert_eq!(offset_secs(&second), 7.0);
}

#[test]
fn sequential_windows_offsets_are_0_7_14() {
    let mut chunker = chunker();
    let mut offsets = Vec::new();
    if let Some(out) = chunker.push(&samples(8 * SR, 0.1)) {
        offsets.push(offset_secs(&out));
    }
    for _ in 0..2 {
        if let Some(out) = chunker.push(&samples(7 * SR, 0.1)) {
            offsets.push(offset_secs(&out));
        }
    }
    assert_eq!(offsets, vec![0.0, 7.0, 14.0]);
}

#[test]
fn push_returns_none_until_window_is_full() {
    let mut chunker = chunker();
    assert!(chunker.push(&samples(4 * SR, 0.1)).is_none());
    assert!(chunker.push(&samples(3 * SR, 0.1)).is_none());
}

#[test]
fn flush_returns_tail_with_correct_offset() {
    let mut chunker = chunker();
    chunker.push(&samples(8 * SR, 0.1)).unwrap();
    assert!(chunker.push(&samples(2 * SR, 0.2)).is_none());
    let flushed = chunker.flush().unwrap();
    assert_eq!(flushed.samples.len(), 3 * SR);
    assert_eq!(offset_secs(&flushed), 7.0);
}

#[test]
fn flush_below_minimum_duration_returns_none() {
    let mut chunker = chunker();
    chunker.push(&samples(SR / 4, 0.1));
    assert!(chunker.flush().is_none());
}

#[test]
fn flush_with_nothing_buffered_returns_none() {
    let mut chunker = chunker();
    assert!(chunker.flush().is_none());
}

#[test]
fn flush_exactly_at_minimum_duration_returns_some() {
    let mut chunker = chunker();
    chunker.push(&samples(SR / 2, 0.1));
    let flushed = chunker.flush();
    assert!(flushed.is_some());
    assert_eq!(flushed.unwrap().samples.len(), SR / 2);
}

#[test]
fn flush_after_flush_is_none_buffer_was_cleared() {
    let mut chunker = chunker();
    chunker.push(&samples(SR, 0.1));
    assert!(chunker.flush().is_some());
    assert!(chunker.flush().is_none());
}

#[test]
fn large_push_spanning_multiple_windows_drains_via_repeated_push() {
    let mut chunker = chunker();
    let first = chunker.push(&samples(16 * SR, 0.1));
    assert!(first.is_some());
    assert_eq!(offset_secs(&first.unwrap()), 0.0);
    let second = chunker.push(&[]);
    assert!(second.is_some());
    assert_eq!(offset_secs(&second.unwrap()), 7.0);
}

#[test]
fn a_window_keeps_the_samples_in_the_order_they_were_pushed() {
    let mut chunker: Chunker<u32> = Chunker::new(4, 1, 1);
    assert!(chunker.push(&[1, 2]).is_none());
    let out = chunker.push(&[3, 4, 5]).unwrap();
    assert_eq!(out.samples, vec![1, 2, 3, 4]);
    assert_eq!(out.start_sample, 0);
    let tail = chunker.flush().unwrap();
    assert_eq!(tail.samples, vec![4, 5]);
    assert_eq!(tail.start_sample, 3);
}

#[test]
fn consecutive_windows_share_exactly_the_overlap() {
    let mut chunker: Chunker<u32> = Chunker::new(4, 2, 1);
    let first = chunker.push(&[1, 2, 3, 4]).unwrap();
    let second = chunker.push(&[5, 6]).unwrap();
    assert_eq!(first.samples, vec![1, 2, 3, 4]);
    assert_eq!(second.samples, vec![3, 4, 5, 6]);
    assert_eq!(second.start_sample, first.start_sample + 2);
    assert_eq!(&second.samples[..2], &first.samples[2..]);
}
