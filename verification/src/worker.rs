//! The decisions a summarization or question worker makes around the
//! model call: whether there is anything to send, how many tokens the
//! transcript may take, what becomes of the model's output, and which
//! status events go out.
use vstd::prelude::*;
use vstd::utf8::encode_utf8;

use crate::error::{error_message, MinuteError};
use crate::extract::{extract_ask_answer, rename_target, rename_to};
use crate::model::{StoredSegment, SummaryDoc, SummaryStyle};
use crate::prompt::{format_transcript_lines, transcript_lines};
use crate::summary::{
    doc_nonempty, empty_summary_message, extract_summary_parts, reads_as, require_nonempty_summary,
    summary_extraction, RawSummary, RawSummaryView,
};
use crate::text::{chars_of, push_str, string_from_chars, trim, trim_chars};

verus! {

// ---------------------------------------------------------------------------
// Before the model is called
// ---------------------------------------------------------------------------

/// The rendered transcript's length in bytes.
pub open spec fn transcript_byte_len(segs: Seq<StoredSegment>) -> nat {
    encode_utf8(transcript_lines(segs)).len()
}

/// Why a summarization stops before the model is called, if it does: no
/// turns at all, or only dead air.
pub open spec fn summarize_refusal(segs: Seq<StoredSegment>) -> Option<Seq<char>> {
    if segs.len() == 0 {
        Some("nothing to summarize"@)
    } else if transcript_lines(segs).len() == 0 {
        Some("nothing to summarize \u{2014} no speech was found in this recording"@)
    } else {
        None
    }
}

/// Why a question stops before the model is called, if it does.
pub open spec fn ask_refusal(segs: Seq<StoredSegment>) -> Option<Seq<char>> {
    if segs.len() == 0 {
        Some("This note has no transcript to ask about."@)
    } else if transcript_lines(segs).len() == 0 {
        Some("This note has no speech to ask about \u{2014} the recording was silence."@)
    } else {
        None
    }
}

fn transcript_bytes(segments: &[StoredSegment]) -> (r: Option<usize>)
    ensures
        match r {
            Some(n) => n == transcript_byte_len(segments@) as usize && transcript_lines(
                segments@,
            ).len() > 0,
            None => transcript_lines(segments@).len() == 0,
        },
{
    let text = format_transcript_lines(segments);
    if text.as_str().is_empty() {
        return None;
    }
    Some(text.as_str().len())
}

/// The rendered transcript's byte length, or why there is nothing to
/// summarize.
pub fn summarize_precheck(segments: &[StoredSegment]) -> (r: Result<usize, MinuteError>)
    ensures
        match summarize_refusal(segments@) {
            Some(msg) => r matches Err(e) && error_message(e) == msg,
            None => r == Ok::<usize, MinuteError>(transcript_byte_len(segments@) as usize),
        },
{
    if segments.len() == 0 {
        return Err(MinuteError::Other(String::from_str("nothing to summarize")));
    }
    match transcript_bytes(segments) {
        Some(n) => Ok(n),
        None => Err(
            MinuteError::Other(
                String::from_str("nothing to summarize \u{2014} no speech was found in this recording"),
            ),
        ),
    }
}

/// A question as asked: trimmed; an empty one is refused before the
/// engine is claimed.
pub fn ask_question(question: &str) -> (r: Result<String, MinuteError>)
    ensures
        match r {
            Ok(q) => q@ == trim(question@) && trim(question@).len() > 0,
            Err(e) => trim(question@).len() == 0 && error_message(e) == "question is empty"@,
        },
{
    let t = trim_chars(&chars_of(question));
    if t.len() == 0 {
        return Err(MinuteError::Other(String::from_str("question is empty")));
    }
    Ok(string_from_chars(&t))
}

/// The rendered transcript's byte length, or why there is nothing to ask
/// about.
pub fn ask_precheck(segments: &[StoredSegment]) -> (r: Result<usize, MinuteError>)
    ensures
        match ask_refusal(segments@) {
            Some(msg) => r matches Err(e) && error_message(e) == msg,
            None => r == Ok::<usize, MinuteError>(transcript_byte_len(segments@) as usize),
        },
{
    if segments.len() == 0 {
        return Err(
            MinuteError::Other(String::from_str("This note has no transcript to ask about.")),
        );
    }
    match transcript_bytes(segments) {
        Some(n) => Ok(n),
        None => Err(
            MinuteError::Other(
                String::from_str("This note has no speech to ask about \u{2014} the recording was silence."),
            ),
        ),
    }
}

/// Upper bound on generated tokens per summarization at the standard
/// length.
pub const MAX_GENERATION_TOKENS: usize = 1024;

/// Tokens an answer to a question may take.
pub const ASK_MAX_TOKENS: usize = 512;

/// Tokens reserved for a summary's response at each length.
pub open spec fn reservation(style: SummaryStyle) -> usize {
    match style {
        SummaryStyle::Short => 512,
        SummaryStyle::Standard => 1024,
        SummaryStyle::Detailed => 2560,
    }
}

/// The tokens reserved for a summary's response at `style`: 512 short,
/// 1024 standard, 2560 detailed.
pub fn response_reservation(style: SummaryStyle) -> (n: usize)
    ensures
        n == reservation(style),
{
    match style {
        SummaryStyle::Short => 512,
        SummaryStyle::Standard => MAX_GENERATION_TOKENS,
        SummaryStyle::Detailed => 2560,
    }
}

/// Tokens the prompt may take: the loaded context (8192 when unknown) less
/// the response reservation, floored at zero.
pub fn available_prompt_tokens(loaded_context: Option<u32>, reserved: usize) -> (n: usize)
    ensures
        n == {
            let ctx: int = match loaded_context {
                Some(c) => c as int,
                None => 8192,
            };
            if ctx >= reserved {
                ctx - reserved
            } else {
                0
            }
        },
{
    let ctx: usize = match loaded_context {
        Some(c) => c as usize,
        None => 8192,
    };
    if ctx >= reserved {
        ctx - reserved
    } else {
        0
    }
}

// ---------------------------------------------------------------------------
// After the model answered
// ---------------------------------------------------------------------------

/// What a successful summarization yields: the summary to persist, and the
/// title the note should take (none to leave it alone).
#[derive(Debug)]
pub struct SummaryOutcome {
    pub doc: SummaryDoc,
    pub rename: Option<String>,
}

/// Turns a model's raw output into what gets persisted: the summary
/// extracted (each candidate object read by `read`, see
/// [`extract_summary_parts`]) and required to hold something, plus the new
/// title when the note still carries the default one and the suggestion
/// survives cleaning.
pub fn finish_summary<F: Fn(&str) -> Option<RawSummary>>(
    raw_output: &str,
    current_title: &str,
    read: F,
) -> (r: Result<SummaryOutcome, MinuteError>)
    requires
        forall|t: &str| read.requires((t,)),
    ensures
        forall|f: spec_fn(Seq<char>) -> Option<RawSummaryView>| #[trigger]
            reads_as(read, f) ==> match summary_extraction(raw_output@, f) {
                Err(msg) => r matches Err(e) && error_message(e) == msg,
                Ok(x) => if doc_nonempty(x.doc) {
                    r matches Ok(o) && o.doc@ == x.doc && match rename_to(
                        current_title@,
                        x.suggested_title,
                    ) {
                        Some(t) => o.rename matches Some(s) && s@ == t,
                        None => o.rename is None,
                    }
                } else {
                    r matches Err(e) && error_message(e) == empty_summary_message()
                },
            },
{
    let extraction = match extract_summary_parts(raw_output, read) {
        Ok(x) => x,
        Err(e) => {
            return Err(e);
        },
    };
    let title = extraction.suggested_title;
    let doc = match require_nonempty_summary(extraction.doc) {
        Ok(d) => d,
        Err(e) => {
            return Err(e);
        },
    };
    let rename = rename_target(current_title, title.as_str());
    Ok(SummaryOutcome { doc, rename })
}

// ---------------------------------------------------------------------------
// Status events
// ---------------------------------------------------------------------------

/// Where a summarization stands.
#[derive(Clone, Copy, Debug, PartialEq, Eq, Structural)]
pub enum SummaryStatusState {
    /// Waiting behind another generation; always followed by `Running`.
    Queued,
    Running,
    Done,
    Error,
}

/// A `summary-status` event's payload.
#[derive(Debug, Clone, PartialEq)]
pub struct SummaryStatusPayload {
    pub note_id: String,
    pub state: SummaryStatusState,
    pub error: Option<String>,
}

/// What a summarization worker emits.
#[derive(Debug, Clone, PartialEq)]
pub enum SummaryEvent {
    SummaryStatus(SummaryStatusPayload),
}

/// Where a question stands.
#[derive(Clone, Copy, Debug, PartialEq, Eq, Structural)]
pub enum AskStatusState {
    Running,
    Done,
    Error,
}

/// An `ask-status` event's payload.
#[derive(Debug, Clone, PartialEq)]
pub struct AskStatusPayload {
    pub note_id: String,
    pub state: AskStatusState,
    pub error: Option<String>,
}

/// The answer to a question, with the question it answers.
#[derive(Debug, Clone, PartialEq)]
pub struct AskAnswerPayload {
    pub note_id: String,
    pub question: String,
    pub answer: String,
}

/// What a question worker emits.
#[derive(Debug, Clone, PartialEq)]
pub enum AskEvent {
    AskStatus(AskStatusPayload),
    AskAnswer(AskAnswerPayload),
}

/// The worker that summarizes one note end to end.
pub struct SummarizeWorker;

/// The worker that answers one question end to end.
pub struct AskWorker;

/// A status event with no error.
pub fn summary_status(note_id: &str, state: SummaryStatusState) -> (e: SummaryEvent)
    ensures
        e matches SummaryEvent::SummaryStatus(p) && p.note_id@ == note_id@ && p.state == state
            && p.error is None,
{
    SummaryEvent::SummaryStatus(
        SummaryStatusPayload { note_id: String::from_str(note_id), state, error: None },
    )
}

/// The event that ends a summarization: `done`, or `error` with the
/// failure's message.
pub fn summary_outcome_event(note_id: &str, outcome: &Result<(), MinuteError>) -> (e: SummaryEvent)
    ensures
        match outcome {
            Ok(()) => e matches SummaryEvent::SummaryStatus(p) && p.note_id@ == note_id@ && p.state
                == SummaryStatusState::Done && p.error is None,
            Err(err) => e matches SummaryEvent::SummaryStatus(p) && p.note_id@ == note_id@
                && p.state == SummaryStatusState::Error && (p.error matches Some(m) && m@
                == error_message(*err)),
        },
{
    match outcome {
        Ok(()) => summary_status(note_id, SummaryStatusState::Done),
        Err(err) => SummaryEvent::SummaryStatus(
            SummaryStatusPayload {
                note_id: String::from_str(note_id),
                state: SummaryStatusState::Error,
                error: Some(err.message()),
            },
        ),
    }
}

/// The events that end a question: the answer then `done`, or `error`
/// with the failure's message.
pub fn ask_outcome_events(note_id: &str, question: &str, outcome: Result<String, MinuteError>) -> (r:
    Vec<AskEvent>)
    ensures
        match outcome {
            Ok(answer) => r@.len() == 2 && (r@[0] matches AskEvent::AskAnswer(a) && a.note_id@
                == note_id@ && a.question@ == question@ && a.answer@ == answer@) && (
            r@[1] matches AskEvent::AskStatus(p) && p.note_id@ == note_id@ && p.state
                == AskStatusState::Done && p.error is None),
            Err(err) => r@.len() == 1 && (r@[0] matches AskEvent::AskStatus(p) && p.note_id@
                == note_id@ && p.state == AskStatusState::Error && (p.error matches Some(m) && m@
                == error_message(err))),
        },
{
    let mut r: Vec<AskEvent> = Vec::new();
    match outcome {
        Ok(answer) => {
            r.push(
                AskEvent::AskAnswer(
                    AskAnswerPayload {
                        note_id: String::from_str(note_id),
                        question: String::from_str(question),
                        answer,
                    },
                ),
            );
            r.push(
                AskEvent::AskStatus(
                    AskStatusPayload {
                        note_id: String::from_str(note_id),
                        state: AskStatusState::Done,
                        error: None,
                    },
                ),
            );
        },
        Err(err) => {
            r.push(
                AskEvent::AskStatus(
                    AskStatusPayload {
                        note_id: String::from_str(note_id),
                        state: AskStatusState::Error,
                        error: Some(err.message()),
                    },
                ),
            );
        },
    }
    r
}

/// The error a worker reports when its pipeline panicked: what crashed,
/// then the panic's message.
pub fn crash_error(what: &str, panic_message: &str) -> (e: MinuteError)
    ensures
        error_message(e) == what@ + " crashed: "@ + panic_message@,
{
    let mut out: Vec<char> = Vec::new();
    push_str(&mut out, what);
    push_str(&mut out, " crashed: ");
    push_str(&mut out, panic_message);
    MinuteError::Other(string_from_chars(&out))
}

} // verus!
