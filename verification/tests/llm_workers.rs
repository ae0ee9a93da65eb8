use std::fmt;

use serde::de::{Deserialize, Deserializer, Error as DeError, IgnoredAny, MapAccess, Visitor};

use minute::json::{Json, JsonMember};
use minute::prompt::{chat_content, check_prompt_budget, final_chat_prompt};
use minute::summary::RawSummary;
use minute::engine::{drain_summarize_queue, spawn_or_enqueue_summarize, SummarizeDisposition, SummarizeQueue};
use minute::error::MinuteError;
use minute::model::StoredSegment;
use minute::worker::{
    ask_outcome_events, ask_precheck, ask_question, available_prompt_tokens, crash_error,
    finish_summary, summarize_precheck, summary_outcome_event, summary_status, AskEvent,
    AskStatusState, SummaryEvent, SummaryStatusState, ASK_MAX_TOKENS, MAX_GENERATION_TOKENS,
};

/// The summary record read the way a derived `Deserialize` with
/// `#[serde(default)]` reads it: missing fields default, unknown members
/// are skipped, and a known field given twice is an error.
struct SummaryRecord(RawSummary);

struct SummaryRecordVisitor;

const SUMMARY_FIELDS: &[&str] = &["title", "summary", "topics", "decisions", "action_items"];

fn json_of(v: serde_json::Value) -> Json {
    match v {
        serde_json::Value::Null => Json::Null,
        serde_json::Value::Bool(b) => Json::Bool(b),
        serde_json::Value::Number(_) => Json::Number,
        serde_json::Value::String(s) => Json::Str(s),
        serde_json::Value::Array(items) => Json::Array(items.into_iter().map(json_of).collect()),
        serde_json::Value::Object(members) => Json::Object(
            members.into_iter().map(|(key, value)| JsonMember { key, value: json_of(value) }).collect(),
        ),
    }
}

fn first_time<T, E: DeError>(slot: &Option<T>, name: &'static str) -> Result<(), E> {
    if slot.is_some() {
        Err(E::duplicate_field(name))
    } else {
        Ok(())
    }
}

impl<'de> Visitor<'de> for SummaryRecordVisitor {
    type Value = SummaryRecord;

    fn expecting(&self, f: &mut fmt::Formatter) -> fmt::Result {
        f.write_str("struct RawSummary")
    }

    fn visit_map<A: MapAccess<'de>>(self, mut map: A) -> Result<SummaryRecord, A::Error> {
        let mut title: Option<String> = None;
        let mut summary: Option<String> = None;
        let mut topics: Option<Vec<serde_json::Value>> = None;
        let mut decisions: Option<Vec<String>> = None;
        let mut action_items: Option<Vec<serde_json::Value>> = None;
        while let Some(key) = map.next_key::<String>()? {
            match key.as_str() {
                "title" => {
                    first_time(&title, "title")?;
                    title = Some(map.next_value()?);
                }
                "summary" => {
                    first_time(&summary, "summary")?;
                    summary = Some(map.next_value()?);
                }
                "topics" => {
                    first_time(&topics, "topics")?;
                    topics = Some(map.next_value()?);
                }
                "decisions" => {
                    first_time(&decisions, "decisions")?;
                    decisions = Some(map.next_value()?);
                }
                "action_items" => {
                    first_time(&action_items, "action_items")?;
                    action_items = Some(map.next_value()?);
                }
                _ => {
                    map.next_value::<IgnoredAny>()?;
                }
            }
        }
        Ok(SummaryRecord(RawSummary {
            title: title.unwrap_or_default(),
            summary: summary.unwrap_or_default(),
            topics: topics.unwrap_or_default().into_iter().map(json_of).collect(),
            decisions: decisions.unwrap_or_default(),
            action_items: action_items.unwrap_or_default().into_iter().map(json_of).collect(),
        }))
    }
}

impl<'de> Deserialize<'de> for SummaryRecord {
    fn deserialize<D: Deserializer<'de>>(d: D) -> Result<SummaryRecord, D::Error> {
        d.deserialize_struct("RawSummary", SUMMARY_FIELDS, SummaryRecordVisitor)
    }
}

/// Reads one candidate object as the summary record.
fn read_record(text: &str) -> Option<RawSummary> {
    serde_json::from_str::<SummaryRecord>(text).ok().map(|r| r.0)
}

fn seg(speaker: &str, start: u64, text: &str) -> StoredSegment {
    StoredSegment { speaker: speaker.to_string(), start_secs: start, text: text.to_string() }
}

/// The events a summarization worker emits for a run whose pipeline ended
/// with `outcome`: `running`, then the outcome.
fn summarize_events(note_id: &str, outcome: Result<(), MinuteError>) -> Vec<SummaryEvent> {
    vec![summary_status(note_id, SummaryStatusState::Running), summary_outcome_event(note_id, &outcome)]
}

fn state_and_error(event: &SummaryEvent) -> (SummaryStatusState, Option<String>) {
    let SummaryEvent::SummaryStatus(payload) = event;
    (payload.state, payload.error.clone())
}

#[test]
fn try_spawn_summarize_claims_busy_before_returning_when_free() {
    let mut queue: SummarizeQueue<&str> = SummarizeQueue::new();
    let (disposition, started) = spawn_or_enqueue_summarize(&mut queue, "some-note".to_string(), "ctx", true);
    assert_eq!(disposition, SummarizeDisposition::Started);
    assert_eq!(started, Some("ctx"));
}

#[test]
fn try_spawn_summarize_claims_busy_without_ever_touching_the_engine_mutex() {
    // The decision reads only the busy claim and the queue.
    let mut queue: SummarizeQueue<u32> = SummarizeQueue::new();
    let (disposition, started) = spawn_or_enqueue_summarize(&mut queue, "some-note".to_string(), 7, true);
    assert_eq!(disposition, SummarizeDisposition::Started);
    assert_eq!(started, Some(7));
    assert_eq!(queue.len(), 0);
}

#[test]
fn run_summarize_on_a_note_with_no_transcript_errors_nothing_to_summarize() {
    let err = summarize_precheck(&[]).unwrap_err();
    assert!(err.message().contains("nothing to summarize"));
}

#[test]
fn summarize_precheck_refuses_a_recording_of_silence() {
    let err = summarize_precheck(&[seg("Speaker 1", 0, "...")]).unwrap_err();
    assert_eq!(err.message(), "nothing to summarize \u{2014} no speech was found in this recording");
    assert_eq!(summarize_precheck(&[seg("A", 65, "hi")]).unwrap(), "[01:05] A: hi".len());
}

#[test]
fn run_summarize_worker_on_empty_transcript_emits_running_then_error_and_clears_busy() {
    let outcome = summarize_precheck(&[]).map(|_| ());
    let events = summarize_events("note-1", outcome);
    assert_eq!(events.len(), 2);
    assert_eq!(state_and_error(&events[0]), (SummaryStatusState::Running, None));
    let (state, error) = state_and_error(&events[1]);
    assert_eq!(state, SummaryStatusState::Error);
    assert!(error.unwrap_or_default().contains("nothing to summarize"));
    let done = summary_outcome_event("note-1", &Ok(()));
    assert_eq!(state_and_error(&done), (SummaryStatusState::Done, None));
}

#[test]
fn a_finished_summarize_worker_starts_the_next_queued_note() {
    let mut queue: SummarizeQueue<&str> = SummarizeQueue::new();
    spawn_or_enqueue_summarize(&mut queue, "queued-note".to_string(), "queued", false);
    // The first worker failed; on its way out it drains the queue.
    let started = drain_summarize_queue(&mut queue, || true);
    assert_eq!(started, Some("queued"));
    assert_eq!(queue.len(), 0, "the drained note must not still be queued");
}

#[test]
fn a_panicking_summarize_worker_still_emits_error_and_clears_busy() {
    let outcome = Err(crash_error("summarization", "llama.cpp blew up"));
    let events = summarize_events("note-1", outcome);
    assert_eq!(events.len(), 2);
    let (state, error) = state_and_error(&events[1]);
    assert_eq!(state, SummaryStatusState::Error);
    let error = error.unwrap_or_default();
    assert!(error.contains("llama.cpp blew up"), "the panic message must reach the frontend: {error:?}");
    assert_eq!(error, "summarization crashed: llama.cpp blew up");
}

#[test]
fn a_panicking_ask_worker_still_emits_error_and_clears_busy() {
    let events = ask_outcome_events("note-1", "What did they discuss?", Err(crash_error("ask", "llama.cpp blew up")));
    assert_eq!(events.len(), 1);
    match &events[0] {
        AskEvent::AskStatus(payload) => {
            assert_eq!(payload.state, AskStatusState::Error);
            assert!(payload.error.as_deref().unwrap_or("").contains("llama.cpp blew up"));
        }
        other => panic!("expected an error status event, got {other:?}"),
    }
}

#[test]
fn a_finished_ask_worker_starts_the_next_queued_summary() {
    let mut queue: SummarizeQueue<String> = SummarizeQueue::new();
    spawn_or_enqueue_summarize(&mut queue, "queued-note".to_string(), "queued-note".to_string(), false);
    assert_eq!(drain_summarize_queue(&mut queue, || true), Some("queued-note".to_string()));
}

#[test]
fn run_ask_on_a_note_with_no_transcript_errors_with_the_honest_user_facing_message() {
    let err = ask_precheck(&[]).unwrap_err();
    assert_eq!(err.message(), "This note has no transcript to ask about.");
}

#[test]
fn ask_precheck_refuses_a_recording_of_silence() {
    let err = ask_precheck(&[seg("Speaker 1", 0, "  ")]).unwrap_err();
    assert_eq!(err.message(), "This note has no speech to ask about \u{2014} the recording was silence.");
}

#[test]
fn run_ask_worker_on_empty_transcript_emits_running_then_error_and_clears_busy() {
    let outcome = ask_precheck(&[]).map(|_| String::new());
    let events = ask_outcome_events("note-1", "What did they discuss?", outcome);
    assert_eq!(events.len(), 1, "no ask-answer event should fire on failure");
    match &events[0] {
        AskEvent::AskStatus(payload) => {
            assert_eq!(payload.state, AskStatusState::Error);
            assert_eq!(payload.error.as_deref().unwrap_or(""), "This note has no transcript to ask about.");
        }
        other => panic!("expected AskStatus, got {other:?}"),
    }
}

#[test]
fn a_successful_ask_emits_the_answer_then_done() {
    let events = ask_outcome_events("note-1", "Who?", Ok("Sam [00:05].".to_string()));
    assert_eq!(events.len(), 2);
    match &events[0] {
        AskEvent::AskAnswer(a) => {
            assert_eq!(a.note_id, "note-1");
            assert_eq!(a.question, "Who?");
            assert_eq!(a.answer, "Sam [00:05].");
        }
        other => panic!("expected the answer first, got {other:?}"),
    }
    match &events[1] {
        AskEvent::AskStatus(p) => {
            assert_eq!(p.state, AskStatusState::Done);
            assert_eq!(p.error, None);
        }
        other => panic!("expected done, got {other:?}"),
    }
}

#[test]
fn an_empty_question_is_refused_before_the_engine_is_claimed() {
    assert_eq!(ask_question("   ").unwrap_err().message(), "question is empty");
    assert_eq!(ask_question("  Who spoke?\n").unwrap(), "Who spoke?");
}

#[test]
fn ask_generation_params_are_lower_temperature_and_smaller_cap_than_the_default() {
    assert!(ASK_MAX_TOKENS < MAX_GENERATION_TOKENS);
}

#[test]
fn prompt_budget_is_the_context_less_the_reservation() {
    assert_eq!(available_prompt_tokens(Some(4096), 1024), 3072);
    assert_eq!(available_prompt_tokens(None, 1024), 7168);
    assert_eq!(available_prompt_tokens(Some(512), 1024), 0);
}

#[test]
fn finish_summary_renames_only_a_default_titled_note() {
    let raw = r#"{"title": "Q3 Planning", "summary": "Planned Q3.", "decisions": [], "action_items": []}"#;
    let outcome = finish_summary(raw, "New recording", read_record).unwrap();
    assert_eq!(outcome.doc.summary, "Planned Q3.");
    assert_eq!(outcome.rename, Some("Q3 Planning".to_string()));
    let kept = finish_summary(raw, "My own title", read_record).unwrap();
    assert_eq!(kept.rename, None);
    let empty = r#"{"summary": "", "decisions": [], "action_items": []}"#;
    assert!(finish_summary(empty, "New recording", read_record).is_err());
    assert!(finish_summary("no json here", "New recording", read_record).is_err());
}

#[test]
fn only_qwen_prompts_carry_the_no_think_tag() {
    assert_eq!(chat_content("Summarize.", "qwen3.5-4b"), "Summarize.\n/no_think");
    assert_eq!(chat_content("Summarize.", "gemma-4"), "Summarize.");
}

#[test]
fn the_model_template_is_used_when_the_runtime_can_apply_it() {
    assert_eq!(final_chat_prompt(Some("<t>hi</t>"), "qwen3", "hi"), "<t>hi</t><think>\n\n</think>\n\n");
    assert_eq!(final_chat_prompt(Some("<t>hi</t>"), "llama", "hi"), "<t>hi</t>");
    assert_eq!(
        final_chat_prompt(None, "gemma-4", " hi "),
        "<|turn>user\nhi<turn|>\n<|turn>model\n"
    );
    assert_eq!(
        final_chat_prompt(None, "mistral", "hi"),
        "<|im_start|>user\nhi<|im_end|>\n<|im_start|>assistant\n"
    );
}

#[test]
fn an_over_budget_prompt_is_refused_before_generation() {
    assert_eq!(check_prompt_budget(0, 10, 100).unwrap_err().message(), "tokenized prompt was empty");
    assert_eq!(
        check_prompt_budget(100, 50, 120),
        Err(MinuteError::PromptTooLong { prompt_tokens: 100, max_tokens: 50, context_tokens: 120 })
    );
    assert!(check_prompt_budget(70, 50, 120).is_ok());
    assert!(check_prompt_budget(71, 50, 120).is_err());
}
