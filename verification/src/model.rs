//! The note data the rest of the library reads and writes.
use vstd::prelude::*;

verus! {

/// One action item extracted from a summary: its text and whether the user
/// has checked it off.
#[derive(Debug, Clone, PartialEq)]
pub struct ActionItem {
    pub text: String,
    pub done: bool,
}

/// One section of a summary's topic breakdown: what was discussed, and what
/// was said about it.
#[derive(Debug, Clone, PartialEq)]
pub struct SummaryTopic {
    pub title: String,
    pub summary: String,
}

/// A note's generated summary.
#[derive(Debug, Clone, PartialEq)]
pub struct SummaryDoc {
    pub summary: String,
    /// Per-topic breakdown, empty unless the note was summarized under
    /// [`SummaryStyle::Detailed`].
    pub topics: Vec<SummaryTopic>,
    pub decisions: Vec<String>,
    pub action_items: Vec<ActionItem>,
}

/// How long a summary the model is asked for.
#[derive(Clone, Copy, Debug, PartialEq, Eq, Structural)]
pub enum SummaryStyle {
    Short,
    Standard,
    Detailed,
}

impl Default for SummaryDoc {
    fn default() -> (d: Self)
        ensures
            d@.summary.len() == 0,
            d@.topics.len() == 0,
            d@.decisions.len() == 0,
            d@.action_items.len() == 0,
    {
        let d = SummaryDoc {
            summary: String::new(),
            topics: Vec::new(),
            decisions: Vec::new(),
            action_items: Vec::new(),
        };
        d
    }
}

/// One transcript segment as the prompt builder and the markdown renderer
/// read it: who spoke, what they said, and the segment's start as whole
/// seconds (negative starts clamped to zero, fractions dropped).
#[derive(Debug, Clone, PartialEq)]
pub struct StoredSegment {
    pub speaker: String,
    pub start_secs: u64,
    pub text: String,
}

/// Lifecycle status of a note.
#[derive(Clone, Copy, Debug, PartialEq, Eq, Structural)]
pub enum NoteStatus {
    Recording,
    Transcribed,
    Ready,
}

/// An action item's content.
pub struct ActionItemView {
    pub text: Seq<char>,
    pub done: bool,
}

/// A topic's content.
pub struct SummaryTopicView {
    pub title: Seq<char>,
    pub summary: Seq<char>,
}

/// A summary's content.
pub struct SummaryDocView {
    pub summary: Seq<char>,
    pub topics: Seq<SummaryTopicView>,
    pub decisions: Seq<Seq<char>>,
    pub action_items: Seq<ActionItemView>,
}

impl View for ActionItem {
    type V = ActionItemView;

    open spec fn view(&self) -> ActionItemView {
        ActionItemView { text: self.text@, done: self.done }
    }
}

impl View for SummaryTopic {
    type V = SummaryTopicView;

    open spec fn view(&self) -> SummaryTopicView {
        SummaryTopicView { title: self.title@, summary: self.summary@ }
    }
}

impl View for SummaryDoc {
    type V = SummaryDocView;

    open spec fn view(&self) -> SummaryDocView {
        SummaryDocView {
            summary: self.summary@,
            topics: self.topics@.map_values(|t: SummaryTopic| t@),
            decisions: self.decisions@.map_values(|d: String| d@),
            action_items: self.action_items@.map_values(|a: ActionItem| a@),
        }
    }
}

} // verus!
