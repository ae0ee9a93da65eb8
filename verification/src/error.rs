//! The library's error type.
use vstd::prelude::*;

use crate::text::{decimal, push_decimal, push_str, string_from_chars};

verus! {

/// Why an operation failed.
#[derive(Debug, Clone, PartialEq)]
pub enum MinuteError {
    /// A failure described by its message.
    Other(String),
    /// The tokenized prompt plus the response reservation does not fit the
    /// loaded model's context window.
    PromptTooLong { prompt_tokens: usize, max_tokens: usize, context_tokens: usize },
}

/// The text a [`MinuteError`] reads as.
pub open spec fn error_message(e: MinuteError) -> Seq<char> {
    match e {
        MinuteError::Other(m) => m@,
        MinuteError::PromptTooLong { prompt_tokens, max_tokens, context_tokens } =>
            "the transcript is too long for the summary model: the prompt needs "@ + decimal(
            prompt_tokens as nat,
        ) + " tokens plus "@ + decimal(max_tokens as nat)
            + " reserved for the response, but the context window holds "@ + decimal(
            context_tokens as nat,
        ) + " tokens"@,
    }
}

impl MinuteError {
    /// The error's message.
    pub fn message(&self) -> (r: String)
        ensures
            r@ == error_message(*self),
    {
        match self {
            MinuteError::Other(m) => m.clone(),
            MinuteError::PromptTooLong { prompt_tokens, max_tokens, context_tokens } => {
                let mut out: Vec<char> = Vec::new();
                push_str(&mut out, "the transcript is too long for the summary model: the prompt needs ");
                push_decimal(&mut out, *prompt_tokens as u64);
                push_str(&mut out, " tokens plus ");
                push_decimal(&mut out, *max_tokens as u64);
                push_str(&mut out, " reserved for the response, but the context window holds ");
                push_decimal(&mut out, *context_tokens as u64);
                push_str(&mut out, " tokens");
                assert(out@ =~= error_message(*self));
                string_from_chars(&out)
            },
        }
    }
}

} // verus!
