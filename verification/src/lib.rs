use vstd::prelude::*;

pub mod aliases;
pub mod clock;
pub mod digest;
pub mod engine;
pub mod error;
pub mod extract;
pub mod json;
pub mod model;
pub mod prompt;
pub mod render;
pub mod search;
pub mod settings;
pub mod speakers;
pub mod store;
pub mod summary;
pub mod sweep;
pub mod text;
pub mod transcription;
pub mod worker;

verus! {
} // verus!
