//! Batch translation of dialogue/UI text rows through a chat-completion
//! service: prompt construction, response re-segmentation, bounded retry,
//! and batching with context windows. The text protocol (anchors, remarks
//! markers, section headers) is what this crate verifies; transport and
//! file formats live outside the library.

pub mod errors;
pub mod laws;
pub mod parse;
pub mod prompt;
pub mod rows;
pub mod run;
pub mod text;
