//! Splits Markdown posts into sentences.
//!
//! A Markdown document is first turned into text blocks (paragraphs, list
//! items and code blocks) whose inline content is kept as typed fragments with
//! their offsets in the source. Each block is then cut into sentences by a
//! small character-level state machine.

pub mod block_laws;
pub mod error;
pub mod extractor;
pub mod markdown;
pub mod openai;
pub mod posts;
pub mod sentence_laws;
pub mod text;
