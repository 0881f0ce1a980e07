//! Furigana for HTML documents.
//!
//! The library finds the runs of kanji and hiragana in the text nodes of a
//! document, asks for their readings in one batch, and writes the document
//! out again with each run wrapped in ruby markup together with its reading.
//! It sends and receives nothing itself: its caller fetches the document and
//! the readings and performs what the functions of [`pipeline`] decide.

pub mod batch;
pub mod classify;
pub mod error;
pub mod laws;
pub mod pipeline;
pub mod reassemble;
pub mod segment;
pub mod text;

pub use crate::batch::{ApiConfig, HiraganaResp};
pub use crate::error::PipelineError;
pub use crate::reassemble::{generate_html_with_ruby, reassemble};
pub use crate::segment::{analyze_jp, segment_text, Region, Segment};
