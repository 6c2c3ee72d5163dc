//! An opinionated sentence-per-line formatter for markdown prose.
//!
//! The pipeline classifies character ranges of a document as wrappable
//! prose or verbatim structure, inserts a line break after every detected
//! sentence boundary, and greedily wraps each logical line to a
//! configurable width.  Sentence boundaries are found by an end-marker set
//! combined with locale-aware suppression words, and markdown structure is
//! read from a trusted parser while all classification, merging, breaking
//! and wrapping logic is verified.

pub mod call;
pub mod cfg;
pub mod detect;
pub mod diff;
pub mod events;
pub mod features;
pub mod frontmatter;
pub mod ignore;
pub mod indent;
pub mod keep;
pub mod kwmatch;
pub mod lang;
pub mod linebreak;
pub mod parse;
pub mod ranges;
pub mod unicode;
pub mod words;
pub mod wrap;
