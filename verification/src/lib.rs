//! Repository chunk segmentation and hybrid retrieval fusion.
//!
//! The crate turns source files into bounded, semantically coherent chunks
//! (by syntax-aware extraction with a sliding-window fallback) and merges a
//! semantic and a lexical ranked result list by reciprocal rank fusion.

pub mod batch;
pub mod codec;
pub mod config;
pub mod engine;
pub mod filter;
pub mod payload;
pub mod rrf;
pub mod segmenter;
pub mod splitter;
pub mod strutil;
pub mod tokenizer;
pub mod types;
