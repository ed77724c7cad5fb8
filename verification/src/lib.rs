//! Streaming sentence pipeline: segmentation, normalization, batching,
//! annotation dispatch and provenance stamping, written as explicit state
//! machines that leave all waiting to the caller.

pub mod annotations;
pub mod annotator;
pub mod chunks;
pub mod config;
pub mod error;
pub mod metadata;
pub mod pipeline;
pub mod reader;
pub mod runs;
pub mod sentence;
pub mod sentences;
pub mod stage;
pub mod streams;
pub mod text;
pub mod tokenizer;
pub mod unicode;
pub mod unicode_cleanup;
