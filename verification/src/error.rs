//! The ways in which a request can fail.

use vstd::prelude::*;

verus! {

/// Why a stream ended early. Every failure ends the request it occurred in
/// and no other; none is retried.
#[derive(Debug, PartialEq, Eq)]
pub enum PipelineError<E> {
    /// Reading the input failed; the error is passed on as it came.
    Upstream(E),
    /// The segmenter rejected a line.
    Segmentation,
    /// The tagger failed; the cause, in words.
    Inference(String),
    /// A sentence could not be serialized; the cause, in words.
    Serialization(String),
}

} // verus!
