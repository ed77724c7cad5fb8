//! The configuration of annotators, tokenizers and pipelines, and the rules
//! by which a pipeline is made from it.

use crate::annotator::Annotator;
use crate::pipeline::{Pipeline, PipelineView};
use vstd::prelude::*;

verus! {

/// Annotator configuration.
#[derive(Clone, Debug, PartialEq, Eq)]
pub struct AnnotatorConfig {
    /// Maximum sentence length in pieces.
    pub max_len: Option<usize>,
    /// The file that configures the tagger's model.
    pub syntaxdot_config: String,
}

impl AnnotatorConfig {
    /// The tagger's side of an annotation stage with this configuration.
    pub fn annotator(&self) -> (annotator: Annotator)
        ensures
            annotator.bound() == self.max_len,
    {
        Annotator::new(self.max_len)
    }
}

/// Configuration for a tokenizer.
#[derive(Clone, Debug, PartialEq, Eq)]
pub enum TokenizerConfig {
    /// Alpino tokenizer, with its tokenizer protobuf file.
    AlpinoTokenizer(String),
    /// Whitespace tokenizer: sentences are lines, tokens are separated by
    /// ASCII whitespace.
    WhitespaceTokenizer,
}

/// Pipeline configuration.
#[derive(Clone, Debug, PartialEq, Eq)]
pub struct PipelineConfig {
    /// Name of the annotator to use.
    pub annotator: String,
    /// Batch size.
    pub batch_size: usize,
    /// Pipeline description.
    pub description: String,
    /// Number of batches to read ahead.
    pub read_ahead: usize,
    /// Name of the tokenizer to use.
    pub tokenizer: String,
}

/// Why no pipeline can be made from a configuration.
#[derive(Clone, Debug, PartialEq, Eq)]
pub enum ConfigError {
    /// The pipeline names an annotator that is not configured.
    UnknownAnnotator(String),
    /// The pipeline names a tokenizer that is not configured.
    UnknownTokenizer(String),
    /// The batch size or the number of batches read ahead is zero, or their
    /// product cannot be counted.
    InvalidSizes,
}

/// What making a pipeline gives: the annotator must be known, then the
/// tokenizer, then the sizes must be usable.
pub open spec fn new_pipeline_spec(
    config: PipelineConfig,
    name: Seq<char>,
    annotator: Option<Annotator>,
    tokenizer_known: bool,
    made: Result<Pipeline, ConfigError>,
) -> bool {
    let view = PipelineView {
        annotator: annotator.unwrap(),
        batch_size: config.batch_size as nat,
        description: config.description@,
        name,
        read_ahead: config.read_ahead as nat,
    };
    if annotator is None {
        made matches Err(ConfigError::UnknownAnnotator(unknown)) && unknown@ == config.annotator@
    } else if !tokenizer_known {
        made matches Err(ConfigError::UnknownTokenizer(unknown)) && unknown@ == config.tokenizer@
    } else if !view.wf() {
        made == Err::<Pipeline, ConfigError>(ConfigError::InvalidSizes)
    } else {
        made matches Ok(pipeline) && pipeline.wf() && pipeline@ == view
    }
}

impl PipelineConfig {
    /// Makes the pipeline `name` from this configuration. `annotator` is
    /// what the configured annotators hold under the name that the pipeline
    /// uses, and `tokenizer_known` says whether the configured tokenizers
    /// hold the name that it uses.
    pub fn new_pipeline(&self, name: &str, annotator: Option<Annotator>, tokenizer_known: bool) -> (made:
        Result<Pipeline, ConfigError>)
        ensures
            new_pipeline_spec(*self, name@, annotator, tokenizer_known, made),
    {
        let annotator = match annotator {
            Some(annotator) => annotator,
            None => { return Err(ConfigError::UnknownAnnotator(self.annotator.clone())); },
        };
        if !tokenizer_known {
            return Err(ConfigError::UnknownTokenizer(self.tokenizer.clone()));
        }
        if self.batch_size == 0 || self.read_ahead == 0 {
            return Err(ConfigError::InvalidSizes);
        }
        match self.batch_size.checked_mul(self.read_ahead) {
            None => Err(ConfigError::InvalidSizes),
            Some(_) => Ok(
                Pipeline::new(
                    self.description.as_str(),
                    name,
                    annotator,
                    self.batch_size,
                    self.read_ahead,
                ),
            ),
        }
    }
}

} // verus!
