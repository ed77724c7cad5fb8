//! A named pipeline: what is fixed when it is set up, and the streams that
//! it gives for each request.

use crate::annotations::AnnotationsState;
use crate::annotator::Annotator;
use crate::sentences::SentencesState;
use crate::streams::{
    AnnotationStream, AnnotationStreamView, ChunkedSentences, ChunkedView, SentenceStream,
};
use vstd::prelude::*;

verus! {

/// What a pipeline is, mathematically.
pub struct PipelineView {
    pub annotator: Annotator,
    pub batch_size: nat,
    pub description: Seq<char>,
    pub name: Seq<char>,
    pub read_ahead: nat,
}

/// The number of sentences in a chunk of a stream that is not annotated.
pub const TOKEN_CHUNK_LEN: usize = 16;

/// An annotation pipeline: its name and description, the tagger's side, the
/// number of sentences in one call of the tagger, and the number of such
/// batches that are read ahead.
#[derive(Clone, Debug, PartialEq, Eq)]
pub struct Pipeline {
    annotator: Annotator,
    batch_size: usize,
    description: String,
    name: String,
    read_ahead: usize,
}

impl View for Pipeline {
    type V = PipelineView;

    closed spec fn view(&self) -> PipelineView {
        PipelineView {
            annotator: self.annotator,
            batch_size: self.batch_size as nat,
            description: self.description@,
            name: self.name@,
            read_ahead: self.read_ahead as nat,
        }
    }
}

impl PipelineView {
    /// The number of sentences in a chunk that goes to the annotation stage.
    pub open spec fn chunk_len(self) -> nat {
        self.batch_size * self.read_ahead
    }

    /// The sizes are usable: both are at least one, and a chunk can be
    /// counted.
    pub open spec fn wf(self) -> bool {
        &&& self.batch_size >= 1
        &&& self.read_ahead >= 1
        &&& self.chunk_len() <= usize::MAX
    }
}

impl Pipeline {
    /// The pipeline's sizes are usable.
    pub closed spec fn wf(&self) -> bool {
        self@.wf()
    }

    /// Construct a new pipeline.
    pub fn new(
        description: &str,
        name: &str,
        annotator: Annotator,
        batch_size: usize,
        read_ahead: usize,
    ) -> (pipeline: Pipeline)
        requires
            batch_size >= 1,
            read_ahead >= 1,
            batch_size * read_ahead <= usize::MAX,
        ensures
            pipeline.wf(),
            pipeline@ == (PipelineView {
                annotator,
                batch_size: batch_size as nat,
                description: description@,
                name: name@,
                read_ahead: read_ahead as nat,
            }),
    {
        Pipeline {
            annotator,
            batch_size,
            description: description.to_owned(),
            name: name.to_owned(),
            read_ahead,
        }
    }

    /// Pipeline description.
    pub fn description(&self) -> (description: &str)
        ensures
            description@ == self@.description,
    {
        self.description.as_str()
    }

    /// Pipeline name.
    pub fn name(&self) -> (name: &str)
        ensures
            name@ == self@.name,
    {
        self.name.as_str()
    }

    /// The tagger's side.
    pub fn annotator(&self) -> (annotator: Annotator)
        ensures
            annotator == self@.annotator,
    {
        self.annotator
    }

    /// The number of sentences in one call of the tagger.
    pub fn batch_size(&self) -> (batch_size: usize)
        ensures
            batch_size == self@.batch_size,
    {
        self.batch_size
    }

    /// The number of batches that are read ahead.
    pub fn read_ahead(&self) -> (read_ahead: usize)
        ensures
            read_ahead == self@.read_ahead,
    {
        self.read_ahead
    }

    /// Annotate a text stream: the stream of annotated chunks for one
    /// request. Sentences are segmented and normalized, gathered into chunks
    /// of `batch_size * read_ahead`, annotated `batch_size` at a time, and
    /// stamped with the pipeline's name.
    pub fn annotations(&self) -> (stream: AnnotationStream)
        requires
            self.wf(),
        ensures
            stream.wf(),
            stream.batch_len() == self@.batch_size,
            stream.tagger() == self@.annotator,
            stream@ == (AnnotationStreamView {
                chunked: ChunkedView {
                    sentences: SentencesState::Lines,
                    buffered: Seq::empty(),
                    chunk_len: self@.chunk_len(),
                },
                annotations: AnnotationsState::Sentences,
                name: self@.name,
            }),
    {
        assert(self.batch_size * self.read_ahead >= 1) by (nonlinear_arith)
            requires
                self.batch_size >= 1,
                self.read_ahead >= 1,
        ;
        AnnotationStream::new(
            self.name.as_str(),
            self.annotator,
            self.batch_size,
            self.batch_size * self.read_ahead,
        )
    }

    /// Tokenize sentences and apply unicode cleanup: the stream of
    /// normalized sentences for one request.
    pub fn sentences(&self) -> (stream: SentenceStream)
        ensures
            stream@ == SentencesState::Lines,
    {
        SentenceStream::new()
    }

    /// The stream of chunks of normalized sentences for one request that
    /// asks for tokens only.
    pub fn token_chunks(&self) -> (stream: ChunkedSentences)
        ensures
            stream.wf(),
            stream@ == (ChunkedView {
                sentences: SentencesState::Lines,
                buffered: Seq::empty(),
                chunk_len: TOKEN_CHUNK_LEN as nat,
            }),
    {
        ChunkedSentences::new(TOKEN_CHUNK_LEN)
    }
}

} // verus!
