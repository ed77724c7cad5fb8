//! The stamping stage: every sentence of a chunk gets a comment that names
//! the pipeline that produced it.

use crate::sentence::{sentence_views, Comment, CommentView, Sentence, SentenceView};
use vstd::prelude::*;

verus! {

/// The attribute of the provenance comment.
pub open spec fn pipeline_key() -> Seq<char> {
    "pipeline"@
}

/// The provenance comment of the pipeline with this name.
pub open spec fn stamp(name: Seq<char>) -> CommentView {
    CommentView::AttrVal { attr: pipeline_key(), val: name }
}

/// A sentence with the provenance comment added behind its other comments.
pub open spec fn stamped(sentence: SentenceView, name: Seq<char>) -> SentenceView {
    SentenceView { tokens: sentence.tokens, comments: sentence.comments.push(stamp(name)) }
}

/// A chunk with every sentence stamped.
pub open spec fn stamped_chunk(chunk: Seq<SentenceView>, name: Seq<char>) -> Seq<SentenceView> {
    Seq::new(chunk.len(), |i: int| stamped(chunk[i], name))
}

/// What the stage makes of what its upstream gave: a chunk is stamped, an
/// error or the end is passed on.
pub open spec fn metadata_step<E>(
    polled: Option<Result<Seq<SentenceView>, E>>,
    name: Seq<char>,
) -> Option<Result<Seq<SentenceView>, E>> {
    match polled {
        Some(Ok(chunk)) => Some(Ok(stamped_chunk(chunk, name))),
        other => other,
    }
}

/// The view of what a stream of chunks gives.
pub open spec fn polled_chunk<E>(polled: Option<Result<Vec<Sentence>, E>>) -> Option<
    Result<Seq<SentenceView>, E>,
> {
    match polled {
        Some(Ok(chunk)) => Some(Ok(sentence_views(chunk@))),
        Some(Err(error)) => Some(Err(error)),
        None => None,
    }
}

/// Adds the provenance comment of the pipeline `name` to every sentence.
pub fn stamp_chunk(chunk: &mut Vec<Sentence>, name: &str)
    ensures
        sentence_views(final(chunk)@) == stamped_chunk(sentence_views(old(chunk)@), name@),
{
    let n = chunk.len();
    let mut i: usize = 0;
    while i < n
        invariant
            i <= n,
            n == chunk@.len(),
            n == old(chunk)@.len(),
            forall|j: int| 0 <= j < i ==> (#[trigger] chunk@[j])@ == stamped(old(chunk)@[j]@, name@),
            forall|j: int| i <= j < n ==> #[trigger] chunk@[j] == old(chunk)@[j],
        decreases n - i,
    {
        let sentence = &mut chunk[i];
        sentence.push_comment(
            Comment::AttrVal { attr: "pipeline".to_owned(), val: name.to_owned() },
        );
        i += 1;
    }
    assert(sentence_views(chunk@) =~= stamped_chunk(sentence_views(old(chunk)@), name@));
}

/// The stamping stage of the pipeline with a given name.
pub struct Metadata {
    pipeline_name: String,
}

impl Metadata {
    /// The name that the stage stamps.
    pub closed spec fn name(&self) -> Seq<char> {
        self.pipeline_name@
    }

    /// The stamping stage of the pipeline `pipeline_name`.
    pub fn new(pipeline_name: String) -> (stage: Metadata)
        ensures
            stage.name() == pipeline_name@,
    {
        Metadata { pipeline_name }
    }

    /// Takes what the upstream gave and hands it on, a chunk with every
    /// sentence stamped.
    pub fn step<E>(&self, polled: Option<Result<Vec<Sentence>, E>>) -> (out: Option<
        Result<Vec<Sentence>, E>,
    >)
        ensures
            polled_chunk(out) == metadata_step(polled_chunk(polled), self.name()),
    {
        match polled {
            Some(Ok(chunk)) => {
                let mut chunk = chunk;
                stamp_chunk(&mut chunk, self.pipeline_name.as_str());
                Some(Ok(chunk))
            },
            Some(Err(error)) => Some(Err(error)),
            None => None,
        }
    }
}

/// Provenance stamping: every sentence that leaves the stage carries, as its
/// last comment, the name of the pipeline.
pub proof fn lemma_every_sentence_stamped(chunk: Seq<SentenceView>, name: Seq<char>, i: int)
    requires
        0 <= i < chunk.len(),
    ensures
        stamped_chunk(chunk, name).len() == chunk.len(),
        stamped_chunk(chunk, name)[i].comments.last() == stamp(name),
        stamped_chunk(chunk, name)[i].comments.drop_last() == chunk[i].comments,
        stamped_chunk(chunk, name)[i].tokens == chunk[i].tokens,
{
    assert(stamped_chunk(chunk, name)[i].comments.drop_last() =~= chunk[i].comments);
}

} // verus!
