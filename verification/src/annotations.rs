//! The annotation stage: chunks of sentences go to the tagger, one chunk at
//! a time, and come back annotated, in the order in which they went. A
//! failure ends the stream for good.

use crate::annotator::{Annotator, SentenceWithPieces};
use crate::error::PipelineError;
use crate::sentence::{sentence_views, Sentence, SentenceView};
use vstd::prelude::*;

verus! {

/// Where the stage stands.
#[derive(Clone, Copy, Debug, PartialEq, Eq, Structural)]
pub enum AnnotationsState {
    /// The next thing to come is a chunk.
    Sentences,
    /// A chunk is with the tagger.
    Annotate,
    /// The stream has failed: nothing more comes out of it.
    Failed,
}

/// What the stage is told.
#[derive(Debug, PartialEq, Eq)]
pub enum AnnotationsEvent<E> {
    /// The upstream answered: a chunk, an error, or its end.
    Chunk(Option<Result<Vec<Sentence>, PipelineError<E>>>),
    /// The tagger is done with the chunk it was given: the sentences with
    /// their encoding, or the cause of its failure.
    Annotated(Result<Vec<SentenceWithPieces>, String>),
}

/// What the stage asks for or hands on.
#[derive(Debug, PartialEq, Eq)]
pub enum AnnotationsAction<E> {
    /// Annotate this chunk and come back with the result.
    Annotate(Vec<Sentence>),
    /// An annotated chunk for the consumer.
    Yield(Vec<Sentence>),
    /// The stream fails.
    Fail(PipelineError<E>),
    /// The stream has ended.
    Done,
}

/// What an action is, mathematically.
pub enum AnnotationsOutcome<E> {
    Annotate(Seq<SentenceView>),
    Yield(Seq<SentenceView>),
    Fail(PipelineError<E>),
    Done,
}

/// The view of an action.
pub open spec fn outcome_of<E>(action: AnnotationsAction<E>) -> AnnotationsOutcome<E> {
    match action {
        AnnotationsAction::Annotate(chunk) => AnnotationsOutcome::Annotate(sentence_views(chunk@)),
        AnnotationsAction::Yield(chunk) => AnnotationsOutcome::Yield(sentence_views(chunk@)),
        AnnotationsAction::Fail(error) => AnnotationsOutcome::Fail(error),
        AnnotationsAction::Done => AnnotationsOutcome::Done,
    }
}

/// The sentences of a run of encoded sentences, in order.
pub open spec fn unwrapped(payloads: Seq<SentenceWithPieces>) -> Seq<SentenceView> {
    Seq::new(payloads.len(), |i: int| payloads[i].sentence@)
}

/// Whether the stage, in this state, can be told this event: a chunk while
/// one is awaited, the tagger's answer while a chunk is with it, and
/// anything once the stream has failed.
pub open spec fn accepts<E>(state: AnnotationsState, event: AnnotationsEvent<E>) -> bool {
    match state {
        AnnotationsState::Sentences => event is Chunk,
        AnnotationsState::Annotate => event is Annotated,
        AnnotationsState::Failed => true,
    }
}

/// One step of the stage while it has not failed: the next state and the
/// action. A chunk goes to the tagger; the end of the upstream is passed on;
/// what the tagger returns is handed on without its encoding. An upstream
/// error and a failure of the tagger fail the stream.
pub open spec fn live_step<E>(state: AnnotationsState, event: AnnotationsEvent<E>) -> (
    AnnotationsState,
    AnnotationsOutcome<E>,
) {
    match event {
        AnnotationsEvent::Chunk(None) => (state, AnnotationsOutcome::Done),
        AnnotationsEvent::Chunk(Some(Err(error))) => (
            AnnotationsState::Failed,
            AnnotationsOutcome::Fail(error),
        ),
        AnnotationsEvent::Chunk(Some(Ok(chunk))) => (
            AnnotationsState::Annotate,
            AnnotationsOutcome::Annotate(sentence_views(chunk@)),
        ),
        AnnotationsEvent::Annotated(Err(cause)) => (
            AnnotationsState::Failed,
            AnnotationsOutcome::Fail(PipelineError::Inference(cause)),
        ),
        AnnotationsEvent::Annotated(Ok(payloads)) => (
            AnnotationsState::Sentences,
            AnnotationsOutcome::Yield(unwrapped(payloads@)),
        ),
    }
}

/// One step of the stage: the next state and the action. Once the stream
/// has failed it stays failed, and whatever it is told, it answers that it
/// has ended.
pub open spec fn annotations_step<E>(state: AnnotationsState, event: AnnotationsEvent<E>) -> (
    AnnotationsState,
    AnnotationsOutcome<E>,
) {
    if state == AnnotationsState::Failed {
        (AnnotationsState::Failed, AnnotationsOutcome::Done)
    } else {
        live_step(state, event)
    }
}

/// Takes the sentences out of their encoding.
pub fn unwrap_sentences(payloads: Vec<SentenceWithPieces>) -> (sentences: Vec<Sentence>)
    ensures
        sentence_views(sentences@) == unwrapped(payloads@),
{
    let ghost input = payloads@;
    let mut sentences: Vec<Sentence> = Vec::new();
    for payload in it: payloads.into_iter()
        invariant
            it.seq() == input,
            sentences@.len() == it.index(),
            forall|i: int| 0 <= i < it.index() ==> (#[trigger] sentences@[i])@ == input[i].sentence@,
    {
        sentences.push(payload.sentence);
    }
    assert(sentence_views(sentences@) =~= unwrapped(input));
    sentences
}

/// The stage's state.
#[derive(Clone, Copy, Debug, PartialEq, Eq)]
pub struct Annotations {
    annotator: Annotator,
    batch_size: usize,
    annotating: bool,
    failed: bool,
}

impl View for Annotations {
    type V = AnnotationsState;

    closed spec fn view(&self) -> AnnotationsState {
        if self.failed {
            AnnotationsState::Failed
        } else if self.annotating {
            AnnotationsState::Annotate
        } else {
            AnnotationsState::Sentences
        }
    }
}

impl Annotations {
    /// The number of sentences in one call of the tagger.
    pub closed spec fn batch_len(&self) -> nat {
        self.batch_size as nat
    }

    /// The tagger's side of the stage.
    pub closed spec fn tagger(&self) -> Annotator {
        self.annotator
    }

    /// A stage that awaits its first chunk and has its chunks tagged
    /// `batch_size` sentences at a time.
    pub fn new(annotator: Annotator, batch_size: usize) -> (stage: Annotations)
        requires
            batch_size >= 1,
        ensures
            stage@ == AnnotationsState::Sentences,
            stage.batch_len() == batch_size,
            stage.tagger() == annotator,
    {
        Annotations { annotator, batch_size, annotating: false, failed: false }
    }

    /// The number of sentences in one call of the tagger.
    pub fn batch_size(&self) -> (n: usize)
        ensures
            n == self.batch_len(),
    {
        self.batch_size
    }

    /// The tagger's side of the stage.
    pub fn annotator(&self) -> (annotator: Annotator)
        ensures
            annotator == self.tagger(),
    {
        self.annotator
    }

    /// Whether a chunk is with the tagger.
    pub fn is_annotating(&self) -> (annotating: bool)
        ensures
            annotating == (self@ == AnnotationsState::Annotate),
    {
        !self.failed && self.annotating
    }

    /// Whether the stream has failed.
    pub fn has_failed(&self) -> (failed: bool)
        ensures
            failed == (self@ == AnnotationsState::Failed),
    {
        self.failed
    }

    /// Whether the stage can be told `event` now.
    pub fn accepts_event<E>(&self, event: &AnnotationsEvent<E>) -> (ok: bool)
        ensures
            ok == accepts(self@, *event),
    {
        if self.failed {
            true
        } else {
            match event {
                AnnotationsEvent::Chunk(_) => !self.annotating,
                AnnotationsEvent::Annotated(_) => self.annotating,
            }
        }
    }

    /// Takes an event and answers with the next action.
    pub fn step<E>(&mut self, event: AnnotationsEvent<E>) -> (action: AnnotationsAction<E>)
        requires
            accepts(old(self)@, event),
        ensures
            (final(self)@, outcome_of(action)) == annotations_step(old(self)@, event),
            final(self).batch_len() == old(self).batch_len(),
            final(self).tagger() == old(self).tagger(),
    {
        if self.failed {
            return AnnotationsAction::Done;
        }
        match event {
            AnnotationsEvent::Chunk(None) => AnnotationsAction::Done,
            AnnotationsEvent::Chunk(Some(Err(error))) => {
                self.failed = true;
                AnnotationsAction::Fail(error)
            },
            AnnotationsEvent::Chunk(Some(Ok(chunk))) => {
                self.annotating = true;
                AnnotationsAction::Annotate(chunk)
            },
            AnnotationsEvent::Annotated(Err(cause)) => {
                self.failed = true;
                AnnotationsAction::Fail(PipelineError::Inference(cause))
            },
            AnnotationsEvent::Annotated(Ok(payloads)) => {
                self.annotating = false;
                AnnotationsAction::Yield(unwrap_sentences(payloads))
            },
        }
    }
}

/// A failure is final: a step that fails leaves the stage failed. So does
/// every failure of the tagger.
pub proof fn lemma_failure_fails_stage<E>(state: AnnotationsState, event: AnnotationsEvent<E>)
    requires
        annotations_step(state, event).1 is Fail,
    ensures
        annotations_step(state, event).0 == AnnotationsState::Failed,
{
}

/// The answers of the stage to a run of events, from a state on.
pub open spec fn annotations_run<E>(state: AnnotationsState, events: Seq<AnnotationsEvent<E>>)
    -> Seq<AnnotationsOutcome<E>>
    decreases events.len(),
{
    if events.len() == 0 {
        Seq::empty()
    } else {
        let (next, outcome) = annotations_step(state, events[0]);
        seq![outcome] + annotations_run(next, events.drop_first())
    }
}

/// Nothing comes after a failure: whatever a failed stage is told, and
/// however often, it answers that the stream has ended. No later chunk
/// reaches the tagger and none is handed on.
pub proof fn lemma_failed_stage_is_done<E>(events: Seq<AnnotationsEvent<E>>)
    ensures
        annotations_run(AnnotationsState::Failed, events).len() == events.len(),
        forall|i: int|
            0 <= i < events.len() ==> #[trigger] annotations_run(
                AnnotationsState::Failed,
                events,
            )[i] == AnnotationsOutcome::<E>::Done,
    decreases events.len(),
{
    if events.len() > 0 {
        lemma_failed_stage_is_done(events.drop_first());
    }
}

/// A failure of the tagger is the last thing that the stream hands on: the
/// step fails with the cause, and every later step answers that the stream
/// has ended.
pub proof fn lemma_tagger_failure_is_terminal<E>(
    state: AnnotationsState,
    cause: String,
    later: Seq<AnnotationsEvent<E>>,
)
    requires
        state == AnnotationsState::Annotate,
    ensures
        annotations_run(state, seq![AnnotationsEvent::Annotated(Err(cause))] + later).len()
            == later.len() + 1,
        annotations_run(state, seq![AnnotationsEvent::Annotated(Err(cause))] + later)[0]
            == AnnotationsOutcome::<E>::Fail(PipelineError::Inference(cause)),
        forall|i: int|
            1 <= i <= later.len() ==> #[trigger] annotations_run(
                state,
                seq![AnnotationsEvent::Annotated(Err(cause))] + later,
            )[i] == AnnotationsOutcome::<E>::Done,
{
    let events = seq![AnnotationsEvent::<E>::Annotated(Err(cause))] + later;
    assert(events.drop_first() =~= later);
    lemma_failed_stage_is_done(later);
    let run = annotations_run(state, events);
    let rest = annotations_run(AnnotationsState::Failed, later);
    assert(run == seq![AnnotationsOutcome::<E>::Fail(PipelineError::Inference(cause))] + rest);
    assert forall|i: int| 1 <= i <= later.len() implies #[trigger] run[i]
        == AnnotationsOutcome::<E>::Done by {
        assert(run[i] == rest[i - 1]);
    }
}

} // verus!
