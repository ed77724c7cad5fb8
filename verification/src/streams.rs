//! The stages put together: the stream of normalized sentences, the stream
//! of chunks of them, and the stream of annotated, stamped chunks.

use crate::annotations::{
    unwrapped, Annotations, AnnotationsAction, AnnotationsEvent, AnnotationsState,
};
use crate::annotator::{Annotator, SentenceWithPieces};
use crate::chunks::TryChunks;
use crate::error::PipelineError;
use crate::metadata::{stamp_chunk, stamped_chunk};
use crate::sentence::{sentence_views, Sentence, SentenceView};
use crate::sentences::{
    accepts, outcome_of, sentences_step, Sentences, SentencesAction, SentencesEvent,
    SentencesOutcome, SentencesState,
};
use crate::stage::Step;
use crate::unicode::Normalization;
use crate::unicode_cleanup::{cleaned_sentence, cleanup_sentence_unicode};
use vstd::prelude::*;

verus! {

/// An action of the segmentation stage with the sentence that it hands on,
/// if any, normalized.
pub open spec fn cleaned_outcome<E>(outcome: SentencesOutcome<E>, normalization: Normalization)
    -> SentencesOutcome<E> {
    match outcome {
        SentencesOutcome::Yield(sentence) => SentencesOutcome::Yield(
            cleaned_sentence(sentence, normalization),
        ),
        other => other,
    }
}

/// One step of the stream of normalized sentences: a step of the
/// segmentation stage, and the sentence that it hands on brought into
/// Normalization Form C.
pub open spec fn sentence_stream_step<E>(state: SentencesState, event: SentencesEvent<E>) -> (
    SentencesState,
    SentencesOutcome<E>,
) {
    let (next, outcome) = sentences_step(state, event);
    (next, cleaned_outcome(outcome, Normalization::Nfc))
}

/// The stream of normalized sentences: segmentation, then normalization.
pub struct SentenceStream {
    sentences: Sentences,
}

impl View for SentenceStream {
    type V = SentencesState;

    closed spec fn view(&self) -> SentencesState {
        self.sentences@
    }
}

impl SentenceStream {
    /// A stream that awaits its first line.
    pub fn new() -> (stream: SentenceStream)
        ensures
            stream@ == SentencesState::Lines,
    {
        SentenceStream { sentences: Sentences::new() }
    }

    /// Whether the stream can be told `event` now.
    pub fn accepts_event<E>(&self, event: &SentencesEvent<E>) -> (ok: bool)
        ensures
            ok == accepts(self@, *event),
    {
        self.sentences.accepts_event(event)
    }

    /// Takes an event and answers with the next action.
    pub fn step<E>(&mut self, event: SentencesEvent<E>) -> (action: SentencesAction<E>)
        requires
            accepts(old(self)@, event),
        ensures
            (final(self)@, outcome_of(action)) == sentence_stream_step(old(self)@, event),
    {
        match self.sentences.step(event) {
            SentencesAction::Yield(sentence) => {
                let mut sentence = sentence;
                cleanup_sentence_unicode(&mut sentence, Normalization::Nfc);
                SentencesAction::Yield(sentence)
            },
            other => other,
        }
    }
}

/// The number of sentences that are still to be handed on from the line
/// that was segmented last.
pub open spec fn queue_len(state: SentencesState) -> nat {
    match state {
        SentencesState::Sentences(queue) => queue.len(),
        _ => 0,
    }
}

/// What the stream of chunks is, mathematically: where its sentence stream
/// stands, and the sentences buffered for the next chunk.
pub struct ChunkedView {
    pub sentences: SentencesState,
    pub buffered: Seq<SentenceView>,
    pub chunk_len: nat,
}

/// What the stream of chunks asks for or hands on.
#[derive(Debug, PartialEq, Eq)]
pub enum ChunkedAction<E> {
    /// Poll the line source and come back with its answer.
    ReadLine,
    /// Run the segmenter on this line and come back with its answer.
    Tokenize(String),
    /// A chunk for the consumer.
    Yield(Vec<Sentence>),
    /// The stream fails.
    Fail(PipelineError<E>),
    /// The stream has ended.
    Done,
}

/// What an action of the stream of chunks is, mathematically.
pub enum ChunkedOutcome<E> {
    ReadLine,
    Tokenize(Seq<char>),
    Yield(Seq<SentenceView>),
    Fail(PipelineError<E>),
    Done,
}

/// The view of an action of the stream of chunks.
pub open spec fn chunked_outcome_of<E>(action: ChunkedAction<E>) -> ChunkedOutcome<E> {
    match action {
        ChunkedAction::ReadLine => ChunkedOutcome::ReadLine,
        ChunkedAction::Tokenize(line) => ChunkedOutcome::Tokenize(line@),
        ChunkedAction::Yield(chunk) => ChunkedOutcome::Yield(sentence_views(chunk@)),
        ChunkedAction::Fail(error) => ChunkedOutcome::Fail(error),
        ChunkedAction::Done => ChunkedOutcome::Done,
    }
}

/// What the stream of chunks makes of an answer of its sentence stream.
/// Outside work is passed on to the caller. A sentence goes into the buffer;
/// a full buffer is handed on, and otherwise the next sentence is asked for.
/// A failure is passed on and the buffer dropped. At the end, a buffer that
/// holds anything is handed on.
pub open spec fn settle<E>(
    stream: ChunkedView,
    answer: (SentencesState, SentencesOutcome<E>),
) -> (ChunkedView, ChunkedOutcome<E>)
    decreases
            queue_len(answer.0),
            (if answer.1 is Yield {
                1nat
            } else {
                0nat
            }),
{
    let stream = ChunkedView { sentences: answer.0, ..stream };
    match answer.1 {
        SentencesOutcome::ReadLine => (stream, ChunkedOutcome::ReadLine),
        SentencesOutcome::Tokenize(line) => (stream, ChunkedOutcome::Tokenize(line)),
        SentencesOutcome::Fail(error) => (
            ChunkedView { buffered: Seq::empty(), ..stream },
            ChunkedOutcome::Fail(error),
        ),
        SentencesOutcome::Done => if stream.buffered.len() > 0 {
            (ChunkedView { buffered: Seq::empty(), ..stream }, ChunkedOutcome::Yield(stream.buffered))
        } else {
            (stream, ChunkedOutcome::Done)
        },
        SentencesOutcome::Yield(sentence) => if stream.buffered.len() + 1 == stream.chunk_len {
            (
                ChunkedView { buffered: Seq::empty(), ..stream },
                ChunkedOutcome::Yield(stream.buffered.push(sentence)),
            )
        } else {
            settle(
                ChunkedView { buffered: stream.buffered.push(sentence), ..stream },
                sentence_stream_step::<E>(answer.0, SentencesEvent::Next),
            )
        },
    }
}

/// What is made of an answer does not depend on where the sentence stream
/// stood before it.
proof fn lemma_settle_from_any_state<E>(
    stream: ChunkedView,
    state: SentencesState,
    answer: (SentencesState, SentencesOutcome<E>),
)
    ensures
        settle(ChunkedView { sentences: state, ..stream }, answer) == settle(stream, answer),
{
    let other = ChunkedView { sentences: state, ..stream };
    assert(ChunkedView { sentences: answer.0, ..other } == ChunkedView {
        sentences: answer.0,
        ..stream
    });
}

/// One step of the stream of chunks: a step of the sentence stream, and what
/// is made of its answer.
pub open spec fn chunked_step<E>(stream: ChunkedView, event: SentencesEvent<E>) -> (
    ChunkedView,
    ChunkedOutcome<E>,
) {
    settle(stream, sentence_stream_step(stream.sentences, event))
}

/// The stream of chunks: normalized sentences, gathered into chunks.
pub struct ChunkedSentences {
    sentences: SentenceStream,
    chunks: TryChunks<Sentence>,
}

impl View for ChunkedSentences {
    type V = ChunkedView;

    closed spec fn view(&self) -> ChunkedView {
        ChunkedView {
            sentences: self.sentences@,
            buffered: sentence_views(self.chunks.buffered()),
            chunk_len: self.chunks.capacity(),
        }
    }
}

impl ChunkedSentences {
    /// The buffer is never full between steps.
    pub open spec fn wf(&self) -> bool {
        self@.buffered.len() < self@.chunk_len
    }

    /// A stream that awaits its first line and hands on chunks of
    /// `chunk_len` sentences.
    pub fn new(chunk_len: usize) -> (stream: ChunkedSentences)
        requires
            chunk_len >= 1,
        ensures
            stream.wf(),
            stream@ == (ChunkedView {
                sentences: SentencesState::Lines,
                buffered: Seq::empty(),
                chunk_len: chunk_len as nat,
            }),
    {
        let stream = ChunkedSentences {
            sentences: SentenceStream::new(),
            chunks: TryChunks::new(chunk_len),
        };
        assert(stream@.buffered =~= Seq::<SentenceView>::empty());
        stream
    }

    /// Whether the stream can be told `event` now.
    pub fn accepts_event<E>(&self, event: &SentencesEvent<E>) -> (ok: bool)
        ensures
            ok == accepts(self@.sentences, *event),
    {
        self.sentences.accepts_event(event)
    }

    /// Takes an event and answers with the next action.
    pub fn step<E>(&mut self, event: SentencesEvent<E>) -> (action: ChunkedAction<E>)
        requires
            old(self).wf(),
            accepts(old(self)@.sentences, event),
        ensures
            final(self).wf(),
            (final(self)@, chunked_outcome_of(action)) == chunked_step(old(self)@, event),
    {
        let ghost goal = chunked_step(self@, event);
        let ghost before = self@;
        let mut answer = self.sentences.step(event);
        loop
            invariant
                self.wf(),
                before == old(self)@,
                goal == chunked_step(before, event),
                outcome_of(answer) is Yield ==> self@.sentences is Sentences,
                settle(self@, (self@.sentences, outcome_of(answer))) == goal,
            ensures
                self.wf(),
                false,
            decreases
                    queue_len(self@.sentences),
                    (if outcome_of(answer) is Yield {
                        1nat
                    } else {
                        0nat
                    }),
        {
            let ghost stream = self@;
            match answer {
                SentencesAction::ReadLine => {
                    return ChunkedAction::ReadLine;
                },
                SentencesAction::Tokenize(line) => {
                    return ChunkedAction::Tokenize(line);
                },
                SentencesAction::Fail(error) => {
                    let step = self.chunks.step(Some(Err(error)));
                    assert(self@.buffered =~= Seq::<SentenceView>::empty());
                    match step {
                        Step::Fail(error) => {
                            return ChunkedAction::Fail(error);
                        },
                        _ => { return unreached(); },
                    }
                },
                SentencesAction::Done => {
                    let step = self.chunks.step::<PipelineError<E>>(None);
                    assert(self@.buffered =~= Seq::<SentenceView>::empty());
                    match step {
                        Step::Yield(chunk) => {
                            return ChunkedAction::Yield(chunk);
                        },
                        Step::Done => {
                            assert(stream.buffered =~= Seq::<SentenceView>::empty());
                            return ChunkedAction::Done;
                        },
                        _ => { return unreached(); },
                    }
                },
                SentencesAction::Yield(sentence) => {
                    let ghost buffered = self.chunks.buffered();
                    let step = self.chunks.step::<PipelineError<E>>(Some(Ok(sentence)));
                    assert(sentence_views(buffered.push(sentence)) =~= sentence_views(
                        buffered,
                    ).push(sentence@));
                    match step {
                        Step::Yield(chunk) => {
                            assert(self@.buffered =~= Seq::<SentenceView>::empty());
                            return ChunkedAction::Yield(chunk);
                        },
                        Step::Pull => {
                            let ghost fuller = self@;
                            answer = self.sentences.step(SentencesEvent::Next);
                            proof {
                                lemma_settle_from_any_state(
                                    fuller,
                                    self@.sentences,
                                    (self@.sentences, outcome_of(answer)),
                                );
                            }
                        },
                        _ => { return unreached(); },
                    }
                },
            }
        }
    }
}

/// The sentences that are still to be handed on from the line that was
/// segmented last.
pub open spec fn queue_of(state: SentencesState) -> Seq<SentenceView> {
    match state {
        SentencesState::Sentences(queue) => queue,
        _ => Seq::empty(),
    }
}

/// A run of sentences, each brought into Normalization Form C.
pub open spec fn cleaned_all(sentences: Seq<SentenceView>) -> Seq<SentenceView> {
    Seq::new(sentences.len(), |i: int| cleaned_sentence(sentences[i], Normalization::Nfc))
}

/// The sentences that the stream of chunks holds, in the order in which they
/// will leave it: those buffered for the next chunk, then those that the
/// segmentation stage has still to hand on, normalized.
pub open spec fn held(stream: ChunkedView) -> Seq<SentenceView> {
    stream.buffered + cleaned_all(queue_of(stream.sentences))
}

/// The sentences that an event brings into the stream.
pub open spec fn brought<E>(event: SentencesEvent<E>) -> Seq<SentenceView> {
    match event {
        SentencesEvent::Tokenized(Some(groups)) => cleaned_all(
            crate::sentences::sentences_of(crate::text::text_rows(groups@)),
        ),
        _ => Seq::empty(),
    }
}

/// The sentences that an action hands on.
pub open spec fn handed_on<E>(outcome: ChunkedOutcome<E>) -> Seq<SentenceView> {
    match outcome {
        ChunkedOutcome::Yield(chunk) => chunk,
        _ => Seq::empty(),
    }
}

/// Making something of an answer of the sentence stream neither loses nor
/// reorders a sentence.
proof fn lemma_settle_conserves<E>(
    stream: ChunkedView,
    answer: (SentencesState, SentencesOutcome<E>),
)
    requires
        stream.buffered.len() < stream.chunk_len,
        answer.0 is Failed ==> answer.1 is Fail,
    ensures
        settle(stream, answer).0.buffered.len() < stream.chunk_len,
        settle(stream, answer).0.chunk_len == stream.chunk_len,
        settle(stream, answer).1 !is Fail ==> settle(stream, answer).0.sentences !is Failed,
        settle(stream, answer).1 matches ChunkedOutcome::Yield(chunk) ==> 1 <= chunk.len()
            <= stream.chunk_len,
        settle(stream, answer).1 is Fail ==> answer.1 is Fail && settle(
            stream,
            answer,
        ).0.buffered.len() == 0,
        settle(stream, answer).1 !is Fail ==> stream.buffered + (match answer.1 {
            SentencesOutcome::Yield(sentence) => seq![sentence],
            _ => Seq::empty(),
        }) + cleaned_all(queue_of(answer.0)) == handed_on(settle(stream, answer).1) + held(
            settle(stream, answer).0,
        ),
    decreases
            queue_len(answer.0),
            (if answer.1 is Yield {
                1nat
            } else {
                0nat
            }),
{
    let moved = ChunkedView { sentences: answer.0, ..stream };
    let queue = queue_of(answer.0);
    let result = settle(stream, answer);
    match answer.1 {
        SentencesOutcome::Yield(sentence) => {
            if moved.buffered.len() + 1 == moved.chunk_len {
                assert(stream.buffered + seq![sentence] + cleaned_all(queue) =~= handed_on(
                    result.1,
                ) + held(result.0));
            } else {
                let fuller = ChunkedView { buffered: moved.buffered.push(sentence), ..moved };
                let next = sentence_stream_step::<E>(answer.0, SentencesEvent::Next);
                lemma_settle_conserves(fuller, next);
                let front: Seq<SentenceView> = match next.1 {
                    SentencesOutcome::Yield(sentence) => seq![sentence],
                    _ => Seq::empty(),
                };
                assert(front + cleaned_all(queue_of(next.0)) =~= cleaned_all(queue));
                assert(stream.buffered + seq![sentence] + cleaned_all(queue) =~= fuller.buffered
                    + front + cleaned_all(queue_of(next.0)));
            }
        },
        SentencesOutcome::Fail(_) => {},
        _ => {
            assert(stream.buffered + Seq::<SentenceView>::empty() + cleaned_all(queue)
                =~= handed_on(result.1) + held(result.0));
        },
    }
}

/// Order preservation in the stream of chunks: whatever it is told, the
/// sentences that it held, followed by those that the event brought, are the
/// sentences that it hands on followed by those that it holds afterwards. So
/// no sentence is lost, repeated or overtaken. The one exception is a
/// failure, on which the buffer is dropped. A chunk that is handed on is
/// never empty and never longer than the chunk length.
pub proof fn lemma_chunked_step_conserves<E>(stream: ChunkedView, event: SentencesEvent<E>)
    requires
        stream.buffered.len() < stream.chunk_len,
        stream.sentences !is Failed,
        accepts(stream.sentences, event),
    ensures
        chunked_step(stream, event).0.buffered.len() < stream.chunk_len,
        chunked_step(stream, event).0.chunk_len == stream.chunk_len,
        chunked_step(stream, event).1 !is Fail ==> chunked_step(stream, event).0.sentences
            !is Failed,
        chunked_step(stream, event).1 matches ChunkedOutcome::Yield(chunk) ==> 1 <= chunk.len()
            <= stream.chunk_len,
        chunked_step(stream, event).1 is Fail ==> held(chunked_step(stream, event).0).len() == 0,
        chunked_step(stream, event).1 !is Fail ==> held(stream) + brought(event) == handed_on(
            chunked_step(stream, event).1,
        ) + held(chunked_step(stream, event).0),
{
    let answer = sentence_stream_step(stream.sentences, event);
    lemma_settle_conserves(stream, answer);
    let front: Seq<SentenceView> = match answer.1 {
        SentencesOutcome::Yield(sentence) => seq![sentence],
        _ => Seq::empty(),
    };
    let result = chunked_step(stream, event);
    if result.1 is Fail {
        assert(answer.1 is Fail);
        assert(queue_of(answer.0).len() == 0);
        assert(result.0.sentences == answer.0);
    } else {
        assert(cleaned_all(queue_of(stream.sentences)) + brought(event) =~= front + cleaned_all(
            queue_of(answer.0),
        ));
        assert(held(stream) + brought(event) =~= stream.buffered + front + cleaned_all(
            queue_of(answer.0),
        ));
    }
}

/// A step of the stream of chunks that answers that the stream has ended
/// leaves nothing behind: no sentence is buffered or queued.
pub proof fn lemma_done_leaves_nothing<E>(stream: ChunkedView, event: SentencesEvent<E>)
    requires
        stream.buffered.len() < stream.chunk_len,
        stream.sentences !is Failed,
        accepts(stream.sentences, event),
        chunked_step(stream, event).1 is Done,
    ensures
        held(chunked_step(stream, event).0).len() == 0,
{
    let answer = sentence_stream_step(stream.sentences, event);
    lemma_settle_done(stream, answer);
}

/// Where making something of an answer ends the stream, the answer was the
/// end of the lines, and nothing is left.
proof fn lemma_settle_done<E>(stream: ChunkedView, answer: (SentencesState, SentencesOutcome<E>))
    requires
        settle(stream, answer).1 is Done,
    ensures
        answer.1 is Done,
        settle(stream, answer).0.buffered.len() == 0,
        settle(stream, answer).0.sentences == answer.0,
    decreases
            queue_len(answer.0),
            (if answer.1 is Yield {
                1nat
            } else {
                0nat
            }),
{
    match answer.1 {
        SentencesOutcome::Yield(sentence) => {
            let moved = ChunkedView { sentences: answer.0, ..stream };
            if moved.buffered.len() + 1 != moved.chunk_len {
                let fuller = ChunkedView { buffered: moved.buffered.push(sentence), ..moved };
                let next = sentence_stream_step::<E>(answer.0, SentencesEvent::Next);
                lemma_settle_done(fuller, next);
            }
        },
        _ => {},
    }
}

/// What the stream of annotated chunks is told.
#[derive(Debug, PartialEq, Eq)]
pub enum PipelineEvent<E> {
    /// The consumer asks for the next chunk.
    Next,
    /// The line source answered: a line, an error, or its end.
    Line(Option<Result<String, E>>),
    /// The segmenter is done with the line it was given.
    Tokenized(Option<Vec<Vec<String>>>),
    /// The tagger is done with the chunk it was given.
    Annotated(Result<Vec<SentenceWithPieces>, String>),
}

/// What the stream of annotated chunks asks for or hands on.
#[derive(Debug, PartialEq, Eq)]
pub enum PipelineAction<E> {
    /// Poll the line source and come back with its answer.
    ReadLine,
    /// Run the segmenter on this line and come back with its answer.
    Tokenize(String),
    /// Annotate this chunk and come back with the result.
    Annotate(Vec<Sentence>),
    /// An annotated, stamped chunk for the consumer.
    Yield(Vec<Sentence>),
    /// The stream fails.
    Fail(PipelineError<E>),
    /// The stream has ended.
    Done,
}

/// What an action of the stream of annotated chunks is, mathematically.
pub enum PipelineOutcome<E> {
    ReadLine,
    Tokenize(Seq<char>),
    Annotate(Seq<SentenceView>),
    Yield(Seq<SentenceView>),
    Fail(PipelineError<E>),
    Done,
}

/// The view of an action of the stream of annotated chunks.
pub open spec fn pipeline_outcome_of<E>(action: PipelineAction<E>) -> PipelineOutcome<E> {
    match action {
        PipelineAction::ReadLine => PipelineOutcome::ReadLine,
        PipelineAction::Tokenize(line) => PipelineOutcome::Tokenize(line@),
        PipelineAction::Annotate(chunk) => PipelineOutcome::Annotate(sentence_views(chunk@)),
        PipelineAction::Yield(chunk) => PipelineOutcome::Yield(sentence_views(chunk@)),
        PipelineAction::Fail(error) => PipelineOutcome::Fail(error),
        PipelineAction::Done => PipelineOutcome::Done,
    }
}

/// What the stream of annotated chunks is, mathematically.
pub struct AnnotationStreamView {
    /// The stream of chunks that feeds the annotation stage.
    pub chunked: ChunkedView,
    /// Whether a chunk is with the tagger.
    pub annotations: AnnotationsState,
    /// The name that is stamped on every sentence.
    pub name: Seq<char>,
}

/// The event of the segmentation stage that an event of the stream stands
/// for.
pub open spec fn segment_event<E>(event: PipelineEvent<E>) -> SentencesEvent<E> {
    match event {
        PipelineEvent::Line(line) => SentencesEvent::Line(line),
        PipelineEvent::Tokenized(groups) => SentencesEvent::Tokenized(groups),
        _ => SentencesEvent::Next,
    }
}

/// Whether the stream can be told this event: anything once it has failed,
/// the tagger's answer while a chunk is with the tagger, and otherwise what
/// its segmentation stage accepts.
pub open spec fn stream_accepts<E>(stream: AnnotationStreamView, event: PipelineEvent<E>) -> bool {
    if stream.annotations == AnnotationsState::Failed {
        true
    } else if stream.annotations == AnnotationsState::Annotate {
        event is Annotated
    } else {
        event !is Annotated && accepts(stream.chunked.sentences, segment_event(event))
    }
}

/// One step of the stream of annotated chunks while it has not failed.
/// What the tagger returns is handed on, every sentence stamped with the
/// pipeline's name, and its failure fails the stream. Every other event
/// goes to the stream of chunks: a chunk that it hands on goes to the
/// tagger, its failure fails the stream, and everything else is passed on.
pub open spec fn live_stream_step<E>(stream: AnnotationStreamView, event: PipelineEvent<E>) -> (
    AnnotationStreamView,
    PipelineOutcome<E>,
) {
    match event {
        PipelineEvent::Annotated(Err(cause)) => (
            AnnotationStreamView { annotations: AnnotationsState::Failed, ..stream },
            PipelineOutcome::Fail(PipelineError::Inference(cause)),
        ),
        PipelineEvent::Annotated(Ok(payloads)) => (
            AnnotationStreamView { annotations: AnnotationsState::Sentences, ..stream },
            PipelineOutcome::Yield(stamped_chunk(unwrapped(payloads@), stream.name)),
        ),
        _ => {
            let (chunked, outcome) = chunked_step(stream.chunked, segment_event(event));
            let next = AnnotationStreamView { chunked, ..stream };
            match outcome {
                ChunkedOutcome::ReadLine => (next, PipelineOutcome::ReadLine),
                ChunkedOutcome::Tokenize(line) => (next, PipelineOutcome::Tokenize(line)),
                ChunkedOutcome::Fail(error) => (
                    AnnotationStreamView { annotations: AnnotationsState::Failed, ..next },
                    PipelineOutcome::Fail(error),
                ),
                ChunkedOutcome::Done => (next, PipelineOutcome::Done),
                ChunkedOutcome::Yield(chunk) => (
                    AnnotationStreamView { annotations: AnnotationsState::Annotate, ..next },
                    PipelineOutcome::Annotate(chunk),
                ),
            }
        },
    }
}

/// One step of the stream of annotated chunks. Once the stream has failed it
/// stays as it is, and whatever it is told, it answers that it has ended: no
/// later chunk reaches the tagger or the consumer.
pub open spec fn annotation_stream_step<E>(stream: AnnotationStreamView, event: PipelineEvent<E>)
    -> (AnnotationStreamView, PipelineOutcome<E>) {
    if stream.annotations == AnnotationsState::Failed {
        (stream, PipelineOutcome::Done)
    } else {
        live_stream_step(stream, event)
    }
}

/// The stream of annotated chunks: chunks of normalized sentences, each
/// annotated by the tagger and stamped with the pipeline's name.
pub struct AnnotationStream {
    chunked: ChunkedSentences,
    annotations: Annotations,
    name: String,
}

impl View for AnnotationStream {
    type V = AnnotationStreamView;

    closed spec fn view(&self) -> AnnotationStreamView {
        AnnotationStreamView {
            chunked: self.chunked@,
            annotations: self.annotations@,
            name: self.name@,
        }
    }
}

impl AnnotationStream {
    /// The buffer of the stream of chunks is never full between steps.
    pub open spec fn wf(&self) -> bool {
        self@.chunked.buffered.len() < self@.chunked.chunk_len
    }

    /// The number of sentences in one call of the tagger.
    pub closed spec fn batch_len(&self) -> nat {
        self.annotations.batch_len()
    }

    /// The tagger's side of the stream.
    pub closed spec fn tagger(&self) -> Annotator {
        self.annotations.tagger()
    }

    /// A stream that awaits its first line. Its chunks hold `chunk_len`
    /// sentences and go to the tagger `batch_size` sentences at a time, and
    /// every sentence that it hands on is stamped with `name`.
    pub fn new(name: &str, annotator: Annotator, batch_size: usize, chunk_len: usize) -> (stream:
        AnnotationStream)
        requires
            batch_size >= 1,
            chunk_len >= 1,
        ensures
            stream.wf(),
            stream.batch_len() == batch_size,
            stream.tagger() == annotator,
            stream@ == (AnnotationStreamView {
                chunked: ChunkedView {
                    sentences: SentencesState::Lines,
                    buffered: Seq::empty(),
                    chunk_len: chunk_len as nat,
                },
                annotations: AnnotationsState::Sentences,
                name: name@,
            }),
    {
        AnnotationStream {
            chunked: ChunkedSentences::new(chunk_len),
            annotations: Annotations::new(annotator, batch_size),
            name: name.to_owned(),
        }
    }

    /// The number of sentences in one call of the tagger.
    pub fn batch_size(&self) -> (n: usize)
        ensures
            n == self.batch_len(),
    {
        self.annotations.batch_size()
    }

    /// The tagger's side of the stream.
    pub fn annotator(&self) -> (annotator: Annotator)
        ensures
            annotator == self.tagger(),
    {
        self.annotations.annotator()
    }

    /// Whether the stream can be told `event` now.
    pub fn accepts_event<E>(&self, event: &PipelineEvent<E>) -> (ok: bool)
        ensures
            ok == stream_accepts(self@, *event),
    {
        if self.annotations.has_failed() {
            true
        } else if self.annotations.is_annotating() {
            match event {
                PipelineEvent::Annotated(_) => true,
                _ => false,
            }
        } else {
            match event {
                PipelineEvent::Annotated(_) => false,
                PipelineEvent::Next => self.chunked.accepts_event::<E>(&SentencesEvent::Next),
                PipelineEvent::Line(_) => {
                    let ok = self.chunked.accepts_event::<E>(&SentencesEvent::Line(None));
                    ok
                },
                PipelineEvent::Tokenized(_) => {
                    let ok = self.chunked.accepts_event::<E>(&SentencesEvent::Tokenized(None));
                    ok
                },
            }
        }
    }

    /// Hands a chunk to the annotation stage.
    fn dispatch<E>(&mut self, action: ChunkedAction<E>) -> (out: PipelineAction<E>)
        requires
            old(self).wf(),
            old(self)@.annotations == AnnotationsState::Sentences,
        ensures
            final(self).wf(),
            final(self).batch_len() == old(self).batch_len(),
            final(self).tagger() == old(self).tagger(),
            final(self)@.chunked == old(self)@.chunked,
            final(self)@.name == old(self)@.name,
            final(self)@.annotations == (if chunked_outcome_of(action) is Yield {
                AnnotationsState::Annotate
            } else if chunked_outcome_of(action) is Fail {
                AnnotationsState::Failed
            } else {
                AnnotationsState::Sentences
            }),
            pipeline_outcome_of(out) == (match chunked_outcome_of(action) {
                ChunkedOutcome::ReadLine => PipelineOutcome::ReadLine,
                ChunkedOutcome::Tokenize(line) => PipelineOutcome::Tokenize(line),
                ChunkedOutcome::Fail(error) => PipelineOutcome::Fail(error),
                ChunkedOutcome::Done => PipelineOutcome::Done,
                ChunkedOutcome::Yield(chunk) => PipelineOutcome::Annotate(chunk),
            }),
    {
        match action {
            ChunkedAction::ReadLine => PipelineAction::ReadLine,
            ChunkedAction::Tokenize(line) => PipelineAction::Tokenize(line),
            ChunkedAction::Fail(error) => {
                match self.annotations.step::<E>(AnnotationsEvent::Chunk(Some(Err(error)))) {
                    AnnotationsAction::Fail(error) => PipelineAction::Fail(error),
                    _ => unreached(),
                }
            },
            ChunkedAction::Done => PipelineAction::Done,
            ChunkedAction::Yield(chunk) => {
                match self.annotations.step::<E>(AnnotationsEvent::Chunk(Some(Ok(chunk)))) {
                    AnnotationsAction::Annotate(chunk) => PipelineAction::Annotate(chunk),
                    _ => unreached(),
                }
            },
        }
    }

    /// Takes an event and answers with the next action.
    pub fn step<E>(&mut self, event: PipelineEvent<E>) -> (action: PipelineAction<E>)
        requires
            old(self).wf(),
            stream_accepts(old(self)@, event),
        ensures
            final(self).wf(),
            final(self).batch_len() == old(self).batch_len(),
            final(self).tagger() == old(self).tagger(),
            (final(self)@, pipeline_outcome_of(action)) == annotation_stream_step(
                old(self)@,
                event,
            ),
    {
        if self.annotations.has_failed() {
            return PipelineAction::Done;
        }
        match event {
            PipelineEvent::Annotated(result) => {
                match self.annotations.step::<E>(AnnotationsEvent::Annotated(result)) {
                    AnnotationsAction::Yield(chunk) => {
                        let mut chunk = chunk;
                        stamp_chunk(&mut chunk, self.name.as_str());
                        PipelineAction::Yield(chunk)
                    },
                    AnnotationsAction::Fail(error) => PipelineAction::Fail(error),
                    _ => unreached(),
                }
            },
            PipelineEvent::Next => {
                let action = self.chunked.step(SentencesEvent::Next);
                self.dispatch(action)
            },
            PipelineEvent::Line(line) => {
                let action = self.chunked.step(SentencesEvent::Line(line));
                self.dispatch(action)
            },
            PipelineEvent::Tokenized(groups) => {
                let action = self.chunked.step(SentencesEvent::Tokenized(groups));
                self.dispatch(action)
            },
        }
    }
}

/// The sentences that an action sends to the tagger.
pub open spec fn sent_to_tagger<E>(outcome: PipelineOutcome<E>) -> Seq<SentenceView> {
    match outcome {
        PipelineOutcome::Annotate(chunk) => chunk,
        _ => Seq::empty(),
    }
}

/// Order preservation on the way to the tagger: on every event but the
/// tagger's answer, the sentences that the stream held, followed by those
/// that the event brought, are the sentences that go to the tagger followed
/// by those that the stream holds afterwards, unless the stream fails.
/// Nothing is handed to the consumer that has not been with the tagger, and
/// no chunk goes to the tagger empty or longer than the chunk length.
pub proof fn lemma_stream_feeds_tagger_in_order<E>(
    stream: AnnotationStreamView,
    event: PipelineEvent<E>,
)
    requires
        stream.chunked.buffered.len() < stream.chunked.chunk_len,
        stream.annotations == AnnotationsState::Sentences,
        stream.chunked.sentences !is Failed,
        stream_accepts(stream, event),
    ensures
        annotation_stream_step(stream, event).0.chunked.buffered.len()
            < stream.chunked.chunk_len,
        annotation_stream_step(stream, event).0.chunked.chunk_len == stream.chunked.chunk_len,
        annotation_stream_step(stream, event).1 !is Fail ==> annotation_stream_step(
            stream,
            event,
        ).0.chunked.sentences !is Failed,
        annotation_stream_step(stream, event).1 !is Yield,
        annotation_stream_step(stream, event).1 matches PipelineOutcome::Annotate(chunk) ==> 1
            <= chunk.len() <= stream.chunked.chunk_len,
        annotation_stream_step(stream, event).1 !is Fail ==> held(stream.chunked) + brought(
            segment_event(event),
        ) == sent_to_tagger(annotation_stream_step(stream, event).1) + held(
            annotation_stream_step(stream, event).0.chunked,
        ),
{
    lemma_chunked_step_conserves(stream.chunked, segment_event(event));
}

/// Provenance stamping: whatever the stream is told, every sentence of a
/// chunk that it hands on carries, as its last comment, the pipeline's name.
pub proof fn lemma_stream_stamps_every_sentence<E>(
    stream: AnnotationStreamView,
    event: PipelineEvent<E>,
    i: int,
)
    requires
        annotation_stream_step(stream, event).1 matches PipelineOutcome::Yield(chunk) && 0 <= i
            < chunk.len(),
    ensures
        annotation_stream_step(stream, event).1 matches PipelineOutcome::Yield(chunk)
            && chunk[i].comments.len() > 0 && chunk[i].comments.last() == crate::metadata::stamp(
            stream.name,
        ),
{
}

/// The answers of the stream to a run of events, from a state on.
pub open spec fn stream_run<E>(stream: AnnotationStreamView, events: Seq<PipelineEvent<E>>) -> Seq<
    PipelineOutcome<E>,
>
    decreases events.len(),
{
    if events.len() == 0 {
        Seq::empty()
    } else {
        let (next, outcome) = annotation_stream_step(stream, events[0]);
        seq![outcome] + stream_run(next, events.drop_first())
    }
}

/// A failure is final: whatever step fails, be it the line source, the
/// segmenter or the tagger that failed, it leaves the stream failed.
pub proof fn lemma_failure_fails_stream<E>(stream: AnnotationStreamView, event: PipelineEvent<E>)
    requires
        annotation_stream_step(stream, event).1 is Fail,
    ensures
        annotation_stream_step(stream, event).0.annotations == AnnotationsState::Failed,
{
}

/// Nothing comes after a failure: whatever a failed stream is told, and
/// however often, it answers that it has ended. It asks for no line, sends
/// no chunk to the tagger and hands none on.
pub proof fn lemma_failed_stream_is_done<E>(
    stream: AnnotationStreamView,
    events: Seq<PipelineEvent<E>>,
)
    requires
        stream.annotations == AnnotationsState::Failed,
    ensures
        stream_run(stream, events).len() == events.len(),
        forall|i: int|
            0 <= i < events.len() ==> #[trigger] stream_run(stream, events)[i]
                == PipelineOutcome::<E>::Done,
    decreases events.len(),
{
    if events.len() > 0 {
        lemma_failed_stream_is_done(stream, events.drop_first());
    }
}

/// Failure propagation: a failure of the tagger fails the stream with the
/// cause, the chunk that was with the tagger is not handed on, and every
/// later step, whatever the stream is told, answers that it has ended.
pub proof fn lemma_tagger_failure_fails_stream<E>(
    stream: AnnotationStreamView,
    cause: String,
    later: Seq<PipelineEvent<E>>,
)
    requires
        stream.annotations == AnnotationsState::Annotate,
    ensures
        stream_run(stream, seq![PipelineEvent::Annotated(Err(cause))] + later).len()
            == later.len() + 1,
        stream_run(stream, seq![PipelineEvent::Annotated(Err(cause))] + later)[0]
            == PipelineOutcome::<E>::Fail(PipelineError::Inference(cause)),
        forall|i: int|
            1 <= i <= later.len() ==> #[trigger] stream_run(
                stream,
                seq![PipelineEvent::Annotated(Err(cause))] + later,
            )[i] == PipelineOutcome::<E>::Done,
{
    let events = seq![PipelineEvent::<E>::Annotated(Err(cause))] + later;
    assert(events.drop_first() =~= later);
    let failed = annotation_stream_step(stream, events[0]).0;
    lemma_failed_stream_is_done(failed, later);
    let run = stream_run(stream, events);
    let rest = stream_run(failed, later);
    assert(run == seq![PipelineOutcome::<E>::Fail(PipelineError::Inference(cause))] + rest);
    assert forall|i: int| 1 <= i <= later.len() implies #[trigger] run[i]
        == PipelineOutcome::<E>::Done by {
        assert(run[i] == rest[i - 1]);
    }
}

} // verus!
