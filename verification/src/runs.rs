//! Whole runs of the stream of chunks and of the stream of annotated chunks:
//! what a request gets, from the first event to the last.

use crate::annotations::{unwrapped, AnnotationsState};
use crate::metadata::stamped_chunk;
use crate::sentence::SentenceView;
use crate::sentences::{accepts, SentencesEvent};
use crate::streams::{
    annotation_stream_step, brought, chunked_step, handed_on, held, lemma_chunked_step_conserves,
    lemma_stream_feeds_tagger_in_order, segment_event, sent_to_tagger, stream_accepts,
    AnnotationStreamView, ChunkedView, PipelineEvent, PipelineOutcome,
};
use vstd::prelude::*;

verus! {

/// A run of the stream of chunks without failure in which every event comes
/// in turn.
pub open spec fn chunked_orderly<E>(stream: ChunkedView, events: Seq<SentencesEvent<E>>) -> bool
    decreases events.len(),
{
    events.len() == 0 || {
        let (next, outcome) = chunked_step(stream, events[0]);
        &&& accepts(stream.sentences, events[0])
        &&& outcome !is Fail
        &&& chunked_orderly(next, events.drop_first())
    }
}

/// The stream of chunks at the end of a run.
pub open spec fn chunked_after<E>(stream: ChunkedView, events: Seq<SentencesEvent<E>>)
    -> ChunkedView
    decreases events.len(),
{
    if events.len() == 0 {
        stream
    } else {
        chunked_after(chunked_step(stream, events[0]).0, events.drop_first())
    }
}

/// All sentences that a run of the stream of chunks hands on, chunk after
/// chunk.
pub open spec fn chunked_output<E>(stream: ChunkedView, events: Seq<SentencesEvent<E>>) -> Seq<
    SentenceView,
>
    decreases events.len(),
{
    if events.len() == 0 {
        Seq::empty()
    } else {
        let (next, outcome) = chunked_step(stream, events[0]);
        handed_on(outcome) + chunked_output(next, events.drop_first())
    }
}

/// All sentences that the segmenter gives in a run of the stream of chunks,
/// normalized, line after line.
pub open spec fn chunked_input<E>(events: Seq<SentencesEvent<E>>) -> Seq<SentenceView>
    decreases events.len(),
{
    if events.len() == 0 {
        Seq::empty()
    } else {
        brought(events[0]) + chunked_input(events.drop_first())
    }
}

/// Chunking is complete for a whole run: in a run without failure, the
/// sentences that the stream held at the start, followed by those that the
/// segmenter gave during the run, are the sentences of the chunks that the
/// run handed on followed by those that the stream holds at the end.
pub proof fn lemma_chunked_run_keeps_order<E>(stream: ChunkedView, events: Seq<SentencesEvent<E>>)
    requires
        stream.buffered.len() < stream.chunk_len,
        stream.sentences !is Failed,
        chunked_orderly(stream, events),
    ensures
        held(stream) + chunked_input(events) == chunked_output(stream, events) + held(
            chunked_after(stream, events),
        ),
    decreases events.len(),
{
    if events.len() == 0 {
        assert(held(stream) + chunked_input(events) =~= chunked_output(stream, events) + held(
            stream,
        ));
    } else {
        let (next, outcome) = chunked_step(stream, events[0]);
        let rest = events.drop_first();
        lemma_chunked_step_conserves(stream, events[0]);
        lemma_chunked_run_keeps_order(next, rest);
        assert(held(stream) + chunked_input(events) =~= (held(stream) + brought(events[0]))
            + chunked_input(rest));
        assert((handed_on(outcome) + held(next)) + chunked_input(rest) =~= handed_on(outcome) + (
            held(next) + chunked_input(rest)));
        assert(handed_on(outcome) + (chunked_output(next, rest) + held(chunked_after(next, rest)))
            =~= chunked_output(stream, events) + held(chunked_after(stream, events)));
    }
}

/// What a tagger that works sentence by sentence makes of a run of
/// sentences.
pub open spec fn image(sentences: Seq<SentenceView>, tag: spec_fn(SentenceView) -> SentenceView)
    -> Seq<SentenceView> {
    Seq::new(sentences.len(), |i: int| tag(sentences[i]))
}

/// What the consumer is owed for a run of sentences: each tagged and stamped
/// with the pipeline's name, in the same order.
pub open spec fn served(
    sentences: Seq<SentenceView>,
    tag: spec_fn(SentenceView) -> SentenceView,
    name: Seq<char>,
) -> Seq<SentenceView> {
    stamped_chunk(image(sentences, tag), name)
}

/// The chunk that is with the tagger after a step.
pub open spec fn with_tagger<E>(sent: Seq<SentenceView>, outcome: PipelineOutcome<E>) -> Seq<
    SentenceView,
> {
    match outcome {
        PipelineOutcome::Annotate(chunk) => chunk,
        _ => sent,
    }
}

/// The sentences that a step hands to the consumer.
pub open spec fn given<E>(outcome: PipelineOutcome<E>) -> Seq<SentenceView> {
    match outcome {
        PipelineOutcome::Yield(chunk) => chunk,
        _ => Seq::empty(),
    }
}

/// A run without failure in which every event comes in turn and the tagger
/// returns, for the chunk `sent` that it was given, the sentences that `tag`
/// makes of them, in the order in which it got them.
pub open spec fn orderly<E>(
    stream: AnnotationStreamView,
    sent: Seq<SentenceView>,
    events: Seq<PipelineEvent<E>>,
    tag: spec_fn(SentenceView) -> SentenceView,
) -> bool
    decreases events.len(),
{
    events.len() == 0 || {
        let (next, outcome) = annotation_stream_step(stream, events[0]);
        &&& stream_accepts(stream, events[0])
        &&& outcome !is Fail
        &&& (events[0] matches PipelineEvent::Annotated(Ok(payloads)) ==> unwrapped(payloads@)
            == image(sent, tag))
        &&& orderly(next, with_tagger(sent, outcome), events.drop_first(), tag)
    }
}

/// The stream at the end of a run.
pub open spec fn stream_after<E>(stream: AnnotationStreamView, events: Seq<PipelineEvent<E>>)
    -> AnnotationStreamView
    decreases events.len(),
{
    if events.len() == 0 {
        stream
    } else {
        stream_after(annotation_stream_step(stream, events[0]).0, events.drop_first())
    }
}

/// The chunk that is with the tagger at the end of a run.
pub open spec fn sent_after<E>(
    stream: AnnotationStreamView,
    sent: Seq<SentenceView>,
    events: Seq<PipelineEvent<E>>,
) -> Seq<SentenceView>
    decreases events.len(),
{
    if events.len() == 0 {
        sent
    } else {
        let (next, outcome) = annotation_stream_step(stream, events[0]);
        sent_after(next, with_tagger(sent, outcome), events.drop_first())
    }
}

/// All sentences that a run hands to the consumer, chunk after chunk.
pub open spec fn output<E>(stream: AnnotationStreamView, events: Seq<PipelineEvent<E>>) -> Seq<
    SentenceView,
>
    decreases events.len(),
{
    if events.len() == 0 {
        Seq::empty()
    } else {
        let (next, outcome) = annotation_stream_step(stream, events[0]);
        given(outcome) + output(next, events.drop_first())
    }
}

/// All sentences that the segmenter gives in a run, normalized, line after
/// line.
pub open spec fn input<E>(events: Seq<PipelineEvent<E>>) -> Seq<SentenceView>
    decreases events.len(),
{
    if events.len() == 0 {
        Seq::empty()
    } else {
        brought(segment_event(events[0])) + input(events.drop_first())
    }
}

/// What the stream owes the consumer for the sentences that it holds: the
/// chunk that is with the tagger first, then the sentences buffered and
/// queued.
pub open spec fn owed(
    stream: AnnotationStreamView,
    sent: Seq<SentenceView>,
    tag: spec_fn(SentenceView) -> SentenceView,
) -> Seq<SentenceView> {
    (if stream.annotations == AnnotationsState::Annotate {
        served(sent, tag, stream.name)
    } else {
        Seq::empty()
    }) + served(held(stream.chunked), tag, stream.name)
}

/// The stream has not failed and its buffer is not full.
pub open spec fn live(stream: AnnotationStreamView) -> bool {
    &&& stream.chunked.buffered.len() < stream.chunked.chunk_len
    &&& stream.annotations != AnnotationsState::Failed
    &&& stream.chunked.sentences !is Failed
}

/// Tagging and stamping go through a run of sentences piece by piece.
pub proof fn lemma_served_concat(
    first: Seq<SentenceView>,
    second: Seq<SentenceView>,
    tag: spec_fn(SentenceView) -> SentenceView,
    name: Seq<char>,
)
    ensures
        served(first + second, tag, name) == served(first, tag, name) + served(second, tag, name),
{
    assert(served(first + second, tag, name) =~= served(first, tag, name) + served(
        second,
        tag,
        name,
    ));
}

/// One step of an orderly run keeps the account: what was owed, and what is
/// owed for the sentences that the event brought, is what the step hands on
/// and what is owed after it.
proof fn lemma_step_keeps_account<E>(
    stream: AnnotationStreamView,
    sent: Seq<SentenceView>,
    event: PipelineEvent<E>,
    tag: spec_fn(SentenceView) -> SentenceView,
)
    requires
        live(stream),
        stream_accepts(stream, event),
        annotation_stream_step(stream, event).1 !is Fail,
        event matches PipelineEvent::Annotated(Ok(payloads)) ==> unwrapped(payloads@) == image(
            sent,
            tag,
        ),
    ensures
        live(annotation_stream_step(stream, event).0),
        annotation_stream_step(stream, event).0.name == stream.name,
        annotation_stream_step(stream, event).0.chunked.chunk_len == stream.chunked.chunk_len,
        owed(stream, sent, tag) + served(brought(segment_event(event)), tag, stream.name)
            == given(annotation_stream_step(stream, event).1) + owed(
            annotation_stream_step(stream, event).0,
            with_tagger(sent, annotation_stream_step(stream, event).1),
            tag,
        ),
{
    let (next, outcome) = annotation_stream_step(stream, event);
    let name = stream.name;
    let after = with_tagger(sent, outcome);
    if stream.annotations == AnnotationsState::Annotate {
        assert(brought(segment_event(event)) =~= Seq::<SentenceView>::empty());
        assert(served(brought(segment_event(event)), tag, name) =~= Seq::<SentenceView>::empty());
        assert(given(outcome) == served(sent, tag, name));
        assert(owed(stream, sent, tag) + served(brought(segment_event(event)), tag, name)
            =~= given(outcome) + owed(next, after, tag));
    } else {
        lemma_stream_feeds_tagger_in_order(stream, event);
        let before = held(stream.chunked);
        let came = brought(segment_event(event));
        let went = sent_to_tagger(outcome);
        let stays = held(next.chunked);
        assert(before + came == went + stays);
        lemma_served_concat(before, came, tag, name);
        lemma_served_concat(went, stays, tag, name);
        assert(given(outcome) =~= Seq::<SentenceView>::empty());
        if outcome is Annotate {
            assert(after == went);
        } else {
            assert(went =~= Seq::<SentenceView>::empty());
            assert(served(went, tag, name) =~= Seq::<SentenceView>::empty());
        }
        assert(owed(stream, sent, tag) + served(came, tag, name) =~= given(outcome) + owed(
            next,
            after,
            tag,
        ));
    }
}

/// Order preservation for a whole run. From any point of a request on, in a
/// run without failure in which the tagger works sentence by sentence: what
/// the stream owed at the start, followed by what is owed for the sentences
/// that the segmenter gave during the run, is what the run handed to the
/// consumer followed by what the stream owes at the end. Every sentence
/// comes out once, tagged and stamped, in the order in which it came in.
pub proof fn lemma_run_keeps_order<E>(
    stream: AnnotationStreamView,
    sent: Seq<SentenceView>,
    events: Seq<PipelineEvent<E>>,
    tag: spec_fn(SentenceView) -> SentenceView,
)
    requires
        live(stream),
        orderly(stream, sent, events, tag),
    ensures
        live(stream_after(stream, events)),
        stream_after(stream, events).name == stream.name,
        owed(stream, sent, tag) + served(input(events), tag, stream.name) == output(stream, events)
            + owed(stream_after(stream, events), sent_after(stream, sent, events), tag),
    decreases events.len(),
{
    let name = stream.name;
    if events.len() == 0 {
        assert(served(input(events), tag, name) =~= Seq::<SentenceView>::empty());
        assert(owed(stream, sent, tag) + served(input(events), tag, name) =~= output(
            stream,
            events,
        ) + owed(stream, sent, tag));
    } else {
        let (next, outcome) = annotation_stream_step(stream, events[0]);
        let after = with_tagger(sent, outcome);
        let rest = events.drop_first();
        lemma_step_keeps_account(stream, sent, events[0], tag);
        lemma_run_keeps_order(next, after, rest, tag);
        lemma_served_concat(brought(segment_event(events[0])), input(rest), tag, name);
        assert(owed(stream, sent, tag) + served(input(events), tag, name) =~= (owed(
            stream,
            sent,
            tag,
        ) + served(brought(segment_event(events[0])), tag, name)) + served(input(rest), tag, name));
        assert((given(outcome) + owed(next, after, tag)) + served(input(rest), tag, name)
            =~= given(outcome) + (owed(next, after, tag) + served(input(rest), tag, name)));
        assert(given(outcome) + (output(next, rest) + owed(
            stream_after(next, rest),
            sent_after(next, after, rest),
            tag,
        )) =~= output(stream, events) + owed(
            stream_after(stream, events),
            sent_after(stream, sent, events),
            tag,
        ));
    }
}

/// A step that answers that the stream has ended leaves nothing behind:
/// no sentence is buffered or queued, and none is with the tagger.
pub proof fn lemma_done_holds_nothing<E>(stream: AnnotationStreamView, event: PipelineEvent<E>)
    requires
        live(stream),
        stream_accepts(stream, event),
        annotation_stream_step(stream, event).1 is Done,
    ensures
        held(annotation_stream_step(stream, event).0.chunked).len() == 0,
        annotation_stream_step(stream, event).0.annotations == AnnotationsState::Sentences,
{
    lemma_stream_feeds_tagger_in_order(stream, event);
    crate::streams::lemma_done_leaves_nothing(stream.chunked, segment_event(event));
}

/// Order preservation for a whole request. A stream that starts empty and
/// runs without failure, with a tagger that works sentence by sentence, to a
/// point at which it holds nothing, has handed to the consumer exactly the
/// sentences that the segmenter gave, each normalized, tagged and stamped,
/// in the order in which they were given. Where the segmenter gave none,
/// nothing is handed on.
pub proof fn lemma_request_keeps_order<E>(
    stream: AnnotationStreamView,
    events: Seq<PipelineEvent<E>>,
    tag: spec_fn(SentenceView) -> SentenceView,
)
    requires
        live(stream),
        stream.annotations == AnnotationsState::Sentences,
        held(stream.chunked).len() == 0,
        orderly(stream, Seq::empty(), events, tag),
        stream_after(stream, events).annotations == AnnotationsState::Sentences,
        held(stream_after(stream, events).chunked).len() == 0,
    ensures
        output(stream, events) == served(input(events), tag, stream.name),
{
    let none = Seq::<SentenceView>::empty();
    lemma_run_keeps_order(stream, none, events, tag);
    let end = stream_after(stream, events);
    assert(held(stream.chunked) =~= none);
    assert(held(end.chunked) =~= none);
    assert(owed(stream, none, tag) =~= none);
    assert(owed(end, sent_after(stream, none, events), tag) =~= none);
    assert(output(stream, events) =~= output(stream, events) + none);
    assert(served(input(events), tag, stream.name) =~= none + served(
        input(events),
        tag,
        stream.name,
    ));
}

} // verus!
