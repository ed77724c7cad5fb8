//! The segmentation stage: lines come in, sentences go out. Blank lines are
//! skipped; every other line goes to the segmenter, and the sentences that
//! come back are handed on one by one before the next line is asked for. A
//! failure ends the stream for good.

use crate::error::PipelineError;
use crate::sentence::{bare_sentence, sentence_views, Sentence, SentenceView};
use crate::text::{is_blank, is_blank_text, text_rows};
use std::collections::VecDeque;
use vstd::prelude::*;

verus! {

/// Where the stage stands.
pub enum SentencesState {
    /// The next thing to come is a line.
    Lines,
    /// A line is with the segmenter.
    Tokenize,
    /// The sentences of a line are being handed on; these are left.
    Sentences(Seq<SentenceView>),
    /// The stream has failed: nothing more comes out of it.
    Failed,
}

/// What the stage is told.
#[derive(Debug, PartialEq, Eq)]
pub enum SentencesEvent<E> {
    /// The consumer asks for the next sentence.
    Next,
    /// The line source answered: a line, an error, or its end.
    Line(Option<Result<String, E>>),
    /// The segmenter is done with the line it was given: the token groups,
    /// or `None` where it rejected the line.
    Tokenized(Option<Vec<Vec<String>>>),
}

/// What the stage asks for or hands on.
#[derive(Debug, PartialEq, Eq)]
pub enum SentencesAction<E> {
    /// Poll the line source and come back with its answer.
    ReadLine,
    /// Run the segmenter on this line and come back with its answer.
    Tokenize(String),
    /// A sentence for the consumer.
    Yield(Sentence),
    /// The stream fails.
    Fail(PipelineError<E>),
    /// The stream has ended.
    Done,
}

/// What an action is, mathematically.
pub enum SentencesOutcome<E> {
    ReadLine,
    Tokenize(Seq<char>),
    Yield(SentenceView),
    Fail(PipelineError<E>),
    Done,
}

/// The view of an action.
pub open spec fn outcome_of<E>(action: SentencesAction<E>) -> SentencesOutcome<E> {
    match action {
        SentencesAction::ReadLine => SentencesOutcome::ReadLine,
        SentencesAction::Tokenize(line) => SentencesOutcome::Tokenize(line@),
        SentencesAction::Yield(sentence) => SentencesOutcome::Yield(sentence@),
        SentencesAction::Fail(error) => SentencesOutcome::Fail(error),
        SentencesAction::Done => SentencesOutcome::Done,
    }
}

/// The sentences that the token groups of a line give, in order.
pub open spec fn sentences_of(groups: Seq<Seq<Seq<char>>>) -> Seq<SentenceView> {
    Seq::new(groups.len(), |i: int| bare_sentence(groups[i]))
}

/// Whether the stage, in this state, can be told this event: a line is
/// awaited, or asked for, while lines are read; the segmenter's answer while
/// a line is with it; the consumer's demand while sentences are handed on;
/// and anything once the stream has failed.
pub open spec fn accepts<E>(state: SentencesState, event: SentencesEvent<E>) -> bool {
    match state {
        SentencesState::Lines => event is Next || event is Line,
        SentencesState::Tokenize => event is Tokenized,
        SentencesState::Sentences(_) => event is Next,
        SentencesState::Failed => true,
    }
}

/// Handing on the next sentence of a queue, or asking for a line where the
/// queue is empty.
pub open spec fn drain_step<E>(queue: Seq<SentenceView>) -> (SentencesState, SentencesOutcome<E>) {
    if queue.len() == 0 {
        (SentencesState::Lines, SentencesOutcome::ReadLine)
    } else {
        (SentencesState::Sentences(queue.drop_first()), SentencesOutcome::Yield(queue[0]))
    }
}

/// One step of the stage while it has not failed: the next state and the
/// action. An upstream error and a line that the segmenter rejects fail the
/// stream.
pub open spec fn live_step<E>(state: SentencesState, event: SentencesEvent<E>) -> (
    SentencesState,
    SentencesOutcome<E>,
) {
    match event {
        SentencesEvent::Next => match state {
            SentencesState::Sentences(queue) => drain_step(queue),
            _ => (state, SentencesOutcome::ReadLine),
        },
        SentencesEvent::Line(None) => (state, SentencesOutcome::Done),
        SentencesEvent::Line(Some(Err(error))) => (
            SentencesState::Failed,
            SentencesOutcome::Fail(PipelineError::Upstream(error)),
        ),
        SentencesEvent::Line(Some(Ok(line))) => if is_blank_text(line@) {
            (state, SentencesOutcome::ReadLine)
        } else {
            (SentencesState::Tokenize, SentencesOutcome::Tokenize(line@))
        },
        SentencesEvent::Tokenized(None) => (
            SentencesState::Failed,
            SentencesOutcome::Fail(PipelineError::Segmentation),
        ),
        SentencesEvent::Tokenized(Some(groups)) => drain_step(sentences_of(text_rows(groups@))),
    }
}

/// One step of the stage: the next state and the action. Once the stream
/// has failed it stays failed, and whatever it is told, it answers that it
/// has ended.
pub open spec fn sentences_step<E>(state: SentencesState, event: SentencesEvent<E>) -> (
    SentencesState,
    SentencesOutcome<E>,
) {
    if state is Failed {
        (SentencesState::Failed, SentencesOutcome::Done)
    } else {
        live_step(state, event)
    }
}

/// The stage's state: whether the stream has failed, whether a line is with
/// the segmenter, and the sentences that are still to be handed on.
pub struct Sentences {
    failed: bool,
    tokenizing: bool,
    draining: bool,
    queue: VecDeque<Sentence>,
}

impl View for Sentences {
    type V = SentencesState;

    closed spec fn view(&self) -> SentencesState {
        if self.failed {
            SentencesState::Failed
        } else if self.tokenizing {
            SentencesState::Tokenize
        } else if self.draining {
            SentencesState::Sentences(sentence_views(self.queue@))
        } else {
            SentencesState::Lines
        }
    }
}

impl Sentences {
    /// A stage that awaits its first line.
    pub fn new() -> (stage: Sentences)
        ensures
            stage@ == SentencesState::Lines,
    {
        Sentences { failed: false, tokenizing: false, draining: false, queue: VecDeque::new() }
    }

    /// Whether the stage can be told `event` now.
    pub fn accepts_event<E>(&self, event: &SentencesEvent<E>) -> (ok: bool)
        ensures
            ok == accepts(self@, *event),
    {
        if self.failed {
            true
        } else if self.tokenizing {
            match event {
                SentencesEvent::Tokenized(_) => true,
                _ => false,
            }
        } else if self.draining {
            match event {
                SentencesEvent::Next => true,
                _ => false,
            }
        } else {
            match event {
                SentencesEvent::Tokenized(_) => false,
                _ => true,
            }
        }
    }

    /// Whether the stream has failed.
    pub fn has_failed(&self) -> (failed: bool)
        ensures
            failed == (self@ is Failed),
    {
        self.failed
    }

    /// Hands on the next sentence of the queue, or asks for a line.
    fn drain<E>(&mut self) -> (action: SentencesAction<E>)
        requires
            !old(self).tokenizing,
            !old(self).failed,
        ensures
            (final(self)@, outcome_of(action)) == drain_step::<E>(sentence_views(old(self).queue@)),
    {
        match self.queue.pop_front() {
            Some(sentence) => {
                self.draining = true;
                assert(sentence_views(self.queue@) =~= sentence_views(
                    old(self).queue@,
                ).drop_first());
                SentencesAction::Yield(sentence)
            },
            None => {
                self.draining = false;
                SentencesAction::ReadLine
            },
        }
    }

    /// Takes an event and answers with the next action.
    pub fn step<E>(&mut self, event: SentencesEvent<E>) -> (action: SentencesAction<E>)
        requires
            accepts(old(self)@, event),
        ensures
            (final(self)@, outcome_of(action)) == sentences_step(old(self)@, event),
    {
        if self.failed {
            return SentencesAction::Done;
        }
        match event {
            SentencesEvent::Next => {
                if self.draining {
                    self.drain()
                } else {
                    SentencesAction::ReadLine
                }
            },
            SentencesEvent::Line(None) => SentencesAction::Done,
            SentencesEvent::Line(Some(Err(error))) => {
                self.failed = true;
                SentencesAction::Fail(PipelineError::Upstream(error))
            },
            SentencesEvent::Line(Some(Ok(line))) => {
                if is_blank(line.as_str()) {
                    SentencesAction::ReadLine
                } else {
                    self.tokenizing = true;
                    SentencesAction::Tokenize(line)
                }
            },
            SentencesEvent::Tokenized(None) => {
                self.failed = true;
                SentencesAction::Fail(PipelineError::Segmentation)
            },
            SentencesEvent::Tokenized(Some(groups)) => {
                let ghost rows = text_rows(groups@);
                let mut queue: VecDeque<Sentence> = VecDeque::new();
                for group in it: groups.into_iter()
                    invariant
                        text_rows(it.seq()) == rows,
                        sentence_views(queue@) == sentences_of(rows.take(it.index() as int)),
                {
                    let ghost i = it.index() as int;
                    let ghost prior = queue@;
                    assert(rows[i] == text_rows(it.seq())[i]);
                    assert(sentence_views(prior).len() == rows.take(i).len());
                    let sentence = Sentence::from_forms(group);
                    queue.push_back(sentence);
                    assert forall|k: int| 0 <= k < i implies #[trigger] queue@[k]@
                        == bare_sentence(rows[k]) by {
                        assert(sentence_views(prior)[k] == sentences_of(rows.take(i))[k]);
                    }
                    assert(sentence_views(queue@) =~= sentences_of(rows.take(i + 1)));
                }
                assert(rows.take(rows.len() as int) =~= rows);
                self.queue = queue;
                self.tokenizing = false;
                self.drain()
            },
        }
    }
}

/// Blank lines are skipped: a line that is empty or holds only whitespace
/// gives no sentence and no error, does not reach the segmenter, and leaves
/// the stage as it was, asking for the next line.
pub proof fn lemma_blank_line_skipped<E>(state: SentencesState, line: String)
    requires
        state !is Failed,
        is_blank_text(line@),
    ensures
        sentences_step::<E>(state, SentencesEvent::Line(Some(Ok(line)))) == (
            state,
            SentencesOutcome::<E>::ReadLine,
        ),
{
}

/// A failure is final: a step that fails leaves the stage failed.
pub proof fn lemma_failure_fails_stage<E>(state: SentencesState, event: SentencesEvent<E>)
    requires
        sentences_step(state, event).1 is Fail,
    ensures
        sentences_step(state, event).0 is Failed,
{
}

/// The answers of the stage to a run of events, from a state on.
pub open spec fn sentences_run<E>(state: SentencesState, events: Seq<SentencesEvent<E>>) -> Seq<
    SentencesOutcome<E>,
>
    decreases events.len(),
{
    if events.len() == 0 {
        Seq::empty()
    } else {
        let (next, outcome) = sentences_step(state, events[0]);
        seq![outcome] + sentences_run(next, events.drop_first())
    }
}

/// Nothing comes after a failure: whatever a failed stage is told, and
/// however often, it answers that the stream has ended.
pub proof fn lemma_failed_stage_is_done<E>(events: Seq<SentencesEvent<E>>)
    ensures
        sentences_run(SentencesState::Failed, events).len() == events.len(),
        forall|i: int|
            0 <= i < events.len() ==> #[trigger] sentences_run(SentencesState::Failed, events)[i]
                == SentencesOutcome::<E>::Done,
    decreases events.len(),
{
    if events.len() > 0 {
        lemma_failed_stage_is_done(events.drop_first());
    }
}

} // verus!
