//! The chunk accumulator: items are buffered until the buffer is full or the
//! upstream is exhausted, and handed on as one chunk.

use crate::stage::{yields, Step};
use vstd::prelude::*;

verus! {

/// The chunks that a whole input is cut into: consecutive runs of `capacity`
/// items, the last one possibly shorter, none empty.
pub open spec fn chunks_of<I>(items: Seq<I>, capacity: nat) -> Seq<Seq<I>>
    recommends
        capacity >= 1,
    decreases items.len(),
{
    if items.len() == 0 || capacity == 0 {
        Seq::empty()
    } else if items.len() <= capacity {
        seq![items]
    } else {
        seq![items.take(capacity as int)] + chunks_of(items.skip(capacity as int), capacity)
    }
}

/// One step of the accumulator on the buffer `buf`: the new buffer and the
/// answer. An item fills the buffer, which is handed on once it holds
/// `capacity` items; an upstream error is passed on and the buffer dropped;
/// at the end of the upstream a buffer that holds anything is handed on.
pub open spec fn chunk_step<I, E>(buf: Seq<I>, capacity: nat, polled: Option<Result<I, E>>) -> (
    Seq<I>,
    Step<Seq<I>, E>,
) {
    match polled {
        Some(Ok(item)) => if buf.len() + 1 == capacity {
            (Seq::empty(), Step::Yield(buf.push(item)))
        } else {
            (buf.push(item), Step::Pull)
        },
        Some(Err(error)) => (Seq::empty(), Step::Fail(error)),
        None => if buf.len() > 0 {
            (Seq::empty(), Step::Yield(buf))
        } else {
            (Seq::empty(), Step::Done)
        },
    }
}

/// The answers of the accumulator to a run of upstream polls, from the
/// buffer `buf` on.
pub open spec fn chunk_run<I, E>(buf: Seq<I>, capacity: nat, polls: Seq<Option<Result<I, E>>>)
    -> Seq<Step<Seq<I>, E>>
    decreases polls.len(),
{
    if polls.len() == 0 {
        Seq::empty()
    } else {
        let (next, step) = chunk_step(buf, capacity, polls[0]);
        seq![step] + chunk_run(next, capacity, polls.drop_first())
    }
}

/// The polls of an upstream that hands out `items` without error and then
/// stays exhausted for two polls.
pub open spec fn polls_of<I, E>(items: Seq<I>) -> Seq<Option<Result<I, E>>> {
    Seq::new(
        items.len() + 2,
        |i: int|
            if i < items.len() {
                Some(Ok(items[i]))
            } else {
                None
            },
    )
}

/// The view of an answer that carries a chunk.
pub open spec fn chunk_view<I, E>(step: Step<Vec<I>, E>) -> Step<Seq<I>, E> {
    match step {
        Step::Pull => Step::Pull,
        Step::Yield(chunk) => Step::Yield(chunk@),
        Step::Fail(error) => Step::Fail(error),
        Step::Done => Step::Done,
    }
}

/// The accumulator's state: the items buffered so far and the chunk length.
pub struct TryChunks<I> {
    buf: Vec<I>,
    chunk_len: usize,
}

impl<I> TryChunks<I> {
    /// The items buffered so far, in arrival order.
    pub closed spec fn buffered(&self) -> Seq<I> {
        self.buf@
    }

    /// The chunk length.
    pub closed spec fn capacity(&self) -> nat {
        self.chunk_len as nat
    }

    /// The buffer is never full between steps, and so the chunk length is at
    /// least one.
    pub open spec fn wf(&self) -> bool {
        self.buffered().len() < self.capacity()
    }

    /// An accumulator with an empty buffer that hands on chunks of
    /// `chunk_len` items.
    pub fn new(chunk_len: usize) -> (chunks: Self)
        requires
            chunk_len >= 1,
        ensures
            chunks.wf(),
            chunks.buffered() == Seq::<I>::empty(),
            chunks.capacity() == chunk_len,
    {
        TryChunks { buf: Vec::new(), chunk_len }
    }

    /// The chunk length.
    pub fn chunk_len(&self) -> (n: usize)
        ensures
            n == self.capacity(),
    {
        self.chunk_len
    }

    /// Takes what a poll of the upstream gave and answers with what to do:
    /// poll again, hand on a chunk, pass on the error, or end.
    pub fn step<E>(&mut self, polled: Option<Result<I, E>>) -> (step: Step<Vec<I>, E>)
        requires
            old(self).wf(),
        ensures
            final(self).wf(),
            final(self).capacity() == old(self).capacity(),
            (final(self).buffered(), chunk_view(step)) == chunk_step(
                old(self).buffered(),
                old(self).capacity(),
                polled,
            ),
    {
        match polled {
            Some(Ok(item)) => {
                self.buf.push(item);
                if self.buf.len() == self.chunk_len {
                    let mut chunk: Vec<I> = Vec::new();
                    std::mem::swap(&mut self.buf, &mut chunk);
                    Step::Yield(chunk)
                } else {
                    Step::Pull
                }
            },
            Some(Err(error)) => {
                self.buf.clear();
                Step::Fail(error)
            },
            None => {
                if self.buf.len() > 0 {
                    let mut chunk: Vec<I> = Vec::new();
                    std::mem::swap(&mut self.buf, &mut chunk);
                    Step::Yield(chunk)
                } else {
                    Step::Done
                }
            },
        }
    }
}

/// Concatenating the chunks of an input gives the input back.
pub proof fn lemma_chunks_flatten<I>(items: Seq<I>, capacity: nat)
    requires
        capacity >= 1,
    ensures
        chunks_of(items, capacity).flatten() == items,
    decreases items.len(),
{
    let chunks = chunks_of(items, capacity);
    if items.len() == 0 {
        assert(chunks.flatten() =~= items);
    } else if items.len() <= capacity {
        assert(chunks.drop_first() =~= Seq::<Seq<I>>::empty());
        assert(chunks.drop_first().flatten() =~= Seq::<I>::empty());
        assert(chunks.flatten() =~= chunks.first() + chunks.drop_first().flatten());
        assert(chunks.flatten() =~= items);
    } else {
        let rest = items.skip(capacity as int);
        lemma_chunks_flatten(rest, capacity);
        assert(chunks.drop_first() =~= chunks_of(rest, capacity));
        assert(chunks.flatten() =~= chunks.first() + chunks.drop_first().flatten());
        assert(chunks.flatten() =~= items);
    }
}

/// Every chunk is non-empty and holds at most `capacity` items, and every
/// chunk but the last holds exactly `capacity`.
pub proof fn lemma_chunks_sizes<I>(items: Seq<I>, capacity: nat, k: int)
    requires
        capacity >= 1,
        0 <= k < chunks_of(items, capacity).len(),
    ensures
        1 <= chunks_of(items, capacity)[k].len() <= capacity,
        k + 1 < chunks_of(items, capacity).len() ==> chunks_of(items, capacity)[k].len()
            == capacity,
    decreases items.len(),
{
    if items.len() > capacity && k > 0 {
        let rest = items.skip(capacity as int);
        lemma_chunks_sizes(rest, capacity, k - 1);
        assert(chunks_of(items, capacity)[k] == chunks_of(rest, capacity)[k - 1]);
    }
}

/// Fed the items of an input one by one and then the end of the upstream,
/// the accumulator, starting from the buffer `buf`, hands on exactly the
/// chunks of `buf` followed by the input.
pub proof fn lemma_chunk_run_from<I, E>(buf: Seq<I>, items: Seq<I>, capacity: nat)
    requires
        capacity >= 1,
        buf.len() < capacity,
    ensures
        yields(chunk_run(buf, capacity, polls_of::<I, E>(items))) == chunks_of(
            buf + items,
            capacity,
        ),
    decreases items.len(),
{
    let polls = polls_of::<I, E>(items);
    let (next, step) = chunk_step(buf, capacity, polls[0]);
    let tail = chunk_run(next, capacity, polls.drop_first());
    let steps = chunk_run(buf, capacity, polls);
    assert(steps == seq![step] + tail);
    assert(steps.drop_first() =~= tail);
    if items.len() == 0 {
        assert(buf + items =~= buf);
        let last_polls = polls.drop_first();
        assert(last_polls[0] == None::<Result<I, E>>);
        assert(last_polls.drop_first() =~= Seq::<Option<Result<I, E>>>::empty());
        let (after, last_step) = chunk_step(next, capacity, last_polls[0]);
        assert(last_step == Step::<Seq<I>, E>::Done);
        assert(tail == seq![last_step] + chunk_run(after, capacity, last_polls.drop_first()));
        assert(tail.drop_first() =~= Seq::<Step<Seq<I>, E>>::empty());
        assert(yields(tail.drop_first()) =~= Seq::<Seq<I>>::empty());
        assert(yields(tail) =~= Seq::<Seq<I>>::empty());
        if buf.len() > 0 {
            assert(yields(steps) =~= seq![buf]);
        } else {
            assert(yields(steps) =~= Seq::<Seq<I>>::empty());
        }
    } else {
        let rest = items.drop_first();
        assert(polls.drop_first() =~= polls_of::<I, E>(rest));
        let all = buf + items;
        if buf.len() + 1 == capacity {
            lemma_chunk_run_from::<I, E>(Seq::empty(), rest, capacity);
            assert(Seq::<I>::empty() + rest =~= rest);
            assert(buf.push(items[0]) =~= all.take(capacity as int));
            assert(rest =~= all.skip(capacity as int));
            if rest.len() == 0 {
                assert(all =~= all.take(capacity as int));
            }
            assert(yields(steps) =~= seq![buf.push(items[0])] + yields(tail));
            assert(yields(steps) =~= chunks_of(all, capacity));
        } else {
            lemma_chunk_run_from::<I, E>(buf.push(items[0]), rest, capacity);
            assert(buf.push(items[0]) + rest =~= all);
            assert(yields(steps) =~= yields(tail));
        }
    }
}

/// Chunking is complete: an accumulator that starts empty and is fed a whole
/// input hands on the chunks of that input, whose concatenation is the input.
pub proof fn lemma_chunking_complete<I, E>(items: Seq<I>, capacity: nat)
    requires
        capacity >= 1,
    ensures
        yields(chunk_run(Seq::empty(), capacity, polls_of::<I, E>(items))) == chunks_of(
            items,
            capacity,
        ),
        chunks_of(items, capacity).flatten() == items,
{
    lemma_chunk_run_from::<I, E>(Seq::empty(), items, capacity);
    assert(Seq::<I>::empty() + items =~= items);
    lemma_chunks_flatten(items, capacity);
}

} // verus!
