//! Batched annotation: the sentences of a chunk are filtered by length,
//! ordered by their number of pieces, and handed to the tagger run by run;
//! what comes back is put where it came from.

use crate::sentence::Sentence;
use vstd::prelude::*;

verus! {

/// A sentence together with its encoding for the tagger: the word pieces and,
/// for each token, where its pieces begin.
#[derive(Clone, Debug, PartialEq, Eq)]
pub struct SentenceWithPieces {
    pub pieces: Vec<i64>,
    pub sentence: Sentence,
    pub token_offsets: Vec<usize>,
}

/// Whether a sentence is short enough for the tagger: with a bound, its
/// number of pieces is at most the bound.
pub open spec fn fits(payload: SentenceWithPieces, max_len: Option<usize>) -> bool {
    match max_len {
        Some(max) => payload.pieces@.len() <= max,
        None => true,
    }
}

/// The test that a sentence is short enough, as a predicate.
pub open spec fn fits_pred(max_len: Option<usize>) -> spec_fn(SentenceWithPieces) -> bool {
    |payload: SentenceWithPieces| fits(payload, max_len)
}

/// The sentences of a chunk that are short enough, in arrival order.
pub open spec fn kept(payloads: Seq<SentenceWithPieces>, max_len: Option<usize>) -> Seq<
    SentenceWithPieces,
> {
    payloads.filter(fits_pred(max_len))
}

/// The number of pieces of each sentence, in arrival order.
pub open spec fn piece_lens(payloads: Seq<SentenceWithPieces>) -> Seq<usize> {
    Seq::new(payloads.len(), |i: int| payloads[i].pieces@.len() as usize)
}

/// Position `a` is dispatched before position `b`: it has fewer pieces, or as
/// many and it arrived earlier.
pub open spec fn comes_before(lens: Seq<usize>, a: int, b: int) -> bool {
    lens[a] < lens[b] || (lens[a] == lens[b] && a < b)
}

/// `order` lists the positions `0..lens.len()`, each once, by ascending
/// number of pieces, positions with as many pieces in arrival order.
pub open spec fn is_dispatch_order(order: Seq<usize>, lens: Seq<usize>) -> bool {
    &&& lens.len() <= usize::MAX
    &&& order.len() == lens.len()
    &&& forall|k: int| 0 <= k < order.len() ==> (#[trigger] order[k]) < lens.len()
    &&& forall|a: int, b: int|
        0 <= a < b < order.len() ==> comes_before(
            lens,
            (#[trigger] order[a]) as int,
            (#[trigger] order[b]) as int,
        )
    &&& forall|p: usize| p < lens.len() ==> #[trigger] order.contains(p)
}

/// The first `count` positions in dispatch order.
spec fn orders_prefix(order: Seq<usize>, lens: Seq<usize>, count: int) -> bool {
    &&& order.len() == count
    &&& count <= lens.len()
    &&& forall|k: int| 0 <= k < order.len() ==> (#[trigger] order[k]) < count
    &&& forall|a: int, b: int|
        0 <= a < b < order.len() ==> comes_before(
            lens,
            (#[trigger] order[a]) as int,
            (#[trigger] order[b]) as int,
        )
    &&& forall|p: usize| p < count ==> #[trigger] order.contains(p)
}

/// Inserting the next position behind the last one with no more pieces keeps
/// the order.
proof fn lemma_insert_keeps_order(order: Seq<usize>, lens: Seq<usize>, at: int, position: usize)
    requires
        orders_prefix(order, lens, position as int),
        position < lens.len(),
        0 <= at <= order.len(),
        at > 0 ==> lens[order[at - 1] as int] <= lens[position as int],
        forall|m: int| at <= m < order.len() ==> lens[(#[trigger] order[m]) as int] > lens[position as int],
    ensures
        orders_prefix(order.insert(at, position), lens, position + 1),
{
    let i = position as int;
    let next = order.insert(at, position);
    assert forall|a: int, b: int| 0 <= a < b < next.len() implies comes_before(
        lens,
        (#[trigger] next[a]) as int,
        (#[trigger] next[b]) as int,
    ) by {
        if b < at {
            assert(next[a] == order[a] && next[b] == order[b]);
        } else if b == at {
            assert(next[a] == order[a]);
            if a < at - 1 {
                assert(comes_before(lens, order[a] as int, order[at - 1] as int));
            }
        } else if a < at {
            assert(next[a] == order[a] && next[b] == order[b - 1]);
        } else if a == at {
            assert(next[b] == order[b - 1]);
        } else {
            assert(next[a] == order[a - 1] && next[b] == order[b - 1]);
        }
    }
    assert forall|p: usize| p < i + 1 implies #[trigger] next.contains(p) by {
        if p == i {
            assert(next[at] == p);
        } else {
            assert(order.contains(p));
            let k = choose|k: int| 0 <= k < order.len() && order[k] == p;
            if k < at {
                assert(next[k] == p);
            } else {
                assert(next[k + 1] == p);
            }
        }
    }
    assert forall|k: int| 0 <= k < next.len() implies (#[trigger] next[k]) < i + 1 by {
        if k < at {
            assert(next[k] == order[k]);
        } else if k > at {
            assert(next[k] == order[k - 1]);
        }
    }
}

/// The order in which the positions are dispatched: by ascending number of
/// pieces, ties in arrival order.
pub fn dispatch_order(lens: &Vec<usize>) -> (order: Vec<usize>)
    ensures
        is_dispatch_order(order@, lens@),
{
    let mut order: Vec<usize> = Vec::new();
    let mut i: usize = 0;
    while i < lens.len()
        invariant
            i <= lens.len(),
            orders_prefix(order@, lens@, i as int),
        decreases lens.len() - i,
    {
        let mut at: usize = order.len();
        while at > 0 && lens[order[at - 1]] > lens[i]
            invariant
                at <= order.len(),
                i < lens.len(),
                orders_prefix(order@, lens@, i as int),
                forall|m: int| at <= m < order.len() ==> lens@[(#[trigger] order@[m]) as int] > lens@[i as int],
            decreases at,
        {
            at -= 1;
        }
        proof {
            lemma_insert_keeps_order(order@, lens@, at as int, i);
        }
        order.insert(at, i);
        i += 1;
    }
    order
}

/// No position occurs twice in a dispatch order.
pub proof fn lemma_order_injective(order: Seq<usize>, lens: Seq<usize>)
    requires
        is_dispatch_order(order, lens),
    ensures
        forall|a: int, b: int|
            0 <= a < order.len() && 0 <= b < order.len() && a != b ==> #[trigger] order[a]
                != #[trigger] order[b],
{
    assert forall|a: int, b: int|
        0 <= a < order.len() && 0 <= b < order.len() && a != b implies #[trigger] order[a]
        != #[trigger] order[b] by {
        if a < b {
            assert(comes_before(lens, order[a] as int, order[b] as int));
        } else {
            assert(comes_before(lens, order[b] as int, order[a] as int));
        }
    }
}

/// Two dispatch orders of the same lengths agree at every rank.
proof fn lemma_orders_agree_at(first: Seq<usize>, second: Seq<usize>, lens: Seq<usize>, k: int)
    requires
        is_dispatch_order(first, lens),
        is_dispatch_order(second, lens),
        0 <= k < first.len(),
    ensures
        first[k] == second[k],
    decreases k,
{
    lemma_order_injective(first, lens);
    lemma_order_injective(second, lens);
    assert forall|j: int| 0 <= j < k implies first[j] == second[j] by {
        lemma_orders_agree_at(first, second, lens, j);
    }
    assert(second.contains(first[k]));
    let m = choose|m: int| 0 <= m < second.len() && second[m] == first[k];
    assert(first.contains(second[k]));
    let n = choose|n: int| 0 <= n < first.len() && first[n] == second[k];
    if m < k {
        assert(first[m] == second[m]);
    } else if n < k {
        assert(first[n] == second[n]);
    } else if m > k && n > k {
        assert(comes_before(lens, second[k] as int, second[m] as int));
        assert(comes_before(lens, first[k] as int, first[n] as int));
    }
}

/// The dispatch order is unique: the lengths determine it.
pub proof fn lemma_dispatch_order_unique(first: Seq<usize>, second: Seq<usize>, lens: Seq<usize>)
    requires
        is_dispatch_order(first, lens),
        is_dispatch_order(second, lens),
    ensures
        first == second,
{
    assert forall|k: int| 0 <= k < first.len() implies first[k] == second[k] by {
        lemma_orders_agree_at(first, second, lens, k);
    }
    assert(first =~= second);
}

/// What a batch run is, mathematically.
pub struct BatchRunView {
    /// The sentences in dispatch order; `None` while a sentence is with the
    /// tagger.
    pub ranked: Seq<Option<SentenceWithPieces>>,
    /// For each rank, the arrival position of the sentence that holds it.
    pub order: Seq<usize>,
    /// The number of pieces of each sentence when the run began, by arrival
    /// position.
    pub lens: Seq<usize>,
    /// The largest number of sentences in one call of the tagger.
    pub batch_size: nat,
    /// The number of ranks that the tagger has finished.
    pub cursor: nat,
    /// The number of sentences that are with the tagger.
    pub in_flight: nat,
}

impl BatchRunView {
    /// The run is consistent: the ranks go by ascending number of pieces, the
    /// sentences with the tagger are those of the ranks that follow the
    /// finished ones, and all others are held.
    pub open spec fn wf(self) -> bool {
        &&& self.batch_size >= 1
        &&& self.ranked.len() == self.order.len()
        &&& is_dispatch_order(self.order, self.lens)
        &&& self.cursor + self.in_flight <= self.order.len()
        &&& forall|k: int|
            0 <= k < self.ranked.len() ==> ((#[trigger] self.ranked[k]) is None <==> self.cursor
                <= k < self.cursor + self.in_flight)
        &&& forall|k: int|
            self.cursor + self.in_flight <= k < self.ranked.len() ==> (#[trigger] self.ranked[k])->0.pieces@.len()
                == self.lens[self.order[k] as int]
    }

    /// The run holds `input` untouched: nothing is finished, nothing is with
    /// the tagger.
    pub open spec fn begins(self, input: Seq<SentenceWithPieces>) -> bool {
        &&& self.cursor == 0
        &&& self.in_flight == 0
        &&& self.lens == piece_lens(input)
        &&& self.ranked.len() == input.len()
        &&& forall|k: int|
            0 <= k < self.ranked.len() ==> #[trigger] self.ranked[k] == Some(
                input[self.order[k] as int],
            )
    }

    /// The number of sentences in the next call of the tagger.
    pub open spec fn run_len(self) -> nat {
        if self.order.len() - self.cursor < self.batch_size {
            (self.order.len() - self.cursor) as nat
        } else {
            self.batch_size
        }
    }

    /// The sentences of the next call of the tagger: those of the next
    /// `run_len` ranks, in dispatch order.
    pub open spec fn next_batch(self) -> Seq<SentenceWithPieces> {
        Seq::new(self.run_len(), |j: int| self.ranked[self.cursor + j]->0)
    }

    /// The run after the next batch has been handed out.
    pub open spec fn dispatch(self) -> BatchRunView {
        BatchRunView {
            ranked: Seq::new(
                self.ranked.len(),
                |k: int|
                    if self.cursor <= k < self.cursor + self.run_len() {
                        None
                    } else {
                        self.ranked[k]
                    },
            ),
            in_flight: self.run_len(),
            ..self
        }
    }

    /// The run after the tagger has handed back `tagged` for the batch that
    /// was out: each sentence is put at the rank that it was taken from.
    pub open spec fn complete(self, tagged: Seq<SentenceWithPieces>) -> BatchRunView {
        BatchRunView {
            ranked: Seq::new(
                self.ranked.len(),
                |k: int|
                    if self.cursor <= k < self.cursor + self.in_flight {
                        Some(tagged[k - self.cursor])
                    } else {
                        self.ranked[k]
                    },
            ),
            cursor: self.cursor + self.in_flight,
            in_flight: 0,
            ..self
        }
    }

    /// The rank of the sentence that arrived at `position`.
    pub open spec fn rank_of(self, position: int) -> int {
        choose|k: int| 0 <= k < self.order.len() && self.order[k] == position
    }

    /// The sentences of the run in arrival order.
    pub open spec fn outcome(self) -> Seq<SentenceWithPieces> {
        Seq::new(self.order.len(), |p: int| self.ranked[self.rank_of(p)]->0)
    }

    /// The run that holds nothing.
    pub open spec fn spent(batch_size: nat) -> BatchRunView {
        BatchRunView {
            ranked: Seq::empty(),
            order: Seq::empty(),
            lens: Seq::empty(),
            batch_size,
            cursor: 0,
            in_flight: 0,
        }
    }
}

/// What the batch run asks for next.
#[derive(Debug, PartialEq, Eq)]
pub enum TagStep<C> {
    /// Hand these sentences to the tagger, in this order, and come back with
    /// what it returns.
    Tag(Vec<SentenceWithPieces>),
    /// All sentences are tagged: here they are, in arrival order.
    Finish(Vec<SentenceWithPieces>),
    /// The tagger failed with this cause: the chunk is given up.
    Abort(C),
}

/// The run before it answers: what the tagger handed back is put in place.
pub open spec fn settled<C>(
    run: BatchRunView,
    tagged: Option<Result<Vec<SentenceWithPieces>, C>>,
) -> BatchRunView {
    match tagged {
        Some(Ok(batch)) => run.complete(batch@),
        _ => run,
    }
}

/// The contract of one step of a batch run. A failure of the tagger gives
/// the chunk up. Otherwise what came back is put in place, and then either
/// the next batch goes out, or, when no rank is left, the sentences are
/// handed on in arrival order.
pub open spec fn tag_step_spec<C>(
    before: BatchRunView,
    tagged: Option<Result<Vec<SentenceWithPieces>, C>>,
    step: TagStep<C>,
    after: BatchRunView,
) -> bool {
    match tagged {
        Some(Err(cause)) => step == TagStep::Abort(cause) && after == before,
        _ => {
            let ready = settled(before, tagged);
            if ready.cursor < ready.order.len() {
                &&& step matches TagStep::Tag(batch)
                &&& batch@ == ready.next_batch()
                &&& after == ready.dispatch()
            } else {
                &&& step matches TagStep::Finish(sentences)
                &&& sentences@ == ready.outcome()
                &&& after == BatchRunView::spent(ready.batch_size)
            }
        },
    }
}

/// Handing out a batch keeps the run consistent.
pub proof fn lemma_dispatch_wf(run: BatchRunView)
    requires
        run.wf(),
        run.in_flight == 0,
    ensures
        run.dispatch().wf(),
{
}

/// Putting back what the tagger returned keeps the run consistent.
pub proof fn lemma_complete_wf(run: BatchRunView, tagged: Seq<SentenceWithPieces>)
    requires
        run.wf(),
        tagged.len() == run.in_flight,
    ensures
        run.complete(tagged).wf(),
        run.complete(tagged).in_flight == 0,
{
}

/// A batch run: the sentences of one chunk on their way through the tagger.
pub struct BatchRun {
    slots: Vec<Option<SentenceWithPieces>>,
    order: Vec<usize>,
    lens: Vec<usize>,
    batch_size: usize,
    cursor: usize,
    in_flight: usize,
}

impl View for BatchRun {
    type V = BatchRunView;

    closed spec fn view(&self) -> BatchRunView {
        BatchRunView {
            ranked: Seq::new(self.order@.len(), |k: int| self.slots@[self.order@[k] as int]),
            order: self.order@,
            lens: self.lens@,
            batch_size: self.batch_size as nat,
            cursor: self.cursor as nat,
            in_flight: self.in_flight as nat,
        }
    }
}

impl BatchRun {
    /// There is a place for every sentence.
    pub closed spec fn placed(&self) -> bool {
        self.slots@.len() == self.order@.len()
    }

    /// The run is consistent.
    pub open spec fn wf(&self) -> bool {
        &&& self.placed()
        &&& self@.wf()
    }

    /// A run over `payloads`, which are dispatched `batch_size` at a time.
    pub fn new(payloads: Vec<SentenceWithPieces>, batch_size: usize) -> (run: BatchRun)
        requires
            batch_size >= 1,
        ensures
            run.wf(),
            run@.batch_size == batch_size,
            run@.begins(payloads@),
    {
        let ghost input = payloads@;
        let mut slots: Vec<Option<SentenceWithPieces>> = Vec::new();
        let mut lens: Vec<usize> = Vec::new();
        for payload in it: payloads.into_iter()
            invariant
                it.seq() == input,
                slots@.len() == it.index(),
                lens@.len() == it.index(),
                forall|p: int| 0 <= p < it.index() ==> #[trigger] slots@[p] == Some(input[p]),
                forall|p: int|
                    0 <= p < it.index() ==> #[trigger] lens@[p] == input[p].pieces@.len(),
        {
            lens.push(payload.pieces.len());
            slots.push(Some(payload));
        }
        let order = dispatch_order(&lens);
        let run = BatchRun { slots, order, lens, batch_size, cursor: 0, in_flight: 0 };
        assert(run@.lens =~= piece_lens(input));
        run
    }

    /// The number of sentences that are with the tagger.
    pub fn in_flight(&self) -> (n: usize)
        ensures
            n == self@.in_flight,
    {
        self.in_flight
    }

    /// Puts what the tagger returned at the positions that it was taken from.
    fn put_back(&mut self, batch: Vec<SentenceWithPieces>)
        requires
            old(self).wf(),
            batch@.len() == old(self)@.in_flight,
        ensures
            final(self).wf(),
            final(self)@ == old(self)@.complete(batch@),
    {
        let ghost tagged = batch@;
        let ghost before = self@;
        let mut batch = batch;
        proof {
            lemma_order_injective(self.order@, self.lens@);
        }
        let n = self.order.len();
        let mut j: usize = batch.len();
        while j > 0
            invariant
                j <= tagged.len(),
                n == self.order@.len(),
                batch@ == tagged.take(j as int),
                tagged.len() == before.in_flight,
                before.wf(),
                self.order@ == before.order,
                self.lens@ == before.lens,
                self.batch_size == before.batch_size,
                self.cursor == before.cursor,
                self.in_flight == before.in_flight,
                self.slots@.len() == self.order@.len(),
                forall|a: int, b: int|
                    0 <= a < self.order@.len() && 0 <= b < self.order@.len() && a != b
                        ==> #[trigger] self.order@[a] != #[trigger] self.order@[b],
                forall|k: int|
                    0 <= k < before.ranked.len() ==> #[trigger] self@.ranked[k] == (if before.cursor
                        + j <= k < before.cursor + before.in_flight {
                        Some(tagged[k - before.cursor])
                    } else {
                        before.ranked[k]
                    }),
            decreases j,
        {
            j -= 1;
            let item = batch.pop().unwrap();
            let position = self.order[self.cursor + j];
            let ghost prior = self@;
            self.slots.set(position, Some(item));
            assert forall|k: int| 0 <= k < before.ranked.len() implies #[trigger] self@.ranked[k]
                == (if before.cursor + j <= k < before.cursor + before.in_flight {
                Some(tagged[k - before.cursor])
            } else {
                before.ranked[k]
            }) by {
                if k != before.cursor + j {
                    assert(self@.ranked[k] == prior.ranked[k]);
                }
            }
        }
        let ghost filled = self@;
        self.cursor = self.cursor + self.in_flight;
        self.in_flight = 0;
        assert(self@.ranked =~= filled.ranked);
        assert(filled.ranked =~= before.complete(tagged).ranked);
        proof {
            lemma_complete_wf(before, tagged);
        }
    }

    /// Takes the sentences of the next batch out of their positions.
    fn take_next(&mut self) -> (batch: Vec<SentenceWithPieces>)
        requires
            old(self).wf(),
            old(self)@.in_flight == 0,
        ensures
            final(self).wf(),
            final(self)@ == old(self)@.dispatch(),
            batch@ == old(self)@.next_batch(),
    {
        let ghost before = self@;
        proof {
            lemma_order_injective(self.order@, self.lens@);
        }
        let n = self.order.len();
        let rest = n - self.cursor;
        let run_len = if rest < self.batch_size {
            rest
        } else {
            self.batch_size
        };
        let mut batch: Vec<SentenceWithPieces> = Vec::new();
        let mut j: usize = 0;
        while j < run_len
            invariant
                j <= run_len,
                n == self.order@.len(),
                run_len == before.run_len(),
                before.wf(),
                before.in_flight == 0,
                self.order@ == before.order,
                self.lens@ == before.lens,
                self.batch_size == before.batch_size,
                self.cursor == before.cursor,
                self.in_flight == before.in_flight,
                self.slots@.len() == self.order@.len(),
                batch@.len() == j,
                forall|a: int, b: int|
                    0 <= a < self.order@.len() && 0 <= b < self.order@.len() && a != b
                        ==> #[trigger] self.order@[a] != #[trigger] self.order@[b],
                forall|i: int| 0 <= i < j ==> #[trigger] batch@[i] == before.ranked[before.cursor + i]->0,
                forall|k: int|
                    0 <= k < before.ranked.len() ==> #[trigger] self@.ranked[k] == (if before.cursor
                        <= k < before.cursor + j {
                        None
                    } else {
                        before.ranked[k]
                    }),
            decreases run_len - j,
        {
            let position = self.order[self.cursor + j];
            let ghost prior = self@;
            assert(prior.ranked[before.cursor + j] == before.ranked[before.cursor + j]);
            assert(before.ranked[before.cursor + j] is Some);
            let slot = &mut self.slots[position];
            let item = slot.take().unwrap();
            batch.push(item);
            assert forall|k: int| 0 <= k < before.ranked.len() implies #[trigger] self@.ranked[k]
                == (if before.cursor <= k < before.cursor + j + 1 {
                None
            } else {
                before.ranked[k]
            }) by {
                if k != before.cursor + j {
                    assert(self@.ranked[k] == prior.ranked[k]);
                }
            }
            j += 1;
        }
        let ghost emptied = self@;
        self.in_flight = run_len;
        assert(self@.ranked =~= emptied.ranked);
        assert(emptied.ranked =~= before.dispatch().ranked);
        assert(batch@ =~= before.next_batch());
        proof {
            lemma_dispatch_wf(before);
        }
        batch
    }

    /// Takes all sentences out, in arrival order, and leaves the run empty.
    fn take_all(&mut self) -> (sentences: Vec<SentenceWithPieces>)
        requires
            old(self).wf(),
            old(self)@.in_flight == 0,
            old(self)@.cursor == old(self)@.order.len(),
        ensures
            final(self).wf(),
            final(self)@ == BatchRunView::spent(old(self)@.batch_size),
            sentences@ == old(self)@.outcome(),
    {
        let ghost before = self@;
        proof {
            lemma_order_injective(self.order@, self.lens@);
        }
        let n = self.slots.len();
        let mut sentences: Vec<SentenceWithPieces> = Vec::new();
        let mut p: usize = 0;
        assert forall|q: usize| q < n implies #[trigger] self.slots@[q as int]
            == before.ranked[before.rank_of(q as int)] by {
            assert(before.order.contains(q));
        }
        while p < n
            invariant
                p <= n,
                n == self.slots@.len(),
                n == before.order.len(),
                before.wf(),
                before.in_flight == 0,
                before.cursor == before.order.len(),
                self.order@ == before.order,
                self.batch_size == before.batch_size,
                sentences@.len() == p,
                forall|a: int, b: int|
                    0 <= a < self.order@.len() && 0 <= b < self.order@.len() && a != b
                        ==> #[trigger] self.order@[a] != #[trigger] self.order@[b],
                forall|q: int| 0 <= q < p ==> #[trigger] sentences@[q] == before.outcome()[q],
                forall|q: usize|
                    p <= q < n ==> #[trigger] self.slots@[q as int] == before.ranked[before.rank_of(
                        q as int,
                    )],
            decreases n - p,
        {
            proof {
                assert(before.order.contains(p));
                let k = before.rank_of(p as int);
                assert(0 <= k < before.order.len() && before.order[k] == p);
                assert(before.ranked[k] is Some);
                assert(self.slots@[p as int] == before.ranked[k]);
            }
            let slot = &mut self.slots[p];
            let item = slot.take().unwrap();
            sentences.push(item);
            p += 1;
        }
        self.slots.clear();
        self.order.clear();
        self.lens.clear();
        self.cursor = 0;
        self.in_flight = 0;
        assert(self@.ranked =~= Seq::<Option<SentenceWithPieces>>::empty());
        assert(self@.order =~= Seq::<usize>::empty());
        assert(self@.lens =~= Seq::<usize>::empty());
        assert(self@ == BatchRunView::spent(before.batch_size));
        assert(sentences@ =~= before.outcome());
        sentences
    }

    /// One step of the run. `tagged` is what the tagger made of the batch
    /// that was out, or `None` where none was; the answer says what to do
    /// next.
    pub fn step<C>(&mut self, tagged: Option<Result<Vec<SentenceWithPieces>, C>>) -> (step:
        TagStep<C>)
        requires
            old(self).wf(),
            tagged is None ==> old(self)@.in_flight == 0,
            tagged matches Some(Ok(batch)) ==> batch@.len() == old(self)@.in_flight,
        ensures
            final(self).wf(),
            tag_step_spec(old(self)@, tagged, step, final(self)@),
    {
        match tagged {
            Some(Err(cause)) => { return TagStep::Abort(cause); },
            Some(Ok(batch)) => {
                self.put_back(batch);
            },
            None => {},
        }
        if self.cursor < self.order.len() {
            TagStep::Tag(self.take_next())
        } else {
            TagStep::Finish(self.take_all())
        }
    }
}

/// The tagger's side of the annotation stage: the bound on the number of
/// pieces of a sentence, if there is one.
#[derive(Clone, Copy, Debug, PartialEq, Eq)]
pub struct Annotator {
    max_len: Option<usize>,
}

impl Annotator {
    /// The bound on the number of pieces.
    pub closed spec fn bound(&self) -> Option<usize> {
        self.max_len
    }

    /// An annotator that drops sentences of more than `max_len` pieces, or
    /// none where `max_len` is `None`.
    pub fn new(max_len: Option<usize>) -> (annotator: Annotator)
        ensures
            annotator.bound() == max_len,
    {
        Annotator { max_len }
    }

    /// The bound on the number of pieces.
    pub fn max_len(&self) -> (max_len: Option<usize>)
        ensures
            max_len == self.bound(),
    {
        self.max_len
    }

    /// Begins the annotation of a chunk of encoded sentences: those with too
    /// many pieces are dropped, and the others form a batch run that goes to
    /// the tagger `batch_size` sentences at a time.
    pub fn annotate_sentences(&self, payloads: Vec<SentenceWithPieces>, batch_size: usize) -> (run:
        BatchRun)
        requires
            batch_size >= 1,
        ensures
            run.wf(),
            run@.batch_size == batch_size,
            run@.begins(kept(payloads@, self.bound())),
    {
        let ghost input = payloads@;
        let mut short: Vec<SentenceWithPieces> = Vec::new();
        for payload in it: payloads.into_iter()
            invariant
                it.seq() == input,
                short@ == kept(input.take(it.index() as int), self.bound()),
        {
            proof {
                let i = it.index() as int;
                assert(input.take(i + 1) =~= input.take(i).push(payload));
                input.take(i).lemma_filter_push(payload, fits_pred(self.bound()));
            }
            let keep = match self.max_len {
                Some(max) => payload.pieces.len() <= max,
                None => true,
            };
            if keep {
                short.push(payload);
            }
        }
        assert(input.take(input.len() as int) =~= input);
        BatchRun::new(short, batch_size)
    }
}

/// Length filtering: what is kept of a chunk are exactly its sentences that
/// are short enough. Every kept sentence is one of the chunk and fits the
/// bound, and every sentence of the chunk that fits the bound is kept.
pub proof fn lemma_kept_exactly_fitting(payloads: Seq<SentenceWithPieces>, max_len: Option<usize>)
    ensures
        forall|j: int|
            0 <= j < kept(payloads, max_len).len() ==> fits(
                #[trigger] kept(payloads, max_len)[j],
                max_len,
            ) && payloads.contains(kept(payloads, max_len)[j]),
        forall|i: int|
            0 <= i < payloads.len() && fits(#[trigger] payloads[i], max_len) ==> kept(
                payloads,
                max_len,
            ).contains(payloads[i]),
{
    let pred = fits_pred(max_len);
    assert forall|j: int| 0 <= j < kept(payloads, max_len).len() implies fits(
        #[trigger] kept(payloads, max_len)[j],
        max_len,
    ) && payloads.contains(kept(payloads, max_len)[j]) by {
        payloads.lemma_filter_pred(pred, j);
        payloads.lemma_filter_contains_rev(pred, kept(payloads, max_len)[j]);
        assert(payloads.filter(pred).contains(kept(payloads, max_len)[j]));
    }
    assert forall|i: int| 0 <= i < payloads.len() && fits(#[trigger] payloads[i], max_len) implies kept(
        payloads,
        max_len,
    ).contains(payloads[i]) by {
        payloads.lemma_filter_contains(pred, i);
    }
}

/// The sentences of a batch go to the tagger by ascending number of pieces.
pub proof fn lemma_batch_ascends(run: BatchRunView, a: int, b: int)
    requires
        run.wf(),
        run.in_flight == 0,
        0 <= a <= b < run.run_len(),
    ensures
        run.next_batch()[a].pieces@.len() <= run.next_batch()[b].pieces@.len(),
{
    if a < b {
        assert(comes_before(
            run.lens,
            run.order[run.cursor + a] as int,
            run.order[run.cursor + b] as int,
        ));
        assert(run.ranked[run.cursor + a]->0.pieces@.len() == run.lens[run.order[run.cursor
            + a] as int]);
        assert(run.ranked[run.cursor + b]->0.pieces@.len() == run.lens[run.order[run.cursor
            + b] as int]);
    }
}

/// What comes out of a run whose batches a tagger handles sentence by
/// sentence, each sentence `s` coming back as `tag(s)`.
pub open spec fn tagged_by(run: BatchRunView, tag: spec_fn(SentenceWithPieces) -> SentenceWithPieces)
    -> Seq<SentenceWithPieces>
    decreases run.order.len() - run.cursor,
{
    if run.cursor >= run.order.len() || run.batch_size == 0 || run.in_flight != 0 {
        run.outcome()
    } else {
        tagged_by(run.dispatch().complete(run.next_batch().map_values(tag)), tag)
    }
}

/// From any point of a run on, the sentences come out in arrival order.
proof fn lemma_tagged_by_from(
    run: BatchRunView,
    input: Seq<SentenceWithPieces>,
    tag: spec_fn(SentenceWithPieces) -> SentenceWithPieces,
)
    requires
        run.wf(),
        run.in_flight == 0,
        run.ranked.len() == input.len(),
        forall|k: int|
            0 <= k < run.cursor ==> #[trigger] run.ranked[k] == Some(
                tag(input[run.order[k] as int]),
            ),
        forall|k: int|
            run.cursor <= k < run.ranked.len() ==> #[trigger] run.ranked[k] == Some(
                input[run.order[k] as int],
            ),
    ensures
        tagged_by(run, tag) == input.map_values(tag),
    decreases run.order.len() - run.cursor,
{
    if run.cursor >= run.order.len() {
        assert forall|p: int| 0 <= p < input.len() implies #[trigger] run.outcome()[p] == tag(
            input[p],
        ) by {
            assert(run.order.contains(p as usize));
            let k = run.rank_of(p);
            assert(run.ranked[k] == Some(tag(input[run.order[k] as int])));
        }
        assert(run.outcome() =~= input.map_values(tag));
    } else {
        let batch = run.next_batch().map_values(tag);
        lemma_dispatch_wf(run);
        lemma_complete_wf(run.dispatch(), batch);
        let next = run.dispatch().complete(batch);
        assert forall|k: int| 0 <= k < next.cursor implies #[trigger] next.ranked[k] == Some(
            tag(input[next.order[k] as int]),
        ) by {
            if k >= run.cursor {
                assert(run.ranked[k] == Some(input[run.order[k] as int]));
                assert(batch[k - run.cursor] == tag(run.next_batch()[k - run.cursor]));
            } else {
                assert(run.ranked[k] == Some(tag(input[run.order[k] as int])));
            }
        }
        assert forall|k: int| next.cursor <= k < next.ranked.len() implies #[trigger] next.ranked[k]
            == Some(input[next.order[k] as int]) by {
            assert(run.ranked[k] == Some(input[run.order[k] as int]));
        }
        lemma_tagged_by_from(next, input, tag);
    }
}

/// Order preservation: whatever the batch size and however the sentences are
/// ordered for the tagger, a run hands each sentence on at the position at
/// which it arrived, as the tagger returned it.
pub proof fn lemma_order_preserved(
    run: BatchRunView,
    input: Seq<SentenceWithPieces>,
    tag: spec_fn(SentenceWithPieces) -> SentenceWithPieces,
)
    requires
        run.wf(),
        run.begins(input),
    ensures
        tagged_by(run, tag) == input.map_values(tag),
{
    lemma_tagged_by_from(run, input, tag);
}

} // verus!
