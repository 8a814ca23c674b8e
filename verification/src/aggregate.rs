//! Per-item result aggregation keyed by submission index.
//!
//! Results arrive in completion order; the aggregator slots each one at
//! its original index, so the final collection follows the submission
//! order no matter how completion was interleaved.

use vstd::prelude::*;
use crate::model::GenerationResult;

verus! {

/// Accumulates one outcome per submitted work item.
pub struct Aggregator {
    slots: Vec<Option<GenerationResult>>,
}

impl View for Aggregator {
    type V = Seq<Option<GenerationResult>>;

    closed spec fn view(&self) -> Seq<Option<GenerationResult>> {
        self.slots@
    }
}

impl Aggregator {
    /// An empty aggregator for `n` submitted items.
    pub fn new(n: usize) -> (r: Aggregator)
        ensures
            r@.len() == n,
            forall|i: int| 0 <= i < n ==> r@[i] is None,
    {
        let mut slots: Vec<Option<GenerationResult>> = Vec::new();
        let mut i: usize = 0;
        while i < n
            invariant
                i <= n,
                slots@.len() == i,
                forall|j: int| 0 <= j < i ==> slots@[j] is None,
            decreases n - i,
        {
            slots.push(None);
            i = i + 1;
        }
        Aggregator { slots }
    }

    /// How many items were submitted.
    pub fn len(&self) -> (n: usize)
        ensures
            n == self@.len(),
    {
        self.slots.len()
    }

    /// Every item has completed or failed.
    pub open spec fn complete(&self) -> bool {
        forall|i: int| 0 <= i < self@.len() ==> self@[i] is Some
    }

    /// Whether the item submitted at `index` already has an outcome.
    pub fn is_recorded(&self, index: usize) -> (r: bool)
        requires
            index < self@.len(),
        ensures
            r == (self@[index as int] is Some),
    {
        match &self.slots[index] {
            Some(_) => true,
            None => false,
        }
    }

    /// Record the outcome of the item submitted at `index`, exactly
    /// once per item, in whatever order items complete.
    pub fn record(&mut self, index: usize, result: GenerationResult)
        requires
            index < old(self)@.len(),
            old(self)@[index as int] is None,
        ensures
            final(self)@ == old(self)@.update(index as int, Some(result)),
    {
        self.slots.set(index, Some(result));
    }

    /// The final ordered collection: one outcome per item, in
    /// submission order.
    pub fn into_ordered(self) -> (r: Vec<GenerationResult>)
        requires
            self.complete(),
        ensures
            r@.len() == self@.len(),
            forall|i: int| 0 <= i < r@.len() ==> self@[i] == Some(r@[i]),
    {
        let ghost orig = self@;
        let mut slots = self.slots;
        let mut r: Vec<GenerationResult> = Vec::new();
        while slots.len() > 0
            invariant
                orig.len() == r@.len() + slots@.len(),
                forall|i: int| 0 <= i < orig.len() ==> orig[i] is Some,
                forall|i: int| 0 <= i < r@.len() ==> orig[i] == Some(r@[i]),
                forall|i: int| 0 <= i < slots@.len() ==> slots@[i] == orig[r@.len() + i],
            decreases slots@.len(),
        {
            let x = slots.remove(0);
            match x {
                Some(v) => {
                    r.push(v);
                }
                None => {
                    proof {
                        assert(orig[r@.len() as int] is Some);
                        assert(false);
                    }
                }
            }
        }
        r
    }
}

/// The slots after recording `order`'s indices one by one, where index
/// `j` always carries the outcome `results[j]`.
pub open spec fn spec_record_in_order(
    init: Seq<Option<GenerationResult>>,
    results: Seq<GenerationResult>,
    order: Seq<int>,
) -> Seq<Option<GenerationResult>>
    decreases order.len(),
{
    if order.len() == 0 {
        init
    } else {
        spec_record_in_order(init, results, order.drop_last()).update(
            order.last(),
            Some(results[order.last()]),
        )
    }
}

/// After any completion order, a slot holds its item's outcome if its
/// index was recorded, and is untouched otherwise.
pub proof fn lemma_record_pointwise(
    init: Seq<Option<GenerationResult>>,
    results: Seq<GenerationResult>,
    order: Seq<int>,
    j: int,
)
    requires
        init.len() == results.len(),
        forall|e: int| 0 <= e < order.len() ==> 0 <= #[trigger] order[e] < results.len(),
        0 <= j < results.len(),
    ensures
        order.contains(j) ==> spec_record_in_order(init, results, order)[j] == Some(results[j]),
        !order.contains(j) ==> spec_record_in_order(init, results, order)[j] == init[j],
    decreases order.len(),
{
    if order.len() > 0 {
        let head = order.drop_last();
        lemma_record_pointwise(init, results, head, j);
        lemma_record_len(init, results, head);
        let last = order.last();
        if order.last() == j {
            assert(order.contains(j)) by {
                assert(order[order.len() - 1] == j);
            }
        } else {
            if head.contains(j) {
                let w = choose|w: int| 0 <= w < head.len() && head[w] == j;
                assert(order[w] == j);
                assert(order.contains(j));
            }
            if order.contains(j) {
                let w = choose|w: int| 0 <= w < order.len() && order[w] == j;
                assert(w < order.len() - 1);
                assert(head[w] == j);
                assert(head.contains(j));
            }
        }
    }
}

/// The final aggregated collection equals the submission order no
/// matter in which order completions arrived: recording every index of
/// a run, in any completion order, fills slot `j` with `results[j]`.
pub proof fn lemma_completion_order_independent(
    init: Seq<Option<GenerationResult>>,
    results: Seq<GenerationResult>,
    order: Seq<int>,
)
    requires
        init.len() == results.len(),
        forall|e: int| 0 <= e < order.len() ==> 0 <= #[trigger] order[e] < results.len(),
        forall|j: int| 0 <= j < results.len() ==> order.contains(j),
    ensures
        spec_record_in_order(init, results, order) == results.map_values(
            |x: GenerationResult| Some(x),
        ),
{
    let end = spec_record_in_order(init, results, order);
    assert forall|j: int| 0 <= j < results.len() implies end[j] == Some(results[j]) by {
        lemma_record_pointwise(init, results, order, j);
    }
    assert(end.len() == results.len()) by {
        lemma_record_len(init, results, order);
    }
    assert(end =~= results.map_values(|x: GenerationResult| Some(x)));
}

/// Recording never changes how many slots there are.
proof fn lemma_record_len(
    init: Seq<Option<GenerationResult>>,
    results: Seq<GenerationResult>,
    order: Seq<int>,
)
    requires
        init.len() == results.len(),
        forall|e: int| 0 <= e < order.len() ==> 0 <= #[trigger] order[e] < results.len(),
    ensures
        spec_record_in_order(init, results, order).len() == init.len(),
    decreases order.len(),
{
    if order.len() > 0 {
        lemma_record_len(init, results, order.drop_last());
    }
}

/// How many outcomes of a run are successes.
pub open spec fn spec_count_successes(rs: Seq<GenerationResult>) -> int
    decreases rs.len(),
{
    if rs.len() == 0 {
        0
    } else {
        spec_count_successes(rs.drop_last()) + if rs.last() is Success {
            1int
        } else {
            0int
        }
    }
}

/// Counts of one finished run, as the final report states them.
pub struct RunSummary {
    pub successes: usize,
    pub failures: usize,
}

/// Count successes and failures of the final ordered collection: every
/// item is reported exactly once.
pub fn summarize(results: &Vec<GenerationResult>) -> (s: RunSummary)
    ensures
        s.successes == spec_count_successes(results@),
        s.failures == results@.len() - spec_count_successes(results@),
{
    let mut successes: usize = 0;
    let mut i: usize = 0;
    proof {
        assert(results@.take(0) =~= Seq::<GenerationResult>::empty());
    }
    while i < results.len()
        invariant
            i <= results@.len(),
            successes == spec_count_successes(results@.take(i as int)),
            successes <= i,
        decreases results@.len() - i,
    {
        proof {
            assert(results@.take(i as int + 1).drop_last() =~= results@.take(i as int));
            assert(results@.take(i as int + 1).last() == results@[i as int]);
        }
        if results[i].is_success() {
            successes = successes + 1;
        }
        i = i + 1;
    }
    proof {
        assert(results@.take(results@.len() as int) =~= results@);
        lemma_successes_bounded(results@);
    }
    RunSummary { successes, failures: results.len() - successes }
}

/// The success count never exceeds the run length.
proof fn lemma_successes_bounded(rs: Seq<GenerationResult>)
    ensures
        0 <= spec_count_successes(rs) <= rs.len(),
    decreases rs.len(),
{
    if rs.len() > 0 {
        lemma_successes_bounded(rs.drop_last());
    }
}

} // verus!
