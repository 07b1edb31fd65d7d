//! The bounded-concurrency work pipeline with failure requeueing.
//!
//! A `Pipeline` holds the state one stage of the run needs: the primary queue
//! of fresh work, the retry queue of requeued work, the set of items handed
//! out and not yet completed, and the accumulating results, warnings and
//! failures. Workers drive it through two transitions: `next_work` hands out
//! one item (primary queue first, then the retry queue) and `complete` files
//! the outcome of processing one item.
//!
//! The central invariant is a partition: every index below `n` is, at every
//! moment, in exactly one of the five places (primary queue, retry queue, in
//! flight, results, failures) or consumed by a fatal outcome. From it follow
//! the report's partition property, the retry-budget bound on attempts, and
//! the uniqueness of every index in the final report.
//!
//! The pipeline itself is sequentialized state: a caller that runs several
//! workers shares one `Pipeline` behind a lock and performs each transition
//! atomically. `run_stage` in this module is the one-worker driver, verified
//! end to end.

use vstd::prelude::*;

use crate::counting::{
    count_by, lemma_count_at_least_one, lemma_count_push, lemma_count_remove,
    lemma_count_two_positions,
};
use crate::report::{
    lemma_sorted_unique_is_strict, sort_results_by_index, sorted_by_index,
    strictly_sorted_by_index, Report,
};

verus! {

/// One unit of work: a stable zero-based index, the attempt number (zero for
/// fresh work), and the stage-specific payload. Requeueing builds a new value
/// with `attempt + 1`; a work item is never mutated in place.
pub struct WorkItem<P> {
    pub index: usize,
    pub attempt: usize,
    pub payload: P,
}

/// What processing one work item produced. Only the stage-specific `Process`
/// capability constructs these. `fallback` marks a success whose chosen
/// candidate was not the top-ranked one.
pub enum Outcome<O> {
    Success { output: O, fallback: bool },
    RetryableFailure,
    FatalFailure,
}

/// The event the progress tracker consumes: which index completed an attempt
/// and whether that attempt succeeded.
#[derive(Clone, Copy, Debug)]
pub struct CompletionEvent {
    pub index: usize,
    pub success: bool,
}

/// Key of a work item: its index, as a mathematical integer.
pub open spec fn item_key<P>() -> spec_fn(WorkItem<P>) -> int {
    |it: WorkItem<P>| it.index as int
}

/// Key of an index recorded on its own.
pub open spec fn usize_key() -> spec_fn(usize) -> int {
    |x: usize| x as int
}

/// Key of an indexed record: its index, as a mathematical integer.
pub open spec fn fst_key<X>() -> spec_fn((usize, X)) -> int {
    |p: (usize, X)| p.0 as int
}

/// Identity key: counting by it counts occurrences of one exact element.
pub open spec fn id_key<T>() -> spec_fn(T) -> T {
    |x: T| x
}

/// Credit an item still has: how many further hand-outs it can cause, plus
/// one. Every completed attempt spends at least one unit, which bounds the
/// run.
pub open spec fn item_potential<P>(it: WorkItem<P>, budget: int) -> nat {
    if it.attempt <= budget {
        (budget + 1 - it.attempt) as nat
    } else {
        0
    }
}

/// Total credit of a sequence of items.
pub open spec fn seq_potential<P>(s: Seq<WorkItem<P>>, budget: int) -> nat
    decreases s.len(),
{
    if s.len() == 0 {
        0
    } else {
        seq_potential(s.drop_last(), budget) + item_potential(s.last(), budget)
    }
}

proof fn lemma_potential_push<P>(s: Seq<WorkItem<P>>, budget: int, x: WorkItem<P>)
    ensures
        seq_potential(s.push(x), budget) == seq_potential(s, budget) + item_potential(x, budget),
{
    assert(s.push(x).drop_last() =~= s);
    assert(s.push(x).last() == x);
}

proof fn lemma_potential_remove<P>(s: Seq<WorkItem<P>>, budget: int, j: int)
    requires
        0 <= j < s.len(),
    ensures
        seq_potential(s, budget) == seq_potential(s.remove(j), budget) + item_potential(
            s[j],
            budget,
        ),
    decreases s.len(),
{
    if j == s.len() - 1 {
        assert(s.remove(j) =~= s.drop_last());
    } else {
        assert(s.remove(j).drop_last() =~= s.drop_last().remove(j));
        assert(s.remove(j).last() == s.last());
        lemma_potential_remove(s.drop_last(), budget, j);
    }
}

/// One stage's pipeline state. `P` is the payload a work item carries, `O`
/// the output a successful attempt produces.
pub struct Pipeline<P, O> {
    /// Retry budget R: an item's total attempts never exceed `R + 1`.
    budget: usize,
    /// Number of items this run was started with.
    n: usize,
    /// Primary queue. Stored reversed: the next item to hand out is at the
    /// end, so the queue is consumed in index order, as the work source
    /// produced it.
    pending: Vec<WorkItem<P>>,
    /// Retry queue of requeued items; capacity concerns are the caller's.
    retry: Vec<WorkItem<P>>,
    /// How many items are handed out and not yet completed.
    in_flight: usize,
    /// Successful outputs, keyed by index, in completion order.
    results: Vec<(usize, O)>,
    /// Indices whose success used a lower-ranked (fallback) candidate.
    warnings: Vec<usize>,
    /// Indices that exhausted the retry budget, with their payloads.
    failures: Vec<(usize, P)>,
    /// The progress counter: number of successes so far.
    progress: usize,
    /// Set once a fatal outcome was filed or the run was cancelled; no
    /// further work is handed out.
    aborted: bool,
    /// The items currently handed out.
    inflight_gh: Ghost<Seq<WorkItem<P>>>,
    /// Indices consumed by a fatal outcome: they resolve to neither results
    /// nor failures.
    fatal_gh: Ghost<Seq<usize>>,
    /// Per-index count of hand-outs, i.e. of pipeline-level `Process` calls.
    handed_gh: Ghost<Map<int, nat>>,
    /// The payloads the run was started with, by index.
    payloads_gh: Ghost<Seq<P>>,
}

impl<P, O> Pipeline<P, O> {
    /// Number of items this run was started with.
    pub closed spec fn n_items(self) -> int {
        self.n as int
    }

    /// The retry budget R.
    pub closed spec fn retry_budget(self) -> int {
        self.budget as int
    }

    /// The payloads the run was started with, by index.
    pub closed spec fn payloads(self) -> Seq<P> {
        self.payloads_gh@
    }

    /// The primary queue, next item last.
    pub closed spec fn pending_seq(self) -> Seq<WorkItem<P>> {
        self.pending@
    }

    /// The retry queue.
    pub closed spec fn retry_seq(self) -> Seq<WorkItem<P>> {
        self.retry@
    }

    /// Successful outputs filed so far, in completion order.
    pub closed spec fn results_seq(self) -> Seq<(usize, O)> {
        self.results@
    }

    /// Fallback warnings filed so far.
    pub closed spec fn warnings_seq(self) -> Seq<usize> {
        self.warnings@
    }

    /// Permanent failures filed so far.
    pub closed spec fn failures_seq(self) -> Seq<(usize, P)> {
        self.failures@
    }

    /// The progress counter: number of successes filed so far.
    pub closed spec fn progress_count(self) -> int {
        self.progress as int
    }

    /// Whether a fatal outcome or a cancellation stopped the run.
    pub closed spec fn is_aborted(self) -> bool {
        self.aborted
    }

    /// How many items are handed out and not yet completed.
    pub closed spec fn inflight_len(self) -> int {
        self.inflight_gh@.len() as int
    }

    /// How many indices a fatal outcome consumed.
    pub closed spec fn fatal_len(self) -> int {
        self.fatal_gh@.len() as int
    }

    /// Whether `item` is one of the items currently handed out.
    pub closed spec fn holds_in_flight(self, item: WorkItem<P>) -> bool {
        self.inflight_gh@.contains(item)
    }

    /// How many in-flight items carry index `i`.
    pub closed spec fn inflight_count(self, i: int) -> nat {
        count_by(self.inflight_gh@, item_key::<P>(), i)
    }

    /// How many times index `i` was handed out, i.e. how many pipeline-level
    /// `Process` invocations it has caused.
    pub closed spec fn handed_out(self, i: int) -> nat {
        self.handed_gh@[i]
    }

    /// How often index `i` occurs across the whole state: the two queues, the
    /// in-flight set, the results, the failures, and the fatally consumed
    /// indices.
    pub closed spec fn total_count(self, i: int) -> nat {
        count_by(self.pending@, item_key::<P>(), i) + count_by(self.retry@, item_key::<P>(), i)
            + count_by(self.inflight_gh@, item_key::<P>(), i) + count_by(
            self.results@,
            fst_key::<O>(),
            i,
        ) + count_by(self.failures@, fst_key::<P>(), i) + count_by(self.fatal_gh@, usize_key(), i)
    }

    /// Remaining credit of all queued and in-flight items; every `complete`
    /// spends at least one unit, so the run terminates.
    pub closed spec fn potential(self) -> nat {
        seq_potential(self.pending@, self.budget as int) + seq_potential(
            self.retry@,
            self.budget as int,
        ) + seq_potential(self.inflight_gh@, self.budget as int)
    }

    /// Everything has been handed back and no more work will be handed out:
    /// either both queues are drained, or the run was aborted.
    pub open spec fn done(self) -> bool {
        self.inflight_len() == 0 && (self.is_aborted() || (self.pending_seq().len() == 0
            && self.retry_seq().len() == 0))
    }

    /// The pipeline's invariant, established by `new` and preserved by every
    /// transition.
    pub closed spec fn wf(self) -> bool {
        // Nothing is ever lost: the six places hold exactly the n indices.
        &&& self.pending@.len() + self.retry@.len() + self.inflight_gh@.len()
            + self.results@.len() + self.failures@.len() + self.fatal_gh@.len() == self.n
        &&& forall|i: int| 0 <= i < self.n ==> #[trigger] self.total_count(i) == 1
        &&& forall|i: int| !(0 <= i < self.n) ==> #[trigger] self.total_count(i) == 0
        // Bookkeeping counters match the ghost state.
        &&& self.in_flight == self.inflight_gh@.len()
        &&& self.progress == self.results@.len()
        &&& self.n == self.payloads_gh@.len()
        // The primary queue is the untouched tail of the original order:
        // fresh attempt-0 items, highest index first.
        &&& forall|j: int|
            0 <= j < self.pending@.len() ==> (#[trigger] self.pending@[j]).index == self.n - 1 - j
                && self.pending@[j].attempt == 0 && self.pending@[j].payload
                == self.payloads_gh@[self.n - 1 - j]
        // Queued and in-flight items are within budget and carry their
        // original payload.
        &&& forall|j: int|
            0 <= j < self.retry@.len() ==> (#[trigger] self.retry@[j]).index < self.n
                && self.retry@[j].attempt <= self.budget && self.retry@[j].payload
                == self.payloads_gh@[self.retry@[j].index as int]
        &&& forall|j: int|
            0 <= j < self.inflight_gh@.len() ==> (#[trigger] self.inflight_gh@[j]).index < self.n
                && self.inflight_gh@[j].attempt <= self.budget && self.inflight_gh@[j].payload
                == self.payloads_gh@[self.inflight_gh@[j].index as int]
        // Filed records are in range; failures keep their original payload.
        &&& forall|j: int|
            0 <= j < self.results@.len() ==> (#[trigger] self.results@[j]).0 < self.n
        &&& forall|j: int|
            0 <= j < self.failures@.len() ==> (#[trigger] self.failures@[j]).0 < self.n
                && self.failures@[j].1 == self.payloads_gh@[self.failures@[j].0 as int]
        // Every warned index has succeeded, exactly once.
        &&& forall|j: int|
            0 <= j < self.warnings@.len() ==> count_by(
                self.results@,
                fst_key::<O>(),
                (#[trigger] self.warnings@[j]) as int,
            ) == 1
        // Hand-out counts: a queued item with attempt a has been handed out
        // a times; an in-flight one a + 1 times; nothing exceeds R + 1.
        &&& forall|i: int| #[trigger] self.handed_gh@.dom().contains(i)
        &&& forall|j: int|
            0 <= j < self.pending@.len() ==> self.handed_gh@[(#[trigger] self.pending@[j]).index
                as int] == self.pending@[j].attempt
        &&& forall|j: int|
            0 <= j < self.retry@.len() ==> self.handed_gh@[(#[trigger] self.retry@[j]).index
                as int] == self.retry@[j].attempt
        &&& forall|j: int|
            0 <= j < self.inflight_gh@.len() ==> self.handed_gh@[(#[trigger] self.inflight_gh@[j]).index
                as int] == self.inflight_gh@[j].attempt + 1
        &&& forall|i: int| #[trigger] self.handed_gh@[i] <= self.budget + 1
        // Only a fatal outcome or a cancellation aborts.
        &&& self.fatal_gh@.len() > 0 ==> self.aborted
    }

    /// Start a pipeline over `payloads` with retry budget `budget`. The work
    /// source's job: every payload becomes a fresh attempt-0 work item, in
    /// index order.
    pub fn new(payloads: Vec<P>, budget: usize) -> (p: Self)
        ensures
            p.wf(),
            p.n_items() == payloads@.len(),
            p.retry_budget() == budget,
            p.payloads() == payloads@,
            p.pending_seq().len() == payloads@.len(),
            p.retry_seq().len() == 0,
            p.inflight_len() == 0,
            p.results_seq().len() == 0,
            p.warnings_seq().len() == 0,
            p.failures_seq().len() == 0,
            p.fatal_len() == 0,
            p.progress_count() == 0,
            !p.is_aborted(),
            forall|i: int| #[trigger] p.handed_out(i) == 0,
    {
        let ghost orig = payloads@;
        let n = payloads.len();
        let mut src = payloads;
        let mut pending: Vec<WorkItem<P>> = Vec::new();
        loop
            invariant
                n == orig.len(),
                src@.len() + pending@.len() == n,
                src@ == orig.subrange(0, src@.len() as int),
                forall|j: int|
                    0 <= j < pending@.len() ==> (#[trigger] pending@[j]).index == n - 1 - j
                        && pending@[j].attempt == 0 && pending@[j].payload == orig[n - 1 - j],
                forall|i: int|
                    #[trigger] count_by(pending@, item_key::<P>(), i) == if src@.len() <= i < n {
                        1nat
                    } else {
                        0nat
                    },
            ensures
                src@.len() == 0,
            decreases src@.len(),
        {
            let ghost pre = src@;
            match src.pop() {
                None => {
                    break;
                },
                Some(payload) => {
                    let idx = src.len();
                    proof {
                        assert(pre.subrange(0, pre.len() - 1) =~= orig.subrange(
                            0,
                            pre.len() - 1,
                        ));
                        assert(payload == orig[idx as int]);
                    }
                    let item = WorkItem { index: idx, attempt: 0, payload };
                    proof {
                        assert forall|i: int|
                            #[trigger] count_by(pending@.push(item), item_key::<P>(), i) == (
                            if src@.len() <= i < n {
                                1nat
                            } else {
                                0nat
                            }) by {
                            lemma_count_push(pending@, item_key::<P>(), i, item);
                        }
                    }
                    pending.push(item);
                },
            }
        }
        let p = Pipeline {
            budget,
            n,
            pending,
            retry: Vec::new(),
            in_flight: 0,
            results: Vec::new(),
            warnings: Vec::new(),
            failures: Vec::new(),
            progress: 0,
            aborted: false,
            inflight_gh: Ghost(Seq::empty()),
            fatal_gh: Ghost(Seq::empty()),
            handed_gh: Ghost(Map::new(|i: int| true, |i: int| 0nat)),
            payloads_gh: Ghost(orig),
        };
        proof {
            assert forall|i: int| 0 <= i < p.n implies #[trigger] p.total_count(i) == 1 by {
                assert(count_by(p.pending@, item_key::<P>(), i) == 1);
            }
            assert forall|i: int| !(0 <= i < p.n) implies #[trigger] p.total_count(i) == 0 by {
                assert(count_by(p.pending@, item_key::<P>(), i) == 0);
            }
        }
        p
    }

    /// Hand out the next unit of work, primary queue first; once the primary
    /// queue is drained, the retry queue. Returns `None` when no work remains
    /// to hand out or the run was aborted — the worker's signal to terminate.
    pub fn next_work(&mut self) -> (r: Option<WorkItem<P>>)
        requires
            old(self).wf(),
        ensures
            final(self).wf(),
            final(self).n_items() == old(self).n_items(),
            final(self).retry_budget() == old(self).retry_budget(),
            final(self).payloads() == old(self).payloads(),
            final(self).results_seq() == old(self).results_seq(),
            final(self).warnings_seq() == old(self).warnings_seq(),
            final(self).failures_seq() == old(self).failures_seq(),
            final(self).progress_count() == old(self).progress_count(),
            final(self).is_aborted() == old(self).is_aborted(),
            final(self).fatal_len() == old(self).fatal_len(),
            final(self).potential() == old(self).potential(),
            match r {
                None => *final(self) == *old(self) && (old(self).is_aborted() || (old(
                    self,
                ).pending_seq().len() == 0 && old(self).retry_seq().len() == 0)),
                Some(item) => {
                    &&& !old(self).is_aborted()
                    &&& old(self).pending_seq().len() + old(self).retry_seq().len() > 0
                    &&& item.index < old(self).n_items()
                    &&& item.attempt <= old(self).retry_budget()
                    &&& item.payload == old(self).payloads()[item.index as int]
                    &&& final(self).holds_in_flight(item)
                    &&& final(self).inflight_len() == old(self).inflight_len() + 1
                    &&& final(self).handed_out(item.index as int)
                        == old(self).handed_out(item.index as int) + 1
                    &&& final(self).handed_out(item.index as int) == item.attempt + 1
                    &&& forall|i: int|
                        i != item.index as int
                            ==> final(self).handed_out(i) == old(self).handed_out(i)
                    &&& if old(self).pending_seq().len() > 0 {
                        &&& final(self).pending_seq() == old(self).pending_seq().drop_last()
                        &&& item == old(self).pending_seq().last()
                        &&& item.attempt == 0
                        &&& item.index == old(self).n_items() - old(self).pending_seq().len()
                        &&& final(self).retry_seq() == old(self).retry_seq()
                    } else {
                        &&& final(self).pending_seq().len() == 0
                        &&& final(self).retry_seq() == old(self).retry_seq().drop_last()
                        &&& item == old(self).retry_seq().last()
                    }
                },
            },
    {
        if self.aborted {
            return None;
        }
        if self.pending.len() == 0 && self.retry.len() == 0 {
            return None;
        }
        let ghost pre = *self;
        let from_pending = self.pending.len() > 0;
        let item = if from_pending {
            self.pending.pop().unwrap()
        } else {
            self.retry.pop().unwrap()
        };
        proof {
            if from_pending {
                assert(self.pending@ =~= pre.pending@.drop_last());
                assert(item == pre.pending@[pre.pending@.len() - 1]);
            } else {
                assert(pre.pending@.len() == 0);
                assert(self.retry@ =~= pre.retry@.drop_last());
                assert(item == pre.retry@[pre.retry@.len() - 1]);
            }
        }
        let ghost idx = item.index as int;
        proof {
            // The handed-out index lives nowhere else: its total count is one
            // and the source queue already accounts for it.
            if from_pending {
                lemma_count_at_least_one(pre.pending@, item_key::<P>(), pre.pending@.len() - 1);
            } else {
                lemma_count_at_least_one(pre.retry@, item_key::<P>(), pre.retry@.len() - 1);
            }
            assert(pre.total_count(idx) == 1);
        }
        self.in_flight = self.in_flight + 1;
        self.inflight_gh = Ghost(self.inflight_gh@.push(item));
        self.handed_gh = Ghost(self.handed_gh@.insert(idx, (item.attempt + 1) as nat));
        proof {
            let post = *self;
            lemma_count_push(pre.inflight_gh@, item_key::<P>(), idx, item);
            lemma_potential_push(pre.inflight_gh@, pre.budget as int, item);
            if from_pending {
                lemma_potential_remove(
                    pre.pending@,
                    pre.budget as int,
                    pre.pending@.len() - 1,
                );
                assert(pre.pending@.remove(pre.pending@.len() - 1) =~= post.pending@);
            } else {
                lemma_potential_remove(pre.retry@, pre.budget as int, pre.retry@.len() - 1);
                assert(pre.retry@.remove(pre.retry@.len() - 1) =~= post.retry@);
            }
            // Index counts move from the source queue to the in-flight set.
            assert forall|i: int| #[trigger] post.total_count(i) == pre.total_count(i) by {
                lemma_count_push(pre.inflight_gh@, item_key::<P>(), i, item);
            }
            // No other queued or in-flight element carries this index, so
            // their hand-out counts are untouched by the update.
            assert forall|j: int| 0 <= j < post.pending@.len() implies post.handed_gh@[(
            #[trigger] post.pending@[j]).index as int] == post.pending@[j].attempt by {
                if post.pending@[j].index as int == idx {
                    lemma_count_at_least_one(post.pending@, item_key::<P>(), j);
                    assert(count_by(post.pending@, item_key::<P>(), idx) >= 1);
                    assert(post.total_count(idx) >= 2);
                    assert(false);
                }
            }
            assert forall|j: int| 0 <= j < post.retry@.len() implies post.handed_gh@[(
            #[trigger] post.retry@[j]).index as int] == post.retry@[j].attempt by {
                if post.retry@[j].index as int == idx {
                    lemma_count_at_least_one(post.retry@, item_key::<P>(), j);
                    assert(post.total_count(idx) >= 2);
                    assert(false);
                }
            }
            assert forall|j: int| 0 <= j < post.inflight_gh@.len() implies post.handed_gh@[(
            #[trigger] post.inflight_gh@[j]).index as int] == post.inflight_gh@[j].attempt
                + 1 by {
                if j < pre.inflight_gh@.len() && post.inflight_gh@[j].index as int == idx {
                    lemma_count_at_least_one(post.inflight_gh@, item_key::<P>(), j);
                    lemma_count_at_least_one(
                        post.inflight_gh@,
                        item_key::<P>(),
                        post.inflight_gh@.len() - 1,
                    );
                    lemma_count_two_positions(
                        post.inflight_gh@,
                        item_key::<P>(),
                        j,
                        post.inflight_gh@.len() - 1,
                    );
                    assert(post.total_count(idx) >= 2);
                    assert(false);
                }
            }
        }
        Some(item)
    }

    /// File the outcome of processing one handed-out item and return the
    /// completion event for the progress tracker.
    ///
    /// A success is recorded under the item's index, with a warning beside it
    /// when a fallback candidate was chosen. A retryable failure is requeued
    /// with `attempt + 1` while the attempt was below the budget — so an item
    /// is processed at most `R + 1` times — and otherwise filed as a
    /// permanent failure with its original payload. A fatal outcome aborts
    /// the whole stage: no further work will be handed out.
    pub fn complete(&mut self, item: WorkItem<P>, outcome: Outcome<O>) -> (ev: CompletionEvent)
        requires
            old(self).wf(),
            old(self).holds_in_flight(item),
        ensures
            final(self).wf(),
            final(self).n_items() == old(self).n_items(),
            final(self).retry_budget() == old(self).retry_budget(),
            final(self).payloads() == old(self).payloads(),
            final(self).pending_seq() == old(self).pending_seq(),
            final(self).inflight_len() == old(self).inflight_len() - 1,
            final(self).potential() < old(self).potential(),
            forall|i: int| #[trigger] final(self).handed_out(i) == old(self).handed_out(i),
            ev.index == item.index,
            ev.success == (outcome is Success),
            match outcome {
                Outcome::Success { output, fallback } => {
                    &&& final(self).results_seq() == old(self).results_seq().push(
                        ((item.index, output)),
                    )
                    &&& final(self).progress_count() == old(self).progress_count() + 1
                    &&& final(self).warnings_seq() == if fallback {
                        old(self).warnings_seq().push(item.index)
                    } else {
                        old(self).warnings_seq()
                    }
                    &&& final(self).failures_seq() == old(self).failures_seq()
                    &&& final(self).retry_seq() == old(self).retry_seq()
                    &&& final(self).is_aborted() == old(self).is_aborted()
                    &&& final(self).fatal_len() == old(self).fatal_len()
                },
                Outcome::RetryableFailure => {
                    &&& final(self).results_seq() == old(self).results_seq()
                    &&& final(self).warnings_seq() == old(self).warnings_seq()
                    &&& final(self).progress_count() == old(self).progress_count()
                    &&& final(self).is_aborted() == old(self).is_aborted()
                    &&& final(self).fatal_len() == old(self).fatal_len()
                    &&& if item.attempt < old(self).retry_budget() {
                        &&& final(self).retry_seq() == old(self).retry_seq().push(
                            (WorkItem {
                                index: item.index,
                                attempt: (item.attempt + 1) as usize,
                                payload: item.payload,
                            }),
                        )
                        &&& final(self).failures_seq() == old(self).failures_seq()
                    } else {
                        &&& final(self).failures_seq() == old(self).failures_seq().push(
                            ((item.index, item.payload)),
                        )
                        &&& final(self).retry_seq() == old(self).retry_seq()
                    }
                },
                Outcome::FatalFailure => {
                    &&& final(self).is_aborted()
                    &&& final(self).fatal_len() == old(self).fatal_len() + 1
                    &&& final(self).results_seq() == old(self).results_seq()
                    &&& final(self).warnings_seq() == old(self).warnings_seq()
                    &&& final(self).failures_seq() == old(self).failures_seq()
                    &&& final(self).retry_seq() == old(self).retry_seq()
                    &&& final(self).progress_count() == old(self).progress_count()
                },
            },
    {
        let ghost pre = *self;
        let ghost j = choose|j: int|
            0 <= j < pre.inflight_gh@.len() && pre.inflight_gh@[j] == item;
        let ghost idx = item.index as int;
        proof {
            lemma_count_at_least_one(pre.inflight_gh@, item_key::<P>(), j);
            assert(pre.total_count(idx) == 1);
        }
        self.inflight_gh = Ghost(self.inflight_gh@.remove(j));
        self.in_flight = self.in_flight - 1;
        proof {
            assert forall|i: int|
                count_by(pre.inflight_gh@, item_key::<P>(), i) == count_by(
                    self.inflight_gh@,
                    item_key::<P>(),
                    i,
                ) + (if i == idx {
                    1nat
                } else {
                    0nat
                }) by {
                lemma_count_remove(pre.inflight_gh@, item_key::<P>(), i, j);
            }
            lemma_potential_remove(pre.inflight_gh@, pre.budget as int, j);
        }
        let WorkItem { index, attempt, payload } = item;
        match outcome {
            Outcome::Success { output, fallback } => {
                let ghost mid = *self;
                proof {
                    assert(count_by(pre.results@, fst_key::<O>(), idx) == 0);
                }
                self.results.push((index, output));
                self.progress = self.progress + 1;
                proof {
                    assert forall|i: int|
                        count_by(self.results@, fst_key::<O>(), i) == count_by(
                            pre.results@,
                            fst_key::<O>(),
                            i,
                        ) + (if i == idx {
                            1nat
                        } else {
                            0nat
                        }) by {
                        lemma_count_push(pre.results@, fst_key::<O>(), i, (index, output));
                    }
                }
                if fallback {
                    self.warnings.push(index);
                }
                proof {
                    assert forall|i: int| #[trigger] self.total_count(i) == pre.total_count(
                        i,
                    ) by {}
                    assert forall|k: int| 0 <= k < self.warnings@.len() implies count_by(
                        self.results@,
                        fst_key::<O>(),
                        (#[trigger] self.warnings@[k]) as int,
                    ) == 1 by {
                        if k < pre.warnings@.len() {
                            assert(pre.warnings@[k] == self.warnings@[k]);
                            assert(count_by(
                                pre.results@,
                                fst_key::<O>(),
                                pre.warnings@[k] as int,
                            ) == 1);
                        } else {
                            assert(self.warnings@[k] == index);
                        }
                    }
                }
                CompletionEvent { index, success: true }
            },
            Outcome::RetryableFailure => {
                if attempt < self.budget {
                    let requeued = WorkItem { index, attempt: attempt + 1, payload };
                    proof {
                        assert forall|i: int|
                            count_by(self.retry@.push(requeued), item_key::<P>(), i) == count_by(
                                pre.retry@,
                                item_key::<P>(),
                                i,
                            ) + (if i == idx {
                                1nat
                            } else {
                                0nat
                            }) by {
                            lemma_count_push(pre.retry@, item_key::<P>(), i, requeued);
                        }
                        lemma_potential_push(pre.retry@, pre.budget as int, requeued);
                    }
                    self.retry.push(requeued);
                    proof {
                        assert forall|i: int| #[trigger] self.total_count(i) == pre.total_count(
                            i,
                        ) by {}
                    }
                } else {
                    proof {
                        assert forall|i: int|
                            count_by(self.failures@.push((index, payload)), fst_key::<P>(), i)
                                == count_by(pre.failures@, fst_key::<P>(), i) + (if i == idx {
                                1nat
                            } else {
                                0nat
                            }) by {
                            lemma_count_push(pre.failures@, fst_key::<P>(), i, (index, payload));
                        }
                    }
                    self.failures.push((index, payload));
                    proof {
                        assert forall|i: int| #[trigger] self.total_count(i) == pre.total_count(
                            i,
                        ) by {}
                    }
                }
                CompletionEvent { index, success: false }
            },
            Outcome::FatalFailure => {
                proof {
                    assert forall|i: int|
                        count_by(self.fatal_gh@.push(index), usize_key(), i) == count_by(
                            pre.fatal_gh@,
                            usize_key(),
                            i,
                        ) + (if i == idx {
                            1nat
                        } else {
                            0nat
                        }) by {
                        lemma_count_push(pre.fatal_gh@, usize_key(), i, index);
                    }
                }
                self.fatal_gh = Ghost(self.fatal_gh@.push(index));
                self.aborted = true;
                proof {
                    assert forall|i: int| #[trigger] self.total_count(i) == pre.total_count(
                        i,
                    ) by {}
                }
                CompletionEvent { index, success: false }
            },
        }
    }

    /// The cancellation hook: an external interrupt stops the stage. No
    /// further work is handed out afterwards; items already handed out can
    /// still be completed, and the report is finalized partially.
    pub fn cancel(&mut self)
        requires
            old(self).wf(),
        ensures
            final(self).wf(),
            final(self).is_aborted(),
            final(self).n_items() == old(self).n_items(),
            final(self).retry_budget() == old(self).retry_budget(),
            final(self).payloads() == old(self).payloads(),
            final(self).pending_seq() == old(self).pending_seq(),
            final(self).retry_seq() == old(self).retry_seq(),
            final(self).inflight_len() == old(self).inflight_len(),
            final(self).results_seq() == old(self).results_seq(),
            final(self).warnings_seq() == old(self).warnings_seq(),
            final(self).failures_seq() == old(self).failures_seq(),
            final(self).progress_count() == old(self).progress_count(),
            final(self).fatal_len() == old(self).fatal_len(),
            final(self).potential() == old(self).potential(),
            forall|i: int| #[trigger] final(self).handed_out(i) == old(self).handed_out(i),
            forall|item: WorkItem<P>|
                final(self).holds_in_flight(item) == old(self).holds_in_flight(item),
    {
        self.aborted = true;
        proof {
            assert forall|i: int| #[trigger] self.total_count(i) == old(self).total_count(
                i,
            ) by {}
        }
    }

    /// Whether the stage has terminated: nothing is in flight and no more
    /// work will be handed out.
    pub fn is_done(&self) -> (r: bool)
        requires
            self.wf(),
        ensures
            r == self.done(),
    {
        self.in_flight == 0 && (self.aborted || (self.pending.len() == 0 && self.retry.len()
            == 0))
    }

    /// Attempt bound: no index is handed out — and so processed — more than
    /// `R + 1` times, whatever the outcomes were.
    pub proof fn lemma_attempt_bound(self, i: int)
        requires
            self.wf(),
        ensures
            self.handed_out(i) <= self.retry_budget() + 1,
    {
    }

    /// Close the stage and build its report: successes reordered by original
    /// index, warnings and failures as filed.
    ///
    /// For a stage that was not aborted this guarantees the partition
    /// property: every index resolved to exactly one of success or permanent
    /// failure. For an aborted stage the items still queued or consumed by
    /// the fatal outcome are unresolved, so strictly fewer than `n` indices
    /// appear in the report.
    pub fn finalize(self) -> (r: Report<P, O>)
        requires
            self.wf(),
            self.done(),
        ensures
            r.total == self.n_items(),
            r.aborted == self.is_aborted(),
            r.successes == self.progress_count(),
            r.successes == r.results@.len(),
            r.warnings@ == self.warnings_seq(),
            r.failures@ == self.failures_seq(),
            sorted_by_index(r.results@),
            strictly_sorted_by_index(r.results@),
            r.results@.len() == self.results_seq().len(),
            forall|p: (usize, O)| #[trigger]
                count_by(r.results@, id_key::<(usize, O)>(), p) == count_by(
                    self.results_seq(),
                    id_key::<(usize, O)>(),
                    p,
                ),
            forall|i: int| #[trigger]
                r.result_count(i) == count_by(self.results_seq(), fst_key::<O>(), i),
            forall|i: int| #[trigger] r.result_count(i) + r.failure_count(i) <= 1,
            r.results@.len() + r.failures@.len() == self.n_items() - self.pending_seq().len()
                - self.retry_seq().len() - self.fatal_len(),
            !self.is_aborted() ==> r.is_partition(),
            forall|k: int|
                0 <= k < r.warnings@.len() ==> r.result_count(
                    (#[trigger] r.warnings@[k]) as int,
                ) == 1,
            forall|j: int|
                0 <= j < r.failures@.len() ==> (#[trigger] r.failures@[j]).0 < self.n_items()
                    && r.failures@[j].1 == self.payloads()[(r.failures@[j].0) as int],
    {
        let ghost pre = self;
        let Pipeline { results, warnings, failures, aborted, n, progress, .. } = self;
        let sorted = sort_results_by_index(results);
        let r = Report { results: sorted, warnings, failures, aborted, total: n, successes: progress };
        proof {
            assert forall|i: int| #[trigger] r.result_count(i) + r.failure_count(i) <= 1 by {
                assert(pre.total_count(i) <= 1);
            }
            if !pre.aborted {
                assert(pre.fatal_gh@.len() == 0);
                assert forall|i: int| 0 <= i < pre.n implies #[trigger] r.result_count(i)
                    + r.failure_count(i) == 1 by {
                    assert(pre.total_count(i) == 1);
                }
                assert forall|i: int| !(0 <= i < pre.n) implies #[trigger] r.result_count(i)
                    + r.failure_count(i) == 0 by {
                    assert(pre.total_count(i) == 0);
                }
            }
            assert forall|i: int| #[trigger] count_by(r.results@, fst_key::<O>(), i)
                <= 1 by {
                assert(pre.total_count(i) <= 1);
            }
            lemma_sorted_unique_is_strict(r.results@);
        }
        r
    }
}

/// Live progress of one stage: how many items have succeeded so far, out of
/// how many were expected. Fed exclusively by completion events, so the
/// counter never moves backwards.
pub struct ProgressTracker {
    count: usize,
    total: usize,
}

impl ProgressTracker {
    /// Successes counted so far.
    pub closed spec fn count_spec(self) -> int {
        self.count as int
    }

    /// The expected number of items.
    pub closed spec fn total_spec(self) -> int {
        self.total as int
    }

    /// A tracker expecting `total` items, starting at zero.
    pub fn new(total: usize) -> (t: Self)
        ensures
            t.count_spec() == 0,
            t.total_spec() == total,
    {
        ProgressTracker { count: 0, total }
    }

    /// Consume one completion event. The counter moves only on a success,
    /// and only upward.
    pub fn observe(&mut self, ev: CompletionEvent)
        requires
            old(self).count_spec() < usize::MAX,
        ensures
            final(self).total_spec() == old(self).total_spec(),
            final(self).count_spec() == old(self).count_spec() + if ev.success {
                1int
            } else {
                0int
            },
            final(self).count_spec() >= old(self).count_spec(),
    {
        if ev.success {
            self.count = self.count + 1;
        }
    }

    /// The current success count, for rendering.
    pub fn current(&self) -> (c: usize)
        ensures
            c == self.count_spec(),
    {
        self.count
    }

    /// The expected total, for rendering.
    pub fn expected(&self) -> (t: usize)
        ensures
            t == self.total_spec(),
    {
        self.total
    }
}

/// The stage-specific processing capability: resolve one track to a
/// resource, or fetch one resource. Implementations are external
/// collaborators (network calls, subprocesses), so nothing is assumed about
/// the outcome they return: every property proved of the pipeline holds
/// whatever they do.
pub trait Processor<P, O> {
    /// Process attempt number `attempt` of the item at `index`.
    fn process(&mut self, index: usize, attempt: usize, payload: &P) -> Outcome<O>;
}

/// Drive one stage to completion with a single worker: hand out work, invoke
/// the processor, file the outcome, feed the progress tracker; stop when no
/// work remains or a fatal outcome aborted the stage.
///
/// The processor is invoked exactly once per handed-out item, so by the
/// attempt bound it runs at most `budget + 1` times per index. A concurrent
/// deployment drives the same two transitions from several workers around a
/// shared `Pipeline`; this driver is the sequential model of that loop, and
/// every property below is a property of the transitions, not of the
/// schedule.
pub fn run_stage<P, O, Pr: Processor<P, O>>(
    payloads: Vec<P>,
    budget: usize,
    processor: &mut Pr,
    tracker: &mut ProgressTracker,
) -> (r: Report<P, O>)
    requires
        old(tracker).count_spec() == 0,
    ensures
        r.total == payloads@.len(),
        r.successes == r.results@.len(),
        final(tracker).count_spec() == r.results@.len(),
        final(tracker).total_spec() == old(tracker).total_spec(),
        sorted_by_index(r.results@),
        strictly_sorted_by_index(r.results@),
        forall|i: int| #[trigger] r.result_count(i) + r.failure_count(i) <= 1,
        !r.aborted ==> r.is_partition(),
        r.aborted ==> r.results@.len() + r.failures@.len() < payloads@.len(),
        forall|j: int|
            0 <= j < r.failures@.len() ==> (#[trigger] r.failures@[j]).0 < payloads@.len()
                && r.failures@[j].1 == payloads@[(r.failures@[j].0) as int],
        forall|k: int|
            0 <= k < r.warnings@.len() ==> r.result_count((#[trigger] r.warnings@[k]) as int)
                == 1,
{
    let ghost orig = payloads@;
    let mut pipe = Pipeline::<P, O>::new(payloads, budget);
    loop
        invariant
            pipe.wf(),
            pipe.inflight_len() == 0,
            pipe.n_items() == orig.len(),
            pipe.payloads() == orig,
            tracker.count_spec() == pipe.progress_count(),
            tracker.total_spec() == old(tracker).total_spec(),
            pipe.is_aborted() ==> pipe.fatal_len() >= 1,
        ensures
            pipe.wf(),
            pipe.done(),
            pipe.inflight_len() == 0,
            pipe.n_items() == orig.len(),
            pipe.payloads() == orig,
            tracker.count_spec() == pipe.progress_count(),
            tracker.total_spec() == old(tracker).total_spec(),
            pipe.is_aborted() ==> pipe.fatal_len() >= 1,
        decreases pipe.potential(),
    {
        match pipe.next_work() {
            None => {
                break;
            },
            Some(item) => {
                let outcome = processor.process(item.index, item.attempt, &item.payload);
                let ev = pipe.complete(item, outcome);
                tracker.observe(ev);
            },
        }
    }
    pipe.finalize()
}

} // verus!
