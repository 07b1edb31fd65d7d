//! The final report of one pipeline stage: successes ordered by original
//! index, fallback warnings, and permanent failures.

use vstd::prelude::*;

use crate::counting::{count_by, lemma_count_insert, lemma_count_two_positions};
use crate::pipeline::{fst_key, id_key};

verus! {

/// Indices are in non-decreasing order.
pub open spec fn sorted_by_index<O>(s: Seq<(usize, O)>) -> bool {
    forall|j: int, k: int| 0 <= j < k < s.len() ==> (#[trigger] s[j]).0 <= (#[trigger] s[k]).0
}

/// Indices are in strictly increasing order: sorted and free of duplicates.
pub open spec fn strictly_sorted_by_index<O>(s: Seq<(usize, O)>) -> bool {
    forall|j: int, k: int| 0 <= j < k < s.len() ==> (#[trigger] s[j]).0 < (#[trigger] s[k]).0
}

/// The aggregated outcome of one stage. `P` is the stage's payload type (kept
/// for permanently failed items), `O` the output of a success.
pub struct Report<P, O> {
    /// Successful outputs, sorted by original index.
    pub results: Vec<(usize, O)>,
    /// Indices whose success used a lower-ranked (fallback) candidate.
    pub warnings: Vec<usize>,
    /// Items that exhausted the retry budget, with their original payloads,
    /// in the order their budgets ran out.
    pub failures: Vec<(usize, P)>,
    /// Whether the stage was cut short by a fatal outcome or a cancellation.
    pub aborted: bool,
    /// How many items the stage was started with.
    pub total: usize,
    /// Final value of the progress counter; equals `results.len()`.
    pub successes: usize,
}

impl<P, O> Report<P, O> {
    /// How many result records carry index `i`.
    pub open spec fn result_count(self, i: int) -> nat {
        count_by(self.results@, fst_key::<O>(), i)
    }

    /// How many failure records carry index `i`.
    pub open spec fn failure_count(self, i: int) -> nat {
        count_by(self.failures@, fst_key::<P>(), i)
    }

    /// The partition property of a non-aborted run: every index below
    /// `total` resolved to exactly one of success or permanent failure, and
    /// no other index appears at all.
    pub open spec fn is_partition(self) -> bool {
        &&& forall|i: int|
            0 <= i < self.total ==> #[trigger] self.result_count(i) + self.failure_count(i) == 1
        &&& forall|i: int|
            !(0 <= i < self.total) ==> #[trigger] self.result_count(i) + self.failure_count(i)
                == 0
    }
}

/// Reorder success records by their original index (insertion sort). Keeps
/// exactly the same records: every exact record, and every index, occurs as
/// often as before.
pub fn sort_results_by_index<O>(src: Vec<(usize, O)>) -> (out: Vec<(usize, O)>)
    ensures
        out@.len() == src@.len(),
        sorted_by_index(out@),
        forall|i: int| #[trigger]
            count_by(out@, fst_key::<O>(), i) == count_by(src@, fst_key::<O>(), i),
        forall|p: (usize, O)| #[trigger]
            count_by(out@, id_key::<(usize, O)>(), p) == count_by(src@, id_key::<(usize, O)>(), p),
{
    let ghost orig = src@;
    let mut rest = src;
    let mut out: Vec<(usize, O)> = Vec::new();
    loop
        invariant
            sorted_by_index(out@),
            out@.len() + rest@.len() == orig.len(),
            forall|i: int|
                #[trigger] count_by(out@, fst_key::<O>(), i) + count_by(rest@, fst_key::<O>(), i)
                    == count_by(orig, fst_key::<O>(), i),
            forall|p: (usize, O)|
                #[trigger] count_by(out@, id_key::<(usize, O)>(), p) + count_by(
                    rest@,
                    id_key::<(usize, O)>(),
                    p,
                ) == count_by(orig, id_key::<(usize, O)>(), p),
        ensures
            rest@.len() == 0,
        decreases rest@.len(),
    {
        let ghost pre_rest = rest@;
        let ghost pre_out = out@;
        match rest.pop() {
            None => {
                break;
            },
            Some(x) => {
                let mut pos: usize = 0;
                while pos < out.len()
                    invariant
                        pos <= out@.len(),
                        out@ == pre_out,
                        forall|q: int| 0 <= q < pos ==> (#[trigger] out@[q]).0 <= x.0,
                    ensures
                        pos <= out@.len(),
                        out@ == pre_out,
                        forall|q: int| 0 <= q < pos ==> (#[trigger] out@[q]).0 <= x.0,
                        pos < out@.len() ==> out@[pos as int].0 > x.0,
                    decreases out@.len() - pos,
                {
                    if out[pos].0 > x.0 {
                        break;
                    }
                    pos = pos + 1;
                }
                proof {
                    pre_out.insert_ensures(pos as int, x);
                    assert forall|i: int|
                        #[trigger] count_by(pre_out.insert(pos as int, x), fst_key::<O>(), i)
                            == count_by(pre_out, fst_key::<O>(), i) + (
                        if i == x.0 as int {
                            1nat
                        } else {
                            0nat
                        }) by {
                        lemma_count_insert(pre_out, fst_key::<O>(), i, pos as int, x);
                    }
                    assert forall|p: (usize, O)|
                        #[trigger] count_by(
                            pre_out.insert(pos as int, x),
                            id_key::<(usize, O)>(),
                            p,
                        ) == count_by(pre_out, id_key::<(usize, O)>(), p) + (
                        if p == x {
                            1nat
                        } else {
                            0nat
                        }) by {
                        lemma_count_insert(pre_out, id_key::<(usize, O)>(), p, pos as int, x);
                    }
                }
                out.insert(pos, x);
                proof {
                    assert forall|j: int, k: int|
                        0 <= j < k < out@.len() implies (#[trigger] out@[j]).0 <= (
                    #[trigger] out@[k]).0 by {
                        pre_out.insert_ensures(pos as int, x);
                        if k < pos {
                        } else if j == pos as int {
                            assert(out@[k] == pre_out[k - 1]);
                            assert(pre_out[pos as int].0 > x.0);
                        } else if k == pos as int {
                            assert(out@[j] == pre_out[j]);
                        } else if j < pos {
                            assert(out@[j] == pre_out[j]);
                            assert(out@[k] == pre_out[k - 1]);
                        } else {
                            assert(out@[j] == pre_out[j - 1]);
                            assert(out@[k] == pre_out[k - 1]);
                        }
                    }
                }
            },
        }
    }
    out
}

/// Sorted and duplicate-free indices are strictly increasing.
pub proof fn lemma_sorted_unique_is_strict<O>(s: Seq<(usize, O)>)
    requires
        sorted_by_index(s),
        forall|i: int| #[trigger] count_by(s, fst_key::<O>(), i) <= 1,
    ensures
        strictly_sorted_by_index(s),
{
    assert forall|j: int, k: int| 0 <= j < k < s.len() implies (#[trigger] s[j]).0 < (
    #[trigger] s[k]).0 by {
        if s[j].0 == s[k].0 {
            lemma_count_two_positions(s, fst_key::<O>(), j, k);
        }
    }
}

} // verus!
