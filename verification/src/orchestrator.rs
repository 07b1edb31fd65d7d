//! Two-stage composition: one pipeline run resolves catalog items to
//! downloadable resources, a second fetches them. Stage-1 successes become
//! the stage-2 work list; warnings and failures of both stages are merged
//! into one report under the original indices. Stage-1 failures never reach
//! stage 2.

use vstd::prelude::*;

use crate::counting::{
    count_by, lemma_count_at_least_one, lemma_count_concat, lemma_count_pointwise,
    lemma_count_position, lemma_count_remap,
};
use crate::pipeline::{fst_key, run_stage, usize_key, Processor, ProgressTracker};
use crate::report::{strictly_sorted_by_index, Report};

verus! {

/// Per-stage knobs: how many workers run the stage and how many retries each
/// item is allowed. The pool size matters only to a concurrent deployment;
/// the verified driver processes the same transitions one at a time.
#[derive(Clone, Copy, Debug)]
pub struct StageConfig {
    pub pool_size: usize,
    pub retry_budget: usize,
}

/// Why a two-stage run yielded no combined report.
#[derive(Clone, Copy, Debug, PartialEq, Eq, Structural)]
pub enum RunError {
    /// The resolution stage succeeded for no item: nothing to fetch.
    NoResolvedItems,
    /// A fatal outcome aborted the resolution stage.
    FatalResolution,
    /// A fatal outcome aborted the fetch stage.
    FatalFetch,
}

/// The merged outcome of both stages, under the original item indices.
pub struct CombinedReport<P, O> {
    /// Final outputs of items that passed both stages, sorted by original
    /// index.
    pub results: Vec<(usize, O)>,
    /// Original indices with a fallback warning, from either stage.
    pub warnings: Vec<usize>,
    /// Original indices that permanently failed, in either stage.
    pub failures: Vec<usize>,
    /// The resolution stage's permanent failures with their payloads, for
    /// the operator's failure report.
    pub resolution_failures: Vec<(usize, P)>,
    /// How many items the run was started with.
    pub total: usize,
}

impl<P, O> CombinedReport<P, O> {
    /// How many final results carry original index `i`.
    pub open spec fn result_count(self, i: int) -> nat {
        count_by(self.results@, fst_key::<O>(), i)
    }

    /// How many merged failure records carry original index `i`.
    pub open spec fn failure_count(self, i: int) -> nat {
        count_by(self.failures@, usize_key(), i)
    }

    /// Every original index resolved to exactly one of final success or
    /// permanent failure; no other index appears.
    pub open spec fn is_partition(self) -> bool {
        &&& forall|i: int|
            0 <= i < self.total ==> #[trigger] self.result_count(i) + self.failure_count(i) == 1
        &&& forall|i: int|
            !(0 <= i < self.total) ==> #[trigger] self.result_count(i) + self.failure_count(i)
                == 0
    }
}

/// Run both stages over `items` and merge their reports.
///
/// Fails only if a fatal outcome aborted a stage, or if the resolution stage
/// resolved nothing; an empty item list always fails that second way, with
/// no processor ever invoked. Otherwise the combined report partitions the
/// original indices between final successes and permanent failures, with the
/// results in original order.
#[verifier::loop_isolation(false)]
#[verifier::rlimit(50)]
pub fn run_two_stage<P, M, O, Pr1: Processor<P, M>, Pr2: Processor<M, O>>(
    items: Vec<P>,
    resolve_cfg: StageConfig,
    fetch_cfg: StageConfig,
    resolver: &mut Pr1,
    fetcher: &mut Pr2,
) -> (r: Result<CombinedReport<P, O>, RunError>)
    ensures
        items@.len() == 0 ==> r == Err::<CombinedReport<P, O>, RunError>(
            RunError::NoResolvedItems,
        ),
        match r {
            Ok(rep) => {
                &&& rep.total == items@.len()
                &&& rep.is_partition()
                &&& strictly_sorted_by_index(rep.results@)
                &&& forall|q: int|
                    0 <= q < rep.warnings@.len() ==> (#[trigger] rep.warnings@[q]) < items@.len()
                &&& forall|q: int|
                    0 <= q < rep.resolution_failures@.len() ==> (
                    #[trigger] rep.resolution_failures@[q]).0 < items@.len()
                        && rep.resolution_failures@[q].1 == items@[(
                    rep.resolution_failures@[q].0) as int]
                &&& forall|i: int| #[trigger]
                    count_by(rep.resolution_failures@, fst_key::<P>(), i) <= rep.failure_count(i)
            },
            Err(e) => true,
        },
{
    let n = items.len();
    let ghost items_v = items@;
    let mut resolve_tracker = ProgressTracker::new(n);
    let r1 = run_stage::<P, M, Pr1>(
        items,
        resolve_cfg.retry_budget,
        resolver,
        &mut resolve_tracker,
    );
    let ghost g1 = r1;
    proof {
        // Nothing can abort a run over no items: an aborted report would
        // have to resolve fewer than zero indices.
        if items_v.len() == 0 {
            assert(!g1.aborted);
        }
    }
    if r1.aborted {
        return Err(RunError::FatalResolution);
    }
    if r1.results.len() == 0 {
        return Err(RunError::NoResolvedItems);
    }
    proof {
        // Something resolved, so the run had at least one item.
        lemma_count_at_least_one(g1.results@, fst_key::<M>(), 0);
        assert(g1.result_count(g1.results@[0].0 as int) >= 1);
        assert(items_v.len() >= 1);
    }
    let Report { results: res1, warnings: warn1, failures: fail1, .. } = r1;
    let ghost res1_v = res1@;
    proof {
        assert(g1.results@ == res1_v);
        assert(g1.warnings@ == warn1@);
        assert(g1.failures@ == fail1@);
    }

    // Split the resolved items into the original-index table and the
    // stage-2 work list, keeping the resolved order.
    let mut res1_rest = res1;
    let mut origs: Vec<usize> = Vec::new();
    let mut mids: Vec<M> = Vec::new();
    proof {
        assert(res1_rest@ =~= res1_v.subrange(0, res1_v.len() as int));
    }
    while res1_rest.len() > 0
        invariant
            origs@.len() == mids@.len(),
            origs@.len() + res1_rest@.len() == res1_v.len(),
            res1_rest@ == res1_v.subrange(origs@.len() as int, res1_v.len() as int),
            forall|q: int|
                0 <= q < origs@.len() ==> (#[trigger] origs@[q]) == res1_v[q].0 && mids@[q]
                    == res1_v[q].1,
        decreases res1_rest@.len(),
    {
        let ghost pre = res1_rest@;
        let pair = res1_rest.remove(0);
        proof {
            assert(pair == res1_v[origs@.len() as int]);
            assert(pre.remove(0) =~= res1_v.subrange(
                origs@.len() as int + 1,
                res1_v.len() as int,
            ));
        }
        origs.push(pair.0);
        mids.push(pair.1);
    }
    let ghost origs_v = origs@;
    proof {
        // The table inherits strict order from the sorted stage-1 results.
        assert forall|j1: int, j2: int| 0 <= j1 < j2 < origs_v.len() implies (
        #[trigger] origs_v[j1]) < (#[trigger] origs_v[j2]) by {
            assert(res1_v[j1].0 < res1_v[j2].0);
        }
        // Every table entry is an original index below n.
        assert forall|q: int| 0 <= q < origs_v.len() implies (#[trigger] origs_v[q])
            < items_v.len() by {
            lemma_count_at_least_one(res1_v, fst_key::<M>(), q);
            assert(g1.result_count(origs_v[q] as int) >= 1);
        }
    }

    let k = mids.len();
    let mut fetch_tracker = ProgressTracker::new(k);
    let r2 = run_stage::<M, O, Pr2>(mids, fetch_cfg.retry_budget, fetcher, &mut fetch_tracker);
    if r2.aborted {
        return Err(RunError::FatalFetch);
    }
    let ghost g2 = r2;
    let Report { results: res2, warnings: warn2, failures: fail2, .. } = r2;
    let ghost res2_v = res2@;
    let ghost fail2_v = fail2@;
    proof {
        assert(g2.results@ == res2_v);
        assert(g2.warnings@ == warn2@);
        assert(g2.failures@ == fail2_v);
    }

    // Map the fetch results back to original indices; the resolved order is
    // the original order, so the merged results stay sorted.
    let mut res2_rest = res2;
    let mut merged: Vec<(usize, O)> = Vec::new();
    proof {
        assert(res2_rest@ =~= res2_v.subrange(0, res2_v.len() as int));
    }
    while res2_rest.len() > 0
        invariant
            merged@.len() + res2_rest@.len() == res2_v.len(),
            res2_rest@ == res2_v.subrange(merged@.len() as int, res2_v.len() as int),
            forall|q: int|
                0 <= q < merged@.len() ==> 0 <= (res2_v[q].0 as int) < origs_v.len() && (
                #[trigger] merged@[q]) == (origs_v[res2_v[q].0 as int], res2_v[q].1),
        decreases res2_rest@.len(),
    {
        let ghost pre = res2_rest@;
        let ghost q = merged@.len() as int;
        let pair = res2_rest.remove(0);
        proof {
            assert(pair == res2_v[q]);
            assert(pre.remove(0) =~= res2_v.subrange(q + 1, res2_v.len() as int));
            // The fetch-stage index is in range: it occurs in the results,
            // and the partition rules out anything outside the work list.
            lemma_count_at_least_one(res2_v, fst_key::<O>(), q);
            assert(fst_key::<O>()(res2_v[q]) == pair.0 as int);
            assert(g2.result_count(pair.0 as int) >= 1);
            assert(g2.result_count(pair.0 as int) + g2.failure_count(pair.0 as int) >= 1);
            assert((pair.0 as int) < origs_v.len());
        }
        let oi = origs[pair.0];
        merged.push((oi, pair.1));
    }

    // Merge the failure indices: resolution failures first, then the fetch
    // failures mapped back to original indices.
    let mut failures: Vec<usize> = Vec::new();
    let mut q1: usize = 0;
    while q1 < fail1.len()
        invariant
            q1 <= fail1@.len(),
            failures@.len() == q1,
            forall|q: int| 0 <= q < q1 ==> (#[trigger] failures@[q]) == fail1@[q].0,
        decreases fail1@.len() - q1,
    {
        failures.push(fail1[q1].0);
        q1 = q1 + 1;
    }
    let ghost fail1_idx = failures@;
    let mut q2: usize = 0;
    while q2 < fail2.len()
        invariant
            q2 <= fail2_v.len(),
            failures@.len() == fail1_idx.len() + q2,
            failures@.subrange(0, fail1_idx.len() as int) == fail1_idx,
            forall|q: int|
                0 <= q < q2 ==> 0 <= (fail2_v[q].0 as int) < origs_v.len() && (
                #[trigger] failures@[fail1_idx.len() + q]) == origs_v[fail2_v[q].0 as int],
        decreases fail2@.len() - q2,
    {
        let ghost pre_failures = failures@;
        let fi = fail2[q2].0;
        proof {
            lemma_count_at_least_one(fail2_v, fst_key::<M>(), q2 as int);
            assert(fst_key::<M>()(fail2_v[q2 as int]) == fi as int);
            assert(g2.failure_count(fi as int) >= 1);
            assert(g2.result_count(fi as int) + g2.failure_count(fi as int) >= 1);
            assert((fi as int) < origs_v.len());
        }
        let oi = origs[fi];
        failures.push(oi);
        proof {
            assert(failures@.subrange(0, fail1_idx.len() as int) =~= pre_failures.subrange(
                0,
                fail1_idx.len() as int,
            ));
        }
        q2 = q2 + 1;
    }

    // Merge the warnings the same way.
    let mut warnings: Vec<usize> = Vec::new();
    let mut w1: usize = 0;
    while w1 < warn1.len()
        invariant
            w1 <= warn1@.len(),
            warnings@.len() == w1,
            forall|q: int| 0 <= q < w1 ==> (#[trigger] warnings@[q]) == warn1@[q],
        decreases warn1@.len() - w1,
    {
        warnings.push(warn1[w1]);
        w1 = w1 + 1;
    }
    let ghost warn1_idx = warnings@;
    let mut w2: usize = 0;
    while w2 < warn2.len()
        invariant
            w2 <= warn2@.len(),
            warnings@.len() == warn1_idx.len() + w2,
            forall|q: int|
                0 <= q < warnings@.len() - warn1_idx.len() ==> 0 <= (warn2@[q] as int)
                    < origs_v.len() && (#[trigger] warnings@[warn1_idx.len() + q])
                    == origs_v[warn2@[q] as int],
            forall|q: int|
                0 <= q < warn1_idx.len() ==> (#[trigger] warnings@[q]) == warn1_idx[q],
        decreases warn2@.len() - w2,
    {
        let wi = warn2[w2];
        proof {
            assert(wi == g2.warnings@[w2 as int]);
            assert(g2.result_count(wi as int) == 1);
            assert(g2.result_count(wi as int) + g2.failure_count(wi as int) >= 1);
            assert((wi as int) < origs_v.len());
        }
        let oi = origs[wi];
        warnings.push(oi);
        w2 = w2 + 1;
    }

    let rep = CombinedReport {
        results: merged,
        warnings,
        failures,
        resolution_failures: fail1,
        total: n,
    };

    proof {
        let merged_v = rep.results@;
        let failures_v = rep.failures@;
        let fb = failures_v.subrange(fail1_idx.len() as int, failures_v.len() as int);
        assert(failures_v =~= fail1_idx + fb);

        // Counting is preserved through the index table.
        assert forall|q: int| 0 <= q < res2_v.len() implies 0 <= fst_key::<O>()(
            #[trigger] res2_v[q],
        ) < origs_v.len() by {
            assert(merged_v[q] == (origs_v[res2_v[q].0 as int], res2_v[q].1));
        }
        assert forall|q: int| 0 <= q < merged_v.len() implies fst_key::<O>()(
            #[trigger] merged_v[q],
        ) == origs_v[fst_key::<O>()(res2_v[q])] as int by {
            assert(merged_v[q] == (origs_v[res2_v[q].0 as int], res2_v[q].1));
        }
        lemma_count_remap(
            merged_v,
            res2_v,
            fst_key::<O>(),
            fst_key::<O>(),
            origs_v,
        );
        assert forall|q: int| 0 <= q < fail2_v.len() implies 0 <= fst_key::<M>()(
            #[trigger] fail2_v[q],
        ) < origs_v.len() by {
            assert(fb[q] == failures_v[fail1_idx.len() + q]);
            assert(fb[q] == origs_v[fail2_v[q].0 as int]);
        }
        assert forall|q: int| 0 <= q < fb.len() implies usize_key()(#[trigger] fb[q])
            == origs_v[fst_key::<M>()(fail2_v[q])] as int by {
            assert(fb[q] == failures_v[fail1_idx.len() + q]);
            assert(fb[q] == origs_v[fail2_v[q].0 as int]);
        }
        lemma_count_remap(fb, fail2_v, usize_key(), fst_key::<M>(), origs_v);

        // The partition of the original indices.
        assert forall|i: int| 0 <= i < rep.total implies #[trigger] rep.result_count(i)
            + rep.failure_count(i) == 1 by {
            lemma_count_concat(fail1_idx, fb, usize_key(), i);
            lemma_count_pointwise(fail1_idx, g1.failures@, usize_key(), fst_key::<P>(), i);
            assert(g1.result_count(i) + g1.failure_count(i) == 1);
            if g1.result_count(i) == 1 {
                lemma_count_position(res1_v, fst_key::<M>(), i);
                let ji = choose|ji: int|
                    0 <= ji < res1_v.len() && fst_key::<M>()(res1_v[ji]) == i;
                assert(origs_v[ji] as int == i);
                assert(count_by(merged_v, fst_key::<O>(), origs_v[ji] as int) == count_by(
                    res2_v,
                    fst_key::<O>(),
                    ji,
                ));
                assert(count_by(fb, usize_key(), origs_v[ji] as int) == count_by(
                    fail2_v,
                    fst_key::<M>(),
                    ji,
                ));
                assert(g2.result_count(ji) + g2.failure_count(ji) == 1);
            } else {
                assert(g1.failure_count(i) == 1);
                assert forall|ji: int| 0 <= ji < origs_v.len() implies (
                #[trigger] origs_v[ji]) as int != i by {
                    if origs_v[ji] as int == i {
                        lemma_count_at_least_one(res1_v, fst_key::<M>(), ji);
                    }
                }
                assert(count_by(merged_v, fst_key::<O>(), i) == 0);
                assert(count_by(fb, usize_key(), i) == 0);
            }
        }
        assert forall|i: int| !(0 <= i < rep.total) implies #[trigger] rep.result_count(i)
            + rep.failure_count(i) == 0 by {
            lemma_count_concat(fail1_idx, fb, usize_key(), i);
            lemma_count_pointwise(fail1_idx, g1.failures@, usize_key(), fst_key::<P>(), i);
            assert(g1.result_count(i) + g1.failure_count(i) == 0);
            assert forall|ji: int| 0 <= ji < origs_v.len() implies (#[trigger] origs_v[ji])
                as int != i by {
                if origs_v[ji] as int == i {
                    lemma_count_at_least_one(res1_v, fst_key::<M>(), ji);
                }
            }
            assert(count_by(merged_v, fst_key::<O>(), i) == 0);
            assert(count_by(fb, usize_key(), i) == 0);
        }

        // Merged results stay strictly sorted: the table is increasing and
        // the fetch results were strictly sorted.
        assert forall|q1a: int, q2a: int| 0 <= q1a < q2a < merged_v.len() implies (
        #[trigger] merged_v[q1a]).0 < (#[trigger] merged_v[q2a]).0 by {
            assert(res2_v[q1a].0 < res2_v[q2a].0);
        }

        // Resolution failures are a subset of the merged failures.
        assert forall|i: int| #[trigger] count_by(rep.resolution_failures@, fst_key::<P>(), i)
            <= rep.failure_count(i) by {
            lemma_count_concat(fail1_idx, fb, usize_key(), i);
            lemma_count_pointwise(fail1_idx, g1.failures@, usize_key(), fst_key::<P>(), i);
        }

        // Every merged warning is an original index.
        assert forall|q: int| 0 <= q < rep.warnings@.len() implies (#[trigger] rep.warnings@[q])
            < items_v.len() by {
            if q < warn1_idx.len() {
                assert(rep.warnings@[q] == g1.warnings@[q]);
                assert(g1.result_count(g1.warnings@[q] as int) == 1);
                if !(g1.warnings@[q] < items_v.len()) {
                    assert(g1.result_count(g1.warnings@[q] as int) + g1.failure_count(
                        g1.warnings@[q] as int,
                    ) == 0);
                }
            } else {
                let qq = q - warn1_idx.len();
                assert(rep.warnings@[warn1_idx.len() + qq] == origs_v[warn2@[qq] as int]);
                assert((warn2@[qq] as int) < origs_v.len());
                assert(rep.warnings@[q] == origs_v[warn2@[qq] as int]);
            }
        }
    }
    Ok(rep)
}

} // verus!
