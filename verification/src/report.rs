//! Report aggregation: folds the results of one or more exerciser passes
//! into per-tier counts of buffers passed, failed and inconclusive, with
//! the full discrepancy list kept for detailed output. "Could not test"
//! (inconclusive) is never conflated with "tested and failed" (mismatch).

use vstd::prelude::*;

use crate::exercise::BufferResult;
use crate::exercise::Discrepancy;
use crate::exercise::TestOutcome;
use crate::exercise::TestRun;
use crate::tiers::SizeTier;

verus! {

/// How many results of one tier ended with the given outcome.
pub open spec fn count_matching(
    results: Seq<BufferResult>,
    tier: SizeTier,
    outcome: TestOutcome,
) -> nat
    decreases results.len(),
{
    if results.len() == 0 {
        0
    } else {
        count_matching(results.drop_last(), tier, outcome) + (if results.last().tier == tier
            && results.last().outcome == outcome {
            1nat
        } else {
            0nat
        })
    }
}

/// All discrepancies of a result sequence, in order.
pub open spec fn discs_of(results: Seq<BufferResult>) -> Seq<Discrepancy>
    decreases results.len(),
{
    if results.len() == 0 {
        Seq::empty()
    } else {
        discs_of(results.drop_last()) + results.last().discrepancies@
    }
}

/// The results of a sequence of runs, flattened in order.
pub open spec fn all_results(runs: Seq<TestRun>) -> Seq<BufferResult>
    decreases runs.len(),
{
    if runs.len() == 0 {
        Seq::empty()
    } else {
        all_results(runs.drop_last()) + runs.last().results@
    }
}

/// Counts of one tier's buffers by outcome.
#[derive(Clone, Copy, Debug, PartialEq, Eq, Structural)]
pub struct TierCounts {
    pub passed: u64,
    pub failed: u64,
    pub inconclusive: u64,
}

/// `c` holds exactly the counts of `tier`'s results.
pub open spec fn tier_counts_ok(c: TierCounts, results: Seq<BufferResult>, tier: SizeTier) -> bool {
    &&& c.passed == count_matching(results, tier, TestOutcome::Pass)
    &&& c.failed == count_matching(results, tier, TestOutcome::Mismatch)
    &&& c.inconclusive == count_matching(results, tier, TestOutcome::Inconclusive)
}

/// The structured pass/fail summary of one or more exerciser passes.
pub struct Report {
    pub kilobyte: TierCounts,
    pub megabyte: TierCounts,
    pub gigabyte: TierCounts,
    pub discrepancies: Vec<Discrepancy>,
}

/// No outcome is counted more often than there are results.
proof fn lemma_count_le_len(results: Seq<BufferResult>, tier: SizeTier, outcome: TestOutcome)
    ensures
        count_matching(results, tier, outcome) <= results.len(),
    decreases results.len(),
{
    if results.len() > 0 {
        lemma_count_le_len(results.drop_last(), tier, outcome);
    }
}

/// Appending one result bumps exactly its own (tier, outcome) count and
/// appends its discrepancies.
proof fn lemma_fold_step(s: Seq<BufferResult>, r: BufferResult, tier: SizeTier, outcome: TestOutcome)
    ensures
        count_matching(s.push(r), tier, outcome) == count_matching(s, tier, outcome) + (if r.tier
            == tier && r.outcome == outcome {
            1nat
        } else {
            0nat
        }),
        discs_of(s.push(r)) == discs_of(s) + r.discrepancies@,
{
    assert(s.push(r).drop_last() =~= s);
    assert(s.push(r).last() == r);
}

/// A prefix of the runs contributes no more results than the whole.
proof fn lemma_prefix_len(runs: Seq<TestRun>, i: int)
    requires
        0 <= i <= runs.len(),
    ensures
        all_results(runs.take(i)).len() <= all_results(runs).len(),
    decreases runs.len() - i,
{
    if i < runs.len() {
        assert(runs.take(i + 1).drop_last() =~= runs.take(i));
        assert(runs.take(i + 1).last() == runs[i]);
        lemma_prefix_len(runs, i + 1);
    } else {
        assert(runs.take(i) =~= runs);
    }
}

/// Pure aggregation of one or more exerciser passes into a report: per-tier
/// counts of passed, failed and inconclusive cycles, and every discrepancy
/// in order. The bound on the total result count is a machine limit on the
/// 64-bit counters.
pub fn summarize(runs: &Vec<TestRun>) -> (rep: Report)
    requires
        all_results(runs@).len() <= u64::MAX,
    ensures
        tier_counts_ok(rep.kilobyte, all_results(runs@), SizeTier::Kilobyte),
        tier_counts_ok(rep.megabyte, all_results(runs@), SizeTier::Megabyte),
        tier_counts_ok(rep.gigabyte, all_results(runs@), SizeTier::Gigabyte),
        rep.discrepancies@ == discs_of(all_results(runs@)),
{
    let mut kilobyte = TierCounts { passed: 0, failed: 0, inconclusive: 0 };
    let mut megabyte = TierCounts { passed: 0, failed: 0, inconclusive: 0 };
    let mut gigabyte = TierCounts { passed: 0, failed: 0, inconclusive: 0 };
    let mut discrepancies: Vec<Discrepancy> = Vec::new();
    let mut i: usize = 0;
    proof {
        assert(runs@.take(0) =~= Seq::<TestRun>::empty());
    }
    while i < runs.len()
        invariant
            i <= runs@.len(),
            all_results(runs@).len() <= u64::MAX,
            tier_counts_ok(kilobyte, all_results(runs@.take(i as int)), SizeTier::Kilobyte),
            tier_counts_ok(megabyte, all_results(runs@.take(i as int)), SizeTier::Megabyte),
            tier_counts_ok(gigabyte, all_results(runs@.take(i as int)), SizeTier::Gigabyte),
            discrepancies@ == discs_of(all_results(runs@.take(i as int))),
        decreases runs@.len() - i,
    {
        let run = &runs[i];
        let ghost done = all_results(runs@.take(i as int));
        let mut j: usize = 0;
        proof {
            assert(run.results@.take(0) =~= Seq::<BufferResult>::empty());
            assert(done + run.results@.take(0) =~= done);
            assert(runs@.take(i + 1).drop_last() =~= runs@.take(i as int));
            assert(runs@.take(i + 1).last() == runs@[i as int]);
            lemma_prefix_len(runs@, i + 1);
        }
        while j < run.results.len()
            invariant
                j <= run.results@.len(),
                run.results@ == runs@[i as int].results@,
                0 <= i < runs@.len(),
                done == all_results(runs@.take(i as int)),
                all_results(runs@).len() <= u64::MAX,
                all_results(runs@.take(i + 1)) == done + runs@[i as int].results@,
                all_results(runs@.take(i + 1)).len() <= all_results(runs@).len(),
                tier_counts_ok(kilobyte, done + run.results@.take(j as int), SizeTier::Kilobyte),
                tier_counts_ok(megabyte, done + run.results@.take(j as int), SizeTier::Megabyte),
                tier_counts_ok(gigabyte, done + run.results@.take(j as int), SizeTier::Gigabyte),
                discrepancies@ == discs_of(done + run.results@.take(j as int)),
            decreases run.results@.len() - j,
        {
            let ghost cur = done + run.results@.take(j as int);
            proof {
                assert(done + run.results@.take(j + 1) =~= cur.push(run.results@[j as int]));
                lemma_fold_step(cur, run.results@[j as int], SizeTier::Kilobyte, TestOutcome::Pass);
                lemma_fold_step(
                    cur,
                    run.results@[j as int],
                    SizeTier::Kilobyte,
                    TestOutcome::Mismatch,
                );
                lemma_fold_step(
                    cur,
                    run.results@[j as int],
                    SizeTier::Kilobyte,
                    TestOutcome::Inconclusive,
                );
                lemma_fold_step(cur, run.results@[j as int], SizeTier::Megabyte, TestOutcome::Pass);
                lemma_fold_step(
                    cur,
                    run.results@[j as int],
                    SizeTier::Megabyte,
                    TestOutcome::Mismatch,
                );
                lemma_fold_step(
                    cur,
                    run.results@[j as int],
                    SizeTier::Megabyte,
                    TestOutcome::Inconclusive,
                );
                lemma_fold_step(cur, run.results@[j as int], SizeTier::Gigabyte, TestOutcome::Pass);
                lemma_fold_step(
                    cur,
                    run.results@[j as int],
                    SizeTier::Gigabyte,
                    TestOutcome::Mismatch,
                );
                lemma_fold_step(
                    cur,
                    run.results@[j as int],
                    SizeTier::Gigabyte,
                    TestOutcome::Inconclusive,
                );
                lemma_count_le_len(
                    done + run.results@.take(j + 1),
                    SizeTier::Kilobyte,
                    TestOutcome::Pass,
                );
                assert((done + run.results@.take(j + 1)).len() <= all_results(
                    runs@.take(i + 1),
                ).len()) by {
                    assert(run.results@.take(j + 1).len() <= run.results@.len());
                }
            }
            let result = &run.results[j];
            proof {
                let ghost nxt = done + run.results@.take(j + 1);
                lemma_count_le_len(nxt, SizeTier::Kilobyte, TestOutcome::Pass);
                lemma_count_le_len(nxt, SizeTier::Kilobyte, TestOutcome::Mismatch);
                lemma_count_le_len(nxt, SizeTier::Kilobyte, TestOutcome::Inconclusive);
                lemma_count_le_len(nxt, SizeTier::Megabyte, TestOutcome::Pass);
                lemma_count_le_len(nxt, SizeTier::Megabyte, TestOutcome::Mismatch);
                lemma_count_le_len(nxt, SizeTier::Megabyte, TestOutcome::Inconclusive);
                lemma_count_le_len(nxt, SizeTier::Gigabyte, TestOutcome::Pass);
                lemma_count_le_len(nxt, SizeTier::Gigabyte, TestOutcome::Mismatch);
                lemma_count_le_len(nxt, SizeTier::Gigabyte, TestOutcome::Inconclusive);
            }
            match result.tier {
                SizeTier::Kilobyte => match result.outcome {
                    TestOutcome::Pass => {
                        kilobyte.passed = kilobyte.passed + 1;
                    },
                    TestOutcome::Mismatch => {
                        kilobyte.failed = kilobyte.failed + 1;
                    },
                    TestOutcome::Inconclusive => {
                        kilobyte.inconclusive = kilobyte.inconclusive + 1;
                    },
                },
                SizeTier::Megabyte => match result.outcome {
                    TestOutcome::Pass => {
                        megabyte.passed = megabyte.passed + 1;
                    },
                    TestOutcome::Mismatch => {
                        megabyte.failed = megabyte.failed + 1;
                    },
                    TestOutcome::Inconclusive => {
                        megabyte.inconclusive = megabyte.inconclusive + 1;
                    },
                },
                SizeTier::Gigabyte => match result.outcome {
                    TestOutcome::Pass => {
                        gigabyte.passed = gigabyte.passed + 1;
                    },
                    TestOutcome::Mismatch => {
                        gigabyte.failed = gigabyte.failed + 1;
                    },
                    TestOutcome::Inconclusive => {
                        gigabyte.inconclusive = gigabyte.inconclusive + 1;
                    },
                },
            }
            let mut d: usize = 0;
            while d < result.discrepancies.len()
                invariant
                    d <= result.discrepancies@.len(),
                    result.discrepancies@ == runs@[i as int].results@[j as int].discrepancies@,
                    discrepancies@ == discs_of(done + run.results@.take(j as int))
                        + result.discrepancies@.take(d as int),
                    run.results@ == runs@[i as int].results@,
                    0 <= i < runs@.len(),
                    0 <= j < run.results@.len(),
                decreases result.discrepancies@.len() - d,
            {
                discrepancies.push(result.discrepancies[d]);
                proof {
                    assert(result.discrepancies@.take(d + 1) =~= result.discrepancies@.take(
                        d as int,
                    ).push(result.discrepancies@[d as int]));
                    assert(discrepancies@ =~= discs_of(done + run.results@.take(j as int))
                        + result.discrepancies@.take(d + 1));
                }
                d += 1;
            }
            proof {
                assert(result.discrepancies@.take(result.discrepancies@.len() as int)
                    =~= result.discrepancies@);
                assert(discrepancies@ =~= discs_of(done + run.results@.take(j + 1)));
            }
            j += 1;
        }
        proof {
            assert(run.results@.take(run.results@.len() as int) =~= run.results@);
            assert(done + run.results@ =~= all_results(runs@.take(i + 1)));
        }
        i += 1;
    }
    proof {
        assert(runs@.take(runs@.len() as int) =~= runs@);
    }
    Report { kilobyte, megabyte, gigabyte, discrepancies }
}

} // verus!
