//! Pattern exerciser: fills each buffer with a 32-bit pattern word, reads
//! the contents back, and records every mismatched word as a discrepancy
//! with its byte offset, the expected word, and the observed word. A
//! submission failure is recorded as `Inconclusive`, never conflated with
//! `Mismatch`: an inconclusive result is a tooling problem, not evidence of
//! a hardware fault.

use vstd::arithmetic::div_mod::lemma_fundamental_div_mod_converse;
use vstd::prelude::*;

use crate::mock::BitFault;
use crate::mock::MockDevice;
use crate::mock::flip_byte;
use crate::mock::lemma_word_flip;
use crate::mock::lemma_word_roundtrip;
use crate::mock::word_at;
use crate::mock::word_byte;
use crate::mock::word_mask;
use crate::tiers::SizeTier;

verus! {

/// Stresses stuck-at-zero cells: every bit written low.
pub const PATTERN_ZEROS: u32 = 0;

/// Stresses stuck-at-one cells: every bit written high.
pub const PATTERN_ONES: u32 = 0xFFFF_FFFF;

/// One recorded mismatch: the buffer it was seen in, the byte offset of the
/// mismatched word within the buffer, the expected pattern word and the
/// observed word.
#[derive(Clone, Copy, Debug, PartialEq, Eq, Structural)]
pub struct Discrepancy {
    pub buffer: usize,
    pub offset: usize,
    pub expected: u32,
    pub observed: u32,
}

/// How one (buffer, pattern) cycle ended.
#[derive(Clone, Copy, Debug, PartialEq, Eq, Structural)]
pub enum TestOutcome {
    /// Every readback word matched the pattern.
    Pass,
    /// At least one word differed: suspected hardware fault.
    Mismatch,
    /// The cycle could not be submitted; says nothing about the memory.
    Inconclusive,
}

/// The record of one fill/readback/compare cycle.
pub struct BufferResult {
    pub buffer: usize,
    pub tier: SizeTier,
    pub pattern: u32,
    pub outcome: TestOutcome,
    pub discrepancies: Vec<Discrepancy>,
}

/// One buffer to exercise: its id and tier for reporting, and the absolute
/// range `[base, base + len)` its binding occupies in device memory.
#[derive(Clone, Copy, Debug, PartialEq, Eq, Structural)]
pub struct TestTarget {
    pub buffer: usize,
    pub tier: SizeTier,
    pub base: usize,
    pub len: usize,
}

/// The ordered results of one exerciser pass.
pub struct TestRun {
    pub results: Vec<BufferResult>,
}

/// A result's outcome agrees with its discrepancy list: `Mismatch` exactly
/// when discrepancies were recorded, and an inconclusive cycle records
/// none.
pub open spec fn result_wf(r: BufferResult) -> bool {
    &&& (r.outcome == TestOutcome::Pass ==> r.discrepancies@.len() == 0)
    &&& (r.outcome == TestOutcome::Mismatch ==> r.discrepancies@.len() > 0)
    &&& (r.outcome == TestOutcome::Inconclusive ==> r.discrepancies@.len() == 0)
}

/// The fault lies within the four bytes of the word starting at absolute
/// address `addr`.
pub open spec fn fault_in_word(fault: Option<BitFault>, addr: int) -> bool {
    match fault {
        Some(f) => addr <= f.offset < addr + 4,
        None => false,
    }
}

/// The fault lies within `[base, base + len)`.
pub open spec fn fault_in_range(fault: Option<BitFault>, base: int, len: int) -> bool {
    match fault {
        Some(f) => base <= f.offset < base + len,
        None => false,
    }
}

/// The word read back from absolute address `addr` after a fill with `w`:
/// the pattern itself, or the pattern with the faulty bit inverted when the
/// fault lies in this word.
pub open spec fn observed_word(w: u32, fault: Option<BitFault>, addr: int) -> u32 {
    match fault {
        Some(f) => if addr <= f.offset < addr + 4 {
            w ^ word_mask(f.offset - addr, f.bit)
        } else {
            w
        },
        None => w,
    }
}

/// The buffer-relative byte offset of the word the fault falls in.
pub open spec fn fault_word_offset(f: BitFault, base: int) -> int {
    ((f.offset - base) / 4) * 4
}

/// Each discrepancy names the target's buffer, sits word-aligned inside the
/// buffer, points at the word the fault falls in, and carries the expected
/// pattern and the exact observed word, which differ.
pub open spec fn discrepancy_exact(
    d: Discrepancy,
    target: TestTarget,
    pattern: u32,
    fault: Option<BitFault>,
) -> bool {
    &&& d.buffer == target.buffer
    &&& d.offset % 4 == 0
    &&& d.offset + 4 <= target.len
    &&& fault_in_word(fault, target.base + d.offset)
    &&& d.expected == pattern
    &&& d.observed == observed_word(pattern, fault, target.base + d.offset)
    &&& d.observed != pattern
}

/// Everything a conclusive fill/readback/compare cycle owes: correct
/// identity fields; a pass exactly when the fault misses the buffer's
/// range; and a discrepancy list that is exact (every entry a real
/// mismatch with the observed word), complete (the faulty word, when in
/// range, is reported), and strictly ordered by offset.
pub open spec fn conclusive_result_for(
    r: BufferResult,
    target: TestTarget,
    pattern: u32,
    fault: Option<BitFault>,
) -> bool {
    &&& r.buffer == target.buffer
    &&& r.tier == target.tier
    &&& r.pattern == pattern
    &&& r.outcome != TestOutcome::Inconclusive
    &&& result_wf(r)
    &&& forall|d: int|
        0 <= d < r.discrepancies@.len() ==> discrepancy_exact(
            #[trigger] r.discrepancies@[d],
            target,
            pattern,
            fault,
        )
    &&& match fault {
        Some(f) => (target.base <= f.offset < target.base + target.len) ==> exists|d: int|
            0 <= d < r.discrepancies@.len() && (#[trigger] r.discrepancies@[d]).offset
                == fault_word_offset(f, target.base as int),
        None => true,
    }
    &&& forall|d1: int, d2: int|
        0 <= d1 < d2 < r.discrepancies@.len() ==> r.discrepancies@[d1].offset
            < r.discrepancies@[d2].offset
    &&& (!fault_in_range(fault, target.base as int, target.len as int) ==> r.outcome
        == TestOutcome::Pass)
    &&& (fault_in_range(fault, target.base as int, target.len as int) ==> r.outcome
        == TestOutcome::Mismatch)
}

/// What the word starting at `base + 4k` of a filled range reads back as.
proof fn lemma_word_value(
    mem: Seq<u8>,
    base: int,
    len: int,
    pattern: u32,
    fault: Option<BitFault>,
    k: int,
)
    requires
        0 <= base,
        0 <= k,
        4 * k + 4 <= len,
        base + len <= mem.len(),
        (match fault {
            Some(f) => f.bit < 8,
            None => true,
        }),
        forall|j: int|
            base <= j < base + len ==> #[trigger] mem[j] == flip_byte(
                word_byte(pattern, (j - base) % 4),
                fault,
                j,
            ),
    ensures
        word_at(mem, base + 4 * k) == observed_word(pattern, fault, base + 4 * k),
        fault_in_word(fault, base + 4 * k) ==> word_at(mem, base + 4 * k) != pattern,
        !fault_in_word(fault, base + 4 * k) ==> word_at(mem, base + 4 * k) == pattern,
{
    let addr = base + 4 * k;
    lemma_fundamental_div_mod_converse(addr - base, 4, k, 0);
    lemma_fundamental_div_mod_converse(addr + 1 - base, 4, k, 1);
    lemma_fundamental_div_mod_converse(addr + 2 - base, 4, k, 2);
    lemma_fundamental_div_mod_converse(addr + 3 - base, 4, k, 3);
    assert(mem[addr] == flip_byte(word_byte(pattern, 0), fault, addr));
    assert(mem[addr + 1] == flip_byte(word_byte(pattern, 1), fault, addr + 1));
    assert(mem[addr + 2] == flip_byte(word_byte(pattern, 2), fault, addr + 2));
    assert(mem[addr + 3] == flip_byte(word_byte(pattern, 3), fault, addr + 3));
    match fault {
        None => {
            lemma_word_roundtrip(pattern);
        },
        Some(f) => {
            if addr <= f.offset < addr + 4 {
                let jf = f.offset - addr;
                lemma_word_flip(pattern, jf, f.bit);
            } else {
                lemma_word_roundtrip(pattern);
            }
        },
    }
}

/// A result for a cycle that could not be submitted: `Inconclusive`, with
/// no discrepancy claimed.
pub fn inconclusive_result(buffer: usize, tier: SizeTier, pattern: u32) -> (r: BufferResult)
    ensures
        r.buffer == buffer,
        r.tier == tier,
        r.pattern == pattern,
        r.outcome == TestOutcome::Inconclusive,
        r.discrepancies@.len() == 0,
        result_wf(r),
{
    BufferResult {
        buffer,
        tier,
        pattern,
        outcome: TestOutcome::Inconclusive,
        discrepancies: Vec::new(),
    }
}

/// One fill/readback/compare cycle of one buffer against one pattern on
/// the software device: fill the buffer's whole extent with the pattern,
/// read every word back, record each mismatch. On known-good memory — the
/// fault absent or outside the buffer's range — the cycle yields zero
/// discrepancies and passes.
#[verifier::rlimit(30)]
pub fn exercise_target(dev: &mut MockDevice, target: TestTarget, pattern: u32) -> (r: BufferResult)
    requires
        old(dev).fault_ok(),
        target.base + target.len <= old(dev).mem().len(),
        target.len % 4 == 0,
    ensures
        final(dev).mem().len() == old(dev).mem().len(),
        final(dev).fault_state() == old(dev).fault_state(),
        final(dev).fault_ok(),
        conclusive_result_for(r, target, pattern, old(dev).fault_state()),
{
    let ghost fault = old(dev).fault_state();
    let base = target.base;
    let len = target.len;
    dev.fill(base, len, pattern);
    let total = dev.size();
    let mut discs: Vec<Discrepancy> = Vec::new();
    let nwords = len / 4;
    let mut k: usize = 0;
    while k < nwords
        invariant
            k <= nwords,
            nwords == len / 4,
            len % 4 == 0,
            base == target.base,
            len == target.len,
            total == dev.mem().len(),
            base + len <= total,
            base + len <= dev.mem().len(),
            fault == dev.fault_state(),
            dev.fault_ok(),
            dev.mem().len() == old(dev).mem().len(),
            fault == old(dev).fault_state(),
            forall|j: int|
                base <= j < base + len ==> #[trigger] dev.mem()[j] == flip_byte(
                    word_byte(pattern, (j - base) % 4),
                    fault,
                    j,
                ),
            forall|d: int|
                0 <= d < discs@.len() ==> discrepancy_exact(
                    #[trigger] discs@[d],
                    target,
                    pattern,
                    fault,
                ) && discs@[d].offset < 4 * k,
            match fault {
                Some(f) => (base <= f.offset < base + len && fault_word_offset(f, base as int) < 4
                    * k) ==> exists|d: int|
                    0 <= d < discs@.len() && (#[trigger] discs@[d]).offset == fault_word_offset(
                        f,
                        base as int,
                    ),
                None => true,
            },
            forall|d1: int, d2: int|
                0 <= d1 < d2 < discs@.len() ==> discs@[d1].offset < discs@[d2].offset,
        decreases nwords - k,
    {
        proof {
            vstd::arithmetic::div_mod::lemma_fundamental_div_mod(len as int, 4);
            assert(len == 4 * nwords);
            assert(4 * k + 4 <= 4 * nwords) by (nonlinear_arith)
                requires
                    k < nwords,
            ;
        }
        let addr = base + 4 * k;
        let observed = dev.read_word(addr);
        proof {
            lemma_word_value(dev.mem(), base as int, len as int, pattern, fault, k as int);
        }
        if observed != pattern {
            let ghost prev = discs@;
            discs.push(
                Discrepancy { buffer: target.buffer, offset: 4 * k, expected: pattern, observed },
            );
            proof {
                assert(discs@ == prev.push(
                    (Discrepancy {
                        buffer: target.buffer,
                        offset: (4 * k) as usize,
                        expected: pattern,
                        observed,
                    }),
                ));
                lemma_fundamental_div_mod_converse(4 * k, 4, k as int, 0);
                assert(fault_in_word(fault, base + 4 * k));
                if let Some(f) = fault {
                    assert(addr <= f.offset < addr + 4);
                    lemma_fundamental_div_mod_converse(f.offset - base, 4, k as int, f.offset
                        - base - 4 * k);
                    assert(fault_word_offset(f, base as int) == 4 * k);
                    assert(discs@[discs@.len() - 1].offset == fault_word_offset(f, base as int));
                }
            }
        } else {
            proof {
                assert(!fault_in_word(fault, base + 4 * k));
                if let Some(f) = fault {
                    if base <= f.offset < base + len && fault_word_offset(f, base as int) < 4 * (k
                        + 1) {
                        if fault_word_offset(f, base as int) >= 4 * k {
                            lemma_fundamental_div_mod_converse(f.offset - base, 4, k as int, f.offset
                                - base - 4 * k)
                            ;
                            assert(false);
                        }
                    }
                }
            }
        }
        k += 1;
    }
    proof {
        vstd::arithmetic::div_mod::lemma_fundamental_div_mod(len as int, 4);
        assert(len == 4 * nwords);
        if let Some(f) = fault {
            if base <= f.offset < base + len {
                assert(0 <= f.offset - base < len);
                assert(fault_word_offset(f, base as int) <= f.offset - base) by {
                    lemma_fundamental_div_mod_converse(f.offset - base, 4, (f.offset - base) / 4, (
                    f.offset - base) % 4);
                }
                assert(fault_word_offset(f, base as int) < 4 * nwords);
            }
        }
    }
    let outcome = if discs.len() == 0 {
        TestOutcome::Pass
    } else {
        TestOutcome::Mismatch
    };
    proof {
        if fault_in_range(fault, base as int, len as int) {
            assert(discs@.len() > 0);
        }
        if !fault_in_range(fault, base as int, len as int) {
            if discs@.len() > 0 {
                assert(discrepancy_exact(discs@[0], target, pattern, fault));
                assert(false);
            }
        }
    }
    let r = BufferResult {
        buffer: target.buffer,
        tier: target.tier,
        pattern,
        outcome,
        discrepancies: discs,
    };
    proof {
        assert(r.outcome != TestOutcome::Inconclusive);
        assert(result_wf(r));
        assert(forall|d: int|
            0 <= d < r.discrepancies@.len() ==> discrepancy_exact(
                #[trigger] r.discrepancies@[d],
                target,
                pattern,
                fault,
            ));
        assert(match fault {
            Some(f) => (target.base <= f.offset < target.base + target.len) ==> exists|d: int|
                0 <= d < r.discrepancies@.len() && (#[trigger] r.discrepancies@[d]).offset
                    == fault_word_offset(f, target.base as int),
            None => true,
        });
        assert(forall|d1: int, d2: int|
            0 <= d1 < d2 < r.discrepancies@.len() ==> r.discrepancies@[d1].offset
                < r.discrepancies@[d2].offset);
        assert(!fault_in_range(fault, target.base as int, target.len as int) ==> r.outcome
            == TestOutcome::Pass);
        assert(fault_in_range(fault, target.base as int, target.len as int) ==> r.outcome
            == TestOutcome::Mismatch);
        assert(conclusive_result_for(r, target, pattern, fault));
    }
    r
}

/// A single faulty cell inside a buffer's range yields exactly one
/// discrepancy per conclusive pattern pass: the one at the faulty word's
/// offset, expecting the pattern and observing the word with the faulty
/// bit inverted — and the cycle is a mismatch, never a pass.
pub proof fn lemma_single_fault_single_discrepancy(
    r: BufferResult,
    target: TestTarget,
    pattern: u32,
    f: BitFault,
)
    requires
        conclusive_result_for(r, target, pattern, Some(f)),
        target.base <= f.offset < target.base + target.len,
    ensures
        r.outcome == TestOutcome::Mismatch,
        r.discrepancies@.len() == 1,
        r.discrepancies@[0].offset == fault_word_offset(f, target.base as int),
        r.discrepancies@[0].expected == pattern,
        r.discrepancies@[0].observed == observed_word(
            pattern,
            Some(f),
            target.base + fault_word_offset(f, target.base as int),
        ),
        r.discrepancies@[0].observed != pattern,
{
    let base = target.base as int;
    assert forall|d: int|
        0 <= d < r.discrepancies@.len() implies (#[trigger] r.discrepancies@[d]).offset
        == fault_word_offset(f, base) by {
        let dd = r.discrepancies@[d];
        assert(discrepancy_exact(dd, target, pattern, Some(f)));
        let q = dd.offset as int / 4;
        vstd::arithmetic::div_mod::lemma_fundamental_div_mod(dd.offset as int, 4);
        assert(dd.offset == 4 * q);
        lemma_fundamental_div_mod_converse(f.offset - base, 4, q, f.offset - base - dd.offset);
        assert(fault_word_offset(f, base) == 4 * q);
    }
    assert(fault_in_range(Some(f), target.base as int, target.len as int));
    assert(r.discrepancies@.len() >= 1);
    if r.discrepancies@.len() >= 2 {
        assert(r.discrepancies@[0].offset < r.discrepancies@[1].offset);
        assert(false);
    }
}

/// One full exerciser pass: every pattern against every buffer, pattern
/// passes in order and buffers in order within each pass, fill and readback
/// of one buffer never interleaved with another's. The `i`-th result is
/// the cycle of buffer `i % targets.len()` under pattern
/// `i / targets.len()`, and every cycle is conclusive and exact; buffers
/// the fault misses pass with zero discrepancies.
pub fn run(dev: &mut MockDevice, targets: &Vec<TestTarget>, patterns: &Vec<u32>) -> (tr: TestRun)
    requires
        old(dev).fault_ok(),
        forall|t: int|
            0 <= t < targets@.len() ==> (#[trigger] targets@[t]).base + targets@[t].len <= old(
                dev,
            ).mem().len() && targets@[t].len % 4 == 0,
    ensures
        final(dev).mem().len() == old(dev).mem().len(),
        final(dev).fault_state() == old(dev).fault_state(),
        final(dev).fault_ok(),
        tr.results@.len() == patterns@.len() * targets@.len(),
        forall|i: int|
            0 <= i < tr.results@.len() ==> conclusive_result_for(
                #[trigger] tr.results@[i],
                targets@[i % (targets@.len() as int)],
                patterns@[i / (targets@.len() as int)],
                old(dev).fault_state(),
            ),
{
    let ghost fault = old(dev).fault_state();
    let n = targets.len();
    let mut results: Vec<BufferResult> = Vec::new();
    let mut p: usize = 0;
    while p < patterns.len()
        invariant
            p <= patterns@.len(),
            n == targets@.len(),
            dev.fault_ok(),
            dev.mem().len() == old(dev).mem().len(),
            dev.fault_state() == fault,
            fault == old(dev).fault_state(),
            forall|t: int|
                0 <= t < targets@.len() ==> (#[trigger] targets@[t]).base + targets@[t].len
                    <= dev.mem().len() && targets@[t].len % 4 == 0,
            results@.len() == p * n,
            forall|i: int|
                0 <= i < results@.len() ==> conclusive_result_for(
                    #[trigger] results@[i],
                    targets@[i % (n as int)],
                    patterns@[i / (n as int)],
                    fault,
                ),
        decreases patterns@.len() - p,
    {
        let mut t: usize = 0;
        while t < n
            invariant
                t <= n,
                p < patterns@.len(),
                n == targets@.len(),
                dev.fault_ok(),
                dev.mem().len() == old(dev).mem().len(),
                dev.fault_state() == fault,
                fault == old(dev).fault_state(),
                forall|tt: int|
                    0 <= tt < targets@.len() ==> (#[trigger] targets@[tt]).base + targets@[tt].len
                        <= dev.mem().len() && targets@[tt].len % 4 == 0,
                results@.len() == p * n + t,
                forall|i: int|
                    0 <= i < results@.len() ==> conclusive_result_for(
                        #[trigger] results@[i],
                        targets@[i % (n as int)],
                        patterns@[i / (n as int)],
                        fault,
                    ),
            decreases n - t,
        {
            let target = targets[t];
            let r = exercise_target(dev, target, patterns[p]);
            results.push(r);
            proof {
                let i0 = results@.len() - 1;
                assert(i0 == p * n + t);
                lemma_fundamental_div_mod_converse(i0, n as int, p as int, t as int);
                assert(results@[i0].buffer == targets@[t as int].buffer);
            }
            t += 1;
        }
        proof {
            assert(p * n + n == (p + 1) * n) by (nonlinear_arith);
        }
        p += 1;
    }
    proof {
        assert(results@.len() == patterns@.len() * targets@.len());
    }
    TestRun { results }
}

/// The canonical pattern pair: the all-zero word, then the all-one word. A
/// run is complete only after both have been exercised against every
/// buffer.
pub fn canonical_patterns() -> (v: Vec<u32>)
    ensures
        v@ =~= seq![PATTERN_ZEROS, PATTERN_ONES],
{
    let mut v: Vec<u32> = Vec::new();
    v.push(PATTERN_ZEROS);
    v.push(PATTERN_ONES);
    v
}

/// Classifies a readback delivered by a real device: compares every
/// observed word against the expected pattern and records each mismatch,
/// word-aligned and in order. The result passes exactly when every word
/// matched.
pub fn compare_readback(buffer: usize, tier: SizeTier, pattern: u32, observed: &Vec<u32>) -> (r:
    BufferResult)
    requires
        4 * observed@.len() <= usize::MAX,
    ensures
        r.buffer == buffer,
        r.tier == tier,
        r.pattern == pattern,
        r.outcome != TestOutcome::Inconclusive,
        result_wf(r),
        (r.outcome == TestOutcome::Pass <==> (forall|k: int|
            0 <= k < observed@.len() ==> #[trigger] observed@[k] == pattern)),
        forall|d: int|
            0 <= d < r.discrepancies@.len() ==> {
                let dd = #[trigger] r.discrepancies@[d];
                &&& dd.buffer == buffer
                &&& dd.expected == pattern
                &&& dd.offset % 4 == 0
                &&& dd.offset / 4 < observed@.len()
                &&& dd.observed == observed@[dd.offset as int / 4]
                &&& dd.observed != pattern
            },
        forall|k: int|
            0 <= k < observed@.len() && #[trigger] observed@[k] != pattern ==> exists|d: int|
                0 <= d < r.discrepancies@.len() && (#[trigger] r.discrepancies@[d]).offset == 4 * k,
        forall|d1: int, d2: int|
            0 <= d1 < d2 < r.discrepancies@.len() ==> r.discrepancies@[d1].offset
                < r.discrepancies@[d2].offset,
{
    let mut discs: Vec<Discrepancy> = Vec::new();
    let nwords = observed.len();
    let mut k: usize = 0;
    while k < nwords
        invariant
            k <= nwords,
            nwords == observed@.len(),
            4 * observed@.len() <= usize::MAX,
            forall|d: int|
                0 <= d < discs@.len() ==> {
                    let dd = #[trigger] discs@[d];
                    &&& dd.buffer == buffer
                    &&& dd.expected == pattern
                    &&& dd.offset % 4 == 0
                    &&& dd.offset / 4 < k
                    &&& dd.observed == observed@[dd.offset as int / 4]
                    &&& dd.observed != pattern
                    &&& dd.offset < 4 * k
                },
            forall|kk: int|
                0 <= kk < k && #[trigger] observed@[kk] != pattern ==> exists|d: int|
                    0 <= d < discs@.len() && (#[trigger] discs@[d]).offset == 4 * kk,
            forall|d1: int, d2: int|
                0 <= d1 < d2 < discs@.len() ==> discs@[d1].offset < discs@[d2].offset,
        decreases nwords - k,
    {
        let w = observed[k];
        if w != pattern {
            let ghost prev = discs@;
            discs.push(Discrepancy { buffer, offset: 4 * k, expected: pattern, observed: w });
            proof {
                lemma_fundamental_div_mod_converse(4 * k, 4, k as int, 0);
                assert(discs@[discs@.len() - 1].offset == 4 * k);
                assert forall|kk: int|
                    0 <= kk < k + 1 && #[trigger] observed@[kk] != pattern implies exists|d: int|
                    0 <= d < discs@.len() && (#[trigger] discs@[d]).offset == 4 * kk by {
                    if kk == k {
                        assert(discs@[discs@.len() - 1].offset == 4 * kk);
                    } else {
                        let d = choose|d: int|
                            0 <= d < prev.len() && (#[trigger] prev[d]).offset == 4 * kk;
                        assert(discs@[d].offset == 4 * kk);
                    }
                }
            }
        }
        k += 1;
    }
    let outcome = if discs.len() == 0 {
        TestOutcome::Pass
    } else {
        TestOutcome::Mismatch
    };
    proof {
        if discs@.len() > 0 {
            let dd = discs@[0];
            assert(observed@[dd.offset as int / 4] != pattern);
        }
    }
    BufferResult { buffer, tier, pattern, outcome, discrepancies: discs }
}

} // verus!
