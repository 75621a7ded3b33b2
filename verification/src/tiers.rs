//! Size-tier policy: three unit constants (kilobyte, megabyte, gigabyte) and
//! ten geometric steps per tier, giving the graduated series of buffer sizes
//! `unit << 0 .. unit << 9` that the exerciser allocates.

use vstd::prelude::*;

verus! {

pub const KILOBYTE: u64 = 1024;
pub const MEGABYTE: u64 = 1024 * 1024;
pub const GIGABYTE: u64 = 1024 * 1024 * 1024;

/// Geometric steps per size class.
pub const TIER_STEPS: usize = 10;

/// The three size classes a test buffer can belong to.
#[derive(Clone, Copy, Debug, PartialEq, Eq, Structural)]
pub enum SizeTier {
    Kilobyte,
    Megabyte,
    Gigabyte,
}

/// The unit a tier's sizes are multiples of.
pub open spec fn tier_unit(t: SizeTier) -> u64 {
    match t {
        SizeTier::Kilobyte => KILOBYTE,
        SizeTier::Megabyte => MEGABYTE,
        SizeTier::Gigabyte => GIGABYTE,
    }
}

/// Size of the `step`-th buffer of tier `t`: the tier's unit times
/// two to the `step` (for steps below ten the shift never overflows).
pub open spec fn tier_size(t: SizeTier, step: u64) -> u64 {
    tier_unit(t) << step
}

/// Runtime unit of a tier.
pub fn unit_of(t: SizeTier) -> (r: u64)
    ensures
        r == tier_unit(t),
{
    match t {
        SizeTier::Kilobyte => KILOBYTE,
        SizeTier::Megabyte => MEGABYTE,
        SizeTier::Gigabyte => GIGABYTE,
    }
}

/// The ten buffer sizes of one tier, in ascending step order.
pub fn tier_sizes(t: SizeTier) -> (v: Vec<u64>)
    ensures
        v@.len() == TIER_STEPS,
        forall|k: int| 0 <= k < v@.len() ==> #[trigger] v@[k] == tier_size(t, k as u64),
{
    let unit = unit_of(t);
    let mut v: Vec<u64> = Vec::new();
    let mut step: usize = 0;
    while step < TIER_STEPS
        invariant
            step <= TIER_STEPS,
            unit == tier_unit(t),
            v@.len() == step,
            forall|k: int| 0 <= k < step ==> #[trigger] v@[k] == tier_size(t, k as u64),
        decreases TIER_STEPS - step,
    {
        v.push(unit << step);
        proof {
            assert(unit << step == unit << (step as u64)) by (bit_vector);
        }
        step += 1;
    }
    v
}

/// The tier of the `k`-th entry of the thirty-buffer plan: steps zero
/// through nine of the kilobyte tier, then of the megabyte tier, then of
/// the gigabyte tier.
pub open spec fn plan_tier(k: int) -> SizeTier {
    if k < 10 {
        SizeTier::Kilobyte
    } else if k < 20 {
        SizeTier::Megabyte
    } else {
        SizeTier::Gigabyte
    }
}

/// The full graduated plan: thirty (tier, size) pairs, ten geometric steps
/// for each of the three tiers.
pub fn plan_sizes() -> (v: Vec<(SizeTier, u64)>)
    ensures
        v@.len() == 30,
        forall|k: int|
            0 <= k < 30 ==> #[trigger] v@[k] == (plan_tier(k), tier_size(plan_tier(k), (k % 10) as u64)),
{
    let mut v: Vec<(SizeTier, u64)> = Vec::new();
    let tiers: [SizeTier; 3] = [SizeTier::Kilobyte, SizeTier::Megabyte, SizeTier::Gigabyte];
    let mut t: usize = 0;
    while t < 3
        invariant
            t <= 3,
            tiers@ == seq![SizeTier::Kilobyte, SizeTier::Megabyte, SizeTier::Gigabyte],
            v@.len() == t * 10,
            forall|k: int|
                0 <= k < v@.len() ==> #[trigger] v@[k] == (plan_tier(k), tier_size(
                    plan_tier(k),
                    (k % 10) as u64,
                )),
        decreases 3 - t,
    {
        let tier = tiers[t];
        let sizes = tier_sizes(tier);
        let mut s: usize = 0;
        while s < TIER_STEPS
            invariant
                s <= TIER_STEPS,
                t < 3,
                tier == tiers@[t as int],
                tiers@ == seq![SizeTier::Kilobyte, SizeTier::Megabyte, SizeTier::Gigabyte],
                sizes@.len() == TIER_STEPS,
                forall|k: int|
                    0 <= k < sizes@.len() ==> #[trigger] sizes@[k] == tier_size(tier, k as u64),
                v@.len() == t * 10 + s,
                forall|k: int|
                    0 <= k < v@.len() ==> #[trigger] v@[k] == (plan_tier(k), tier_size(
                        plan_tier(k),
                        (k % 10) as u64,
                    )),
            decreases TIER_STEPS - s,
        {
            v.push((tier, sizes[s]));
            proof {
                let k = v@.len() - 1;
                assert(k == t * 10 + s);
                assert(plan_tier(k) == tier);
                assert(k % 10 == s) by (nonlinear_arith)
                    requires
                        k == t * 10 + s,
                        0 <= s < 10,
                        0 <= t < 3,
                ;
            }
            s += 1;
        }
        t += 1;
    }
    v
}

} // verus!
