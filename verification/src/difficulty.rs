//! Difficulty retargeting.
//!
//! Away from an adjustment boundary a candidate inherits its parent's
//! target. On a boundary the walk goes back through consecutively
//! sealed ancestors to the prior boundary, or to the last sealed
//! ancestor before a gap, and the new target is the parent's times the
//! time the span took, saturating, divided by the time it should have
//! taken.

use vstd::prelude::*;

verus! {

use crate::errors::PowError;
use crate::u256::{U256, u256_bound};

/// The retargeting inputs the runtime fixes.
pub struct PowParams {
    /// The target of the genesis chain, used before any seal exists.
    pub genesis_difficulty: U256,
    /// The adjustment period in blocks.
    pub difficulty_adj: u64,
    /// The intended spacing of blocks, in seconds.
    pub target_block_time: u64,
}

/// What the difficulty engine reads of one ancestor: its height and,
/// when it is sealed, the seal's target and time.
#[derive(Clone, Copy)]
pub struct ChainEntry {
    pub number: u64,
    pub seal: Option<(U256, u64)>,
}

/// The boundary the walk stops at, starting from position `i`: the
/// prior adjustment height, or the last sealed entry before a gap.
/// Nothing when the entries run out first.
pub open spec fn spec_boundary(entries: Seq<ChainEntry>, adj: u64, i: int) -> Option<(u64, u64)>
    decreases entries.len() - i,
{
    if !(0 <= i < entries.len()) || !(entries[i].seal is Some) {
        None
    } else {
        let e = entries[i];
        let t = e.seal->Some_0.1;
        if e.number % adj == 0 {
            Some((e.number, t))
        } else if i + 1 < entries.len() {
            if entries[i + 1].seal is Some {
                spec_boundary(entries, adj, i + 1)
            } else {
                Some((e.number, t))
            }
        } else {
            None
        }
    }
}

/// `min(a * b, u64::MAX)`.
pub open spec fn spec_sat_mul(a: nat, b: nat) -> nat {
    if a * b > u64::MAX {
        u64::MAX as nat
    } else {
        a * b
    }
}

/// The retargeted value: the old target scaled by the actual span,
/// saturating at the largest target, then divided by the expected
/// span. Scaling first loses less precision than dividing first.
pub open spec fn spec_retarget(curr: nat, expected: nat, actual: nat) -> nat {
    if curr * actual >= u256_bound() {
        ((u256_bound() - 1) as nat) / expected
    } else {
        (curr * actual) / expected
    }
}

/// The target of a candidate at height `number` stamped `now`, over
/// the ancestor entries, parent first. Nothing when the entries do not
/// reach a boundary or the boundary leaves no time span to scale by.
pub open spec fn spec_calc_difficulty(
    params: PowParams,
    number: u64,
    now: u64,
    entries: Seq<ChainEntry>,
) -> Option<nat> {
    if entries.len() == 0 {
        None
    } else if number % params.difficulty_adj != 0 {
        Some(
            match entries[0].seal {
                Some(s) => s.0.value(),
                None => params.genesis_difficulty.value(),
            },
        )
    } else {
        match entries[0].seal {
            None => None,
            Some(s) => match spec_boundary(entries, params.difficulty_adj, 0) {
                None => None,
                Some(b) => {
                    let gap = if number > b.0 {
                        (number - b.0) as nat
                    } else {
                        0
                    };
                    let expected = spec_sat_mul(spec_sat_mul(params.target_block_time as nat, 1000),
                        gap);
                    let actual = if now > b.1 {
                        (now - b.1) as nat
                    } else {
                        0
                    };
                    if expected == 0 {
                        None
                    } else {
                        Some(spec_retarget(s.0.value(), expected, actual))
                    }
                },
            },
        }
    }
}

/// `min(a * b, u64::MAX)` on machine words.
pub fn sat_mul_u64(a: u64, b: u64) -> (r: u64)
    ensures
        r == spec_sat_mul(a as nat, b as nat),
{
    proof {
        assert((a as int) * (b as int) < 0x100000000000000000000000000000000) by (nonlinear_arith)
            requires
                a <= 0xffffffffffffffff,
                b <= 0xffffffffffffffff,
        ;
    }
    let p = (a as u128) * (b as u128);
    if p > u64::MAX as u128 {
        u64::MAX
    } else {
        p as u64
    }
}

/// The target for a candidate at height `number` stamped `now`, given
/// its ancestors, parent first. Fails exactly where the ancestor
/// entries do not determine a target.
pub fn calc_difficulty(
    params: &PowParams,
    number: u64,
    now: u64,
    ancestors: &Vec<ChainEntry>,
) -> (r: Result<U256, PowError>)
    requires
        params.difficulty_adj >= 1,
    ensures
        match r {
            Ok(d) => spec_calc_difficulty(*params, number, now, ancestors@) == Some(d.value()),
            Err(e) => spec_calc_difficulty(*params, number, now, ancestors@) is None && e
                is ClientImport,
        },
{
    if ancestors.len() == 0 {
        return Err(PowError::ClientImport("missing parent".to_owned()));
    }
    let parent = ancestors[0];
    if number % params.difficulty_adj != 0 {
        return Ok(
            match parent.seal {
                Some((d, _)) => d,
                None => params.genesis_difficulty,
            },
        );
    }
    let (curr_difficulty, _) = match parent.seal {
        Some(s) => s,
        None => {
            return Err(PowError::ClientImport("unsealed parent at adjustment".to_owned()));
        },
    };
    // walk back to the boundary
    let n = ancestors.len();
    let mut i: usize = 0;
    let mut boundary: Option<(u64, u64)> = None;
    while i < n
        invariant_except_break
            boundary is None,
        invariant
            0 <= i < n,
            n == ancestors@.len(),
            ancestors@[i as int].seal is Some,
            spec_boundary(ancestors@, params.difficulty_adj, 0) == spec_boundary(
                ancestors@,
                params.difficulty_adj,
                i as int,
            ),
            params.difficulty_adj >= 1,
        ensures
            match boundary {
                Some(b) => spec_boundary(ancestors@, params.difficulty_adj, 0) == Some(b),
                None => spec_boundary(ancestors@, params.difficulty_adj, 0) is None,
            },
        decreases n - i,
    {
        let e = ancestors[i];
        let et = match e.seal {
            Some((_, t)) => t,
            None => 0,
        };
        if e.number % params.difficulty_adj == 0 {
            boundary = Some((e.number, et));
            break;
        }
        if i + 1 < n {
            match ancestors[i + 1].seal {
                Some(_) => {
                    i = i + 1;
                },
                None => {
                    boundary = Some((e.number, et));
                    break;
                },
            }
        } else {
            break;
        }
    }
    let (last_num, last_time) = match boundary {
        Some(b) => b,
        None => {
            return Err(PowError::ClientImport("chain too short for adjustment".to_owned()));
        },
    };
    let gap: u64 = if number > last_num {
        number - last_num
    } else {
        0
    };
    let expected = sat_mul_u64(sat_mul_u64(params.target_block_time, 1000), gap);
    let actual: u64 = if now > last_time {
        now - last_time
    } else {
        0
    };
    if expected == 0 {
        return Err(PowError::ClientImport("empty adjustment span".to_owned()));
    }
    let new_difficulty = curr_difficulty.saturating_mul_u64(actual).div_u64(expected);
    Ok(new_difficulty)
}

/// At an adjustment boundary the retargeted value divides by the
/// actual span exactly as the old target divides by the expected span:
/// aside from saturation, `new / actual == old / expected`, so the
/// target moves by the ratio of the spans up to integer-division
/// error.
pub proof fn lemma_retarget_ratio(curr: nat, expected: nat, actual: nat)
    requires
        expected >= 1,
        actual >= 1,
        curr * actual < u256_bound(),
    ensures
        spec_retarget(curr, expected, actual) == (curr * actual) / expected,
        spec_retarget(curr, expected, actual) / actual == curr / expected,
{
    let prod: int = (curr * actual) as int;
    let e: int = expected as int;
    let a: int = actual as int;
    let c: int = curr as int;
    assert((prod / e) / a == prod / (e * a)) by {
        vstd::arithmetic::div_mod::lemma_div_denominator(prod, e, a);
    }
    assert(prod == c * a);
    assert(c * a == a * c) by (nonlinear_arith);
    assert(e * a == a * e) by (nonlinear_arith);
    assert((a * c) / (a * e) == c / e) by {
        vstd::arithmetic::div_mod::lemma_div_multiples_vanish_quotient(a, c, e);
    }
}

} // verus!