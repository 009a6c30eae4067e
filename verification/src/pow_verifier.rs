//! Verification of incoming sealed headers.
//!
//! A header is accepted when its last digest item is a seal, the work
//! hash over the pre-hash meets the seal's own target, that target
//! equals the independently recomputed difficulty, and the seal's time
//! advances the parent's without running ahead of the local clock by
//! more than the skew bound. Every rejection names its reason.

use vstd::prelude::*;

verus! {

use crate::bytes::{le_seq, p256, lemma_le_seq_value, lemma_le_value_unique, push_bytes,
    clone_bytes};
use crate::codec::push_le_bytes_u64;
use crate::crypto::{blake2b_256, blake2b_256_of};
use crate::difficulty::{PowParams, ChainEntry, spec_calc_difficulty, calc_difficulty};
use crate::errors::VerifyError;
use crate::header::{Header, DigestItem, spec_digest_bytes};
use crate::pow::seal_meets_target;

/// The bytes of a header with its final digest item left out: what the
/// pre-hash is taken over.
pub open spec fn spec_pre_header_bytes(h: Header) -> Seq<u8> {
    h.parent_hash@ + le_seq(h.number as nat, 8) + h.state_root@ + h.extrinsics_root@ + le_seq(
        (h.digest@.len() - 1) as nat,
        8,
    ) + spec_digest_bytes(h.digest@.drop_last())
}

/// The pre-hash of a sealed header.
pub open spec fn spec_pre_hash(h: Header) -> Seq<u8> {
    blake2b_256_of(spec_pre_header_bytes(h))
}

/// The verifier's verdict on a header, given the parent's seal time,
/// the local clock, the allowed skew and the ancestor entries.
pub open spec fn spec_verify(
    params: PowParams,
    h: Header,
    parent_timestamp: u64,
    now: u64,
    clock_skew: u64,
    entries: Seq<ChainEntry>,
) -> Result<(), VerifyError> {
    if h.digest@.len() == 0 || !(h.digest@.last() is Seal) {
        Err(VerifyError::BadSeal)
    } else {
        let seal = h.digest@.last()->Seal_0;
        if !seal_meets_target(seal, spec_pre_hash(h)) {
            Err(VerifyError::BadWork)
        } else {
            match spec_calc_difficulty(params, h.number, seal.timestamp, entries) {
                None => Err(VerifyError::UnknownParent),
                Some(d) => {
                    if d != seal.difficulty.value() {
                        Err(VerifyError::BadDifficulty)
                    } else if !(seal.timestamp > parent_timestamp && seal.timestamp <= now
                        + clock_skew) {
                        Err(VerifyError::BadTimestamp)
                    } else {
                        Ok(())
                    }
                },
            }
        }
    }
}

/// The bytes of `h` with its final digest item left out.
pub fn pre_header_bytes(h: &Header) -> (r: Vec<u8>)
    requires
        h.digest@.len() >= 1,
    ensures
        r@ == spec_pre_header_bytes(*h),
{
    let mut out = clone_bytes(h.parent_hash.as_slice());
    proof {
        reveal_with_fuel(p256, 9);
    }
    push_le_bytes_u64(&mut out, h.number, 8);
    let ghost s1 = out@;
    proof {
        let seg = s1.subrange(h.parent_hash@.len() as int, s1.len() as int);
        lemma_le_seq_value(h.number as nat, 8);
        lemma_le_value_unique(seg, le_seq(h.number as nat, 8));
        assert(s1 =~= h.parent_hash@ + le_seq(h.number as nat, 8));
    }
    push_bytes(&mut out, h.state_root.as_slice());
    push_bytes(&mut out, h.extrinsics_root.as_slice());
    let ghost s2 = out@;
    let n = h.digest.len() - 1;
    push_le_bytes_u64(&mut out, n as u64, 8);
    let ghost s3 = out@;
    proof {
        let seg = s3.subrange(s2.len() as int, s3.len() as int);
        lemma_le_seq_value(n as nat, 8);
        lemma_le_value_unique(seg, le_seq(n as nat, 8));
        assert(s3 =~= s2 + le_seq((h.digest@.len() - 1) as nat, 8));
    }
    let mut i: usize = 0;
    while i < n
        invariant
            0 <= i <= n,
            n == h.digest@.len() - 1,
            out@ =~= s3 + spec_digest_bytes(h.digest@.subrange(0, i as int)),
        decreases n - i,
    {
        crate::header::push_digest_item_bytes(&mut out, &h.digest[i]);
        proof {
            let pre = h.digest@.subrange(0, i as int);
            let cur = h.digest@.subrange(0, i + 1);
            assert(cur.drop_last() =~= pre);
            assert(cur.last() == h.digest@[i as int]);
        }
        i = i + 1;
    }
    proof {
        assert(h.digest@.subrange(0, n as int) =~= h.digest@.drop_last());
        assert(out@ =~= spec_pre_header_bytes(*h));
    }
    out
}

/// The pre-hash of a sealed header.
pub fn pre_hash(h: &Header) -> (r: Vec<u8>)
    requires
        h.digest@.len() >= 1,
    ensures
        r@ == spec_pre_hash(*h),
        r@.len() == 32,
{
    let bytes = pre_header_bytes(h);
    blake2b_256(bytes.as_slice())
}

/// Verify one incoming header against its parent data and the local
/// clock, rejecting exactly where the verdict says.
pub fn verify_header(
    params: &PowParams,
    h: &Header,
    parent_timestamp: u64,
    now: u64,
    clock_skew: u64,
    ancestors: &Vec<ChainEntry>,
) -> (r: Result<(), VerifyError>)
    requires
        params.difficulty_adj >= 1,
        now + clock_skew <= u64::MAX,
    ensures
        r == spec_verify(*params, *h, parent_timestamp, now, clock_skew, ancestors@),
{
    if h.digest.len() == 0 {
        return Err(VerifyError::BadSeal);
    }
    let last = h.digest.len() - 1;
    let seal = match &h.digest[last] {
        DigestItem::Seal(s) => s,
        DigestItem::Other(_) => {
            return Err(VerifyError::BadSeal);
        },
    };
    proof {
        assert(h.digest@.last() == h.digest@[last as int]);
    }
    let pre = pre_hash(h);
    if !seal.check_seal(pre.as_slice()) {
        return Err(VerifyError::BadWork);
    }
    let d = match calc_difficulty(params, h.number, seal.timestamp, ancestors) {
        Ok(d) => d,
        Err(_) => {
            return Err(VerifyError::UnknownParent);
        },
    };
    if !(d.le(&seal.difficulty) && seal.difficulty.le(&d)) {
        return Err(VerifyError::BadDifficulty);
    }
    if !(seal.timestamp > parent_timestamp && seal.timestamp <= now + clock_skew) {
        return Err(VerifyError::BadTimestamp);
    }
    Ok(())
}

/// A sealed header in canonical shape is accepted, and its recorded
/// target is the recomputed difficulty: acceptance asks no more than
/// the four named checks.
pub proof fn lemma_verify_accepts_canonical(
    params: PowParams,
    h: Header,
    parent_timestamp: u64,
    now: u64,
    clock_skew: u64,
    entries: Seq<ChainEntry>,
)
    requires
        h.digest@.len() >= 1,
        h.digest@.last() is Seal,
        seal_meets_target(h.digest@.last()->Seal_0, spec_pre_hash(h)),
        spec_calc_difficulty(params, h.number, h.digest@.last()->Seal_0.timestamp, entries)
            == Some(h.digest@.last()->Seal_0.difficulty.value()),
        h.digest@.last()->Seal_0.timestamp > parent_timestamp,
        h.digest@.last()->Seal_0.timestamp <= now + clock_skew,
    ensures
        spec_verify(params, h, parent_timestamp, now, clock_skew, entries) is Ok,
{
}

} // verus!
