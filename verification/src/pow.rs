//! The proof-of-work seal.
//!
//! A sealed header ends in a seal digest item naming the producer, the
//! difficulty target, the production time and a work proof. The proof
//! is valid when the BLAKE2b digest of the pre-hash followed by the
//! seal fields, read as a big-endian number, is at most the target.

use vstd::prelude::*;

verus! {

use crate::bytes::{be_seq, le_seq, be_value, p256, clone_bytes, push_bytes};
use crate::bytes::{lemma_be_seq_value, lemma_le_seq_value, lemma_be_value_unique,
    lemma_le_value_unique};
use crate::codec::push_le_bytes_u64;
use crate::crypto::{blake2b_256, blake2b_256_of};
use crate::u256::U256;

/// A nonce proof: an entropy prefix and the nonce that was found.
pub struct ProofNonce {
    pub extra_data: Vec<u8>,
    pub nonce: u64,
}

/// The work proof carried by a seal.
pub enum WorkProof {
    Unknown,
    Nonce(ProofNonce),
}

/// The final digest item of a sealed header.
pub struct PowSeal {
    pub authority_id: Vec<u8>,
    pub difficulty: U256,
    pub timestamp: u64,
    pub work_proof: WorkProof,
}

impl ProofNonce {
    /// The prefix cut or zero-padded to `len` bytes.
    pub open spec fn spec_padded(prefix: Seq<u8>, len: nat) -> Seq<u8> {
        Seq::new(len, |i: int| if i < prefix.len() { prefix[i] } else { 0u8 })
    }

    /// A nonce proof whose entropy is `prefix` cut or zero-padded to
    /// `len` bytes.
    pub fn get_with_prefix_len(prefix: &[u8], len: usize, nonce: u64) -> (r: ProofNonce)
        ensures
            r.extra_data@ == Self::spec_padded(prefix@, len as nat),
            r.nonce == nonce,
    {
        let mut extra: Vec<u8> = Vec::new();
        let mut i: usize = 0;
        while i < len
            invariant
                0 <= i <= len,
                extra@ =~= Self::spec_padded(prefix@, len as nat).subrange(0, i as int),
            decreases len - i,
        {
            let b: u8 = if i < prefix.len() {
                prefix[i]
            } else {
                0
            };
            extra.push(b);
            proof {
                assert(Self::spec_padded(prefix@, len as nat).subrange(0, i + 1)
                    =~= Self::spec_padded(prefix@, len as nat).subrange(0, i as int).push(b));
            }
            i = i + 1;
        }
        proof {
            assert(Self::spec_padded(prefix@, len as nat).subrange(0, len as int)
                =~= Self::spec_padded(prefix@, len as nat));
        }
        ProofNonce { extra_data: extra, nonce }
    }
}

/// The bytes of a work proof: a tag, then for a nonce proof the
/// length-framed entropy and the nonce.
pub open spec fn spec_proof_bytes(p: WorkProof) -> Seq<u8> {
    match p {
        WorkProof::Unknown => seq![0u8],
        WorkProof::Nonce(pn) => seq![1u8] + le_seq(pn.extra_data@.len(), 8) + pn.extra_data@
            + le_seq(pn.nonce as nat, 8),
    }
}

/// The bytes of a seal: producer, target, time, proof.
pub open spec fn spec_seal_bytes(s: PowSeal) -> Seq<u8> {
    s.authority_id@ + be_seq(s.difficulty.value(), 32) + le_seq(s.timestamp as nat, 8)
        + spec_proof_bytes(s.work_proof)
}

/// The input of the work check: the pre-hash followed by the seal.
pub open spec fn spec_work_input(s: PowSeal, pre_hash: Seq<u8>) -> Seq<u8> {
    pre_hash + spec_seal_bytes(s)
}

/// Whether a seal's work proof meets its own difficulty target on the
/// given pre-hash.
pub open spec fn seal_meets_target(s: PowSeal, pre_hash: Seq<u8>) -> bool {
    be_value(blake2b_256_of(spec_work_input(s, pre_hash))) <= s.difficulty.value()
}

/// Append the bytes of a work proof.
pub fn push_proof_bytes(out: &mut Vec<u8>, p: &WorkProof)
    ensures
        final(out)@ =~= old(out)@ + spec_proof_bytes(*p),
{
    match p {
        WorkProof::Unknown => {
            out.push(0u8);
            proof {
                assert(out@ =~= old(out)@ + seq![0u8]);
            }
        },
        WorkProof::Nonce(pn) => {
            out.push(1u8);
            let ghost s1 = out@;
            proof {
                reveal_with_fuel(p256, 9);
            }
            push_le_bytes_u64(out, pn.extra_data.len() as u64, 8);
            let ghost s2 = out@;
            proof {
                let seg = s2.subrange(s1.len() as int, s2.len() as int);
                lemma_le_seq_value(pn.extra_data@.len(), 8);
                lemma_le_value_unique(seg, le_seq(pn.extra_data@.len(), 8));
                assert(s2 =~= s1 + le_seq(pn.extra_data@.len(), 8));
            }
            push_bytes(out, pn.extra_data.as_slice());
            let ghost s3 = out@;
            push_le_bytes_u64(out, pn.nonce, 8);
            proof {
                let seg = out@.subrange(s3.len() as int, out@.len() as int);
                lemma_le_seq_value(pn.nonce as nat, 8);
                lemma_le_value_unique(seg, le_seq(pn.nonce as nat, 8));
                assert(out@ =~= s3 + le_seq(pn.nonce as nat, 8));
                assert(s1 =~= old(out)@ + seq![1u8]);
                assert(out@ =~= old(out)@ + spec_proof_bytes(*p));
            }
        },
    }
}

/// Append the bytes of a seal.
pub fn push_seal_bytes(out: &mut Vec<u8>, s: &PowSeal)
    ensures
        final(out)@ =~= old(out)@ + spec_seal_bytes(*s),
{
    push_bytes(out, s.authority_id.as_slice());
    let ghost s1 = out@;
    let diff = s.difficulty.to_be_bytes();
    proof {
        s.difficulty.lemma_value_bound();
        assert(p256(32) == crate::u256::u256_bound()) by {
            reveal_with_fuel(p256, 33);
        }
        lemma_be_seq_value(s.difficulty.value(), 32);
        lemma_be_value_unique(diff@, be_seq(s.difficulty.value(), 32));
    }
    push_bytes(out, diff.as_slice());
    let ghost s2 = out@;
    proof {
        reveal_with_fuel(p256, 9);
    }
    push_le_bytes_u64(out, s.timestamp, 8);
    let ghost s3 = out@;
    proof {
        let seg = s3.subrange(s2.len() as int, s3.len() as int);
        lemma_le_seq_value(s.timestamp as nat, 8);
        lemma_le_value_unique(seg, le_seq(s.timestamp as nat, 8));
        assert(s3 =~= s2 + le_seq(s.timestamp as nat, 8));
    }
    push_proof_bytes(out, &s.work_proof);
    proof {
        assert(out@ =~= old(out)@ + spec_seal_bytes(*s));
    }
}

/// The work-check input: the pre-hash followed by the seal bytes.
pub fn work_input(s: &PowSeal, pre_hash: &[u8]) -> (r: Vec<u8>)
    ensures
        r@ == spec_work_input(*s, pre_hash@),
{
    let mut out = clone_bytes(pre_hash);
    push_seal_bytes(&mut out, s);
    proof {
        assert(out@ =~= spec_work_input(*s, pre_hash@));
    }
    out
}

impl PowSeal {
    /// Whether this seal's work proof meets its target on `pre_hash`.
    pub fn check_seal(&self, pre_hash: &[u8]) -> (r: bool)
        ensures
            r == seal_meets_target(*self, pre_hash@),
    {
        let input = work_input(self, pre_hash);
        let digest = blake2b_256(input.as_slice());
        let work = U256::from_be_bytes(digest.as_slice());
        work.le(&self.difficulty)
    }
}

} // verus!
