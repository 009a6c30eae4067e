//! The mining worker.
//!
//! Each cycle the worker reads the best header, asks for a candidate
//! body, computes the target and the time, and searches nonces in
//! order. The first nonce whose work hash meets the target seals the
//! candidate; a full sweep without one ends the cycle empty. The
//! polling loop around the search only decides among stopping, waiting
//! and mining; the waiting itself stays outside the library.

use vstd::prelude::*;

verus! {

use crate::bytes::{be_seq, le_seq, clone_bytes, p256, lemma_be_seq_value, lemma_le_seq_value};
use crate::difficulty::{PowParams, ChainEntry, spec_calc_difficulty, calc_difficulty};
use crate::errors::PowError;
use crate::header::{Header, DigestItem, spec_header_hash};
use crate::pow::{PowSeal, WorkProof, ProofNonce, spec_work_input, seal_meets_target};
use crate::crypto::blake2b_256_of;
use crate::bytes::be_value;
use crate::u256::U256;

/// The entropy prefix every mined seal carries.
pub const MINING_PREFIX: &'static str = "yeeroot-";

/// The length the prefix is padded to inside the seal.
pub const MINING_PREFIX_LEN: usize = 12;

/// Whether the given nonce, under the given seal fields, meets a
/// target of the given value on `pre_hash`.
pub open spec fn spec_nonce_meets(
    authority_id: Seq<u8>,
    difficulty: nat,
    timestamp: u64,
    extra: Seq<u8>,
    nonce: u64,
    pre_hash: Seq<u8>,
) -> bool {
    be_value(
        blake2b_256_of(
            pre_hash + authority_id + be_seq(difficulty, 32) + le_seq(timestamp as nat, 8)
                + (seq![1u8] + le_seq(extra.len(), 8) + extra + le_seq(nonce as nat, 8)),
        ),
    ) <= difficulty
}

/// The entropy prefix as bytes.
pub open spec fn spec_mining_prefix() -> Seq<u8> {
    seq![121u8, 101u8, 101u8, 114u8, 111u8, 111u8, 116u8, 45u8]
}

/// The entropy prefix as bytes.
pub fn mining_prefix() -> (r: Vec<u8>)
    ensures
        r@ == spec_mining_prefix(),
{
    let v: Vec<u8> = vec![121u8, 101u8, 101u8, 114u8, 111u8, 111u8, 116u8, 45u8];
    proof {
        assert(v@ =~= spec_mining_prefix());
    }
    v
}

/// Search nonces `0..iter` in order; the result is the first one that
/// meets the target, sealed, or nothing when none does.
pub fn mine(
    authority_id: &[u8],
    difficulty: &U256,
    timestamp: u64,
    pre_hash: &[u8],
    prefix: &[u8],
    prefix_len: usize,
    iter: u64,
) -> (r: Option<PowSeal>)
    ensures
        match r {
            Some(seal) => {
                &&& seal.authority_id@ == authority_id@
                &&& seal.difficulty == *difficulty
                &&& seal.timestamp == timestamp
                &&& seal.work_proof matches WorkProof::Nonce(pn) && {
                    &&& pn.extra_data@ == ProofNonce::spec_padded(prefix@, prefix_len as nat)
                    &&& pn.nonce < iter
                    &&& spec_nonce_meets(
                        authority_id@,
                        difficulty.value(),
                        timestamp,
                        pn.extra_data@,
                        pn.nonce,
                        pre_hash@,
                    )
                    &&& forall|j: u64|
                        j < pn.nonce ==> !spec_nonce_meets(
                            authority_id@,
                            difficulty.value(),
                            timestamp,
                            ProofNonce::spec_padded(prefix@, prefix_len as nat),
                            j,
                            pre_hash@,
                        )
                }
            },
            None => forall|j: u64|
                j < iter ==> !spec_nonce_meets(
                    authority_id@,
                    difficulty.value(),
                    timestamp,
                    ProofNonce::spec_padded(prefix@, prefix_len as nat),
                    j,
                    pre_hash@,
                ),
        },
{
    let mut j: u64 = 0;
    while j < iter
        invariant
            0 <= j <= iter,
            forall|k: u64|
                k < j ==> !spec_nonce_meets(
                    authority_id@,
                    difficulty.value(),
                    timestamp,
                    ProofNonce::spec_padded(prefix@, prefix_len as nat),
                    k,
                    pre_hash@,
                ),
        decreases iter - j,
    {
        let proof_nonce = ProofNonce::get_with_prefix_len(prefix, prefix_len, j);
        let seal = PowSeal {
            authority_id: clone_bytes(authority_id),
            difficulty: *difficulty,
            timestamp,
            work_proof: WorkProof::Nonce(proof_nonce),
        };
        if seal.check_seal(pre_hash) {
            proof {
                reveal_with_fuel(p256, 33);
                assert(p256(32) == crate::u256::u256_bound());
                difficulty.lemma_value_bound();
                lemma_be_seq_value(difficulty.value(), 32);
                lemma_le_seq_value(timestamp as nat, 8);
                lemma_le_seq_value(ProofNonce::spec_padded(prefix@, prefix_len as nat).len(), 8);
                lemma_le_seq_value(j as nat, 8);
                assert(spec_work_input(seal, pre_hash@) =~= pre_hash@ + authority_id@ + be_seq(
                    difficulty.value(),
                    32,
                ) + le_seq(timestamp as nat, 8) + (seq![1u8] + le_seq(
                    ProofNonce::spec_padded(prefix@, prefix_len as nat).len(),
                    8,
                ) + ProofNonce::spec_padded(prefix@, prefix_len as nat) + le_seq(j as nat, 8)));
            }
            return Some(seal);
        }
        proof {
                reveal_with_fuel(p256, 33);
                assert(p256(32) == crate::u256::u256_bound());
                difficulty.lemma_value_bound();
                lemma_be_seq_value(difficulty.value(), 32);
                lemma_le_seq_value(timestamp as nat, 8);
                lemma_le_seq_value(ProofNonce::spec_padded(prefix@, prefix_len as nat).len(), 8);
                lemma_le_seq_value(j as nat, 8);
            assert(spec_work_input(seal, pre_hash@) =~= pre_hash@ + authority_id@ + be_seq(
                difficulty.value(),
                32,
            ) + le_seq(timestamp as nat, 8) + (seq![1u8] + le_seq(
                ProofNonce::spec_padded(prefix@, prefix_len as nat).len(),
                8,
            ) + ProofNonce::spec_padded(prefix@, prefix_len as nat) + le_seq(j as nat, 8)));
        }
        j = j + 1;
    }
    None
}

/// One mining job: target the candidate, search nonces `0..iter` in
/// order, and on success hand back the candidate with the seal of the
/// first winning nonce appended. An empty answer means no nonce of the
/// whole sweep meets the target; only an undecidable target fails.
pub fn on_job(
    header: Header,
    authority_id: &[u8],
    params: &PowParams,
    ancestors: &Vec<ChainEntry>,
    now: u64,
    iter: u64,
) -> (r: Result<Option<Header>, PowError>)
    requires
        params.difficulty_adj >= 1,
    ensures
        match r {
            Ok(Some(sealed)) => {
                &&& sealed.parent_hash@ == header.parent_hash@
                &&& sealed.number == header.number
                &&& sealed.state_root@ == header.state_root@
                &&& sealed.extrinsics_root@ == header.extrinsics_root@
                &&& sealed.digest@.len() == header.digest@.len() + 1
                &&& sealed.digest@.drop_last() == header.digest@
                &&& sealed.digest@.last() matches DigestItem::Seal(seal) && {
                    &&& spec_calc_difficulty(*params, header.number, now, ancestors@) == Some(
                        seal.difficulty.value(),
                    )
                    &&& seal.timestamp == now
                    &&& seal.authority_id@ == authority_id@
                    &&& seal_meets_target(seal, spec_header_hash(header))
                    &&& seal.work_proof matches WorkProof::Nonce(pn) && {
                        &&& pn.extra_data@ == ProofNonce::spec_padded(
                            spec_mining_prefix(),
                            MINING_PREFIX_LEN as nat,
                        )
                        &&& pn.nonce < iter
                        &&& forall|j: u64|
                            j < pn.nonce ==> !spec_nonce_meets(
                                authority_id@,
                                seal.difficulty.value(),
                                now,
                                ProofNonce::spec_padded(
                                    spec_mining_prefix(),
                                    MINING_PREFIX_LEN as nat,
                                ),
                                j,
                                spec_header_hash(header),
                            )
                    }
                }
            },
            Ok(None) => (spec_calc_difficulty(*params, header.number, now, ancestors@) matches Some(
                dv,
            ) && forall|j: u64|
                j < iter ==> !spec_nonce_meets(
                    authority_id@,
                    dv,
                    now,
                    ProofNonce::spec_padded(spec_mining_prefix(), MINING_PREFIX_LEN as nat),
                    j,
                    spec_header_hash(header),
                )),
            Err(_) => spec_calc_difficulty(*params, header.number, now, ancestors@) is None,
        },
{
    let difficulty = match calc_difficulty(params, header.number, now, ancestors) {
        Ok(d) => d,
        Err(e) => {
            return Err(e);
        },
    };
    let pre = header.hash();
    let prefix = mining_prefix();
    let found = mine(
        authority_id,
        &difficulty,
        now,
        pre.as_slice(),
        prefix.as_slice(),
        MINING_PREFIX_LEN,
        iter,
    );
    match found {
        Some(seal) => {
            proof {
                reveal_with_fuel(p256, 33);
                assert(p256(32) == crate::u256::u256_bound());
                seal.difficulty.lemma_value_bound();
                lemma_be_seq_value(seal.difficulty.value(), 32);
                lemma_le_seq_value(seal.timestamp as nat, 8);
                lemma_le_seq_value(seal.work_proof->Nonce_0.extra_data@.len(), 8);
                lemma_le_seq_value(seal.work_proof->Nonce_0.nonce as nat, 8);
                assert(spec_work_input(seal, spec_header_hash(header)) =~= spec_header_hash(header)
                    + seal.authority_id@ + be_seq(seal.difficulty.value(), 32) + le_seq(
                    seal.timestamp as nat,
                    8,
                ) + (seq![1u8] + le_seq(seal.work_proof->Nonce_0.extra_data@.len(), 8)
                    + seal.work_proof->Nonce_0.extra_data@ + le_seq(
                    seal.work_proof->Nonce_0.nonce as nat,
                    8,
                )));
            }
            let mut sealed = header;
            sealed.digest.push(DigestItem::Seal(seal));
            Ok(Some(sealed))
        },
        None => Ok(None),
    }
}

/// What one polling iteration of the worker does.
#[derive(PartialEq, Eq, Structural, Debug)]
pub enum WorkerStep {
    /// The stop sign is set: the loop ends.
    Stop,
    /// Syncing or no readable head: sleep one cycle and try again.
    Wait,
    /// Run a mining job on the current head.
    Mine,
}

/// The worker's decision for one iteration: stop on the stop sign,
/// wait while the chain syncs or the head is unreadable, mine
/// otherwise.
pub fn worker_tick(stop_sign: bool, major_syncing: bool, head_readable: bool) -> (r: WorkerStep)
    ensures
        r == (if stop_sign {
            WorkerStep::Stop
        } else if major_syncing || !head_readable {
            WorkerStep::Wait
        } else {
            WorkerStep::Mine
        }),
{
    if stop_sign {
        WorkerStep::Stop
    } else if major_syncing || !head_readable {
        WorkerStep::Wait
    } else {
        WorkerStep::Mine
    }
}

} // verus!
