//! Mining jobs handed over the switch, and submitted work.
//!
//! A job names the merkle commitment, the entropy, the target and the
//! shard layout. Submitted work arrives as a hexadecimal string whose
//! bytes carry the merkle root, a big-endian nonce and the entropy;
//! the entropy's checksum is recomputed, and the work hash of the
//! reassembled triple gives the nonce's achieved target.

use vstd::prelude::*;

verus! {

use crate::bytes::{be_value, le_seq, p256, push_bytes, lemma_le_seq_value,
    lemma_le_value_unique, lemma_be_value_bound, clone_bytes};
use crate::codec::{decode_bytes, push_le_bytes_u64};
use crate::crypto::{blake2b_256, blake2b_256_of, hex_decode, is_hex_string, hex_bytes_of};
use crate::u256::U256;

/// A mining job as the switch serves it.
pub struct Job {
    pub merkle_root: Vec<u8>,
    pub extra_data: Vec<u8>,
    pub target: U256,
    pub shard_count: u16,
    pub shard_block_number: Vec<(u16, u64)>,
}

/// The switch's answer to submitted work.
pub struct SubmitResponse {
    pub reject_reason: Vec<u8>,
}

/// One shard's slice of a mining job at the outer miner.
pub struct Work {
    pub raw_hash: Vec<u8>,
    pub difficulty: U256,
    /// Extra data carrying miner identity and entropy.
    pub extra_data: Vec<u8>,
    /// The merkle root committing the multi-mined headers.
    pub merkle_root: Vec<u8>,
    /// The merkle proof of this shard's leaf.
    pub merkle_proof: Vec<u8>,
    pub shard_num: u32,
    pub shard_cnt: u32,
    pub url: String,
}

/// The jobs of one nonce search, keyed by shard.
pub struct WorkMap {
    pub work_id: String,
    pub merkle_root: Vec<u8>,
    pub extra_data: Vec<u8>,
    pub work_map: Vec<(String, Work)>,
}

/// A decoded submission.
pub struct SubmitJob {
    pub merkle_root: Vec<u8>,
    pub extra_data: Vec<u8>,
    pub nonce: u64,
    pub nonce_target: U256,
}

/// What submission decoding yields.
pub struct SpecSubmitJob {
    pub merkle_root: Seq<u8>,
    pub extra_data: Seq<u8>,
    pub nonce: u64,
    pub nonce_target: nat,
}

impl View for SubmitJob {
    type V = SpecSubmitJob;

    closed spec fn view(&self) -> SpecSubmitJob {
        SpecSubmitJob {
            merkle_root: self.merkle_root@,
            extra_data: self.extra_data@,
            nonce: self.nonce,
            nonce_target: self.nonce_target.value(),
        }
    }
}

/// The submission wire form: a 32-byte merkle root, a big-endian
/// eight-byte nonce and 36 entropy bytes. The entropy is completed
/// with the first four bytes of its own hash, and the work hash over
/// root, little-endian nonce and completed entropy gives the achieved
/// target.
pub open spec fn spec_decode_submit(s: Seq<u8>) -> Option<SpecSubmitJob> {
    if s.len() < 76 {
        None
    } else {
        let root = s.subrange(0, 32);
        let nonce = be_value(s.subrange(32, 40));
        let pre = s.subrange(40, 76);
        let extra = pre + blake2b_256_of(pre).subrange(0, 4);
        let source = root + le_seq(nonce, 8) + extra;
        Some(
            SpecSubmitJob {
                merkle_root: root,
                extra_data: extra,
                nonce: nonce as u64,
                nonce_target: be_value(blake2b_256_of(source)),
            },
        )
    }
}

/// Decode a submission's bytes, or nothing when they are too short.
pub fn decode_submit_work(input: &[u8]) -> (r: Option<SubmitJob>)
    ensures
        match r {
            Some(job) => spec_decode_submit(input@) == Some(job@),
            None => spec_decode_submit(input@) is None,
        },
{
    let len = input.len();
    if len < 76 {
        return None;
    }
    let (merkle_root, _) = match decode_bytes(input, 0, 32) {
        Some(x) => x,
        None => {
            return None;
        },
    };
    let nonce = crate::bytes::u64_from_be(input, 32);
    let (pre, _) = match decode_bytes(input, 40, 36) {
        Some(x) => x,
        None => {
            return None;
        },
    };
    let check = blake2b_256(pre.as_slice());
    let mut extra_data = clone_bytes(pre.as_slice());
    extra_data.push(check[0]);
    extra_data.push(check[1]);
    extra_data.push(check[2]);
    extra_data.push(check[3]);
    proof {
        assert(extra_data@ =~= input@.subrange(40, 76) + blake2b_256_of(
            input@.subrange(40, 76),
        ).subrange(0, 4));
    }
    let mut source = clone_bytes(merkle_root.as_slice());
    let ghost s1 = source@;
    proof {
        reveal_with_fuel(p256, 9);
        lemma_be_value_bound(input@.subrange(32, 40));
    }
    push_le_bytes_u64(&mut source, nonce, 8);
    let ghost s2 = source@;
    proof {
        let seg = s2.subrange(s1.len() as int, s2.len() as int);
        lemma_le_seq_value(nonce as nat, 8);
        lemma_le_value_unique(seg, le_seq(nonce as nat, 8));
        assert(s2 =~= s1 + le_seq(nonce as nat, 8));
    }
    push_bytes(&mut source, extra_data.as_slice());
    proof {
        assert(source@ =~= input@.subrange(0, 32) + le_seq(
            be_value(input@.subrange(32, 40)),
            8,
        ) + (input@.subrange(40, 76) + blake2b_256_of(input@.subrange(40, 76)).subrange(0, 4)));
    }
    let source_hash = blake2b_256(source.as_slice());
    let nonce_target = U256::from_be_bytes(source_hash.as_slice());
    Some(SubmitJob { merkle_root, extra_data, nonce, nonce_target })
}

/// Decode the hexadecimal text of a submission: well-formed hex whose
/// bytes carry a well-formed submission, or nothing.
pub fn parse_submit_data(data: &[u8]) -> (r: Option<SubmitJob>)
    ensures
        match r {
            Some(job) => is_hex_string(data@) && spec_decode_submit(hex_bytes_of(data@)) == Some(
                job@,
            ),
            None => !is_hex_string(data@) || spec_decode_submit(hex_bytes_of(data@)) is None,
        },
{
    let bytes = match hex_decode(data) {
        Some(b) => b,
        None => {
            return None;
        },
    };
    decode_submit_work(bytes.as_slice())
}

} // verus!
