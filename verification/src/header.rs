//! Block headers and their digests.
//!
//! A header names its parent, its height, two state commitments and an
//! ordered run of digest items; on a sealed header the last item is
//! the proof-of-work seal. The pre-hash of a header is the digest of
//! its bytes with the seal left out: the number the work check binds.

use vstd::prelude::*;

verus! {

use crate::bytes::{le_seq, p256, lemma_le_seq_value, lemma_le_value_unique, push_bytes,
    clone_bytes};
use crate::codec::push_le_bytes_u64;
use crate::crypto::{blake2b_256, blake2b_256_of};
use crate::pow::{PowSeal, spec_seal_bytes, push_seal_bytes};

/// One entry of a header's digest.
pub enum DigestItem {
    /// The proof-of-work seal.
    Seal(PowSeal),
    /// Any other digest payload, kept as raw bytes.
    Other(Vec<u8>),
}

/// A block header.
pub struct Header {
    pub parent_hash: Vec<u8>,
    pub number: u64,
    pub state_root: Vec<u8>,
    pub extrinsics_root: Vec<u8>,
    pub digest: Vec<DigestItem>,
}

/// The bytes of one digest item: a tag, then the payload.
pub open spec fn spec_digest_item_bytes(it: DigestItem) -> Seq<u8> {
    match it {
        DigestItem::Other(b) => seq![0u8] + le_seq(b@.len(), 8) + b@,
        DigestItem::Seal(s) => seq![1u8] + spec_seal_bytes(s),
    }
}

/// The bytes of a digest run, in order.
pub open spec fn spec_digest_bytes(items: Seq<DigestItem>) -> Seq<u8>
    decreases items.len(),
{
    if items.len() == 0 {
        Seq::empty()
    } else {
        spec_digest_bytes(items.drop_last()) + spec_digest_item_bytes(items.last())
    }
}

/// The bytes of a header.
pub open spec fn spec_header_bytes(h: Header) -> Seq<u8> {
    h.parent_hash@ + le_seq(h.number as nat, 8) + h.state_root@ + h.extrinsics_root@ + le_seq(
        h.digest@.len(),
        8,
    ) + spec_digest_bytes(h.digest@)
}

/// The hash of a header's bytes.
pub open spec fn spec_header_hash(h: Header) -> Seq<u8> {
    blake2b_256_of(spec_header_bytes(h))
}

/// The latest seal of a digest run: the closest to the end.
pub open spec fn spec_latest_seal(items: Seq<DigestItem>) -> Option<PowSeal>
    decreases items.len(),
{
    if items.len() == 0 {
        None
    } else {
        match items.last() {
            DigestItem::Seal(s) => Some(s),
            DigestItem::Other(_) => spec_latest_seal(items.drop_last()),
        }
    }
}

/// Append the bytes of one digest item.
pub fn push_digest_item_bytes(out: &mut Vec<u8>, it: &DigestItem)
    ensures
        final(out)@ =~= old(out)@ + spec_digest_item_bytes(*it),
{
    match it {
        DigestItem::Other(b) => {
            out.push(0u8);
            let ghost s1 = out@;
            proof {
                reveal_with_fuel(p256, 9);
            }
            push_le_bytes_u64(out, b.len() as u64, 8);
            let ghost s2 = out@;
            proof {
                let seg = s2.subrange(s1.len() as int, s2.len() as int);
                lemma_le_seq_value(b@.len(), 8);
                lemma_le_value_unique(seg, le_seq(b@.len(), 8));
                assert(s2 =~= s1 + le_seq(b@.len(), 8));
            }
            push_bytes(out, b.as_slice());
            proof {
                assert(s1 =~= old(out)@ + seq![0u8]);
                assert(out@ =~= old(out)@ + spec_digest_item_bytes(*it));
            }
        },
        DigestItem::Seal(s) => {
            out.push(1u8);
            let ghost s1 = out@;
            push_seal_bytes(out, s);
            proof {
                assert(s1 =~= old(out)@ + seq![1u8]);
                assert(out@ =~= old(out)@ + spec_digest_item_bytes(*it));
            }
        },
    }
}

/// The bytes of a header.
pub fn header_bytes(h: &Header) -> (r: Vec<u8>)
    ensures
        r@ == spec_header_bytes(*h),
{
    let mut out = clone_bytes(h.parent_hash.as_slice());
    proof {
        reveal_with_fuel(p256, 9);
    }
    push_le_bytes_u64(&mut out, h.number, 8);
    let ghost s1 = out@;
    proof {
        let seg = s1.subrange(h.parent_hash@.len() as int, s1.len() as int);
        lemma_le_seq_value(h.number as nat, 8);
        lemma_le_value_unique(seg, le_seq(h.number as nat, 8));
        assert(s1 =~= h.parent_hash@ + le_seq(h.number as nat, 8));
    }
    push_bytes(&mut out, h.state_root.as_slice());
    push_bytes(&mut out, h.extrinsics_root.as_slice());
    let ghost s2 = out@;
    push_le_bytes_u64(&mut out, h.digest.len() as u64, 8);
    let ghost s3 = out@;
    proof {
        let seg = s3.subrange(s2.len() as int, s3.len() as int);
        lemma_le_seq_value(h.digest@.len(), 8);
        lemma_le_value_unique(seg, le_seq(h.digest@.len(), 8));
        assert(s3 =~= s2 + le_seq(h.digest@.len(), 8));
    }
    let mut i: usize = 0;
    let n = h.digest.len();
    while i < n
        invariant
            0 <= i <= n,
            n == h.digest@.len(),
            out@ =~= s3 + spec_digest_bytes(h.digest@.subrange(0, i as int)),
        decreases n - i,
    {
        push_digest_item_bytes(&mut out, &h.digest[i]);
        proof {
            let pre = h.digest@.subrange(0, i as int);
            let cur = h.digest@.subrange(0, i + 1);
            assert(cur.drop_last() =~= pre);
            assert(cur.last() == h.digest@[i as int]);
        }
        i = i + 1;
    }
    proof {
        assert(h.digest@.subrange(0, n as int) =~= h.digest@);
        assert(out@ =~= spec_header_bytes(*h));
    }
    out
}

impl Header {
    /// The hash of this header's bytes.
    pub fn hash(&self) -> (r: Vec<u8>)
        ensures
            r@ == spec_header_hash(*self),
            r@.len() == 32,
    {
        let bytes = header_bytes(self);
        blake2b_256(bytes.as_slice())
    }

    /// The latest seal in the digest, or nothing on an unsealed
    /// header.
    pub fn latest_seal(&self) -> (r: Option<&PowSeal>)
        ensures
            match r {
                Some(s) => spec_latest_seal(self.digest@) == Some(*s),
                None => spec_latest_seal(self.digest@) is None,
            },
    {
        let mut i = self.digest.len();
        proof {
            assert(self.digest@.subrange(0, self.digest@.len() as int) =~= self.digest@);
        }
        while i > 0
            invariant
                0 <= i <= self.digest@.len(),
                spec_latest_seal(self.digest@) == spec_latest_seal(
                    self.digest@.subrange(0, i as int),
                ),
            decreases i,
        {
            i = i - 1;
            proof {
                let cur = self.digest@.subrange(0, i + 1);
                assert(cur.drop_last() =~= self.digest@.subrange(0, i as int));
                assert(cur.last() == self.digest@[i as int]);
            }
            match &self.digest[i] {
                DigestItem::Seal(s) => {
                    return Some(s);
                },
                DigestItem::Other(_) => {
                },
            }
        }
        proof {
            assert(self.digest@.subrange(0, 0) =~= Seq::<DigestItem>::empty());
        }
        None
    }
}

} // verus!
