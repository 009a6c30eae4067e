//! Cross-shard relay extrinsics.
//!
//! A relay extrinsic is an unsigned wrapper around the raw bytes of a
//! signed origin extrinsic from another shard. Decoding first opens
//! the wrapper — version, call indices, relay type, origin bytes,
//! height and the two hashes — and then the embedded origin itself:
//! sender, signature, index, era, destination and amount. Any framing
//! violation yields nothing; the encoder promises that decoding its
//! output restores the value.

use vstd::prelude::*;

verus! {

use crate::bytes::{clone_bytes, push_bytes};
use crate::codec::{spec_decode_compact, spec_decode_bytes, spec_decode_byte_vec,
    decode_compact_u32, decode_compact_u64, decode_compact_u128, decode_bytes, decode_byte_vec,
    encode_compact_u64, lemma_decode_compact_extend};
use crate::crypto::{blake2b_256, blake2b_256_of};

/// The two kinds of relayed transfer.
#[derive(Clone, Copy, PartialEq, Eq, Structural, Debug)]
pub enum RelayTypes {
    Balance,
    Assets,
}

/// A transaction era: valid forever, or for `period` blocks starting
/// at `phase`.
#[derive(Clone, Copy, PartialEq, Eq, Structural, Debug)]
pub enum Era {
    Immortal,
    Mortal(u64, u64),
}

/// The decoded wrapper of a relay extrinsic.
pub struct RelayParams {
    number: u64,
    hash: Vec<u8>,
    block_hash: Vec<u8>,
    parent_hash: Vec<u8>,
    relay_type: RelayTypes,
    origin: Vec<u8>,
}

/// What `RelayParams` decoding yields, over byte strings.
pub struct SpecRelayParams {
    pub number: u64,
    pub hash: Seq<u8>,
    pub block_hash: Seq<u8>,
    pub parent_hash: Seq<u8>,
    pub relay_type: RelayTypes,
    pub origin: Seq<u8>,
}

impl View for RelayParams {
    type V = SpecRelayParams;

    closed spec fn view(&self) -> SpecRelayParams {
        SpecRelayParams {
            number: self.number,
            hash: self.hash@,
            block_hash: self.block_hash@,
            parent_hash: self.parent_hash@,
            relay_type: self.relay_type,
            origin: self.origin@,
        }
    }
}

/// The least length of a relay extrinsic's bytes; shorter inputs are
/// rejected outright.
pub const MIN_RELAY_SIZE: usize = 130;

/// The relay type a byte names.
pub open spec fn spec_relay_type_of(b: u8) -> Option<RelayTypes> {
    if b == 0 {
        Some(RelayTypes::Balance)
    } else if b == 1 {
        Some(RelayTypes::Assets)
    } else {
        None
    }
}

/// The wrapper decoding: a compact count, a version byte that must be
/// one and unsigned, two call indices, the relay type, the origin
/// bytes, the height and the block and parent hashes.
pub open spec fn spec_decode_relay(s: Seq<u8>) -> Option<SpecRelayParams> {
    if s.len() <= MIN_RELAY_SIZE {
        None
    } else {
        match spec_decode_compact(s, 0, 4) {
            None => None,
            Some((_, p1)) => {
                if !(p1 + 3 <= s.len()) {
                    None
                } else {
                    let version = s[p1];
                    let relay_byte = s[p1 + 3];
                    if version != 1 {
                        None
                    } else {
                        match spec_relay_type_of(relay_byte) {
                            None => None,
                            Some(relay_type) => match spec_decode_byte_vec(s, p1 + 4) {
                                None => None,
                                Some((origin, p2)) => match spec_decode_compact(s, p2, 8) {
                                    None => None,
                                    Some((number, p3)) => match spec_decode_bytes(s, p3, 32) {
                                        None => None,
                                        Some((block_hash, p4)) => match spec_decode_bytes(
                                            s,
                                            p4,
                                            32,
                                        ) {
                                            None => None,
                                            Some((parent_hash, _)) => Some(
                                                SpecRelayParams {
                                                    number: number as u64,
                                                    hash: blake2b_256_of(origin),
                                                    block_hash: block_hash,
                                                    parent_hash: parent_hash,
                                                    relay_type: relay_type,
                                                    origin: origin,
                                                },
                                            ),
                                        },
                                    },
                                },
                            },
                        }
                    }
                }
            },
        }
    }
}

impl RelayParams {
    pub fn relay_type(&self) -> (r: RelayTypes)
        ensures
            r == self@.relay_type,
    {
        self.relay_type
    }

    pub fn origin(&self) -> (r: Vec<u8>)
        ensures
            r@ == self@.origin,
    {
        clone_bytes(self.origin.as_slice())
    }

    pub fn number(&self) -> (r: u64)
        ensures
            r == self@.number,
    {
        self.number
    }

    pub fn hash(&self) -> (r: Vec<u8>)
        ensures
            r@ == self@.hash,
    {
        clone_bytes(self.hash.as_slice())
    }

    pub fn block_hash(&self) -> (r: Vec<u8>)
        ensures
            r@ == self@.block_hash,
    {
        clone_bytes(self.block_hash.as_slice())
    }

    pub fn parent_hash(&self) -> (r: Vec<u8>)
        ensures
            r@ == self@.parent_hash,
    {
        clone_bytes(self.parent_hash.as_slice())
    }

    /// Decode a relay extrinsic's wrapper, or nothing on any framing
    /// violation.
    pub fn decode(input: Vec<u8>) -> (r: Option<RelayParams>)
        ensures
            match r {
                Some(params) => spec_decode_relay(input@) == Some(params@),
                None => spec_decode_relay(input@) is None,
            },
    {
        let s = input.as_slice();
        let len = s.len();
        if len <= MIN_RELAY_SIZE {
            return None;
        }
        let (_, p1) = match decode_compact_u32(s, 0) {
            Some(x) => x,
            None => {
                return None;
            },
        };
        if !(len - p1 >= 3) {
            return None;
        }
        let version = s[p1];
        let relay_byte = s[p1 + 3];
        if version != 1 {
            return None;
        }
        let relay_type = if relay_byte == 0 {
            RelayTypes::Balance
        } else if relay_byte == 1 {
            RelayTypes::Assets
        } else {
            return None;
        };
        let (origin, p2) = match decode_byte_vec(s, p1 + 4) {
            Some(x) => x,
            None => {
                return None;
            },
        };
        let (number, p3) = match decode_compact_u64(s, p2) {
            Some(x) => x,
            None => {
                return None;
            },
        };
        let (block_hash, p4) = match decode_bytes(s, p3, 32) {
            Some(x) => x,
            None => {
                return None;
            },
        };
        let (parent_hash, _) = match decode_bytes(s, p4, 32) {
            Some(x) => x,
            None => {
                return None;
            },
        };
        let hash = blake2b_256(origin.as_slice());
        Some(RelayParams { number, hash, block_hash, parent_hash, relay_type, origin })
    }
}

/// A signed origin extrinsic embedded in a relay.
pub struct OriginExtrinsic {
    id: Option<u32>,
    sender: Vec<u8>,
    signature: Vec<u8>,
    index: u64,
    era: Era,
    dest: Vec<u8>,
    amount: u128,
}

/// What origin decoding yields, over byte strings.
pub struct SpecOriginExtrinsic {
    pub id: Option<u32>,
    pub sender: Seq<u8>,
    pub signature: Seq<u8>,
    pub index: u64,
    pub era: Era,
    pub dest: Seq<u8>,
    pub amount: u128,
}

impl View for OriginExtrinsic {
    type V = SpecOriginExtrinsic;

    closed spec fn view(&self) -> SpecOriginExtrinsic {
        SpecOriginExtrinsic {
            id: self.id,
            sender: self.sender@,
            signature: self.signature@,
            index: self.index,
            era: self.era,
            dest: self.dest@,
            amount: self.amount,
        }
    }
}

/// Two raised to `k`.
pub open spec fn pow2k(k: nat) -> nat
    decreases k,
{
    if k == 0 {
        1
    } else {
        2 * pow2k((k - 1) as nat)
    }
}

/// The era a pair of bytes names: the low four bits give the period as
/// a power of two, the rest the quantized phase. A period under four
/// or a phase outside it is refused.
pub open spec fn spec_mortal_era(b0: u8, b1: u8) -> Option<Era> {
    let encoded = b0 + b1 * 256;
    let period = 2 * pow2k((encoded % 16) as nat);
    let quantize = if period / 4096 > 1 {
        period / 4096
    } else {
        1
    };
    let phase = (encoded / 16) * quantize;
    if period >= 4 && phase < period {
        Some(Era::Mortal(period as u64, phase as u64))
    } else {
        None
    }
}

/// Era decoding: a zero byte is immortal; anything else opens the
/// two-byte mortal form.
pub open spec fn spec_decode_era(s: Seq<u8>, pos: int) -> Option<(Era, int)> {
    if !(0 <= pos < s.len()) {
        None
    } else if s[pos] == 0 {
        Some((Era::Immortal, pos + 1))
    } else if pos + 2 <= s.len() {
        match spec_mortal_era(s[pos], s[pos + 1]) {
            Some(e) => Some((e, pos + 2)),
            None => None,
        }
    } else {
        None
    }
}

/// The signed preamble of an origin: sender type and account,
/// signature, index and era. An unsigned origin contributes defaults
/// without consuming bytes.
pub open spec fn spec_decode_preamble(s: Seq<u8>, pos: int, signed: bool) -> Option<
    (Seq<u8>, Seq<u8>, u64, Era, int),
> {
    if !signed {
        Some((Seq::new(32, |i: int| 0u8), Seq::empty(), 0u64, Era::Immortal, pos))
    } else {
        if !(0 <= pos < s.len()) {
            None
        } else {
            match spec_decode_bytes(s, pos + 1, 32) {
                None => None,
                Some((sender, p1)) => match spec_decode_bytes(s, p1, 64) {
                    None => None,
                    Some((signature, p2)) => match spec_decode_compact(s, p2, 8) {
                        None => None,
                        Some((index, p3)) => match spec_decode_era(s, p3) {
                            None => None,
                            Some((era, p4)) => Some((sender, signature, index as u64, era, p4)),
                        },
                    },
                },
            }
        }
    }
}

/// Origin decoding: a compact count, a version byte whose top bit says
/// whether a preamble follows, the call indices, for an asset relay
/// the asset id, then the destination and the compact amount.
pub open spec fn spec_decode_origin(relay_type: RelayTypes, s: Seq<u8>) -> Option<
    SpecOriginExtrinsic,
> {
    if s.len() < 66 {
        None
    } else {
        match spec_decode_compact(s, 0, 4) {
            None => None,
            Some((_, p0)) => {
                if !(0 <= p0 < s.len()) {
                    None
                } else {
                    let version_byte = s[p0];
                    let signed = version_byte >= 128;
                    let version = if signed {
                        (version_byte - 128) as u8
                    } else {
                        version_byte
                    };
                    if version != 1 {
                        None
                    } else {
                        match spec_decode_preamble(s, p0 + 1, signed) {
                            None => None,
                            Some((sender, signature, index, era, p1)) => {
                                if !(p1 + 2 <= s.len()) {
                                    None
                                } else {
                                    let p2 = p1 + 2;
                                    let after_id: Option<(Option<u32>, int)> = if relay_type
                                        == RelayTypes::Assets {
                                        match spec_decode_compact(s, p2, 4) {
                                            None => None,
                                            Some((id, p3)) => Some((Some(id as u32), p3)),
                                        }
                                    } else {
                                        Some((None, p2))
                                    };
                                    match after_id {
                                        None => None,
                                        Some((id, p3)) => {
                                            if !(p3 + 1 <= s.len()) {
                                                None
                                            } else {
                                                match spec_decode_bytes(s, p3 + 1, 32) {
                                                    None => None,
                                                    Some((dest, p4)) => {
                                                        match spec_decode_compact(s, p4, 16) {
                                                            None => None,
                                                            Some((amount, _)) => {
                                                                Some(SpecOriginExtrinsic {
                                                                    id: id,
                                                                    sender: sender,
                                                                    signature: signature,
                                                                    index: index,
                                                                    era: era,
                                                                    dest: dest,
                                                                    amount: amount as u128,
                                                                })
                                                            },
                                                        }
                                                    },
                                                }
                                            }
                                        },
                                    }
                                }
                            },
                        }
                    }
                }
            },
        }
    }
}

/// Decode a two-byte mortal era.
pub fn mortal_era(b0: u8, b1: u8) -> (r: Option<Era>)
    ensures
        r == spec_mortal_era(b0, b1),
{
    let encoded: u64 = b0 as u64 + b1 as u64 * 256;
    let k = encoded % 16;
    let mut period: u64 = 2;
    let mut i: u64 = 0;
    while i < k
        invariant
            0 <= i <= k <= 15,
            period == 2 * pow2k(i as nat),
            period <= 65536,
        decreases k - i,
    {
        proof {
            reveal_with_fuel(pow2k, 17);
            crate::relay::lemma_pow2k_mono(i as nat, 14);
        }
        period = period * 2;
        i = i + 1;
    }
    let quantize: u64 = if period / 4096 > 1 {
        period / 4096
    } else {
        1
    };
    proof {
        reveal_with_fuel(pow2k, 17);
        lemma_pow2k_mono(k as nat, 15);
        assert(encoded / 16 <= 4095);
        assert(quantize <= 16);
        assert((encoded / 16) * quantize <= 4095 * 16) by (nonlinear_arith)
            requires
                encoded / 16 <= 4095,
                quantize <= 16,
                0 <= encoded / 16,
                0 <= quantize,
        ;
    }
    let phase: u64 = (encoded / 16) * quantize;
    if period >= 4 && phase < period {
        Some(Era::Mortal(period, phase))
    } else {
        None
    }
}

/// Powers of two do not shrink.
/// Powers of two multiply by adding exponents.
pub proof fn lemma_pow2k_add(a: nat, b: nat)
    ensures
        pow2k(a + b) == pow2k(a) * pow2k(b),
    decreases b,
{
    if b == 0 {
        assert(pow2k(a) * 1 == pow2k(a)) by (nonlinear_arith);
    } else {
        lemma_pow2k_add(a, (b - 1) as nat);
        assert(pow2k(a + b) == 2 * (pow2k(a) * pow2k((b - 1) as nat)));
        assert(2 * (pow2k(a) * pow2k((b - 1) as nat)) == pow2k(a) * (2 * pow2k((b - 1) as nat)))
            by (nonlinear_arith);
    }
}

pub proof fn lemma_pow2k_mono(m: nat, n: nat)
    requires
        m <= n,
    ensures
        pow2k(m) <= pow2k(n),
        pow2k(m) >= 1,
    decreases n,
{
    if m < n {
        lemma_pow2k_mono(m, (n - 1) as nat);
    } else if n > 0 {
        lemma_pow2k_mono((m - 1) as nat, (n - 1) as nat);
    }
}

impl OriginExtrinsic {
    /// Decode an embedded origin extrinsic, or nothing on any framing
    /// violation.
    pub fn decode(relay_type: RelayTypes, input: Vec<u8>) -> (r: Option<OriginExtrinsic>)
        ensures
            match r {
                Some(origin) => spec_decode_origin(relay_type, input@) == Some(origin@),
                None => spec_decode_origin(relay_type, input@) is None,
            },
    {
        let s = input.as_slice();
        let len = s.len();
        if len < 66 {
            return None;
        }
        let (_, p0) = match decode_compact_u32(s, 0) {
            Some(x) => x,
            None => {
                return None;
            },
        };
        if !(p0 < len) {
            return None;
        }
        let version_byte = s[p0];
        let signed = version_byte >= 128;
        let version = if signed {
            version_byte - 128
        } else {
            version_byte
        };
        if version != 1 {
            return None;
        }
        let (sender, signature, index, era, p1) = if signed {
            let pos = p0 + 1;
            if !(pos < len) {
                return None;
            }
            let (sender, q1) = match decode_bytes(s, pos + 1, 32) {
                Some(x) => x,
                None => {
                    return None;
                },
            };
            let (signature, q2) = match decode_bytes(s, q1, 64) {
                Some(x) => x,
                None => {
                    return None;
                },
            };
            let (index, q3) = match decode_compact_u64(s, q2) {
                Some(x) => x,
                None => {
                    return None;
                },
            };
            if !(q3 < len) {
                return None;
            }
            let (era, q4) = if s[q3] == 0 {
                (Era::Immortal, q3 + 1)
            } else {
                if !(len - q3 >= 2) {
                    return None;
                }
                match mortal_era(s[q3], s[q3 + 1]) {
                    Some(e) => (e, q3 + 2),
                    None => {
                        return None;
                    },
                }
            };
            (sender, signature, index, era, q4)
        } else {
            let mut zero_sender: Vec<u8> = Vec::new();
            let mut i: usize = 0;
            while i < 32
                invariant
                    0 <= i <= 32,
                    zero_sender@ =~= Seq::new(i as nat, |j: int| 0u8),
                decreases 32 - i,
            {
                zero_sender.push(0u8);
                proof {
                    assert(Seq::new((i + 1) as nat, |j: int| 0u8) =~= Seq::new(
                        i as nat,
                        |j: int| 0u8,
                    ).push(0u8));
                }
                i = i + 1;
            }
            (zero_sender, Vec::new(), 0u64, Era::Immortal, p0 + 1)
        };
        if !(p1 < len) || !(len - p1 >= 2) {
            return None;
        }
        let p2 = p1 + 2;
        let (id, p3) = if matches!(relay_type, RelayTypes::Assets) {
            match decode_compact_u32(s, p2) {
                Some((id, p3)) => (Some(id), p3),
                None => {
                    return None;
                },
            }
        } else {
            (None, p2)
        };
        if !(p3 < len) {
            return None;
        }
        let (dest, p4) = match decode_bytes(s, p3 + 1, 32) {
            Some(x) => x,
            None => {
                return None;
            },
        };
        let (amount, _) = match decode_compact_u128(s, p4) {
            Some(x) => x,
            None => {
                return None;
            },
        };
        proof {
            assert(input@.subrange(0, len as int) =~= input@);
        }
        Some(OriginExtrinsic { id, sender, signature, index, era, dest, amount })
    }

    /// The sending account.
    pub fn from(&self) -> (r: Vec<u8>)
        ensures
            r@ == self@.sender,
    {
        clone_bytes(self.sender.as_slice())
    }

    /// The destination account.
    pub fn to(&self) -> (r: Vec<u8>)
        ensures
            r@ == self@.dest,
    {
        clone_bytes(self.dest.as_slice())
    }

    /// The transferred amount.
    pub fn amount(&self) -> (r: u128)
        ensures
            r == self@.amount,
    {
        self.amount
    }

    /// The asset moved, on an asset relay.
    pub fn asset_id(&self) -> (r: Option<u32>)
        ensures
            r == self@.id,
    {
        self.id
    }
}

/// Whether an era can be written back canonically: immortal, or a
/// power-of-two period between four and sixty-five thousand
/// five hundred thirty-six holding a quantized phase.
pub open spec fn spec_era_encodable(e: Era) -> bool {
    match e {
        Era::Immortal => true,
        Era::Mortal(period, phase) => exists|k: nat|
            1 <= k <= 15 && period == 2 * #[trigger] pow2k(k) && phase < period && phase as nat % (
            if period / 4096 > 1 {
                (period / 4096) as nat
            } else {
                1
            }) == 0,
    }
}

/// Append the one or two bytes of an era, promising that era decoding
/// at the former end restores it.
#[verifier::rlimit(100)]
pub fn push_era_bytes(out: &mut Vec<u8>, e: &Era)
    requires
        spec_era_encodable(*e),
    ensures
        final(out)@.subrange(0, old(out)@.len() as int) =~= old(out)@,
        final(out)@.len() <= old(out)@.len() + 2,
        final(out)@.len() > old(out)@.len(),
        spec_decode_era(final(out)@, old(out)@.len() as int) == Some(
            (*e, final(out)@.len() as int),
        ),
{
    let ghost base = out@.len() as int;
    match e {
        Era::Immortal => {
            out.push(0u8);
            proof {
                assert(out@[base] == 0u8);
            }
        },
        Era::Mortal(period, phase) => {
            let ghost gk = choose|k: nat|
                1 <= k <= 15 && *period == 2 * #[trigger] pow2k(k) && *phase < *period
                    && *phase as nat % (if *period / 4096 > 1 {
                    (*period / 4096) as nat
                } else {
                    1
                }) == 0;
            let mut k: u64 = 0;
            let mut p: u64 = 2;
            while p < *period && k < 15
                invariant
                    0 <= k <= 15,
                    p == 2 * pow2k(k as nat),
                    p <= 65536,
                    forall|j: nat| j < k ==> 2 * pow2k(j) < *period,
                decreases 15 - k,
            {
                proof {
                    reveal_with_fuel(pow2k, 17);
                    lemma_pow2k_mono(k as nat, 14);
                }
                p = p * 2;
                k = k + 1;
            }
            proof {
                reveal_with_fuel(pow2k, 17);
                lemma_pow2k_mono(gk, 15);
                if p != *period {
                    if gk < k as nat {
                        assert(2 * pow2k(gk) < *period);
                    } else {
                        lemma_pow2k_mono(k as nat, gk);
                    }
                    assert(false);
                }
                assert(k as nat == gk) by {
                    if (k as nat) < gk {
                        lemma_pow2k_mono((k + 1) as nat, gk);
                        assert(pow2k(gk) >= pow2k((k + 1) as nat));
                        assert(pow2k((k + 1) as nat) == 2 * pow2k(k as nat));
                    } else if gk < (k as nat) {
                        lemma_pow2k_mono(gk + 1, k as nat);
                        assert(pow2k(k as nat) >= pow2k(gk + 1));
                        assert(pow2k(gk + 1) == 2 * pow2k(gk));
                    }
                }
            }
            let quantize: u64 = if p / 4096 > 1 {
                p / 4096
            } else {
                1
            };
            let q = *phase / quantize;
            proof {
                reveal_with_fuel(pow2k, 17);
                if k <= 11 {
                    lemma_pow2k_mono(k as nat, 11);
                    assert(p <= 4096);
                    assert(q <= 4095);
                } else {
                    lemma_pow2k_add(12, (k - 12) as nat);
                    lemma_pow2k_mono(0, (k - 12) as nat);
                    assert(pow2k(k as nat) == 4096 * pow2k((k - 12) as nat));
                    assert(p == (2 * pow2k((k - 12) as nat)) * 4096) by (nonlinear_arith)
                        requires
                            p == 2 * pow2k(k as nat),
                            pow2k(k as nat) == 4096 * pow2k((k - 12) as nat),
                    ;
                    assert(p / 4096 == 2 * pow2k((k - 12) as nat)) by {
                        vstd::arithmetic::div_mod::lemma_div_by_multiple(
                            2 * pow2k((k - 12) as nat) as int,
                            4096,
                        );
                    }
                    assert(quantize == p / 4096);
                    assert(quantize * q + *phase % quantize == *phase) by {
                        vstd::arithmetic::div_mod::lemma_fundamental_div_mod(
                            *phase as int,
                            quantize as int,
                        );
                        vstd::arithmetic::div_mod::lemma_mod_bound(*phase as int, quantize as int);
                    }
                    assert(q < 4096) by (nonlinear_arith)
                        requires
                            *phase < p,
                            quantize >= 1,
                            p == quantize * 4096,
                            q == *phase / quantize,
                            quantize * q + *phase % quantize == *phase,
                            0 <= *phase % quantize < quantize,
                    ;
                }
                assert(q <= 4095);
            }
            let encoded: u64 = k + q * 16;
            let b0: u8 = (encoded % 256) as u8;
            let b1: u8 = (encoded / 256) as u8;
            out.push(b0);
            out.push(b1);
            proof {
                assert(out@[base] == b0 && out@[base + 1] == b1);
                vstd::arithmetic::div_mod::lemma_fundamental_div_mod(encoded as int, 256);
                assert(b0 + b1 * 256 == encoded);
                assert(encoded % 16 == k) by (nonlinear_arith)
                    requires
                        encoded == k + q * 16,
                        0 <= k < 16,
                        0 <= q,
                ;
                assert(encoded / 16 == q) by (nonlinear_arith)
                    requires
                        encoded == k + q * 16,
                        0 <= k < 16,
                        0 <= q,
                ;
                vstd::arithmetic::div_mod::lemma_fundamental_div_mod(*phase as int, quantize as int);
                assert(q * quantize == *phase);
                assert(b0 != 0) by (nonlinear_arith)
                    requires
                        b0 + b1 * 256 == encoded,
                        encoded % 16 == k,
                        1 <= k <= 15,
                        b0 < 256,
                ;
                assert(spec_mortal_era(b0, b1) == Some(*e));
            }
        },
    }
}

/// Decoding is unmoved by bytes appended after what it read.
pub proof fn lemma_decode_era_extend(s: Seq<u8>, t: Seq<u8>, pos: int)
    requires
        spec_decode_era(s, pos) is Some,
    ensures
        spec_decode_era(s + t, pos) == spec_decode_era(s, pos),
{
    let st = s + t;
    assert(st[pos] == s[pos]);
    if s[pos] != 0 {
        assert(st[pos + 1] == s[pos + 1]);
    }
}

impl OriginExtrinsic {
    /// An origin extrinsic built from its parts.
    pub fn from_parts(
        id: Option<u32>,
        sender: Vec<u8>,
        signature: Vec<u8>,
        index: u64,
        era: Era,
        dest: Vec<u8>,
        amount: u128,
    ) -> (r: OriginExtrinsic)
        ensures
            r@ == (SpecOriginExtrinsic {
                id,
                sender: sender@,
                signature: signature@,
                index,
                era,
                dest: dest@,
                amount,
            }),
    {
        OriginExtrinsic { id, sender, signature, index, era, dest, amount }
    }

    /// Write this origin back in the signed canonical form, promising
    /// that decoding the bytes under the same relay type restores it.
    pub fn encode(&self, relay_type: RelayTypes) -> (r: Vec<u8>)
        requires
            self@.sender.len() == 32,
            self@.signature.len() == 64,
            self@.dest.len() == 32,
            spec_era_encodable(self@.era),
            relay_type == RelayTypes::Assets <==> self@.id is Some,
        ensures
            spec_decode_origin(relay_type, r@) == Some(self@),
    {
        let mut out: Vec<u8> = Vec::new();
        encode_compact_u64(&mut out, 0);
        let ghost s0 = out@;
        out.push(129u8);
        let ghost s1 = out@;
        push_bytes(&mut out, &[255u8]);
        push_bytes(&mut out, self.sender.as_slice());
        push_bytes(&mut out, self.signature.as_slice());
        let ghost s2 = out@;
        encode_compact_u64(&mut out, self.index);
        let ghost s3 = out@;
        push_era_bytes(&mut out, &self.era);
        let ghost s4 = out@;
        push_bytes(&mut out, &[0u8, 0u8]);
        let ghost s5 = out@;
        match self.id {
            Some(id) => {
                encode_compact_u64(&mut out, id as u64);
            },
            None => {
            },
        }
        let ghost s6 = out@;
        out.push(255u8);
        push_bytes(&mut out, self.dest.as_slice());
        let ghost s7 = out@;
        encode_compact_u128_of(&mut out, self.amount);
        proof {
            assert(s2 =~= s1 + seq![255u8] + self.sender@ + self.signature@);
            assert(s2.subrange(0, s1.len() as int) =~= s1);
            assert(s5 =~= s4 + seq![0u8, 0u8]);
            assert(s7 =~= s6.push(255u8) + self.dest@);
            assert(s7.subrange(0, s6.len() as int) =~= s6);
            if self.id is None {
                assert(s6 == s5);
            }
            assert(s6.subrange(0, s5.len() as int) =~= s5);
            assert(out@.subrange(0, s7.len() as int) =~= s7);
            lemma_origin_encode_decodes(
                self@,
                relay_type,
                out@,
                s0,
                s1,
                s2,
                s3,
                s4,
                s5,
                s6,
                s7,
            );
        }
        out
    }
}

/// Append the compact form of a 128-bit value, promising that compact
/// decoding restores it.
pub fn encode_compact_u128_of(out: &mut Vec<u8>, v: u128)
    ensures
        final(out)@.subrange(0, old(out)@.len() as int) =~= old(out)@,
        final(out)@.len() > old(out)@.len(),
        spec_decode_compact(final(out)@, old(out)@.len() as int, 16) == Some(
            (v as nat, final(out)@.len() as int),
        ),
{
    if v <= u64::MAX as u128 {
        let ghost base = out@.len() as int;
        encode_compact_u64(out, v as u64);
        proof {
            lemma_compact_widen(out@, base, 8, 16);
        }
    } else {
        let w = byte_width_u128(v);
        let prefix: u8 = (w as u8 - 4) * 4 + 3;
        let ghost base = out@.len() as int;
        out.push(prefix);
        let ghost mid = out@;
        push_le_bytes_u128(out, v, w);
        proof {
            assert(out@.subrange(0, base + 1) =~= mid);
            assert(out@[base] == mid[base] && mid[base] == prefix);
            assert(prefix % 4 == 3 && prefix / 4 + 4 == w);
            assert(out@.subrange(base + 1, base + 1 + w as int) =~= out@.subrange(
                base + 1,
                out@.len() as int,
            ));
            assert(out@.subrange(0, base) =~= old(out)@);
        }
    }
}

/// A compact reading stays the same under a wider length-prefix cap,
/// as long as the prefix it read fits the narrow one.
pub proof fn lemma_compact_widen(s: Seq<u8>, pos: int, narrow: int, wide: int)
    requires
        narrow <= wide,
        spec_decode_compact(s, pos, narrow) is Some,
    ensures
        spec_decode_compact(s, pos, wide) == spec_decode_compact(s, pos, narrow),
{
}

/// How many bytes the little-endian form of `v` needs, above eight.
pub fn byte_width_u128(v: u128) -> (n: usize)
    requires
        v > u64::MAX as u128,
    ensures
        9 <= n <= 16,
        v < crate::bytes::p256(n as nat),
    decreases v,
{
    proof {
        reveal_with_fuel(crate::bytes::p256, 17);
    }
    if v < 0x1000000000000000000 {
        9
    } else if v < 0x100000000000000000000 {
        10
    } else if v < 0x10000000000000000000000 {
        11
    } else if v < 0x1000000000000000000000000 {
        12
    } else if v < 0x100000000000000000000000000 {
        13
    } else if v < 0x10000000000000000000000000000 {
        14
    } else if v < 0x1000000000000000000000000000000 {
        15
    } else {
        16
    }
}

/// Append `n` little-endian bytes of a 128-bit value.
pub fn push_le_bytes_u128(out: &mut Vec<u8>, v: u128, n: usize)
    requires
        1 <= n <= 16,
        v < crate::bytes::p256(n as nat),
    ensures
        final(out)@.subrange(0, old(out)@.len() as int) =~= old(out)@,
        final(out)@.len() == old(out)@.len() + n,
        crate::bytes::le_value(
            final(out)@.subrange(old(out)@.len() as int, final(out)@.len() as int),
        ) == v,
{
    let ghost base = out@.len();
    let mut rem: u128 = v;
    let mut i: usize = 0;
    proof {
        reveal_with_fuel(crate::bytes::p256, 17);
        assert(out@.subrange(base as int, base as int) =~= Seq::<u8>::empty());
        assert(v * crate::bytes::p256(0) == v) by (nonlinear_arith)
            requires
                crate::bytes::p256(0) == 1,
        ;
    }
    while i < n
        invariant
            0 <= i <= n <= 16,
            out@.len() == base + i,
            out@.subrange(0, base as int) =~= old(out)@,
            rem < crate::bytes::p256((n - i) as nat),
            crate::bytes::le_value(out@.subrange(base as int, out@.len() as int)) + rem
                * crate::bytes::p256(i as nat) == v,
        decreases n - i,
    {
        let ghost chunk = out@.subrange(base as int, out@.len() as int);
        let b: u128 = rem % 256;
        out.push(b as u8);
        proof {
            let chunk2 = out@.subrange(base as int, out@.len() as int);
            assert(chunk2.drop_last() =~= chunk);
            assert(chunk2.last() == b as u8);
            vstd::arithmetic::div_mod::lemma_fundamental_div_mod(rem as int, 256);
            crate::bytes::lemma_p256_pos(i as nat);
            assert(rem == 256 * (rem / 256) + b);
            assert((256 * (rem / 256) + b) * crate::bytes::p256(i as nat) == (rem / 256) * (256
                * crate::bytes::p256(i as nat)) + b * crate::bytes::p256(i as nat))
                by (nonlinear_arith);
            assert(rem / 256 < crate::bytes::p256((n - i - 1) as nat)) by (nonlinear_arith)
                requires
                    rem < 256 * crate::bytes::p256((n - i - 1) as nat),
            ;
        }
        rem = rem / 256;
        i = i + 1;
    }
    proof {
        assert(rem == 0);
        assert(crate::bytes::le_value(out@.subrange(base as int, out@.len() as int)) + rem
            * crate::bytes::p256(i as nat) == v);
        assert(rem * crate::bytes::p256(i as nat) == 0) by (nonlinear_arith)
            requires
                rem == 0,
        ;
    }
}

/// Stitch the encoder's segments into the decoder's reading.
#[verifier::rlimit(100)]
#[verifier::spinoff_prover]
proof fn lemma_origin_encode_decodes(
    origin: SpecOriginExtrinsic,
    relay_type: RelayTypes,
    full: Seq<u8>,
    s0: Seq<u8>,
    s1: Seq<u8>,
    s2: Seq<u8>,
    s3: Seq<u8>,
    s4: Seq<u8>,
    s5: Seq<u8>,
    s6: Seq<u8>,
    s7: Seq<u8>,
)
    requires
        origin.sender.len() == 32,
        origin.signature.len() == 64,
        relay_type == RelayTypes::Assets <==> origin.id is Some,
        spec_decode_compact(s0, 0, 4) == Some((0nat, s0.len() as int)),
        s1 == s0.push(129u8),
        s2 == s1 + seq![255u8] + origin.sender + origin.signature,
        s2.subrange(0, s1.len() as int) == s1,
        spec_decode_compact(s3, s2.len() as int, 8) == Some(
            (origin.index as nat, s3.len() as int),
        ),
        s3.subrange(0, s2.len() as int) == s2,
        spec_decode_era(s4, s3.len() as int) == Some((origin.era, s4.len() as int)),
        s4.subrange(0, s3.len() as int) == s3,
        s5 == s4 + seq![0u8, 0u8],
        origin.id is Some ==> spec_decode_compact(s6, s5.len() as int, 4) == Some(
            (origin.id->Some_0 as nat, s6.len() as int),
        ),
        origin.id is None ==> s6 == s5,
        s6.subrange(0, s5.len() as int) == s5,
        s7 == s6.push(255u8) + origin.dest,
        origin.dest.len() == 32,
        s7.subrange(0, s6.len() as int) == s6,
        spec_decode_compact(full, s7.len() as int, 16) == Some(
            (origin.amount as nat, full.len() as int),
        ),
        full.subrange(0, s7.len() as int) == s7,
        full.len() >= 66,
    ensures
        spec_decode_origin(relay_type, full) == Some(origin),
{
    assert(s5.subrange(0, s4.len() as int) =~= s4);
    assert(s1.subrange(0, s0.len() as int) =~= s0);
    lemma_prefix_chain(full, s7, s6, s5, s4, s3, s2, s1);
    assert(full.subrange(0, s0.len() as int) =~= s0);
    let p0 = s0.len() as int;
    assert(spec_decode_compact(full, 0, 4) == Some((0nat, p0))) by {
        lemma_compact_prefix_stable(s0, full, 0, 4);
    }
    assert(full[p0] == 129u8) by {
        assert(s1[p0] == 129u8);
    }
    assert(full[p0 + 1] == 255u8);
    assert(spec_decode_bytes(full, p0 + 2, 32) == Some((origin.sender, p0 + 34))) by {
        assert(full.subrange(p0 + 2, p0 + 34) =~= origin.sender);
    }
    assert(spec_decode_bytes(full, p0 + 34, 64) == Some((origin.signature, p0 + 98))) by {
        assert(full.subrange(p0 + 34, p0 + 98) =~= origin.signature);
    }
    assert(p0 + 98 == s2.len());
    assert(spec_decode_compact(full, s2.len() as int, 8) == Some(
        (origin.index as nat, s3.len() as int),
    )) by {
        lemma_compact_prefix_stable(s3, full, s2.len() as int, 8);
    }
    assert(spec_decode_era(full, s3.len() as int) == Some((origin.era, s4.len() as int))) by {
        lemma_era_prefix_stable(s4, full, s3.len() as int);
    }
    assert(spec_decode_preamble(full, p0 + 1, true) == Some(
        (origin.sender, origin.signature, origin.index, origin.era, s4.len() as int),
    ));
    assert(full[s4.len() as int] == 0u8 && full[s4.len() as int + 1] == 0u8);
    let p2 = s4.len() + 2;
    assert(p2 == s5.len());
    if origin.id is Some {
        assert(spec_decode_compact(full, s5.len() as int, 4) == Some(
            (origin.id->Some_0 as nat, s6.len() as int),
        )) by {
            lemma_compact_prefix_stable(s6, full, s5.len() as int, 4);
        }
    }
    assert(full[s6.len() as int] == 255u8);
    assert(spec_decode_bytes(full, s6.len() as int + 1, 32) == Some((origin.dest, s7.len() as int))) by {
        assert(full.subrange(s6.len() as int + 1, s7.len() as int) =~= origin.dest);
    }
    assert(spec_decode_origin(relay_type, full) == Some(origin));
}

/// A decoder's reading inside a prefix survives in any extension of
/// that prefix.
pub proof fn lemma_compact_prefix_stable(s: Seq<u8>, full: Seq<u8>, pos: int, max_bytes: int)
    requires
        spec_decode_compact(s, pos, max_bytes) is Some,
        full.len() >= s.len(),
        full.subrange(0, s.len() as int) == s,
    ensures
        spec_decode_compact(full, pos, max_bytes) == spec_decode_compact(s, pos, max_bytes),
{
    let t = full.subrange(s.len() as int, full.len() as int);
    assert(full =~= s + t);
    lemma_decode_compact_extend(s, t, pos, max_bytes);
}

pub proof fn lemma_era_prefix_stable(s: Seq<u8>, full: Seq<u8>, pos: int)
    requires
        spec_decode_era(s, pos) is Some,
        full.len() >= s.len(),
        full.subrange(0, s.len() as int) == s,
    ensures
        spec_decode_era(full, pos) == spec_decode_era(s, pos),
{
    let t = full.subrange(s.len() as int, full.len() as int);
    assert(full =~= s + t);
    lemma_decode_era_extend(s, t, pos);
}

/// Every named prefix of the encoder's output is a prefix of the whole.
proof fn lemma_prefix_chain(
    full: Seq<u8>,
    s7: Seq<u8>,
    s6: Seq<u8>,
    s5: Seq<u8>,
    s4: Seq<u8>,
    s3: Seq<u8>,
    s2: Seq<u8>,
    s1: Seq<u8>,
)
    requires
        full.subrange(0, s7.len() as int) == s7,
        s7.len() <= full.len(),
        s7.subrange(0, s6.len() as int) == s6,
        s6.len() <= s7.len(),
        s6.subrange(0, s5.len() as int) == s5,
        s5.len() <= s6.len(),
        s5.subrange(0, s4.len() as int) == s4,
        s4.len() <= s5.len(),
        s4.subrange(0, s3.len() as int) == s3,
        s3.len() <= s4.len(),
        s3.subrange(0, s2.len() as int) == s2,
        s2.len() <= s3.len(),
        s2.subrange(0, s1.len() as int) == s1,
        s1.len() <= s2.len(),
    ensures
        full.subrange(0, s6.len() as int) == s6,
        full.subrange(0, s5.len() as int) == s5,
        full.subrange(0, s4.len() as int) == s4,
        full.subrange(0, s3.len() as int) == s3,
        full.subrange(0, s2.len() as int) == s2,
        full.subrange(0, s1.len() as int) == s1,
        forall|i: int| 0 <= i < s7.len() ==> full[i] == s7[i],
        forall|i: int| 0 <= i < s4.len() ==> full[i] == s4[i],
{
    assert(full.subrange(0, s6.len() as int) =~= s6);
    assert(full.subrange(0, s5.len() as int) =~= s5);
    assert(full.subrange(0, s4.len() as int) =~= s4);
    assert(full.subrange(0, s3.len() as int) =~= s3);
    assert(full.subrange(0, s2.len() as int) =~= s2);
    assert(full.subrange(0, s1.len() as int) =~= s1);
}

} // verus!
