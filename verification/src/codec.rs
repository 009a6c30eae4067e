//! The wire format shared by every structure the node exchanges.
//!
//! Integers travel as fixed-width little-endian bytes or in the
//! compact form: a two-bit mode in the first byte selects a one, two
//! or four byte value shifted left by two, or a length-prefixed
//! little-endian run. Byte strings travel with a compact length
//! prefix. Decoding is defined by spec functions over byte strings;
//! the executable decoders return exactly what those functions say,
//! and the encoders promise that decoding their output restores the
//! value.

use vstd::prelude::*;

verus! {

use crate::bytes::{le_value, p256, lemma_le_value_bound, lemma_p256_pos};
use crate::bytes::{u64_from_le_n, u128_from_le_n, push_bytes};

/// What a decoder yields: a number and the position after it, or
/// nothing when the bytes do not parse.
pub type SpecNum = Option<(nat, int)>;

/// Compact decoding at `pos` with at most `max_bytes` in the
/// length-prefixed mode.
pub open spec fn spec_decode_compact(s: Seq<u8>, pos: int, max_bytes: int) -> SpecNum {
    if 0 <= pos < s.len() {
        let prefix = s[pos];
        if prefix % 4 == 0 {
            Some(((prefix / 4) as nat, pos + 1))
        } else if prefix % 4 == 1 {
            if pos + 2 <= s.len() {
                Some((le_value(s.subrange(pos, pos + 2)) / 4, pos + 2))
            } else {
                None
            }
        } else if prefix % 4 == 2 {
            if pos + 4 <= s.len() {
                Some((le_value(s.subrange(pos, pos + 4)) / 4, pos + 4))
            } else {
                None
            }
        } else {
            let n = prefix / 4 + 4;
            if n <= max_bytes && pos + 1 + n <= s.len() {
                Some((le_value(s.subrange(pos + 1, pos + 1 + n)), pos + 1 + n))
            } else {
                None
            }
        }
    } else {
        None
    }
}

/// A decoder that read up to `p` looks at no byte past `p`: appending
/// bytes does not change its answer.
pub proof fn lemma_decode_compact_extend(s: Seq<u8>, t: Seq<u8>, pos: int, max_bytes: int)
    requires
        spec_decode_compact(s, pos, max_bytes) is Some,
    ensures
        spec_decode_compact(s + t, pos, max_bytes) == spec_decode_compact(s, pos, max_bytes),
{
    let st = s + t;
    let prefix = s[pos];
    assert(st[pos] == prefix);
    if prefix % 4 == 1 {
        assert(st.subrange(pos, pos + 2) =~= s.subrange(pos, pos + 2));
    } else if prefix % 4 == 2 {
        assert(st.subrange(pos, pos + 4) =~= s.subrange(pos, pos + 4));
    } else if prefix % 4 == 3 {
        let n = prefix / 4 + 4;
        assert(st.subrange(pos + 1, pos + 1 + n) =~= s.subrange(pos + 1, pos + 1 + n));
    }
}

/// Compact decoding of a 32-bit value: the length-prefixed mode
/// carries exactly four bytes.
pub fn decode_compact_u32(s: &[u8], pos: usize) -> (r: Option<(u32, usize)>)
    ensures
        match r {
            Some((v, p)) => spec_decode_compact(s@, pos as int, 4) == Some((v as nat, p as int)),
            None => spec_decode_compact(s@, pos as int, 4) is None,
        },
{
    let len = s.len();
    if pos >= len {
        return None;
    }
    let prefix = s[pos];
    if prefix % 4 == 0 {
        Some(((prefix / 4) as u32, pos + 1))
    } else if prefix % 4 == 1 {
        if len - pos >= 2 {
            let v = u64_from_le_n(s, pos, 2);
            proof {
                lemma_le_value_bound(s@.subrange(pos as int, pos + 2));
                reveal_with_fuel(p256, 5);
            }
            Some(((v / 4) as u32, pos + 2))
        } else {
            None
        }
    } else if prefix % 4 == 2 {
        if len - pos >= 4 {
            let v = u64_from_le_n(s, pos, 4);
            proof {
                lemma_le_value_bound(s@.subrange(pos as int, pos + 4));
                reveal_with_fuel(p256, 5);
            }
            Some(((v / 4) as u32, pos + 4))
        } else {
            None
        }
    } else {
        let n = (prefix / 4) as usize + 4;
        if n <= 4 && len - pos >= n + 1 {
            let v = u64_from_le_n(s, pos + 1, n);
            proof {
                lemma_le_value_bound(s@.subrange(pos + 1, pos + 1 + n));
                reveal_with_fuel(p256, 5);
            }
            Some((v as u32, pos + 1 + n))
        } else {
            None
        }
    }
}

/// Compact decoding of a 64-bit value: up to eight length-prefixed
/// bytes.
pub fn decode_compact_u64(s: &[u8], pos: usize) -> (r: Option<(u64, usize)>)
    ensures
        match r {
            Some((v, p)) => spec_decode_compact(s@, pos as int, 8) == Some((v as nat, p as int)),
            None => spec_decode_compact(s@, pos as int, 8) is None,
        },
{
    let len = s.len();
    if pos >= len {
        return None;
    }
    let prefix = s[pos];
    if prefix % 4 == 0 {
        Some(((prefix / 4) as u64, pos + 1))
    } else if prefix % 4 == 1 {
        if len - pos >= 2 {
            let v = u64_from_le_n(s, pos, 2);
            Some((v / 4, pos + 2))
        } else {
            None
        }
    } else if prefix % 4 == 2 {
        if len - pos >= 4 {
            let v = u64_from_le_n(s, pos, 4);
            Some((v / 4, pos + 4))
        } else {
            None
        }
    } else {
        let n = (prefix / 4) as usize + 4;
        if n <= 8 && len - pos >= n + 1 {
            let v = u64_from_le_n(s, pos + 1, n);
            Some((v, pos + 1 + n))
        } else {
            None
        }
    }
}

/// Compact decoding of a 128-bit value: up to sixteen length-prefixed
/// bytes.
pub fn decode_compact_u128(s: &[u8], pos: usize) -> (r: Option<(u128, usize)>)
    ensures
        match r {
            Some((v, p)) => spec_decode_compact(s@, pos as int, 16) == Some((v as nat, p as int)),
            None => spec_decode_compact(s@, pos as int, 16) is None,
        },
{
    let len = s.len();
    if pos >= len {
        return None;
    }
    let prefix = s[pos];
    if prefix % 4 == 0 {
        Some(((prefix / 4) as u128, pos + 1))
    } else if prefix % 4 == 1 {
        if len - pos >= 2 {
            let v = u128_from_le_n(s, pos, 2);
            Some((v / 4, pos + 2))
        } else {
            None
        }
    } else if prefix % 4 == 2 {
        if len - pos >= 4 {
            let v = u128_from_le_n(s, pos, 4);
            Some((v / 4, pos + 4))
        } else {
            None
        }
    } else {
        let n = (prefix / 4) as usize + 4;
        if n <= 16 && len - pos >= n + 1 {
            let v = u128_from_le_n(s, pos + 1, n);
            Some((v, pos + 1 + n))
        } else {
            None
        }
    }
}

/// Append the compact form of `v` and promise that compact decoding
/// at the former end restores `v`.
pub fn encode_compact_u64(out: &mut Vec<u8>, v: u64)
    ensures
        final(out)@.subrange(0, old(out)@.len() as int) =~= old(out)@,
        final(out)@.len() > old(out)@.len(),
        final(out)@.len() <= old(out)@.len() + 9,
        spec_decode_compact(final(out)@, old(out)@.len() as int, 8) == Some(
            (v as nat, final(out)@.len() as int),
        ),
        v < 0x100000000 ==> spec_decode_compact(final(out)@, old(out)@.len() as int, 4) == Some(
            (v as nat, final(out)@.len() as int),
        ),
{
    let ghost base = out@.len() as int;
    if v < 64 {
        out.push((v * 4) as u8);
        proof {
            assert(out@[base] == (v * 4) as u8);
        }
    } else if v < 16384 {
        let w = v * 4 + 1;
        let b0 = (w % 256) as u8;
        let b1 = (w / 256) as u8;
        out.push(b0);
        out.push(b1);
        proof {
            reveal_with_fuel(p256, 3);
            assert(out@[base] == b0 && out@[base + 1] == b1);
            let seg = out@.subrange(base, base + 2);
            assert(seg =~= seq![b0, b1]);
            assert(seq![b0, b1].drop_last() =~= seq![b0]);
            assert(seq![b0].drop_last() =~= Seq::<u8>::empty());
            assert(seq![b0].last() == b0 && seq![b0].len() == 1);
            assert(seq![b0, b1].last() == b1 && seq![b0, b1].len() == 2);
            assert((b0 as nat) * p256(0) == b0) by (nonlinear_arith)
                requires
                    p256(0) == 1,
            ;
            assert(le_value(seq![b0]) == le_value(seq![b0].drop_last()) + (seq![b0].last() as nat)
                * p256((seq![b0].len() - 1) as nat));
            assert(le_value(seq![b0]) == b0);
            assert((b1 as nat) * p256(1) == (b1 as nat) * 256) by (nonlinear_arith)
                requires
                    p256(1) == 256,
            ;
            assert(le_value(seq![b0, b1]) == le_value(seq![b0, b1].drop_last()) + (seq![b0,
            b1].last() as nat) * p256((seq![b0, b1].len() - 1) as nat));
            assert(le_value(seq![b0, b1]) == b0 + (b1 as nat) * 256);
            assert((w / 256) * 256 + (w % 256) == w) by {
                vstd::arithmetic::div_mod::lemma_fundamental_div_mod(w as int, 256);
            }
            assert(le_value(seg) == w);
            assert(w % 256 % 4 == 1 && w / 4 == v) by (bit_vector)
                requires
                    w == v * 4 + 1 && v < 16384,
            ;
            assert(out@.subrange(0, base) =~= old(out)@);
        }
    } else if v < 1073741824 {
        let w = v * 4 + 2;
        push_u32_le_of(out, w);
        proof {
            let seg = out@.subrange(base, base + 4);
            assert(out@[base] == (w % 256) as u8);
            assert(w % 256 % 4 == 2 && w / 4 == v) by (bit_vector)
                requires
                    w == v * 4 + 2 && v < 1073741824,
            ;
            assert(le_value(seg) / 4 == v as nat);
        }
    } else {
        let n = byte_width_u64(v);
        proof {
            reveal_with_fuel(p256, 9);
            assert(4 <= n) by {
                if n <= 3 {
                    crate::bytes::lemma_p256_mono(n as nat, 3);
                }
            }
        }
        let prefix: u8 = (n as u8 - 4) * 4 + 3;
        out.push(prefix);
        let ghost mid = out@;
        push_le_bytes_u64(out, v, n);
        proof {
            assert(out@.subrange(0, base + 1) =~= mid);
            assert(out@[base] == mid[base] && mid[base] == prefix);
            assert(prefix % 4 == 3 && prefix / 4 + 4 == n);
            if v < 0x100000000 {
                assert(n <= 4) by {
                    if n > 4 {
                        crate::bytes::lemma_p256_mono(4, (n - 1) as nat);
                    }
                }
            }
            assert(out@.subrange(base + 1, base + 1 + n as int) =~= out@.subrange(
                base + 1,
                out@.len() as int,
            ));
            assert(out@.subrange(0, base) =~= old(out)@);
        }
    }
}

/// How many bytes the little-endian form of `v` needs.
pub fn byte_width_u64(v: u64) -> (n: usize)
    ensures
        1 <= n <= 8,
        v < p256(n as nat),
        n > 1 ==> v >= p256((n - 1) as nat),
{
    proof {
        reveal_with_fuel(p256, 9);
    }
    if v < 0x100 {
        1
    } else if v < 0x10000 {
        2
    } else if v < 0x1000000 {
        3
    } else if v < 0x100000000 {
        4
    } else if v < 0x10000000000 {
        5
    } else if v < 0x1000000000000 {
        6
    } else if v < 0x100000000000000 {
        7
    } else {
        8
    }
}

/// Append `n` little-endian bytes of `v`.
pub fn push_le_bytes_u64(out: &mut Vec<u8>, v: u64, n: usize)
    requires
        1 <= n <= 8,
        v < p256(n as nat),
    ensures
        final(out)@.subrange(0, old(out)@.len() as int) =~= old(out)@,
        final(out)@.len() == old(out)@.len() + n,
        le_value(final(out)@.subrange(old(out)@.len() as int, final(out)@.len() as int)) == v,
{
    let ghost base = out@.len();
    let mut rem: u64 = v;
    let mut i: usize = 0;
    proof {
        reveal_with_fuel(p256, 9);
        assert(out@.subrange(base as int, base as int) =~= Seq::<u8>::empty());
        assert(v * p256(0) == v) by (nonlinear_arith)
            requires
                p256(0) == 1,
        ;
    }
    while i < n
        invariant
            0 <= i <= n <= 8,
            out@.len() == base + i,
            out@.subrange(0, base as int) =~= old(out)@,
            rem < p256((n - i) as nat),
            le_value(out@.subrange(base as int, out@.len() as int)) + rem * p256(i as nat) == v,
        decreases n - i,
    {
        let ghost chunk = out@.subrange(base as int, out@.len() as int);
        let b: u64 = rem % 256;
        out.push(b as u8);
        proof {
            let chunk2 = out@.subrange(base as int, out@.len() as int);
            assert(chunk2.drop_last() =~= chunk);
            assert(chunk2.last() == b as u8);
            vstd::arithmetic::div_mod::lemma_fundamental_div_mod(rem as int, 256);
            lemma_p256_pos(i as nat);
            assert(rem == 256 * (rem / 256) + b);
            assert((256 * (rem / 256) + b) * p256(i as nat) == (rem / 256) * (256 * p256(i as nat))
                + b * p256(i as nat)) by (nonlinear_arith);
            assert(rem / 256 < p256((n - i - 1) as nat)) by (nonlinear_arith)
                requires
                    rem < 256 * p256((n - i - 1) as nat),
            ;
        }
        rem = rem / 256;
        i = i + 1;
    }
    proof {
        assert(rem == 0);
        assert(le_value(out@.subrange(base as int, out@.len() as int)) + rem * p256(i as nat) == v);
        assert(rem * p256(i as nat) == 0) by (nonlinear_arith)
            requires
                rem == 0,
        ;
    }
}

/// Append the four little-endian bytes of `v`.
pub fn push_u32_le_of(out: &mut Vec<u8>, v: u64)
    requires
        v < 0x100000000,
    ensures
        final(out)@.subrange(0, old(out)@.len() as int) =~= old(out)@,
        final(out)@.len() == old(out)@.len() + 4,
        le_value(final(out)@.subrange(old(out)@.len() as int, final(out)@.len() as int)) == v,
        final(out)@[old(out)@.len() as int] == (v % 256) as u8,
{
    proof {
        reveal_with_fuel(p256, 5);
    }
    let ghost base = out@.len() as int;
    push_le_bytes_u64(out, v, 4);
    proof {
        let seg = out@.subrange(base, base + 4);
        lemma_le_first_byte(seg);
        assert(out@[base] == seg[0]);
        assert(seg[0] == (v % 256) as u8);
    }
}

/// The first byte of a little-endian string is its value modulo 256.
pub proof fn lemma_le_first_byte(s: Seq<u8>)
    requires
        s.len() >= 1,
    ensures
        s[0] == le_value(s) % 256,
    decreases s.len(),
{
    if s.len() == 1 {
        assert(s.drop_last() =~= Seq::<u8>::empty());
        assert((s.last() as nat) * p256(0) == s.last()) by (nonlinear_arith)
            requires
                p256(0) == 1,
        ;
        assert(le_value(s) == le_value(s.drop_last()) + (s.last() as nat) * p256(
            (s.len() - 1) as nat,
        ));
        assert(le_value(s) == s.last());
        assert(s[0] == s.last());
        vstd::arithmetic::div_mod::lemma_small_mod(le_value(s), 256);
        assert(le_value(s) == s[0]);
    } else {
        let d = s.drop_last();
        lemma_le_first_byte(d);
        lemma_le_value_bound(s);
        let n = (s.len() - 1) as nat;
        assert(p256(n) % 256 == 0) by {
            lemma_p256_pos((n - 1) as nat);
            assert(p256(n) == 256 * p256((n - 1) as nat));
            vstd::arithmetic::div_mod::lemma_mod_multiples_basic(p256((n - 1) as nat) as int, 256);
        }
        assert((s.last() as nat) * p256(n) % 256 == 0) by {
            assert(p256(n) == 256 * p256((n - 1) as nat));
            assert((s.last() as nat) * (256 * p256((n - 1) as nat)) == ((s.last() as nat) * p256(
                (n - 1) as nat,
            )) * 256) by (nonlinear_arith);
            vstd::arithmetic::div_mod::lemma_mod_multiples_basic(
                ((s.last() as nat) * p256((n - 1) as nat)) as int,
                256,
            );
        }
        vstd::arithmetic::div_mod::lemma_add_mod_noop(
            le_value(d) as int,
            ((s.last() as nat) * p256(n)) as int,
            256,
        );
        assert(le_value(s) % 256 == (le_value(d) % 256 + 0) % 256);
        vstd::arithmetic::div_mod::lemma_mod_twice(le_value(d) as int, 256);
        assert(d[0] == s[0]);
    }
}

/// What a byte-string decoder yields.
pub type SpecBytes = Option<(Seq<u8>, int)>;

/// Fixed-width decoding: `n` raw bytes at `pos`.
pub open spec fn spec_decode_bytes(s: Seq<u8>, pos: int, n: int) -> SpecBytes {
    if 0 <= pos && 0 <= n && pos + n <= s.len() {
        Some((s.subrange(pos, pos + n), pos + n))
    } else {
        None
    }
}

pub proof fn lemma_decode_bytes_extend(s: Seq<u8>, t: Seq<u8>, pos: int, n: int)
    requires
        spec_decode_bytes(s, pos, n) is Some,
    ensures
        spec_decode_bytes(s + t, pos, n) == spec_decode_bytes(s, pos, n),
{
    assert((s + t).subrange(pos, pos + n) =~= s.subrange(pos, pos + n));
}

/// Read `n` raw bytes at `pos`.
pub fn decode_bytes(s: &[u8], pos: usize, n: usize) -> (r: Option<(Vec<u8>, usize)>)
    ensures
        match r {
            Some((v, p)) => spec_decode_bytes(s@, pos as int, n as int) == Some((v@, p as int)),
            None => spec_decode_bytes(s@, pos as int, n as int) is None,
        },
{
    let len = s.len();
    if pos <= len && len - pos >= n {
        let mut v: Vec<u8> = Vec::new();
        let mut i: usize = 0;
        while i < n
            invariant
                0 <= i <= n,
                pos + n <= s@.len(),
                s@.len() == len,
                v@ =~= s@.subrange(pos as int, pos + i),
            decreases n - i,
        {
            v.push(s[pos + i]);
            proof {
                assert(s@.subrange(pos as int, pos + i + 1) =~= s@.subrange(
                    pos as int,
                    pos + i,
                ).push(s@[pos + i]));
            }
            i = i + 1;
        }
        Some((v, pos + n))
    } else {
        None
    }
}

/// A length-prefixed byte string: a compact count, then that many
/// bytes.
pub open spec fn spec_decode_byte_vec(s: Seq<u8>, pos: int) -> SpecBytes {
    match spec_decode_compact(s, pos, 4) {
        Some((l, p)) => {
            if p + l <= s.len() {
                Some((s.subrange(p, p + l), p + l))
            } else {
                None
            }
        },
        None => None,
    }
}

/// Appending bytes does not change a byte string that already
/// decoded.
pub proof fn lemma_decode_byte_vec_extend(s: Seq<u8>, t: Seq<u8>, pos: int)
    requires
        spec_decode_byte_vec(s, pos) is Some,
    ensures
        spec_decode_byte_vec(s + t, pos) == spec_decode_byte_vec(s, pos),
{
    lemma_decode_compact_extend(s, t, pos, 4);
    let (l, p) = spec_decode_compact(s, pos, 4)->Some_0;
    assert((s + t).subrange(p, p + l) =~= s.subrange(p, p + l));
}

/// A byte-string reading inside a prefix survives in any extension of
/// that prefix.
pub proof fn lemma_byte_vec_prefix_stable(s: Seq<u8>, full: Seq<u8>, pos: int)
    requires
        spec_decode_byte_vec(s, pos) is Some,
        full.len() >= s.len(),
        full.subrange(0, s.len() as int) == s,
    ensures
        spec_decode_byte_vec(full, pos) == spec_decode_byte_vec(s, pos),
{
    let t = full.subrange(s.len() as int, full.len() as int);
    assert(full =~= s + t);
    lemma_decode_byte_vec_extend(s, t, pos);
}

/// Read a length-prefixed byte string at `pos`.
pub fn decode_byte_vec(s: &[u8], pos: usize) -> (r: Option<(Vec<u8>, usize)>)
    ensures
        match r {
            Some((v, p)) => spec_decode_byte_vec(s@, pos as int) == Some((v@, p as int)),
            None => spec_decode_byte_vec(s@, pos as int) is None,
        },
{
    let len = s.len();
    match decode_compact_u32(s, pos) {
        Some((l, p)) => {
            if p <= len && len - p >= l as usize {
                match decode_bytes(s, p, l as usize) {
                    Some((v, p2)) => Some((v, p2)),
                    None => None,
                }
            } else {
                None
            }
        },
        None => None,
    }
}

/// An eight-byte little-endian integer at `pos`.
pub open spec fn spec_decode_u64_le(s: Seq<u8>, pos: int) -> SpecNum {
    if 0 <= pos && pos + 8 <= s.len() {
        Some((le_value(s.subrange(pos, pos + 8)), pos + 8))
    } else {
        None
    }
}

pub proof fn lemma_decode_u64_le_extend(s: Seq<u8>, t: Seq<u8>, pos: int)
    requires
        spec_decode_u64_le(s, pos) is Some,
    ensures
        spec_decode_u64_le(s + t, pos) == spec_decode_u64_le(s, pos),
{
    assert((s + t).subrange(pos, pos + 8) =~= s.subrange(pos, pos + 8));
}

/// Read an eight-byte little-endian integer at `pos`.
pub fn decode_u64_le(s: &[u8], pos: usize) -> (r: Option<(u64, usize)>)
    ensures
        match r {
            Some((v, p)) => spec_decode_u64_le(s@, pos as int) == Some((v as nat, p as int)),
            None => spec_decode_u64_le(s@, pos as int) is None,
        },
{
    let len = s.len();
    if pos <= len && len - pos >= 8 {
        let v = u64_from_le_n(s, pos, 8);
        Some((v, pos + 8))
    } else {
        None
    }
}

/// Append the eight little-endian bytes of `v` and promise that
/// fixed-width decoding at the former end restores `v`.
pub fn encode_u64_le(out: &mut Vec<u8>, v: u64)
    ensures
        final(out)@.subrange(0, old(out)@.len() as int) =~= old(out)@,
        final(out)@.len() == old(out)@.len() + 8,
        spec_decode_u64_le(final(out)@, old(out)@.len() as int) == Some(
            (v as nat, final(out)@.len() as int),
        ),
{
    proof {
        reveal_with_fuel(p256, 9);
    }
    push_le_bytes_u64(out, v, 8);
}

/// Append `v` with its compact length prefix and promise that
/// byte-string decoding at the former end restores `v`.
pub fn encode_byte_vec(out: &mut Vec<u8>, v: &[u8])
    requires
        v@.len() < 0x100000000,
    ensures
        final(out)@.subrange(0, old(out)@.len() as int) =~= old(out)@,
        final(out)@.len() >= old(out)@.len() + v@.len(),
        spec_decode_byte_vec(final(out)@, old(out)@.len() as int) == Some(
            (v@, final(out)@.len() as int),
        ),
{
    let ghost base = out@.len() as int;
    encode_compact_u64(out, v.len() as u64);
    let ghost mid = out@;
    let ghost p = out@.len() as int;
    push_bytes(out, v);
    proof {
        assert(out@ =~= mid + v@);
        lemma_decode_compact_extend(mid, v@, base, 4);
        assert(spec_decode_compact(out@, base, 4) == Some((v@.len(), p)));
        assert(out@.subrange(p, p + v@.len() as int) =~= v@);
        assert(out@.subrange(0, base) =~= old(out)@);
    }
}

} // verus!
