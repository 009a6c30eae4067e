//! Numeric views of byte strings.
//!
//! Wire structures and hash outputs are byte strings; contracts about
//! them speak of the number a byte string denotes, big-endian or
//! little-endian. This module defines those views and the conversions
//! between machine integers and fixed-width byte strings.

use vstd::prelude::*;

verus! {

use vstd::arithmetic::div_mod::lemma_fundamental_div_mod_converse;

/// 256 raised to `n`: the number of byte strings of length `n`.
pub open spec fn p256(n: nat) -> nat
    decreases n,
{
    if n == 0 {
        1
    } else {
        256 * p256((n - 1) as nat)
    }
}

/// The number denoted by `s` read big-endian (first byte most significant).
pub open spec fn be_value(s: Seq<u8>) -> nat
    decreases s.len(),
{
    if s.len() == 0 {
        0
    } else {
        be_value(s.drop_last()) * 256 + s.last() as nat
    }
}

/// The number denoted by `s` read little-endian (first byte least significant).
pub open spec fn le_value(s: Seq<u8>) -> nat
    decreases s.len(),
{
    if s.len() == 0 {
        0
    } else {
        le_value(s.drop_last()) + (s.last() as nat) * p256((s.len() - 1) as nat)
    }
}

pub proof fn lemma_p256_pos(n: nat)
    ensures
        p256(n) >= 1,
    decreases n,
{
    if n > 0 {
        lemma_p256_pos((n - 1) as nat);
    }
}

/// A byte string of length `n` denotes a number below `p256(n)`.
pub proof fn lemma_be_value_bound(s: Seq<u8>)
    ensures
        be_value(s) < p256(s.len()),
    decreases s.len(),
{
    if s.len() == 0 {
    } else {
        let d = s.drop_last();
        lemma_be_value_bound(d);
        assert(be_value(d) <= p256(d.len()) - 1);
        assert(be_value(d) * 256 <= (p256(d.len()) - 1) * 256) by (nonlinear_arith)
            requires
                be_value(d) <= p256(d.len()) - 1,
        ;
    }
}

pub proof fn lemma_le_value_bound(s: Seq<u8>)
    ensures
        le_value(s) < p256(s.len()),
    decreases s.len(),
{
    if s.len() == 0 {
    } else {
        let d = s.drop_last();
        lemma_le_value_bound(d);
        assert(s.last() * p256(d.len()) <= 255 * p256(d.len())) by (nonlinear_arith)
            requires
                s.last() <= 255,
                p256(d.len()) >= 0,
        ;
    }
}

/// Two byte strings of one length denoting one number are equal,
/// big-endian.
pub proof fn lemma_be_value_unique(a: Seq<u8>, b: Seq<u8>)
    requires
        a.len() == b.len(),
        be_value(a) == be_value(b),
    ensures
        a =~= b,
    decreases a.len(),
{
    if a.len() > 0 {
        let da = a.drop_last();
        let db = b.drop_last();
        let v = be_value(a);
        lemma_fundamental_div_mod_converse(v as int, 256, be_value(da) as int, a.last() as int);
        lemma_fundamental_div_mod_converse(v as int, 256, be_value(db) as int, b.last() as int);
        assert(a.last() == v % 256 && b.last() == v % 256);
        assert(be_value(da) == v / 256 && be_value(db) == v / 256);
        lemma_be_value_unique(da, db);
        assert(a =~= da.push(a.last()));
        assert(b =~= db.push(b.last()));
    }
}

/// Two byte strings of one length denoting one number are equal,
/// little-endian.
pub proof fn lemma_le_value_unique(a: Seq<u8>, b: Seq<u8>)
    requires
        a.len() == b.len(),
        le_value(a) == le_value(b),
    ensures
        a =~= b,
    decreases a.len(),
{
    if a.len() > 0 {
        let da = a.drop_last();
        let db = b.drop_last();
        let n = (a.len() - 1) as nat;
        let v = le_value(a);
        lemma_le_value_bound(da);
        lemma_le_value_bound(db);
        lemma_p256_pos(n);
        lemma_fundamental_div_mod_converse(v as int, p256(n) as int, a.last() as int, le_value(da) as int);
        lemma_fundamental_div_mod_converse(v as int, p256(n) as int, b.last() as int, le_value(db) as int);
        assert(a.last() == v as int / (p256(n) as int) && b.last() == v as int / (p256(n) as int));
        lemma_le_value_unique(da, db);
        assert(a =~= da.push(a.last()));
        assert(b =~= db.push(b.last()));
    }
}

/// Splitting a byte string splits its big-endian value at the matching
/// power of 256.
pub proof fn lemma_be_value_split(s: Seq<u8>, k: int)
    requires
        0 <= k <= s.len(),
    ensures
        be_value(s) == be_value(s.subrange(0, k)) * p256((s.len() - k) as nat) + be_value(
            s.subrange(k, s.len() as int),
        ),
    decreases s.len() - k,
{
    if k == s.len() {
        assert(s.subrange(0, k) =~= s);
        assert(s.subrange(k, s.len() as int) =~= Seq::<u8>::empty());
        assert(p256((s.len() - k) as nat) == 1);
        assert(be_value(s) == be_value(s.subrange(0, k)) * p256((s.len() - k) as nat) + be_value(
            s.subrange(k, s.len() as int),
        )) by (nonlinear_arith)
            requires
                be_value(s.subrange(0, k)) == be_value(s),
                p256((s.len() - k) as nat) == 1,
                be_value(s.subrange(k, s.len() as int)) == 0,
        ;
    } else {
        let d = s.drop_last();
        lemma_be_value_split(d, k);
        let pre = s.subrange(0, k);
        let n = (s.len() - k - 1) as nat;
        assert(d.subrange(0, k) =~= pre);
        assert(s.subrange(k, s.len() as int).drop_last() =~= d.subrange(k, d.len() as int));
        let mid = d.subrange(k, d.len() as int);
        assert(be_value(s) == (be_value(pre) * p256(n) + be_value(mid)) * 256 + s.last());
        assert((be_value(pre) * p256(n) + be_value(mid)) * 256 == be_value(pre) * (256 * p256(n))
            + be_value(mid) * 256) by (nonlinear_arith);
        assert(be_value(s.subrange(k, s.len() as int)) == be_value(mid) * 256 + s.last());
        assert(p256((s.len() - k) as nat) == 256 * p256(n));
        assert(be_value(pre) * p256((s.len() - k) as nat) == be_value(pre) * (256 * p256(n)))
            by (nonlinear_arith)
            requires
                p256((s.len() - k) as nat) == 256 * p256(n),
        ;
        assert(be_value(s) == be_value(pre) * (256 * p256(n)) + be_value(mid) * 256 + s.last());
        assert(be_value(s) == be_value(s.subrange(0, k)) * p256((s.len() - k) as nat) + be_value(
            s.subrange(k, s.len() as int),
        ));
    }
}

/// Read eight bytes of `b` starting at `off` as a big-endian integer.
pub fn u64_from_be(b: &[u8], off: usize) -> (r: u64)
    requires
        off + 8 <= b@.len(),
    ensures
        r == be_value(b@.subrange(off as int, off + 8)),
{
    let n = b.len();
    let mut v: u64 = 0;
    let mut i: usize = 0;
    while i < 8
        invariant
            0 <= i <= 8,
            off + 8 <= b@.len(),
            b@.len() == n,
            v == be_value(b@.subrange(off as int, off + i)),
            v < p256(i as nat),
        decreases 8 - i,
    {
        proof {
            assert(b@.subrange(off as int, off + i + 1).drop_last() =~= b@.subrange(
                off as int,
                off + i,
            ));
            reveal_with_fuel(p256, 9);
            lemma_p256_mono(i as nat, 7);
            assert(v * 256 + 256 <= p256(7) * 256) by (nonlinear_arith)
                requires
                    v < p256(7),
            ;
        }
        v = v * 256 + (b[off + i] as u64);
        i = i + 1;
    }
    proof {
        assert(b@.subrange(off as int, off + 8) =~= b@.subrange(off as int, off + i));
    }
    v
}

pub proof fn lemma_p256_mono(m: nat, n: nat)
    requires
        m <= n,
    ensures
        p256(m) <= p256(n),
    decreases n,
{
    if m < n {
        lemma_p256_mono(m, (n - 1) as nat);
        lemma_p256_pos((n - 1) as nat);
    }
}

/// Append the eight big-endian bytes of `x` to `out`.
pub fn push_u64_be(out: &mut Vec<u8>, x: u64)
    ensures
        final(out)@.len() == old(out)@.len() + 8,
        final(out)@.subrange(0, old(out)@.len() as int) =~= old(out)@,
        be_value(final(out)@.subrange(old(out)@.len() as int, final(out)@.len() as int)) == x,
{
    let ghost base = out@.len();
    let mut rem: u64 = x;
    let mut d: u64 = 0x100000000000000;
    let mut i: usize = 0;
    proof {
        assert(p256(7) == 0x100000000000000) by {
            reveal_with_fuel(p256, 8);
        }
    }
    while i < 8
        invariant
            0 <= i <= 8,
            out@.len() == base + i,
            out@.subrange(0, base as int) =~= old(out)@,
            i < 8 ==> d == p256((7 - i) as nat),
            rem < p256((8 - i) as nat),
            be_value(out@.subrange(base as int, out@.len() as int)) * p256((8 - i) as nat) + rem
                == x,
        decreases 8 - i,
    {
        let ghost chunk = out@.subrange(base as int, out@.len() as int);
        let ghost n = (7 - i) as nat;
        proof {
            lemma_p256_pos(n);
            assert(rem < p256((8 - i) as nat));
            assert(p256((8 - i) as nat) == 256 * p256(n));
            assert(rem / d < 256) by (nonlinear_arith)
                requires
                    d == p256(n),
                    d >= 1,
                    rem < 256 * p256(n),
            ;
        }
        let b: u64 = rem / d;
        out.push(b as u8);
        proof {
            let chunk2 = out@.subrange(base as int, out@.len() as int);
            assert(chunk2.drop_last() =~= chunk);
            assert(chunk2.last() == b as u8);
            vstd::arithmetic::div_mod::lemma_fundamental_div_mod(rem as int, d as int);
            assert((be_value(chunk) * 256 + b) * p256(n) == be_value(chunk) * (256 * p256(n)) + b
                * p256(n)) by (nonlinear_arith);
            assert(rem % d < d);
        }
        rem = rem % d;
        if i < 7 {
            d = d / 256;
            proof {
                assert(256 * p256((6 - i) as nat) / 256 == p256((6 - i) as nat)) by {
                    lemma_p256_pos((6 - i) as nat);
                    vstd::arithmetic::div_mod::lemma_div_multiples_vanish(
                        p256((6 - i) as nat) as int,
                        256,
                    );
                }
            }
        }
        i = i + 1;
    }
    proof {
        assert(be_value(out@.subrange(base as int, out@.len() as int)) * 1 + rem == x);
        assert(rem == 0);
    }
}

/// Read eight bytes of `b` starting at `off` as a little-endian integer.
pub fn u64_from_le(b: &[u8], off: usize) -> (r: u64)
    requires
        off + 8 <= b@.len(),
    ensures
        r == le_value(b@.subrange(off as int, off + 8)),
{
    let n = b.len();
    let mut v: u64 = 0;
    let mut m: u64 = 1;
    let mut i: usize = 0;
    while i < 8
        invariant
            0 <= i <= 8,
            off + 8 <= b@.len(),
            b@.len() == n,
            i < 8 ==> m == p256(i as nat),
            v == le_value(b@.subrange(off as int, off + i)),
            v < p256(i as nat),
        decreases 8 - i,
    {
        proof {
            assert(b@.subrange(off as int, off + i + 1).drop_last() =~= b@.subrange(
                off as int,
                off + i,
            ));
            reveal_with_fuel(p256, 9);
            lemma_p256_pos(i as nat);
            lemma_p256_mono(i as nat, 7);
            assert(p256(7) == 0x100000000000000);
            assert(b@[off + i] * p256(i as nat) <= 255 * p256(i as nat)) by (nonlinear_arith)
                requires
                    b@[off + i] <= 255,
                    p256(i as nat) >= 1,
            ;
            assert(255 * p256(i as nat) <= 255 * p256(7)) by (nonlinear_arith)
                requires
                    p256(i as nat) <= p256(7),
            ;
        }
        v = v + (b[off + i] as u64) * m;
        if i < 7 {
            m = m * 256;
        }
        i = i + 1;
    }
    proof {
        assert(b@.subrange(off as int, off + 8) =~= b@.subrange(off as int, off + i));
    }
    v
}

/// Append the eight little-endian bytes of `x` to `out`.
pub fn push_u64_le(out: &mut Vec<u8>, x: u64)
    ensures
        final(out)@.len() == old(out)@.len() + 8,
        final(out)@.subrange(0, old(out)@.len() as int) =~= old(out)@,
        le_value(final(out)@.subrange(old(out)@.len() as int, final(out)@.len() as int)) == x,
{
    let ghost base = out@.len();
    let mut rem: u64 = x;
    let mut i: usize = 0;
    proof {
        reveal_with_fuel(p256, 9);
        assert(out@.subrange(base as int, base as int) =~= Seq::<u8>::empty());
        assert(x * p256(0) == x) by (nonlinear_arith)
            requires
                p256(0) == 1,
        ;
    }
    while i < 8
        invariant
            0 <= i <= 8,
            out@.len() == base + i,
            out@.subrange(0, base as int) =~= old(out)@,
            rem < p256((8 - i) as nat),
            le_value(out@.subrange(base as int, out@.len() as int)) + rem * p256(i as nat) == x,
        decreases 8 - i,
    {
        let ghost chunk = out@.subrange(base as int, out@.len() as int);
        let b: u64 = rem % 256;
        out.push(b as u8);
        proof {
            let chunk2 = out@.subrange(base as int, out@.len() as int);
            assert(chunk2.drop_last() =~= chunk);
            assert(chunk2.last() == b as u8);
            vstd::arithmetic::div_mod::lemma_fundamental_div_mod(rem as int, 256);
            lemma_p256_pos(i as nat);
            assert(rem == 256 * (rem / 256) + b);
            assert((256 * (rem / 256) + b) * p256(i as nat) == (rem / 256) * (256 * p256(i as nat))
                + b * p256(i as nat)) by (nonlinear_arith);
            assert(rem / 256 < p256((7 - i) as nat)) by (nonlinear_arith)
                requires
                    rem < 256 * p256((7 - i) as nat),
            ;
        }
        rem = rem / 256;
        i = i + 1;
    }
    proof {
        assert(rem == 0);
        assert(le_value(out@.subrange(base as int, out@.len() as int)) + rem * p256(8) == x);
    }
}

/// Read `n` bytes of `b` starting at `off` as a little-endian integer
/// that fits in 64 bits.
pub fn u64_from_le_n(b: &[u8], off: usize, n: usize) -> (r: u64)
    requires
        off + n <= b@.len(),
        n <= 8,
    ensures
        r == le_value(b@.subrange(off as int, off + n)),
{
    let len = b.len();
    let mut v: u64 = 0;
    let mut m: u64 = 1;
    let mut i: usize = 0;
    while i < n
        invariant
            0 <= i <= n <= 8,
            off + n <= b@.len(),
            b@.len() == len,
            i < 8 ==> m == p256(i as nat),
            v == le_value(b@.subrange(off as int, off + i)),
            v < p256(i as nat),
        decreases n - i,
    {
        proof {
            assert(b@.subrange(off as int, off + i + 1).drop_last() =~= b@.subrange(
                off as int,
                off + i,
            ));
            reveal_with_fuel(p256, 9);
            lemma_p256_pos(i as nat);
            lemma_p256_mono(i as nat, 7);
            assert(b@[off + i] * p256(i as nat) <= 255 * p256(i as nat)) by (nonlinear_arith)
                requires
                    b@[off + i] <= 255,
                    p256(i as nat) >= 1,
            ;
            assert(255 * p256(i as nat) <= 255 * p256(7)) by (nonlinear_arith)
                requires
                    p256(i as nat) <= p256(7),
            ;
        }
        v = v + (b[off + i] as u64) * m;
        if i < 7 {
            m = m * 256;
        }
        i = i + 1;
    }
    v
}

/// Read `n` bytes of `b` starting at `off` as a little-endian integer
/// that fits in 128 bits.
pub fn u128_from_le_n(b: &[u8], off: usize, n: usize) -> (r: u128)
    requires
        off + n <= b@.len(),
        n <= 16,
    ensures
        r == le_value(b@.subrange(off as int, off + n)),
{
    let len = b.len();
    let mut v: u128 = 0;
    let mut m: u128 = 1;
    let mut i: usize = 0;
    while i < n
        invariant
            0 <= i <= n <= 16,
            off + n <= b@.len(),
            b@.len() == len,
            i < 16 ==> m == p256(i as nat),
            v == le_value(b@.subrange(off as int, off + i)),
            v < p256(i as nat),
        decreases n - i,
    {
        proof {
            assert(b@.subrange(off as int, off + i + 1).drop_last() =~= b@.subrange(
                off as int,
                off + i,
            ));
            reveal_with_fuel(p256, 17);
            lemma_p256_pos(i as nat);
            lemma_p256_mono(i as nat, 15);
            assert(b@[off + i] * p256(i as nat) <= 255 * p256(i as nat)) by (nonlinear_arith)
                requires
                    b@[off + i] <= 255,
                    p256(i as nat) >= 1,
            ;
            assert(255 * p256(i as nat) <= 255 * p256(15)) by (nonlinear_arith)
                requires
                    p256(i as nat) <= p256(15),
            ;
        }
        v = v + (b[off + i] as u128) * m;
        if i < 15 {
            m = m * 256;
        }
        i = i + 1;
    }
    v
}

/// Append every byte of `src` to `out`.
pub fn push_bytes(out: &mut Vec<u8>, src: &[u8])
    ensures
        final(out)@ =~= old(out)@ + src@,
{
    let n = src.len();
    let mut i: usize = 0;
    while i < n
        invariant
            0 <= i <= n,
            src@.len() == n,
            out@ =~= old(out)@ + src@.subrange(0, i as int),
        decreases n - i,
    {
        out.push(src[i]);
        proof {
            assert(old(out)@ + src@.subrange(0, i + 1) =~= (old(out)@ + src@.subrange(0, i as int)).push(
                src@[i as int],
            ));
        }
        i = i + 1;
    }
    proof {
        assert(src@.subrange(0, n as int) =~= src@);
    }
}

/// The `n` big-endian bytes of `x`: most significant first.
pub open spec fn be_seq(x: nat, n: nat) -> Seq<u8>
    decreases n,
{
    if n == 0 {
        Seq::empty()
    } else {
        be_seq(x / 256, (n - 1) as nat).push((x % 256) as u8)
    }
}

/// The `n` little-endian bytes of `x`: least significant first.
pub open spec fn le_seq(x: nat, n: nat) -> Seq<u8>
    decreases n,
{
    if n == 0 {
        Seq::empty()
    } else {
        le_seq(x % p256((n - 1) as nat), (n - 1) as nat).push((x / p256((n - 1) as nat)) as u8)
    }
}

/// `be_seq` denotes its argument.
pub proof fn lemma_be_seq_value(x: nat, n: nat)
    requires
        x < p256(n),
    ensures
        be_seq(x, n).len() == n,
        be_value(be_seq(x, n)) == x,
    decreases n,
{
    if n > 0 {
        assert(x / 256 < p256((n - 1) as nat)) by (nonlinear_arith)
            requires
                x < 256 * p256((n - 1) as nat),
        ;
        lemma_be_seq_value(x / 256, (n - 1) as nat);
        let s = be_seq(x, n);
        assert(s.drop_last() =~= be_seq(x / 256, (n - 1) as nat));
        assert(s.last() == (x % 256) as u8);
        vstd::arithmetic::div_mod::lemma_fundamental_div_mod(x as int, 256);
    }
}

/// `le_seq` denotes its argument.
pub proof fn lemma_le_seq_value(x: nat, n: nat)
    requires
        x < p256(n),
    ensures
        le_seq(x, n).len() == n,
        le_value(le_seq(x, n)) == x,
    decreases n,
{
    if n > 0 {
        let m = (n - 1) as nat;
        lemma_p256_pos(m);
        vstd::arithmetic::div_mod::lemma_mod_bound(x as int, p256(m) as int);
        lemma_le_seq_value(x % p256(m), m);
        let s = le_seq(x, n);
        assert(s.drop_last() =~= le_seq(x % p256(m), m));
        assert(s.last() == (x / p256(m)) as u8);
        assert(p256(m) * (x / p256(m)) + x % p256(m) == x) by {
            vstd::arithmetic::div_mod::lemma_fundamental_div_mod(x as int, p256(m) as int);
        }
        assert(x / p256(m) < 256) by (nonlinear_arith)
            requires
                x < 256 * p256(m),
                p256(m) >= 1,
                p256(m) * (x / p256(m)) + x % p256(m) == x,
                0 <= x % p256(m),
        ;
        assert((x / p256(m)) * p256(m) == p256(m) * (x / p256(m))) by (nonlinear_arith);
        assert(le_value(s) == x % p256(m) + (x / p256(m)) * p256(m));
    }
}

/// A copy of a byte vector.
pub fn clone_bytes(v: &[u8]) -> (r: Vec<u8>)
    ensures
        r@ == v@,
{
    let mut out: Vec<u8> = Vec::new();
    push_bytes(&mut out, v);
    proof {
        assert(Seq::<u8>::empty() + v@ =~= v@);
    }
    out
}

/// Whether two byte strings are equal.
pub fn bytes_eq(a: &[u8], b: &[u8]) -> (r: bool)
    ensures
        r == (a@ == b@),
{
    let n = a.len();
    if n != b.len() {
        proof {
            assert(a@ != b@);
        }
        return false;
    }
    let mut i: usize = 0;
    while i < n
        invariant
            0 <= i <= n,
            a@.len() == n,
            b@.len() == n,
            forall|j: int| 0 <= j < i ==> a@[j] == b@[j],
        decreases n - i,
    {
        if a[i] != b[i] {
            proof {
                assert(a@[i as int] != b@[i as int]);
            }
            return false;
        }
        i = i + 1;
    }
    proof {
        assert(a@ =~= b@);
    }
    true
}

} // verus!
