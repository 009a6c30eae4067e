//! Unsigned 256-bit integers.
//!
//! Difficulty targets are 256-bit numbers: a sealed header is accepted
//! when the work hash, read as a big-endian number, is at most the
//! target. Retargeting divides and multiplies targets by 64-bit
//! quantities, so the type offers exactly those operations, with
//! saturation on overflow.

use vstd::prelude::*;

verus! {

use crate::bytes::{be_value, p256, lemma_be_value_split};
use crate::bytes::{u64_from_be, push_u64_be};
use vstd::arithmetic::div_mod::{lemma_fundamental_div_mod, lemma_fundamental_div_mod_converse};

/// An unsigned 256-bit integer as four 64-bit limbs, least significant
/// first.
#[derive(Clone, Copy, Debug, PartialEq, Eq, Structural)]
pub struct U256 {
    pub w0: u64,
    pub w1: u64,
    pub w2: u64,
    pub w3: u64,
}

/// The count of 256-bit values: one more than the largest.
pub open spec fn u256_bound() -> nat {
    0x10000000000000000000000000000000000000000000000000000000000000000nat
}

impl U256 {
    /// The number the four limbs denote.
    pub open spec fn value(self) -> nat {
        (((self.w3 as nat) * 0x10000000000000000nat + self.w2 as nat) * 0x10000000000000000nat
            + self.w1 as nat) * 0x10000000000000000nat + self.w0 as nat
    }

    pub fn new(w0: u64, w1: u64, w2: u64, w3: u64) -> (r: U256)
        ensures
            r == (U256 { w0, w1, w2, w3 }),
    {
        U256 { w0, w1, w2, w3 }
    }

    pub fn zero() -> (r: U256)
        ensures
            r.value() == 0,
    {
        U256 { w0: 0, w1: 0, w2: 0, w3: 0 }
    }

    /// The largest 256-bit value.
    pub fn max_value() -> (r: U256)
        ensures
            r.value() == u256_bound() - 1,
    {
        U256 { w0: u64::MAX, w1: u64::MAX, w2: u64::MAX, w3: u64::MAX }
    }

    pub proof fn lemma_value_bound(self)
        ensures
            self.value() < u256_bound(),
    {
    }

    /// Whether `self` is at most `other`.
    pub fn le(&self, other: &U256) -> (r: bool)
        ensures
            r == (self.value() <= other.value()),
    {
        if self.w3 != other.w3 {
            self.w3 < other.w3
        } else if self.w2 != other.w2 {
            self.w2 < other.w2
        } else if self.w1 != other.w1 {
            self.w1 < other.w1
        } else {
            self.w0 <= other.w0
        }
    }

    /// Whether `self` is zero.
    pub fn is_zero(&self) -> (r: bool)
        ensures
            r == (self.value() == 0),
    {
        self.w0 == 0 && self.w1 == 0 && self.w2 == 0 && self.w3 == 0
    }

    /// The quotient of `self` by a 64-bit divisor, rounded down.
    pub fn div_u64(&self, d: u64) -> (r: U256)
        requires
            d >= 1,
        ensures
            r.value() == self.value() / (d as nat),
    {
        let b: u128 = 0x10000000000000000;
        let dd = d as u128;
        let c3 = self.w3 as u128;
        let q3 = c3 / dd;
        let r3 = c3 % dd;
        proof {
            lemma_limb_quotient(c3 as int, q3 as int, r3 as int, dd as int);
        }
        let c2 = r3 * b + self.w2 as u128;
        let q2 = c2 / dd;
        let r2 = c2 % dd;
        proof {
            lemma_limb_quotient(c2 as int, q2 as int, r2 as int, dd as int);
        }
        let c1 = r2 * b + self.w1 as u128;
        let q1 = c1 / dd;
        let r1 = c1 % dd;
        proof {
            lemma_limb_quotient(c1 as int, q1 as int, r1 as int, dd as int);
        }
        let c0 = r1 * b + self.w0 as u128;
        let q0 = c0 / dd;
        let r0 = c0 % dd;
        proof {
            lemma_limb_quotient(c0 as int, q0 as int, r0 as int, dd as int);
        }
        let r = U256 { w0: q0 as u64, w1: q1 as u64, w2: q2 as u64, w3: q3 as u64 };
        proof {
            let bn: nat = 0x10000000000000000nat;
            let dn = d as nat;
            let n3: nat = self.w3 as nat;
            let n2: nat = n3 * bn + self.w2 as nat;
            let n1: nat = n2 * bn + self.w1 as nat;
            let n0: nat = n1 * bn + self.w0 as nat;
            assert(n0 == self.value());
            let t3: nat = q3 as nat;
            let t2: nat = t3 * bn + q2 as nat;
            let t1: nat = t2 * bn + q1 as nat;
            let t0: nat = t1 * bn + q0 as nat;
            assert(t0 == r.value());
            assert(n2 == t2 * dn + r2 as nat) by (nonlinear_arith)
                requires
                    n3 == t3 * dn + r3,
                    n2 == n3 * bn + self.w2,
                    t2 == t3 * bn + q2,
                    (r3 as nat) * bn + self.w2 as nat == q2 as nat * dn + r2,
            ;
            assert(n1 == t1 * dn + r1 as nat) by (nonlinear_arith)
                requires
                    n2 == t2 * dn + r2,
                    n1 == n2 * bn + self.w1,
                    t1 == t2 * bn + q1,
                    (r2 as nat) * bn + self.w1 as nat == q1 as nat * dn + r1,
            ;
            assert(n0 == t0 * dn + r0 as nat) by (nonlinear_arith)
                requires
                    n1 == t1 * dn + r1,
                    n0 == n1 * bn + self.w0,
                    t0 == t1 * bn + q0,
                    (r1 as nat) * bn + self.w0 as nat == q0 as nat * dn + r0,
            ;
            lemma_fundamental_div_mod_converse(
                self.value() as int,
                dn as int,
                t0 as int,
                r0 as int,
            );
        }
        r
    }

    /// The product of `self` and a 64-bit factor, saturating at the
    /// largest 256-bit value.
    pub fn saturating_mul_u64(&self, m: u64) -> (r: U256)
        ensures
            self.value() * m < u256_bound() ==> r.value() == self.value() * m,
            self.value() * m >= u256_bound() ==> r.value() == u256_bound() - 1,
    {
        let b: u128 = 0x10000000000000000;
        let mm = m as u128;
        proof {
            lemma_mul_step_fits(self.w0 as int, m as int, 0);
        }
        let p0 = (self.w0 as u128) * mm;
        let l0 = (p0 % b) as u64;
        let c0 = p0 / b;
        proof {
            lemma_carry_bound(p0 as int);
            lemma_mul_step_fits(self.w1 as int, m as int, c0 as int);
        }
        let p1 = (self.w1 as u128) * mm + c0;
        let l1 = (p1 % b) as u64;
        let c1 = p1 / b;
        proof {
            lemma_carry_bound(p1 as int);
            lemma_mul_step_fits(self.w2 as int, m as int, c1 as int);
        }
        let p2 = (self.w2 as u128) * mm + c1;
        let l2 = (p2 % b) as u64;
        let c2 = p2 / b;
        proof {
            lemma_carry_bound(p2 as int);
            lemma_mul_step_fits(self.w3 as int, m as int, c2 as int);
        }
        let p3 = (self.w3 as u128) * mm + c2;
        let l3 = (p3 % b) as u64;
        let c3 = p3 / b;
        proof {
            let bn: nat = 0x10000000000000000nat;
            let b2: nat = 0x100000000000000000000000000000000nat;
            let b3: nat = 0x1000000000000000000000000000000000000000000000000nat;
            let b4: nat = u256_bound();
            lemma_fundamental_div_mod(p0 as int, b as int);
            lemma_fundamental_div_mod(p1 as int, b as int);
            lemma_fundamental_div_mod(p2 as int, b as int);
            lemma_fundamental_div_mod(p3 as int, b as int);
            assert(self.value() * m == (self.w0 as nat) * m + ((self.w1 as nat) * m) * bn + ((
            self.w2 as nat) * m) * b2 + ((self.w3 as nat) * m) * b3) by (nonlinear_arith)
                requires
                    self.value() == (((self.w3 as nat) * 0x10000000000000000nat + self.w2 as nat)
                        * 0x10000000000000000nat + self.w1 as nat) * 0x10000000000000000nat
                        + self.w0 as nat,
                    bn == 0x10000000000000000nat,
                    b2 == 0x100000000000000000000000000000000nat,
                    b3 == 0x1000000000000000000000000000000000000000000000000nat,
            ;
            assert(self.value() * m == l0 as nat + (l1 as nat) * bn + (l2 as nat) * b2 + (
            l3 as nat) * b3 + (c3 as nat) * b4) by (nonlinear_arith)
                requires
                    self.value() * m == (self.w0 as nat) * m + ((self.w1 as nat) * m) * bn + ((
                    self.w2 as nat) * m) * b2 + ((self.w3 as nat) * m) * b3,
                    (self.w0 as nat) * m == (c0 as nat) * bn + l0 as nat,
                    (self.w1 as nat) * m + c0 as nat == (c1 as nat) * bn + l1 as nat,
                    (self.w2 as nat) * m + c1 as nat == (c2 as nat) * bn + l2 as nat,
                    (self.w3 as nat) * m + c2 as nat == (c3 as nat) * bn + l3 as nat,
                    bn == 0x10000000000000000nat,
                    b2 == bn * bn,
                    b3 == b2 * bn,
                    b4 == b3 * bn,
            ;
        }
        if c3 != 0 {
            proof {
                assert(self.value() * m >= u256_bound());
            }
            U256 { w0: u64::MAX, w1: u64::MAX, w2: u64::MAX, w3: u64::MAX }
        } else {
            U256 { w0: l0, w1: l1, w2: l2, w3: l3 }
        }
    }

    /// The number denoted by 32 bytes read big-endian.
    pub fn from_be_bytes(bytes: &[u8]) -> (r: U256)
        requires
            bytes@.len() == 32,
        ensures
            r.value() == be_value(bytes@),
    {
        let w3 = u64_from_be(bytes, 0);
        let w2 = u64_from_be(bytes, 8);
        let w1 = u64_from_be(bytes, 16);
        let w0 = u64_from_be(bytes, 24);
        let r = U256 { w0, w1, w2, w3 };
        proof {
            lemma_be_quarters(bytes@);
            assert(r.value() == be_value(bytes@)) by (nonlinear_arith)
                requires
                    be_value(bytes@) == ((be_value(bytes@.subrange(0, 8)) * 0x10000000000000000nat
                        + be_value(bytes@.subrange(8, 16))) * 0x10000000000000000nat + be_value(
                        bytes@.subrange(16, 24),
                    )) * 0x10000000000000000nat + be_value(bytes@.subrange(24, 32)),
                    r.value() == (((w3 as nat) * 0x10000000000000000nat + w2 as nat)
                        * 0x10000000000000000nat + w1 as nat) * 0x10000000000000000nat + w0 as nat,
                    w3 == be_value(bytes@.subrange(0, 8)),
                    w2 == be_value(bytes@.subrange(8, 16)),
                    w1 == be_value(bytes@.subrange(16, 24)),
                    w0 == be_value(bytes@.subrange(24, 32)),
            ;
        }
        r
    }

    /// The 32 big-endian bytes denoting `self`.
    pub fn to_be_bytes(&self) -> (r: Vec<u8>)
        ensures
            r@.len() == 32,
            be_value(r@) == self.value(),
    {
        let mut v: Vec<u8> = Vec::new();
        push_u64_be(&mut v, self.w3);
        let ghost v1 = v@;
        push_u64_be(&mut v, self.w2);
        let ghost v2 = v@;
        push_u64_be(&mut v, self.w1);
        let ghost v3 = v@;
        push_u64_be(&mut v, self.w0);
        proof {
            assert(v@.subrange(0, 24) =~= v3);
            assert(v3.subrange(0, 16) =~= v2);
            assert(v2.subrange(0, 8) =~= v1);
            assert(v@.subrange(0, 8) =~= v1.subrange(0, 8));
            assert(v1.subrange(0, 8) =~= v1);
            assert(v@.subrange(8, 16) =~= v2.subrange(8, 16));
            assert(v@.subrange(16, 24) =~= v3.subrange(16, 24));
            lemma_be_quarters(v@);
            assert(be_value(v@) == self.value()) by (nonlinear_arith)
                requires
                    be_value(v@) == ((be_value(v@.subrange(0, 8)) * 0x10000000000000000nat + be_value(
                        v@.subrange(8, 16),
                    )) * 0x10000000000000000nat + be_value(v@.subrange(16, 24))) * 0x10000000000000000nat
                        + be_value(v@.subrange(24, 32)),
                    self.value() == (((self.w3 as nat) * 0x10000000000000000nat + self.w2 as nat)
                        * 0x10000000000000000nat + self.w1 as nat) * 0x10000000000000000nat
                        + self.w0 as nat,
                    self.w3 == be_value(v@.subrange(0, 8)),
                    self.w2 == be_value(v@.subrange(8, 16)),
                    self.w1 == be_value(v@.subrange(16, 24)),
                    self.w0 == be_value(v@.subrange(24, 32)),
            ;
        }
        v
    }
}

/// A 32-byte string splits into four 8-byte limbs of its big-endian
/// value.
proof fn lemma_be_quarters(s: Seq<u8>)
    requires
        s.len() == 32,
    ensures
        be_value(s) == ((be_value(s.subrange(0, 8)) * 0x10000000000000000nat + be_value(
            s.subrange(8, 16),
        )) * 0x10000000000000000nat + be_value(s.subrange(16, 24))) * 0x10000000000000000nat + be_value(
            s.subrange(24, 32),
        ),
{
    reveal_with_fuel(p256, 25);
    let t = s.subrange(8, 32);
    let u = s.subrange(16, 32);
    lemma_be_value_split(s, 8);
    lemma_be_value_split(t, 8);
    lemma_be_value_split(u, 8);
    assert(t.subrange(0, 8) =~= s.subrange(8, 16));
    assert(t.subrange(8, 24) =~= u);
    assert(u.subrange(0, 8) =~= s.subrange(16, 24));
    assert(u.subrange(8, 16) =~= s.subrange(24, 32));
    let a = be_value(s.subrange(0, 8));
    let b = be_value(s.subrange(8, 16));
    let c = be_value(s.subrange(16, 24));
    let d = be_value(s.subrange(24, 32));
    assert(p256(8) == 0x10000000000000000nat);
    assert(p256(16) == 0x100000000000000000000000000000000nat);
    assert(p256(24) == 0x1000000000000000000000000000000000000000000000000nat);
    assert(be_value(u) == c * 0x10000000000000000nat + d) by (nonlinear_arith)
        requires
            be_value(u) == c * p256(8) + d,
            p256(8) == 0x10000000000000000nat,
    ;
    assert(be_value(t) == b * 0x100000000000000000000000000000000nat + be_value(u))
        by (nonlinear_arith)
        requires
            be_value(t) == b * p256(16) + be_value(u),
            p256(16) == 0x100000000000000000000000000000000nat,
    ;
    assert(be_value(s) == a * 0x1000000000000000000000000000000000000000000000000nat + be_value(t))
        by (nonlinear_arith)
        requires
            be_value(s) == a * p256(24) + be_value(t),
            p256(24) == 0x1000000000000000000000000000000000000000000000000nat,
    ;
    assert(((a * 0x10000000000000000nat + b) * 0x10000000000000000nat + c) * 0x10000000000000000nat
        + d == a * 0x1000000000000000000000000000000000000000000000000nat + (b
        * 0x100000000000000000000000000000000nat + (c * 0x10000000000000000nat + d)))
        by (nonlinear_arith);
}

/// A limb-times-factor product plus a carry stays within 128 bits.
proof fn lemma_mul_step_fits(w: int, m: int, c: int)
    requires
        0 <= w < 0x10000000000000000,
        0 <= m < 0x10000000000000000,
        0 <= c < 0x10000000000000000,
    ensures
        0 <= w * m + c < 0x100000000000000000000000000000000,
{
    assert(w * m <= (0x10000000000000000 - 1) * (0x10000000000000000 - 1)) by (nonlinear_arith)
        requires
            0 <= w <= 0x10000000000000000 - 1,
            0 <= m <= 0x10000000000000000 - 1,
    ;
    assert(w * m >= 0) by (nonlinear_arith)
        requires
            0 <= w,
            0 <= m,
    ;
}

/// The high half of a 128-bit value fits in 64 bits.
proof fn lemma_carry_bound(p: int)
    requires
        0 <= p < 0x100000000000000000000000000000000,
    ensures
        0 <= p / 0x10000000000000000 < 0x10000000000000000,
        0 <= p % 0x10000000000000000 < 0x10000000000000000,
{
    vstd::arithmetic::div_mod::lemma_mod_bound(p, 0x10000000000000000);
    vstd::arithmetic::div_mod::lemma_div_pos_is_pos(p, 0x10000000000000000);
    assert(p / 0x10000000000000000 < 0x10000000000000000) by (nonlinear_arith)
        requires
            0 <= p < 0x100000000000000000000000000000000,
            p / 0x10000000000000000 * 0x10000000000000000 + p % 0x10000000000000000 == p,
            0 <= p % 0x10000000000000000,
    ;
}

/// Division step on one limb: the quotient fits in 64 bits.
proof fn lemma_limb_quotient(c: int, q: int, r: int, d: int)
    requires
        1 <= d < 0x10000000000000000nat,
        0 <= c < d * 0x10000000000000000nat,
        q == c / d,
        r == c % d,
    ensures
        0 <= q < 0x10000000000000000nat,
        0 <= r < d,
        c == q * d + r,
{
    lemma_fundamental_div_mod(c, d);
    vstd::arithmetic::div_mod::lemma_mod_bound(c, d);
    vstd::arithmetic::div_mod::lemma_div_pos_is_pos(c, d);
    assert(c == q * d + r) by (nonlinear_arith)
        requires
            c == d * q + r,
    ;
    assert(q < 0x10000000000000000nat) by (nonlinear_arith)
        requires
            c == d * q + r,
            0 <= r,
            c < d * 0x10000000000000000nat,
            d >= 1,
    ;
}

} // verus!
