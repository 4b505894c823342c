//! 256-bit unsigned integers built from two 128-bit limbs.

use vstd::prelude::*;

verus! {

use vstd::arithmetic::power2::{pow2, lemma_pow2_unfold, lemma_pow2_adds, lemma_pow2_pos};

/// 2^128 as a mathematical integer.
pub open spec fn b128() -> nat {
    0x1_0000_0000_0000_0000_0000_0000_0000_0000nat
}

/// 2^256 as a mathematical integer.
pub open spec fn b256() -> nat {
    b128() * b128()
}

/// An unsigned 256-bit integer `hi * 2^128 + lo`.
#[derive(Clone, Copy, Debug, PartialEq, Eq, Structural)]
pub struct U256 {
    pub hi: u128,
    pub lo: u128,
}

impl View for U256 {
    type V = nat;

    open spec fn view(&self) -> nat {
        self.hi as nat * b128() + self.lo as nat
    }
}

/// The value of a 256-bit integer is below 2^256.
pub proof fn lemma_u256_bound(x: U256)
    ensures
        x@ < b256(),
{
    assert(x.hi as nat * b128() <= (b128() - 1) * b128()) by (nonlinear_arith)
        requires
            x.hi < b128(),
    ;
}

/// Two limb pairs have the same value exactly when their limbs agree.
pub proof fn lemma_u256_view_injective(x: U256, y: U256)
    ensures
        x@ == y@ <==> x == y,
{
    if x@ == y@ {
        if x.hi < y.hi {
            assert(x.hi as nat * b128() + b128() <= y.hi as nat * b128()) by (nonlinear_arith)
                requires
                    x.hi < y.hi,
            ;
        } else if x.hi > y.hi {
            assert(y.hi as nat * b128() + b128() <= x.hi as nat * b128()) by (nonlinear_arith)
                requires
                    y.hi < x.hi,
            ;
        }
    }
}

/// Limbs are compared lexicographically.
pub proof fn lemma_u256_lt(x: U256, y: U256)
    ensures
        x@ < y@ <==> (x.hi < y.hi || (x.hi == y.hi && x.lo < y.lo)),
{
    if x.hi < y.hi {
        assert(x.hi as nat * b128() + b128() <= y.hi as nat * b128()) by (nonlinear_arith)
            requires
                x.hi < y.hi,
        ;
    } else if x.hi > y.hi {
        assert(y.hi as nat * b128() + b128() <= x.hi as nat * b128()) by (nonlinear_arith)
            requires
                y.hi < x.hi,
        ;
    }
}

impl U256 {
    /// The number with the given limbs.
    pub fn from_words(hi: u128, lo: u128) -> (r: U256)
        ensures
            r.hi == hi,
            r.lo == lo,
            r@ == hi as nat * b128() + lo as nat,
    {
        U256 { hi, lo }
    }

    pub fn zero() -> (r: U256)
        ensures
            r@ == 0,
            r.hi == 0 && r.lo == 0,
    {
        U256 { hi: 0, lo: 0 }
    }

    pub fn one() -> (r: U256)
        ensures
            r@ == 1,
    {
        U256 { hi: 0, lo: 1 }
    }

    /// The largest value, 2^256 - 1.
    pub fn max_value() -> (r: U256)
        ensures
            r@ == b256() - 1,
    {
        U256 { hi: u128::MAX, lo: u128::MAX }
    }

    pub fn from_u128(v: u128) -> (r: U256)
        ensures
            r@ == v,
            r.hi == 0,
    {
        U256 { hi: 0, lo: v }
    }

    pub fn from_u32(v: u32) -> (r: U256)
        ensures
            r@ == v,
    {
        U256 { hi: 0, lo: v as u128 }
    }

    /// The value as a `u128`, when it fits.
    pub fn to_u128(&self) -> (r: Option<u128>)
        ensures
            r == (if self@ < b128() { Some(self@ as u128) } else { None::<u128> }),
    {
        if self.hi == 0 {
            Some(self.lo)
        } else {
            proof {
                assert(self.hi as nat * b128() >= b128()) by (nonlinear_arith)
                    requires
                        self.hi >= 1,
                ;
            }
            None
        }
    }

    pub fn is_zero(&self) -> (r: bool)
        ensures
            r == (self@ == 0),
    {
        proof {
            lemma_u256_view_injective(*self, U256 { hi: 0, lo: 0 });
        }
        self.hi == 0 && self.lo == 0
    }

    pub fn eq(&self, other: &U256) -> (r: bool)
        ensures
            r == (self@ == other@),
    {
        proof {
            lemma_u256_view_injective(*self, *other);
        }
        self.hi == other.hi && self.lo == other.lo
    }

    pub fn lt(&self, other: &U256) -> (r: bool)
        ensures
            r == (self@ < other@),
    {
        proof {
            lemma_u256_lt(*self, *other);
        }
        self.hi < other.hi || (self.hi == other.hi && self.lo < other.lo)
    }

    pub fn le(&self, other: &U256) -> (r: bool)
        ensures
            r == (self@ <= other@),
    {
        proof {
            lemma_u256_lt(*other, *self);
        }
        !other.lt(self)
    }

    pub fn gt(&self, other: &U256) -> (r: bool)
        ensures
            r == (self@ > other@),
    {
        other.lt(self)
    }

    pub fn ge(&self, other: &U256) -> (r: bool)
        ensures
            r == (self@ >= other@),
    {
        other.le(self)
    }

    /// The smaller of two values.
    pub fn min(&self, other: &U256) -> (r: U256)
        ensures
            r@ == (if self@ <= other@ { self@ } else { other@ }),
    {
        if self.le(other) {
            *self
        } else {
            *other
        }
    }

    /// The larger of two values.
    pub fn max(&self, other: &U256) -> (r: U256)
        ensures
            r@ == (if self@ >= other@ { self@ } else { other@ }),
    {
        if self.ge(other) {
            *self
        } else {
            *other
        }
    }

    /// Sum together with the carry out of bit 256.
    pub fn overflowing_add(&self, other: &U256) -> (r: (U256, bool))
        ensures
            r.0@ + (if r.1 { b256() } else { 0 }) == self@ + other@,
            r.1 == (self@ + other@ >= b256()),
    {
        let (lo, c1) = if self.lo <= u128::MAX - other.lo {
            (self.lo + other.lo, 0u128)
        } else {
            (self.lo - (u128::MAX - other.lo) - 1, 1u128)
        };
        assert(lo + c1 * b128() == self.lo + other.lo);
        let (hi, c2) = if self.hi <= u128::MAX - other.hi {
            (self.hi + other.hi, false)
        } else {
            (self.hi - (u128::MAX - other.hi) - 1, true)
        };
        let (hi2, c3) = if c1 == 1 {
            if hi == u128::MAX {
                (0u128, true)
            } else {
                (hi + 1, false)
            }
        } else {
            (hi, false)
        };
        let r = U256 { hi: hi2, lo };
        proof {
            lemma_u256_bound(*self);
            lemma_u256_bound(*other);
            lemma_u256_bound(r);
            assert(hi2 + (if c3 { b128() } else { 0 }) + (if c2 { b128() } else { 0 }) == self.hi
                + other.hi + c1);
            assert(r@ + (if c2 || c3 { b256() } else { 0 }) == self@ + other@) by (nonlinear_arith)
                requires
                    hi2 + (if c3 { b128() } else { 0 }) + (if c2 { b128() } else { 0 }) == self.hi
                        + other.hi + c1,
                    lo + c1 * b128() == self.lo + other.lo,
                    !(c2 && c3),
                    r@ == hi2 * b128() + lo,
                    self@ == self.hi * b128() + self.lo,
                    other@ == other.hi * b128() + other.lo,
                    b256() == b128() * b128(),
            ;
        }
        (r, c2 || c3)
    }

    /// Sum; the caller ensures it fits in 256 bits.
    pub fn add(&self, other: &U256) -> (r: U256)
        requires
            self@ + other@ < b256(),
        ensures
            r@ == self@ + other@,
    {
        self.overflowing_add(other).0
    }

    /// Sum, or `None` when it does not fit in 256 bits.
    pub fn checked_add(&self, other: &U256) -> (r: Option<U256>)
        ensures
            self@ + other@ < b256() ==> (r matches Some(v) && v@ == self@ + other@),
            self@ + other@ >= b256() ==> r is None,
    {
        let (v, c) = self.overflowing_add(other);
        if c {
            None
        } else {
            Some(v)
        }
    }

    /// Sum modulo 2^256.
    pub fn wrapping_add(&self, other: &U256) -> (r: U256)
        ensures
            r@ == (self@ + other@) % b256(),
    {
        let (v, c) = self.overflowing_add(other);
        proof {
            lemma_u256_bound(v);
            if c {
                vstd::arithmetic::div_mod::lemma_mod_sub_multiples_vanish(
                    (v@ + b256()) as int,
                    b256() as int,
                );
                vstd::arithmetic::div_mod::lemma_small_mod(v@, b256());
            } else {
                vstd::arithmetic::div_mod::lemma_small_mod(v@, b256());
            }
        }
        v
    }

    /// Difference together with the borrow out of bit 256.
    pub fn overflowing_sub(&self, other: &U256) -> (r: (U256, bool))
        ensures
            r.0@ == self@ + (if r.1 { b256() } else { 0 }) - other@,
            r.1 == (self@ < other@),
    {
        let (lo, b1) = if self.lo >= other.lo {
            (self.lo - other.lo, 0u128)
        } else {
            (u128::MAX - (other.lo - self.lo) + 1, 1u128)
        };
        let (hi, b2) = if self.hi >= other.hi {
            (self.hi - other.hi, false)
        } else {
            (u128::MAX - (other.hi - self.hi) + 1, true)
        };
        let (hi2, b3) = if b1 == 1 {
            if hi == 0 {
                (u128::MAX, true)
            } else {
                (hi - 1, false)
            }
        } else {
            (hi, false)
        };
        let r = U256 { hi: hi2, lo };
        proof {
            lemma_u256_bound(*self);
            lemma_u256_bound(*other);
            lemma_u256_bound(r);
            assert(lo == self.lo + b1 * b128() - other.lo);
            assert(hi2 == self.hi + (if b2 { b128() } else { 0 }) + (if b3 { b128() } else { 0 })
                - other.hi - b1);
            assert(r@ == self@ + (if b2 || b3 { b256() } else { 0 }) - other@) by (nonlinear_arith)
                requires
                    lo == self.lo + b1 * b128() - other.lo,
                    hi2 == self.hi + (if b2 { b128() } else { 0 }) + (if b3 { b128() } else { 0 })
                        - other.hi - b1,
                    !(b2 && b3),
                    r@ == hi2 * b128() + lo,
                    self@ == self.hi * b128() + self.lo,
                    other@ == other.hi * b128() + other.lo,
                    b256() == b128() * b128(),
            ;
        }
        (r, b2 || b3)
    }

    /// Difference; the caller ensures `other <= self`.
    pub fn sub(&self, other: &U256) -> (r: U256)
        requires
            other@ <= self@,
        ensures
            r@ == self@ - other@,
    {
        self.overflowing_sub(other).0
    }

    /// Difference modulo 2^256.
    pub fn wrapping_sub_raw(&self, other: &U256) -> (r: U256)
        ensures
            r@ == (self@ + b256() - other@) % (b256() as int),
    {
        let (v, b) = self.overflowing_sub(other);
        proof {
            lemma_u256_bound(*self);
            lemma_u256_bound(*other);
            lemma_u256_bound(v);
            if b {
                vstd::arithmetic::div_mod::lemma_small_mod(v@, b256());
            } else {
                vstd::arithmetic::div_mod::lemma_mod_sub_multiples_vanish(
                    (v@ + b256()) as int,
                    b256() as int,
                );
                vstd::arithmetic::div_mod::lemma_small_mod(v@, b256());
            }
        }
        v
    }
}


/// 2^64 as a mathematical integer.
pub open spec fn b64() -> nat {
    0x1_0000_0000_0000_0000nat
}

proof fn lemma_u128_split64(x: u128)
    ensures
        x & 0xFFFF_FFFF_FFFF_FFFFu128 == x % 0x1_0000_0000_0000_0000u128,
        x >> 64u128 == x / 0x1_0000_0000_0000_0000u128,
{
    assert(x & 0xFFFF_FFFF_FFFF_FFFFu128 == x % 0x1_0000_0000_0000_0000u128) by (bit_vector);
    assert(x >> 64u128 == x / 0x1_0000_0000_0000_0000u128) by (bit_vector);
}

proof fn lemma_u128_join64(a: u128, b: u128)
    requires
        a < 0x1_0000_0000_0000_0000u128,
        b < 0x1_0000_0000_0000_0000u128,
    ensures
        a | (b << 64u128) == a + b * 0x1_0000_0000_0000_0000u128,
{
    assert(a | (b << 64u128) == a + b * 0x1_0000_0000_0000_0000u128) by (bit_vector)
        requires
            a < 0x1_0000_0000_0000_0000u128,
            b < 0x1_0000_0000_0000_0000u128,
    ;
}

proof fn lemma_product_expand(x: int, y: int, z: int, w: int, B: int)
    ensures
        (x * B + y) * (z * B + w) == (x * z) * (B * B) + (y * z + x * w) * B + y * w,
{
    broadcast use vstd::arithmetic::mul::group_mul_properties;

    assert((x * B + y) * (z * B + w) == (x * B + y) * (z * B) + (x * B + y) * w);
    assert((x * B + y) * (z * B) == (x * B) * (z * B) + y * (z * B));
    assert((x * B + y) * w == (x * B) * w + y * w);
    assert((x * B) * (z * B) == (x * z) * (B * B));
    assert(y * (z * B) == (y * z) * B);
    assert((x * B) * w == (x * w) * B);
    assert((y * z) * B + (x * w) * B == (y * z + x * w) * B);
}

proof fn lemma_widening_identity(
    W: int,
    a0: int, a1: int, b0: int, b1: int,
    p00: int, p01: int, p10: int, p11: int,
    mid: int, lo: int, hi: int,
)
    requires
        W == 0x1_0000_0000_0000_0000int,
        0 <= a0 < W, 0 <= a1 < W, 0 <= b0 < W, 0 <= b1 < W,
        p00 == a0 * b0, p01 == a0 * b1, p10 == a1 * b0, p11 == a1 * b1,
        mid == p00 / W + p01 % W + p10 % W,
        lo == p00 % W + (mid % W) * W,
        hi == p11 + p01 / W + p10 / W + mid / W,
    ensures
        hi * b128() + lo == (a1 * W + a0) * (b1 * W + b0),
{
    let B = W;
    assert(b128() == B * B);
    assert(p00 == (p00 / B) * B + p00 % B) by (nonlinear_arith) requires B > 0;
    assert(p01 == (p01 / B) * B + p01 % B) by (nonlinear_arith) requires B > 0;
    assert(p10 == (p10 / B) * B + p10 % B) by (nonlinear_arith) requires B > 0;
    assert(mid == (mid / B) * B + mid % B) by (nonlinear_arith) requires B > 0;
    lemma_product_expand(a1, a0, b1, b0, B);
    lemma_recombine(p00 / B, p00 % B, p01 / B, p01 % B, p10 / B, p10 % B, p11, mid / B, mid % B,
        lo, hi);
}

proof fn lemma_recombine(
    p00h: int, p00l: int, p01h: int, p01l: int, p10h: int, p10l: int, p11: int,
    midh: int, midl: int, lo: int, hi: int,
)
    requires
        midh * 0x1_0000_0000_0000_0000int + midl == p00h + p01l + p10l,
        lo == p00l + midl * 0x1_0000_0000_0000_0000int,
        hi == p11 + p01h + p10h + midh,
    ensures
        hi * 0x1_0000_0000_0000_0000_0000_0000_0000_0000int + lo
            == p11 * 0x1_0000_0000_0000_0000_0000_0000_0000_0000int
            + ((p01h * 0x1_0000_0000_0000_0000int + p01l) + (p10h * 0x1_0000_0000_0000_0000int
            + p10l)) * 0x1_0000_0000_0000_0000int + (p00h * 0x1_0000_0000_0000_0000int + p00l),
{
}

/// 128-bit by 128-bit multiplication returning the full 256-bit product as `(hi, lo)`.
pub fn widening_mul(a: u128, b: u128) -> (r: (u128, u128))
    ensures
        r.0 as nat * b128() + r.1 as nat == a as nat * b as nat,
{
    let a0 = a & 0xFFFF_FFFF_FFFF_FFFF;
    let a1 = a >> 64;
    let b0 = b & 0xFFFF_FFFF_FFFF_FFFF;
    let b1 = b >> 64;
    proof {
        lemma_u128_split64(a);
        lemma_u128_split64(b);
        assert(a == a1 * b64() + a0);
        assert(b == b1 * b64() + b0);
        assert(a0 * b0 < b128()) by (nonlinear_arith) requires a0 < b64(), b0 < b64();
        assert(a0 * b1 < b128()) by (nonlinear_arith) requires a0 < b64(), b1 < b64();
        assert(a1 * b0 < b128()) by (nonlinear_arith) requires a1 < b64(), b0 < b64();
        assert(a1 * b1 < b128()) by (nonlinear_arith) requires a1 < b64(), b1 < b64();
    }
    let p00 = a0 * b0;
    let p01 = a0 * b1;
    let p10 = a1 * b0;
    let p11 = a1 * b1;
    proof {
        lemma_u128_split64(p00);
        lemma_u128_split64(p01);
        lemma_u128_split64(p10);
        lemma_u128_split64(p11);
    }
    let mid = (p00 >> 64) + (p01 & 0xFFFF_FFFF_FFFF_FFFF) + (p10 & 0xFFFF_FFFF_FFFF_FFFF);
    proof {
        lemma_u128_split64(mid);
    }
    let lo_part = p00 & 0xFFFF_FFFF_FFFF_FFFF;
    let mid_part = mid & 0xFFFF_FFFF_FFFF_FFFF;
    proof {
        lemma_u128_join64(lo_part, mid_part);
        assert(a1 * b1 <= (b64() - 1) * (b64() - 1)) by (nonlinear_arith)
            requires a1 < b64(), b1 < b64();
    }
    let lo = lo_part | (mid_part << 64);
    proof {
        let W: int = 0x1_0000_0000_0000_0000int;
        let hi_i: int = p11 + (p01 as int) / W + (p10 as int) / W + (mid as int) / W;
        lemma_widening_identity(
            0x1_0000_0000_0000_0000int,
            a0 as int, a1 as int, b0 as int, b1 as int,
            p00 as int, p01 as int, p10 as int, p11 as int,
            mid as int, lo as int, hi_i,
        );
        assert(a as nat * b as nat <= (b128() - 1) * (b128() - 1)) by (nonlinear_arith)
            requires a < b128(), b < b128();
        assert(hi_i < b128()) by (nonlinear_arith)
            requires
                hi_i * b128() + lo == a as nat * b as nat,
                a as nat * b as nat <= (b128() - 1) * (b128() - 1),
                lo >= 0,
        ;
    }
    let hi = p11 + (p01 >> 64) + (p10 >> 64) + (mid >> 64);
    (hi, lo)
}


proof fn lemma_full_mul_identity(
    B: int, ah: int, al: int, bh: int, bl: int,
    hh: int, lh: int, hl: int, ll: int,
    cross_lo: int, cross_hi: int, c1: int,
    lo: int, c2: int, hi: int,
)
    requires
        B == b128(),
        hh == ah * bh, lh == al * bh, hl == ah * bl, ll == al * bl,
        cross_hi * B + cross_lo + c1 * (B * B) == lh + hl,
        lo + c2 * (B * B) == ll + cross_lo * B,
        hi == hh + cross_hi + c1 * B + c2,
    ensures
        hi * (B * B) + lo == (ah * B + al) * (bh * B + bl),
{
    lemma_product_expand(ah, al, bh, bl, B);
    assert((lh + hl) * B == cross_hi * (B * B) + cross_lo * B + c1 * (B * B) * B) by {
        broadcast use vstd::arithmetic::mul::group_mul_properties;
    }
    assert(hi * (B * B) == hh * (B * B) + cross_hi * (B * B) + c1 * B * (B * B) + c2 * (B * B)) by {
        broadcast use vstd::arithmetic::mul::group_mul_properties;
    }
    assert(c1 * B * (B * B) == c1 * (B * B) * B) by {
        broadcast use vstd::arithmetic::mul::group_mul_properties;
    }
}

/// The full 512-bit product of two 256-bit numbers as `(high half, low half)`.
pub fn full_mul(a: &U256, b: &U256) -> (r: (U256, U256))
    ensures
        r.0@ * b256() + r.1@ == a@ * b@,
{
    let (ll1, ll0) = widening_mul(a.lo, b.lo);
    let (lh1, lh0) = widening_mul(a.lo, b.hi);
    let (hl1, hl0) = widening_mul(a.hi, b.lo);
    let (hh1, hh0) = widening_mul(a.hi, b.hi);
    let ll = U256 { hi: ll1, lo: ll0 };
    let lh = U256 { hi: lh1, lo: lh0 };
    let hl = U256 { hi: hl1, lo: hl0 };
    let hh = U256 { hi: hh1, lo: hh0 };
    let (cross, c1) = lh.overflowing_add(&hl);
    let shifted = U256 { hi: cross.lo, lo: 0 };
    let (lo, c2) = ll.overflowing_add(&shifted);
    let ghost c1i: int = if c1 { 1 } else { 0 };
    let ghost c2i: int = if c2 { 1 } else { 0 };
    proof {
        lemma_u256_bound(*a);
        lemma_u256_bound(*b);
        lemma_u256_bound(lo);
        let hi_i: int = hh@ + cross.hi + c1i * b128() + c2i;
        lemma_full_mul_identity(
            b128() as int, a.hi as int, a.lo as int, b.hi as int, b.lo as int,
            hh@ as int, lh@ as int, hl@ as int, ll@ as int,
            cross.lo as int, cross.hi as int, c1i,
            lo@ as int, c2i, hi_i,
        );
        assert(a@ * b@ < b256() * b256()) by (nonlinear_arith)
            requires a@ < b256(), b@ < b256();
        assert(hi_i < b256()) by (nonlinear_arith)
            requires
                hi_i * b256() + lo@ == a@ * b@,
                a@ * b@ < b256() * b256(),
                lo@ >= 0,
        ;
        assert(hh@ + cross.hi < b256());
        assert(hh@ + cross.hi + c1i * b128() < b256());
    }
    let mut hi = hh.add(&U256 { hi: 0, lo: cross.hi });
    if c1 {
        hi = hi.add(&U256 { hi: 1, lo: 0 });
    }
    if c2 {
        hi = hi.add(&U256 { hi: 0, lo: 1 });
    }
    (hi, lo)
}

/// Product, or `None` when it does not fit in 256 bits.
pub fn checked_mul(a: &U256, b: &U256) -> (r: Option<U256>)
    ensures
        a@ * b@ < b256() ==> (r matches Some(v) && v@ == a@ * b@),
        a@ * b@ >= b256() ==> r is None,
{
    let (hi, lo) = full_mul(a, b);
    if hi.is_zero() {
        Some(lo)
    } else {
        proof {
            lemma_u256_bound(lo);
            assert(hi@ * b256() >= b256()) by (nonlinear_arith) requires hi@ >= 1;
        }
        None
    }
}

impl U256 {
    /// Product; the caller ensures it fits in 256 bits.
    pub fn mul(&self, other: &U256) -> (r: U256)
        requires
            self@ * other@ < b256(),
        ensures
            r@ == self@ * other@,
    {
        let (hi, lo) = full_mul(self, other);
        proof {
            lemma_u256_bound(lo);
            if hi@ > 0 {
                assert(hi@ * b256() >= b256()) by (nonlinear_arith) requires hi@ >= 1;
            }
            assert(hi@ == 0);
            assert(hi@ * b256() == 0) by (nonlinear_arith) requires hi@ == 0;
        }
        lo
    }
}

proof fn lemma_pow2_256()
    ensures
        pow2(128) == b128(),
        pow2(255) * 2 == b256(),
        pow2(256) == b256(),
{
    vstd::arithmetic::power2::lemma2_to64();
    vstd::arithmetic::power2::lemma_pow2_adds(64, 64);
    vstd::arithmetic::power2::lemma_pow2_adds(128, 128);
    vstd::arithmetic::power2::lemma_pow2_unfold(256);
}

/// One step of binary long division: the next bit of the dividend enters the remainder.
proof fn lemma_div_step(
    lo: nat, done: nat, rest: nat, P: nat, Q: nat, top: bool,
    hi: nat, q: nat, d: nat, r: nat, v: nat, q2: nat, r2: nat,
)
    requires
        P > 0, Q > 0,
        lo == done * (2 * Q) + rest,
        rest < 2 * Q,
        top == (rest >= Q),
        q * d + r == hi * P + done,
        v == 2 * r + (if top { 1nat } else { 0nat }),
        (v >= d ==> q2 == 2 * q + 1 && r2 == v - d),
        (v < d ==> q2 == 2 * q && r2 == v),
    ensures
        lo == (2 * done + (if top { 1nat } else { 0nat })) * Q
            + (rest - (if top { Q } else { 0nat })),
        q2 * d + r2 == hi * (2 * P) + (2 * done + (if top { 1nat } else { 0nat })),
{
    assert(done * (2 * Q) == (2 * done) * Q) by (nonlinear_arith);
    assert(hi * (2 * P) == 2 * (hi * P)) by (nonlinear_arith);
    if v >= d {
        assert(q2 * d == 2 * (q * d) + d) by (nonlinear_arith) requires q2 == 2 * q + 1;
    } else {
        assert(q2 * d == 2 * (q * d)) by (nonlinear_arith) requires q2 == 2 * q;
    }
    let b: nat = if top { 1nat } else { 0nat };
    let t: nat = if top { Q } else { 0nat };
    assert(b * Q == t);
    assert((2 * done + b) * Q == (2 * done) * Q + b * Q) by (nonlinear_arith);
}

proof fn lemma_top_bit(n: nat, rest: nat, P: nat, Q: nat)
    requires
        n == rest * P,
        P > 0,
    ensures
        (rest >= Q) == (n >= Q * P),
{
    if rest >= Q {
        assert(rest * P >= Q * P) by (nonlinear_arith) requires rest >= Q, P > 0;
    } else {
        assert(rest * P < Q * P) by (nonlinear_arith) requires rest < Q, P > 0;
    }
}

proof fn lemma_shift_window(n: nat, n2: nat, rest: nat, P: nat, Q: nat, top: bool, wrapped: bool)
    requires
        n2 + (if wrapped { b256() } else { 0 }) == n + n,
        n == rest * P,
        top == (rest >= Q),
        Q * P * 2 == b256(),
        rest < 2 * Q,
        n2 < b256(),
        wrapped == (n + n >= b256()),
        P > 0,
    ensures
        n2 == (if top { (rest - Q) as nat } else { rest }) * (2 * P),
{
    lemma_top_bit(n, rest, P, Q);
    if top {
        assert(n + n >= Q * P * 2);
        assert(n2 == n + n - b256());
        assert(((rest - Q) as nat) * (2 * P) == 2 * (rest * P) - 2 * (Q * P)) by (nonlinear_arith)
            requires rest >= Q;
    } else {
        assert(n + n < Q * P * 2);
        assert(rest * (2 * P) == 2 * (rest * P)) by (nonlinear_arith);
    }
}

proof fn lemma_quotient_bound(q: nat, d: nat, r: nat, hi: nat, P: nat, done: nat)
    requires
        q * d + r == hi * P + done,
        hi + 1 <= d,
        done < P,
        d > 0,
    ensures
        q < P,
{
    assert(hi * P + done < d * P) by (nonlinear_arith) requires hi + 1 <= d, done < P;
    if q >= P {
        assert(q * d >= P * d) by (nonlinear_arith) requires q >= P, d > 0;
    }
}

proof fn lemma_double_fits(q: nat, P: nat, Q: nat)
    requires
        q < P,
        P * Q * 2 == b256(),
        Q >= 1,
    ensures
        2 * q + 1 < b256(),
{
    assert(P <= P * Q) by (nonlinear_arith) requires Q >= 1, P >= 0;
}

/// Divides the 512-bit number `hi * 2^256 + lo` by `d`, returning quotient and remainder.
/// The quotient fits in 256 bits because `hi < d`.
pub fn div_wide(hi: &U256, lo: &U256, d: &U256) -> (res: (U256, U256))
    requires
        d@ > 0,
        hi@ < d@,
    ensures
        res.0@ * d@ + res.1@ == hi@ * b256() + lo@,
        res.1@ < d@,
{
    let mut r = *hi;
    let mut q = U256::zero();
    let mut n = *lo;
    let mut i: u32 = 0;
    let ghost mut done: nat = 0;
    let ghost mut rest: nat = lo@;
    proof {
        lemma_pow2_256();
        lemma_u256_bound(*lo);
        assert(pow2(0) == 1) by { vstd::arithmetic::power2::lemma2_to64(); }
    }
    while i < 256
        invariant
            i <= 256,
            d@ > 0,
            hi@ < d@,
            r@ < d@,
            lo@ == done * pow2((256 - i) as nat) + rest,
            rest < pow2((256 - i) as nat),
            n@ == rest * pow2(i as nat),
            q@ * d@ + r@ == hi@ * pow2(i as nat) + done,
            done < pow2(i as nat),
            q@ < pow2(i as nat),
            pow2(256) == b256(),
            pow2(255) * 2 == b256(),
        decreases 256 - i,
    {
        let ghost P = pow2(i as nat);
        let ghost Q = pow2((255 - i) as nat);
        proof {
            lemma_pow2_unfold((256 - i) as nat);
            lemma_pow2_unfold((i + 1) as nat);
            lemma_pow2_adds((255 - i) as nat, i as nat);
            lemma_pow2_pos(i as nat);
            lemma_pow2_pos((255 - i) as nat);
            lemma_u256_lt(n, U256 { hi: 0x8000_0000_0000_0000_0000_0000_0000_0000u128, lo: 0 });
            lemma_top_bit(n@, rest, P, Q);
        }
        let top = n.hi >= 0x8000_0000_0000_0000_0000_0000_0000_0000u128;
        let (n2, wrapped) = n.overflowing_add(&n);
        let ghost rest2: nat = if top { (rest - Q) as nat } else { rest };
        proof {
            lemma_u256_bound(n2);
            lemma_shift_window(n@, n2@, rest, P, Q, top, wrapped);
        }
        let (r2, carry) = r.overflowing_add(&r);
        proof {
            lemma_u256_bound(r2);
            lemma_u256_bound(r);
        }
        let r3 = if top && r2.lo < u128::MAX { r2.add(&U256::one()) } else { r2 };
        let ghost bit: nat = if top { 1nat } else { 0nat };
        let ghost v: nat = 2 * r@ + bit;
        proof {
            // r2 is even, so its low limb is never all ones
            if top {
                assert(r2.lo < u128::MAX) by {
                    if r2.lo == u128::MAX {
                        assert(r2@ % 2 == 1);
                    }
                }
            }
            assert(r3@ + (if carry { b256() } else { 0 }) == v);
        }
        let ghost q_old = q@;
        let ghost r_old = r@;
        if carry || r3.ge(d) {
            proof {
                lemma_u256_bound(*d);
                lemma_u256_bound(r3);
            }
            r = r3.wrapping_sub_raw(d);
            proof {
                if carry {
                    vstd::arithmetic::div_mod::lemma_small_mod((v - d@) as nat, b256());
                } else {
                    vstd::arithmetic::div_mod::lemma_mod_sub_multiples_vanish(
                        (v - d@) as int + b256(),
                        b256() as int,
                    );
                    vstd::arithmetic::div_mod::lemma_small_mod((v - d@) as nat, b256());
                }
                lemma_double_fits(q@, P, Q);
            }
            q = q.add(&q).add(&U256::one());
        } else {
            proof {
                lemma_double_fits(q@, P, Q);
            }
            r = r3;
            q = q.add(&q);
        }
        proof {
            lemma_div_step(lo@, done, rest, P, Q, top, hi@, q_old, d@, r_old, v, q@, r@);
            done = 2 * done + bit;
            rest = rest2;
        }
        n = n2;
        i = i + 1;
        proof {
            lemma_quotient_bound(q@, d@, r@, hi@, pow2(i as nat), done);
        }
    }
    proof {
        assert(pow2(0) == 1) by { vstd::arithmetic::power2::lemma2_to64(); }
        assert(i == 256);
        assert(pow2((256 - i) as nat) == 1);
        assert(rest == 0);
        assert(done * pow2((256 - i) as nat) == done) by (nonlinear_arith)
            requires pow2((256 - i) as nat) == 1;
        assert(lo@ == done);
    }
    (q, r)
}


impl U256 {
    /// Quotient and remainder; the caller ensures `d` is not zero.
    pub fn div_rem(&self, d: &U256) -> (r: (U256, U256))
        requires
            d@ > 0,
        ensures
            r.0@ == self@ / d@,
            r.1@ == self@ % d@,
    {
        let (q, rem) = div_wide(&U256::zero(), self, d);
        proof {
            vstd::arithmetic::div_mod::lemma_fundamental_div_mod_converse(
                self@ as int, d@ as int, q@ as int, rem@ as int,
            );
        }
        (q, rem)
    }

    /// Floor quotient; the caller ensures `d` is not zero.
    pub fn div(&self, d: &U256) -> (r: U256)
        requires
            d@ > 0,
        ensures
            r@ == self@ / d@,
    {
        self.div_rem(d).0
    }

    /// Remainder; the caller ensures `d` is not zero.
    pub fn rem(&self, d: &U256) -> (r: U256)
        requires
            d@ > 0,
        ensures
            r@ == self@ % d@,
    {
        self.div_rem(d).1
    }
}

} // verus!
