//! Binary64 floating-point values as bit patterns.
//!
//! Gains and channel frequencies are binary64 values. They are held here by
//! their bits, so that what is decided from them is decided by integer
//! arithmetic.

use vstd::arithmetic::power2::{
    lemma2_to64, lemma_pow2_adds, lemma_pow2_pos, lemma_pow2_unfold, pow2,
};
use vstd::prelude::*;

verus! {

/// The weight of the sign bit.
const SIGN: u64 = 0x8000_0000_0000_0000;

/// The weight of the lowest exponent bit.
const EXPONENT_UNIT: u64 = 0x10_0000_0000_0000;

/// The exponent field of infinities and NaNs.
const EXPONENT_SPECIAL: u64 = 0x7ff;

/// A binary64 floating-point value.
#[derive(Clone, Copy, Debug)]
pub struct Double {
    /// The bit pattern.
    pub bits: u64,
}

impl Double {
    /// Whether the sign bit is set.
    pub open spec fn negative(self) -> bool {
        self.bits >= 0x8000_0000_0000_0000
    }

    /// The biased exponent field.
    pub open spec fn exponent(self) -> nat {
        ((self.bits / 0x10_0000_0000_0000) % 0x800) as nat
    }

    /// The fraction field.
    pub open spec fn fraction(self) -> nat {
        (self.bits % 0x10_0000_0000_0000) as nat
    }

    /// Whether the value is neither an infinity nor a NaN.
    pub open spec fn is_finite(self) -> bool {
        self.exponent() != 0x7ff
    }

    /// Whether the value is not a number.
    pub open spec fn is_nan(self) -> bool {
        !self.is_finite() && self.fraction() != 0
    }

    /// The significand as a whole number, with its implicit leading bit.
    pub open spec fn significand(self) -> nat {
        if self.exponent() == 0 {
            self.fraction()
        } else {
            0x10_0000_0000_0000 + self.fraction()
        }
    }

    /// The power of two, above the unit, that the significand is scaled by.
    pub open spec fn shift(self) -> nat {
        if self.exponent() == 0 {
            0
        } else {
            (self.exponent() - 1) as nat
        }
    }

    /// The absolute value of a finite number, in units of 2^-1074.
    pub open spec fn magnitude(self) -> int {
        self.significand() as int * pow2(self.shift())
    }

    /// A finite number, in units of 2^-1074.
    pub open spec fn value(self) -> int {
        if self.negative() {
            -self.magnitude()
        } else {
            self.magnitude()
        }
    }

    /// Whether two values are equal as numbers: a NaN equals nothing, and the
    /// two zeros are equal.
    pub open spec fn same_number(self, other: Double) -> bool {
        if self.is_finite() && other.is_finite() {
            self.value() == other.value()
        } else {
            self.bits == other.bits && !self.is_nan()
        }
    }

    /// The value with the given bit pattern.
    pub fn from_bits(bits: u64) -> (d: Double)
        ensures
            d.bits == bits,
    {
        Double { bits }
    }

    /// The bit pattern of the value.
    pub fn to_bits(self) -> (bits: u64)
        ensures
            bits == self.bits,
    {
        self.bits
    }

    /// Splits the value into sign, exponent field and fraction field.
    pub(crate) fn fields(self) -> (f: (bool, u64, u64))
        ensures
            f.0 == self.negative(),
            f.1 == self.exponent(),
            f.2 == self.fraction(),
            f.1 <= 0x7ff,
            f.2 < 0x10_0000_0000_0000,
    {
        (self.bits >= SIGN, (self.bits / EXPONENT_UNIT) % 0x800, self.bits % EXPONENT_UNIT)
    }

    /// Splits a finite value into sign, significand and shift.
    pub(crate) fn parts(self) -> (p: (bool, u64, u64))
        requires
            self.is_finite(),
        ensures
            p.0 == self.negative(),
            p.1 == self.significand(),
            p.2 == self.shift(),
            p.1 < 0x20_0000_0000_0000,
            p.2 <= 2045,
            p.2 > 0 ==> p.1 >= 0x10_0000_0000_0000,
    {
        let (negative, exponent, fraction) = self.fields();
        if exponent == 0 {
            (negative, fraction, 0)
        } else {
            (negative, EXPONENT_UNIT + fraction, exponent - 1)
        }
    }

    /// Whether the value is neither an infinity nor a NaN.
    pub fn finite(self) -> (r: bool)
        ensures
            r == self.is_finite(),
    {
        self.fields().1 != EXPONENT_SPECIAL
    }

    /// Whether the value lies between zero and `limit`, both included. The
    /// negative zero does; a NaN does not.
    pub fn within(self, limit: u32) -> (r: bool)
        ensures
            r == (self.is_finite() && 0 <= self.value() <= limit * pow2(1074)),
    {
        if !self.finite() {
            return false;
        }
        let (negative, m, s) = self.parts();
        proof {
            lemma_pow2_pos(s as nat);
            lemma_pow2_pos(1074);
        }
        if m == 0 {
            assert(self.magnitude() == 0);
            assert(limit * pow2(1074) >= 0) by (nonlinear_arith);
            return true;
        }
        assert(self.magnitude() > 0) by (nonlinear_arith)
            requires
                self.magnitude() == m * pow2(s as nat),
                m > 0,
                pow2(s as nat) > 0,
        ;
        if negative {
            return false;
        }
        if s >= 1074 {
            let up: u64 = s - 1074;
            proof {
                lemma_pow2_adds(1074, up as nat);
                lemma_pow2_pos(up as nat);
                assert(m * pow2(s as nat) > limit * pow2(1074)) by (nonlinear_arith)
                    requires
                        m >= 0x10_0000_0000_0000,
                        pow2(s as nat) == pow2(1074) * pow2(up as nat),
                        pow2(up as nat) >= 1,
                        pow2(1074) >= 1,
                        limit < 0x1_0000_0000,
                ;
            }
            false
        } else {
            within_scaled(m, limit, 1074 - s, s)
        }
    }

    /// Whether two values are equal as numbers.
    pub fn equals(self, other: Double) -> (r: bool)
        ensures
            r == self.same_number(other),
    {
        let (na, ea, fa) = self.fields();
        let (nb, eb, fb) = other.fields();
        if ea == EXPONENT_SPECIAL || eb == EXPONENT_SPECIAL {
            self.bits == other.bits && !(ea == EXPONENT_SPECIAL && fa != 0)
        } else {
            let (pa, ma, sa) = self.parts();
            let (pb, mb, sb) = other.parts();
            proof {
                lemma_unique_parts(ma as int, sa as nat, mb as int, sb as nat);
                lemma_pow2_pos(sa as nat);
                lemma_pow2_pos(sb as nat);
                assert(self.magnitude() == 0 <==> ma == 0) by (nonlinear_arith)
                    requires
                        self.magnitude() == ma * pow2(sa as nat),
                        pow2(sa as nat) > 0,
                ;
                assert(self.magnitude() >= 0 && other.magnitude() >= 0) by (nonlinear_arith)
                    requires
                        self.magnitude() == ma * pow2(sa as nat),
                        other.magnitude() == mb * pow2(sb as nat),
                ;
            }
            ma == mb && sa == sb && (pa == pb || ma == 0)
        }
    }
}

/// Decides whether `m * 2^s` is at most `limit * 2^(s + gap)`.
fn within_scaled(m: u64, limit: u32, gap: u64, s: u64) -> (r: bool)
    requires
        gap > 0,
        s + gap == 1074,
        m < 0x20_0000_0000_0000,
    ensures
        r == (m * pow2(s as nat) <= limit * pow2(1074)),
{
    let mut bound: u128 = limit as u128;
    let mut left: u64 = gap;
    proof {
        lemma_pow2_pos(s as nat);
    }
    assert(bound * pow2((s + left) as nat) == limit * pow2(1074));
    while left > 0 && bound <= m as u128
        invariant
            s + left <= 1074,
            m < 0x20_0000_0000_0000,
            bound <= 0x1_0000_0000_0000_0000,
            bound * pow2((s + left) as nat) == limit * pow2(1074),
        decreases left,
    {
        proof {
            lemma_pow2_unfold((s + left) as nat);
            assert((2 * bound) * pow2((s + left - 1) as nat) == bound * pow2((s + left) as nat))
                by (nonlinear_arith)
                requires
                    pow2((s + left) as nat) == 2 * pow2((s + left - 1) as nat),
            ;
        }
        bound = 2 * bound;
        left = left - 1;
    }
    proof {
        lemma_pow2_adds(s as nat, left as nat);
        lemma_pow2_pos(left as nat);
        lemma_pow2_pos(s as nat);
        let p = pow2(s as nat);
        let e = pow2(left as nat);
        assert(bound * (p * e) == limit * pow2(1074));
        if left == 0 {
            lemma2_to64();
            assert(m <= bound <==> m * p <= bound * (p * e)) by (nonlinear_arith)
                requires
                    p >= 1,
                    e == 1,
            ;
        } else {
            assert(m * p <= bound * (p * e)) by (nonlinear_arith)
                requires
                    m < bound,
                    p >= 1,
                    e >= 1,
            ;
        }
    }
    m as u128 <= bound
}

/// A magnitude determines its significand and its shift.
proof fn lemma_unique_parts(ma: int, sa: nat, mb: int, sb: nat)
    requires
        0 <= ma < 0x20_0000_0000_0000,
        0 <= mb < 0x20_0000_0000_0000,
        sa > 0 ==> ma >= 0x10_0000_0000_0000,
        sb > 0 ==> mb >= 0x10_0000_0000_0000,
    ensures
        ma * pow2(sa) == mb * pow2(sb) <==> ma == mb && sa == sb,
{
    if sa < sb {
        lemma_lower_shift(ma, sa, mb, sb);
    } else if sb < sa {
        lemma_lower_shift(mb, sb, ma, sa);
    } else {
        lemma_pow2_pos(sa);
        assert(ma * pow2(sa) == mb * pow2(sa) <==> ma == mb) by (nonlinear_arith)
            requires
                pow2(sa) > 0,
        ;
    }
}

/// Of two significands the one with the lower shift has the lower magnitude.
proof fn lemma_lower_shift(ma: int, sa: nat, mb: int, sb: nat)
    requires
        0 <= ma < 0x20_0000_0000_0000,
        mb >= 0x10_0000_0000_0000,
        sa < sb,
    ensures
        ma * pow2(sa) < mb * pow2(sb),
{
    let e = (sb - sa) as nat;
    lemma_pow2_adds(sa, e);
    lemma_pow2_unfold(e);
    lemma_pow2_pos((e - 1) as nat);
    lemma_pow2_pos(sa);
    assert(ma * pow2(sa) < mb * pow2(sb)) by (nonlinear_arith)
        requires
            ma < 0x20_0000_0000_0000,
            mb >= 0x10_0000_0000_0000,
            pow2(sb) == pow2(sa) * pow2(e),
            pow2(e) >= 2,
            pow2(sa) >= 1,
    ;
}

/// The positive zero is zero, and from each non-negative finite value to the
/// next bit pattern the value grows by one unit, doubled for each exponent step
/// above the lowest. This determines the value of every such bit pattern.
pub proof fn law_next_value(bits: u64)
    requires
        bits + 1 < 0x7ff0_0000_0000_0000,
    ensures
        (Double { bits: 0 }).value() == 0,
        (Double { bits: (bits + 1) as u64 }).value() - (Double { bits }).value() == if bits
            < 0x10_0000_0000_0000 {
            1
        } else {
            pow2((bits / 0x10_0000_0000_0000 - 1) as nat) as int
        },
{
    let a = Double { bits };
    let b = Double { bits: (bits + 1) as u64 };
    let z = Double { bits: 0 };
    lemma2_to64();
    assert(z.significand() == 0 && z.magnitude() == 0);
    let e = (bits / 0x10_0000_0000_0000) as nat;
    let f = (bits % 0x10_0000_0000_0000) as nat;
    assert(a.exponent() == e && a.fraction() == f);
    let p = pow2(a.shift()) as int;
    if f + 1 < 0x10_0000_0000_0000 {
        assert(b.exponent() == e && b.fraction() == f + 1);
        assert(b.shift() == a.shift() && b.significand() == a.significand() + 1);
        assert(b.magnitude() == (a.significand() as int + 1) * p);
        assert((a.significand() as int + 1) * p == a.significand() as int * p + p)
            by (nonlinear_arith);
    } else {
        assert(b.exponent() == e + 1 && b.fraction() == 0);
        assert(b.shift() == e && b.significand() == 0x10_0000_0000_0000);
        assert(b.magnitude() == 0x10_0000_0000_0000int * pow2(e));
        if e == 0 {
            assert(a.significand() == 0xf_ffff_ffff_ffff && p == 1);
        } else {
            assert(a.magnitude() == 0x1f_ffff_ffff_ffffint * p);
            lemma_pow2_unfold(e);
            assert(0x10_0000_0000_0000int * pow2(e) == 0x1f_ffff_ffff_ffffint * p + p)
                by (nonlinear_arith)
                requires
                    pow2(e) == 2 * p,
            ;
        }
    }
}

/// The bit pattern with the sign bit set has the opposite value, and is finite
/// or a NaN as the one without it is.
pub proof fn law_sign_bit_negates(bits: u64)
    requires
        bits < 0x8000_0000_0000_0000,
    ensures
        ({
            let a = Double { bits };
            let b = Double { bits: (bits + 0x8000_0000_0000_0000) as u64 };
            &&& b.value() == -a.value()
            &&& b.is_finite() == a.is_finite()
            &&& b.is_nan() == a.is_nan()
        }),
{
    let a = Double { bits };
    let b = Double { bits: (bits + 0x8000_0000_0000_0000) as u64 };
    assert(b.exponent() == a.exponent() && b.fraction() == a.fraction());
}

/// A value is finite when its bits, without the sign, are below those of the
/// infinity, and a NaN when they are above.
pub proof fn law_kinds_by_bits(a: Double)
    ensures
        a.is_finite() <==> a.bits % 0x8000_0000_0000_0000 < 0x7ff0_0000_0000_0000,
        a.is_nan() <==> a.bits % 0x8000_0000_0000_0000 > 0x7ff0_0000_0000_0000,
{
}

/// Of two non-negative finite values, the one with the greater bits is the
/// greater.
pub proof fn law_order_by_bits(a: Double, b: Double)
    requires
        a.bits < b.bits < 0x7ff0_0000_0000_0000,
    ensures
        0 <= a.value() < b.value(),
{
    let (ea, fa) = (a.exponent(), a.fraction());
    let (eb, fb) = (b.exponent(), b.fraction());
    lemma_pow2_pos(a.shift());
    lemma_pow2_pos(b.shift());
    assert(a.magnitude() >= 0) by (nonlinear_arith)
        requires
            a.magnitude() == a.significand() as int * pow2(a.shift()),
    ;
    if a.shift() < b.shift() {
        lemma_lower_shift(
            a.significand() as int,
            a.shift(),
            b.significand() as int,
            b.shift(),
        );
    } else {
        assert(a.shift() == b.shift());
        assert(a.significand() < b.significand());
        assert(a.magnitude() < b.magnitude()) by (nonlinear_arith)
            requires
                a.magnitude() == a.significand() as int * pow2(a.shift()),
                b.magnitude() == b.significand() as int * pow2(a.shift()),
                a.significand() < b.significand(),
                pow2(a.shift()) > 0,
        ;
    }
}

/// The value without its sign.
proof fn lemma_unsigned(a: Double) -> (x: Double)
    requires
        a.is_finite(),
    ensures
        x.bits == a.bits % 0x8000_0000_0000_0000,
        x.bits < 0x7ff0_0000_0000_0000,
        a.value() == if a.bits >= 0x8000_0000_0000_0000 {
            -x.value()
        } else {
            x.value()
        },
        x.value() >= 0,
        x.value() == 0 <==> x.bits == 0,
{
    let x = Double { bits: a.bits % 0x8000_0000_0000_0000 };
    let z = Double { bits: 0 };
    law_kinds_by_bits(a);
    if a.bits >= 0x8000_0000_0000_0000 {
        law_sign_bit_negates(x.bits);
    }
    assert(z.value() == 0) by {
        assert(z.significand() == 0 && z.magnitude() == 0);
    }
    if x.bits > 0 {
        law_order_by_bits(z, x);
    } else {
        assert(x == z);
    }
    x
}

/// Two finite values are equal exactly when they have the same bits or are both
/// a zero.
proof fn lemma_finite_equality(a: Double, b: Double)
    requires
        a.is_finite(),
        b.is_finite(),
    ensures
        a.value() == b.value() <==> a.bits == b.bits || (a.bits % 0x8000_0000_0000_0000 == 0
            && b.bits % 0x8000_0000_0000_0000 == 0),
{
    let x = lemma_unsigned(a);
    let y = lemma_unsigned(b);
    if x.bits < y.bits {
        law_order_by_bits(x, y);
    } else if y.bits < x.bits {
        law_order_by_bits(y, x);
    } else {
        assert(x == y);
    }
}

/// Two values are equal as numbers exactly when neither is a NaN and they have
/// the same bits or are both a zero.
pub proof fn law_equality_by_bits(a: Double, b: Double)
    ensures
        a.same_number(b) <==> {
            &&& a.bits % 0x8000_0000_0000_0000 <= 0x7ff0_0000_0000_0000
            &&& b.bits % 0x8000_0000_0000_0000 <= 0x7ff0_0000_0000_0000
            &&& a.bits == b.bits || (a.bits % 0x8000_0000_0000_0000 == 0 && b.bits
                % 0x8000_0000_0000_0000 == 0)
        },
{
    law_kinds_by_bits(a);
    law_kinds_by_bits(b);
    if a.is_finite() && b.is_finite() {
        lemma_finite_equality(a, b);
    }
}

} // verus!
