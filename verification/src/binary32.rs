//! Numbers in the IEEE-754 binary32 format, held by their bit pattern.
//!
//! A pattern has a sign bit, an eight-bit exponent field and a 23-bit fraction
//! field. Every finite number is a whole multiple of 2^-149, so the model
//! measures magnitudes in that unit and stays within the natural numbers.

use vstd::prelude::*;
use vstd::arithmetic::power2::{pow2, lemma_pow2_adds, lemma_pow2_pos, lemma2_to64};
use vstd::arithmetic::div_mod::{
    lemma_div_by_multiple,
    lemma_div_multiples_vanish_quotient,
    lemma_truncate_middle,
};
use vstd::arithmetic::mul::{lemma_mul_is_associative, lemma_mul_is_commutative};
use vstd::std_specs::cmp::PartialEqSpecImpl;

verus! {

/// The magnitude of the number one: 2^149 units of 2^-149.
pub open spec fn one() -> nat {
    pow2(149)
}

/// A binary32 number, held by its bit pattern.
#[derive(Debug, Clone, Copy)]
pub struct Float {
    /// The 32 bits of the number, sign bit first.
    pub bits: u32,
}

impl Float {
    /// Whether the sign bit is set. True of negative zero and of some NaNs too.
    pub open spec fn negative(self) -> bool {
        self.bits >= 0x8000_0000
    }

    /// The eight-bit exponent field.
    pub open spec fn exponent_field(self) -> nat {
        ((self.bits / 0x80_0000) % 0x100) as nat
    }

    /// The 23-bit fraction field.
    pub open spec fn fraction_field(self) -> nat {
        (self.bits % 0x80_0000) as nat
    }

    /// Not a number.
    pub open spec fn is_nan(self) -> bool {
        self.exponent_field() == 255 && self.fraction_field() != 0
    }

    /// Positive or negative infinity.
    pub open spec fn is_infinite(self) -> bool {
        self.exponent_field() == 255 && self.fraction_field() == 0
    }

    /// Zero, subnormal or normal.
    pub open spec fn is_finite(self) -> bool {
        self.exponent_field() < 255
    }

    /// The significand as a whole number: the fraction field, with the
    /// implicit leading bit in front of it unless the number is subnormal.
    pub open spec fn significand(self) -> nat {
        if self.exponent_field() == 0 {
            self.fraction_field()
        } else {
            0x80_0000 + self.fraction_field()
        }
    }

    /// The power of two by which the significand is scaled, counted in units
    /// of 2^-149.
    pub open spec fn scale(self) -> nat {
        if self.exponent_field() == 0 {
            0
        } else {
            (self.exponent_field() - 1) as nat
        }
    }

    /// The absolute value of a finite number, in units of 2^-149.
    pub open spec fn magnitude(self) -> nat
        recommends
            self.is_finite(),
    {
        self.significand() * pow2(self.scale())
    }

    /// Whether the number is positive or negative zero.
    pub open spec fn is_zero(self) -> bool {
        self.bits % 0x8000_0000 == 0
    }

    /// Equality of numbers, as opposed to equality of bit patterns: NaN equals
    /// nothing, and the two zeros equal each other.
    pub open spec fn same_number(self, other: Float) -> bool {
        &&& !self.is_nan()
        &&& !other.is_nan()
        &&& (self.bits == other.bits || (self.is_zero() && other.is_zero()))
    }

    /// The whole part of the number as a `u32`, saturating: NaN and every
    /// negative number give 0, and whatever exceeds `u32::MAX` gives that.
    pub open spec fn whole_part(self) -> u32 {
        if self.is_nan() || self.negative() {
            0
        } else if self.is_infinite() || self.magnitude() / one() > u32::MAX {
            u32::MAX
        } else {
            (self.magnitude() / one()) as u32
        }
    }

    /// The number with the given bit pattern.
    pub fn from_bits(bits: u32) -> (r: Float)
        ensures
            r.bits == bits,
    {
        Float { bits }
    }

    /// The bit pattern of the number.
    pub fn to_bits(&self) -> (bits: u32)
        ensures
            bits == self.bits,
    {
        self.bits
    }

    fn exponent(&self) -> (e: u32)
        ensures
            e == self.exponent_field(),
            e <= 255,
    {
        (self.bits / 0x80_0000) % 0x100
    }

    fn fraction(&self) -> (f: u32)
        ensures
            f == self.fraction_field(),
            f < 0x80_0000,
    {
        self.bits % 0x80_0000
    }

    fn nan(&self) -> (r: bool)
        ensures
            r == self.is_nan(),
    {
        self.exponent() == 255 && self.fraction() != 0
    }

    /// The whole part of the number, cut off towards zero and saturated into
    /// a `u32`.
    pub fn trunc_to_u32(&self) -> (r: u32)
        ensures
            r == self.whole_part(),
    {
        let e = self.exponent();
        let f = self.fraction();
        if self.bits >= 0x8000_0000 {
            return 0;
        }
        if e == 255 {
            return if f == 0 {
                u32::MAX
            } else {
                0
            };
        }
        if e < 127 {
            proof {
                lemma_small_magnitude(*self);
            }
            return 0;
        }
        let sig: u32 = 0x80_0000 + f;
        if e >= 150 {
            proof {
                lemma_scaled_div_exact(sig as nat, (e - 150) as nat, 149);
                lemma_pow2_bounds();
                if e >= 159 {
                    lemma_pow2_monotone(9, (e - 150) as nat);
                    vstd::arithmetic::mul::lemma_mul_inequality(
                        pow2(9) as int,
                        pow2((e - 150) as nat) as int,
                        sig as int,
                    );
                    lemma_mul_is_commutative(sig as int, pow2(9) as int);
                    lemma_mul_is_commutative(sig as int, pow2((e - 150) as nat) as int);
                } else {
                    lemma_pow2_monotone((e - 150) as nat, 8);
                    vstd::arithmetic::mul::lemma_mul_inequality(
                        pow2((e - 150) as nat) as int,
                        pow2(8) as int,
                        sig as int,
                    );
                    lemma_mul_is_commutative(sig as int, pow2(8) as int);
                    lemma_mul_is_commutative(sig as int, pow2((e - 150) as nat) as int);
                    vstd::bits::lemma_u32_shl_is_mul(sig, (e - 150) as u32);
                }
            }
            if e >= 159 {
                u32::MAX
            } else {
                sig << (e - 150)
            }
        } else {
            proof {
                lemma_scaled_div(sig as nat, (e - 1) as nat, (150 - e) as nat);
                vstd::bits::lemma_u32_shr_is_div(sig, (150 - e) as u32);
            }
            sig >> (150 - e)
        }
    }
}

impl PartialEq for Float {
    /// Compares the numbers, not the bit patterns.
    fn eq(&self, other: &Float) -> (r: bool) {
        !self.nan() && !other.nan() && (self.bits == other.bits || (self.bits % 0x8000_0000 == 0
            && other.bits % 0x8000_0000 == 0))
    }
}

impl PartialEqSpecImpl for Float {
    open spec fn obeys_eq_spec() -> bool {
        true
    }

    open spec fn eq_spec(&self, other: &Float) -> bool {
        self.same_number(*other)
    }
}

impl Default for Float {
    /// Positive zero.
    fn default() -> (r: Float)
        ensures
            r.bits == 0,
    {
        Float { bits: 0 }
    }
}

/// A few powers of two by value.
pub proof fn lemma_pow2_bounds()
    ensures
        pow2(0) == 1,
        pow2(8) == 0x100,
        pow2(9) == 0x200,
        pow2(23) == 0x80_0000,
        pow2(24) == 0x100_0000,
        pow2(32) == 0x1_0000_0000,
{
    lemma2_to64();
}

/// Powers of two grow with the exponent.
pub proof fn lemma_pow2_monotone(a: nat, b: nat)
    requires
        a <= b,
    ensures
        pow2(a) <= pow2(b),
        pow2(a) > 0,
{
    lemma_pow2_pos(a);
    if a < b {
        vstd::arithmetic::power2::lemma_pow2_strictly_increases(a, b);
    }
}

/// Dividing `x * 2^(a+b)` by `2^b` leaves `x * 2^a`.
pub proof fn lemma_scaled_div_exact(x: nat, a: nat, b: nat)
    ensures
        x * pow2(a + b) / pow2(b) == x * pow2(a),
{
    lemma_pow2_adds(a, b);
    lemma_pow2_pos(b);
    lemma_mul_is_associative(x as int, pow2(a) as int, pow2(b) as int);
    vstd::arithmetic::mul::lemma_mul_nonnegative(x as int, pow2(a) as int);
    lemma_div_by_multiple((x * pow2(a)) as int, pow2(b) as int);
}

/// Dividing `x * 2^a` by `2^(a+b)` is dividing `x` by `2^b`.
pub proof fn lemma_scaled_div(x: nat, a: nat, b: nat)
    ensures
        x * pow2(a) / pow2(a + b) == x / pow2(b),
{
    lemma_pow2_adds(a, b);
    lemma_pow2_pos(a);
    lemma_pow2_pos(b);
    lemma_div_multiples_vanish_quotient(pow2(a) as int, x as int, pow2(b) as int);
    lemma_mul_is_commutative(x as int, pow2(a) as int);
}

/// The remainder of `x * 2^a` by `2^(a+b)` is that of `x` by `2^b`, scaled.
pub proof fn lemma_scaled_mod(x: nat, a: nat, b: nat)
    ensures
        (x * pow2(a)) % pow2(a + b) == (x % pow2(b)) * pow2(a),
{
    lemma_pow2_adds(a, b);
    lemma_pow2_pos(a);
    lemma_pow2_pos(b);
    lemma_truncate_middle(x as int, pow2(a) as int, pow2(b) as int);
    lemma_mul_is_commutative(x as int, pow2(a) as int);
    lemma_mul_is_commutative((x % pow2(b)) as int, pow2(a) as int);
}

/// A finite number whose exponent field is below 127 is smaller than one.
pub proof fn lemma_small_magnitude(x: Float)
    requires
        x.exponent_field() < 127,
    ensures
        x.magnitude() < one(),
        x.magnitude() / one() == 0,
{
    let s = x.scale();
    lemma_pow2_bounds();
    lemma_pow2_monotone(s, 125);
    lemma_pow2_adds(24, 125);
    assert(x.significand() * pow2(s) < pow2(24) * pow2(125)) by (nonlinear_arith)
        requires
            x.significand() < pow2(24),
            0 < pow2(s) <= pow2(125),
    ;
    vstd::arithmetic::div_mod::lemma_basic_div(x.magnitude() as int, one() as int);
}

} // verus!
