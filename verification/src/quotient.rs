//! Rounding a quotient of two binary32 magnitudes to binary32, and the first
//! decimal digit of a number that rests on it.
//!
//! A ratio `n / d` of natural numbers stands for a magnitude in units of
//! 2^-149. Binary32 numbers carry 24 significant bits, so around such a
//! magnitude they lie `2^p` units apart, with `p` the [`spacing`] of the ratio.

use vstd::prelude::*;
use vstd::arithmetic::power2::{pow2, lemma_pow2_adds, lemma_pow2_pos, lemma_pow2_unfold};
use crate::binary32::{
    Float,
    one,
    lemma_pow2_bounds,
    lemma_pow2_monotone,
    lemma_scaled_mod,
    lemma_small_magnitude,
};

verus! {

/// The exponent of the distance between neighbouring binary32 magnitudes
/// around `n / d`: zero below 2^24 units, and one more each time the ratio
/// doubles from there.
pub open spec fn spacing(n: nat, d: nat) -> nat
    decreases n,
{
    if d == 0 || n < d * 0x100_0000 {
        0
    } else {
        1 + spacing(n / 2, d)
    }
}

/// The whole number nearest to `n / d`; of two equally near, the even one.
pub open spec fn round_ties_even(n: nat, d: nat) -> nat {
    let q = n / d;
    let r = n % d;
    if 2 * r < d || (2 * r == d && q % 2 == 0) {
        q
    } else {
        q + 1
    }
}

/// The binary32 magnitude nearest to `n / d`; of two equally near, the one
/// whose significand is even.
pub open spec fn nearest(n: nat, d: nat) -> nat {
    let p = spacing(n, d);
    round_ties_even(n, d * pow2(p)) * pow2(p)
}

/// The whole number nearest to a magnitude; of two equally near, the larger.
pub open spec fn round_ties_away(m: nat) -> nat {
    (m + pow2(148)) / one()
}

/// The binary32 number nearest to one tenth.
pub open spec fn tenth() -> Float {
    Float { bits: 0x3DCC_CCCD }
}

/// The significand of [`tenth`], which is scaled by 2^122 units.
pub const TENTH_SIGNIFICAND: u64 = 0xCC_CCCD;

impl Float {
    /// The part of a finite number's absolute value behind the point, in
    /// units of 2^-149.
    pub open spec fn fraction_magnitude(self) -> nat
        recommends
            self.is_finite(),
    {
        self.magnitude() % one()
    }

    /// The part behind the point, divided by [`tenth`] in binary32 and then
    /// rounded to the nearest whole number, ties away from zero. It is zero
    /// for what is not finite, and at most ten.
    pub open spec fn tenths(self) -> nat {
        if self.is_finite() {
            round_ties_away(nearest(self.fraction_magnitude() * one(), tenth().magnitude()))
        } else {
            0
        }
    }
}

/// The ratio lies below `2^(24+p)` units, and from `2^(23+p)` on where the
/// spacing `p` is not zero.
pub proof fn lemma_spacing_bounds(n: nat, d: nat)
    requires
        d > 0,
    ensures
        n < d * pow2(24 + spacing(n, d)),
        spacing(n, d) > 0 ==> d * pow2(23 + spacing(n, d)) <= n,
    decreases n,
{
    lemma_pow2_bounds();
    if n >= d * 0x100_0000 {
        let p = spacing(n / 2, d);
        lemma_spacing_bounds(n / 2, d);
        lemma_pow2_unfold(25 + p);
        lemma_pow2_unfold(24 + p);
        assert(d * pow2(25 + p) == 2 * (d * pow2(24 + p))) by (nonlinear_arith)
            requires
                pow2(25 + p) == 2 * pow2(24 + p),
        ;
        assert(d * pow2(24 + p) == 2 * (d * pow2(23 + p))) by (nonlinear_arith)
            requires
                pow2(24 + p) == 2 * pow2(23 + p),
        ;
    }
}

/// A ratio between `2^(23+p)` and `2^(24+p)` units has spacing `p`.
pub proof fn lemma_spacing_unique(n: nat, d: nat, p: nat)
    requires
        d > 0,
        n < d * pow2(24 + p),
        p > 0 ==> d * pow2(23 + p) <= n,
    ensures
        spacing(n, d) == p,
{
    let s = spacing(n, d);
    lemma_spacing_bounds(n, d);
    if s < p {
        lemma_pow2_monotone(24 + s, 23 + p);
        assert(d * pow2(24 + s) <= d * pow2(23 + p)) by (nonlinear_arith)
            requires
                pow2(24 + s) <= pow2(23 + p),
        ;
    } else if s > p {
        lemma_pow2_monotone(24 + p, 23 + s);
        assert(d * pow2(24 + p) <= d * pow2(23 + s)) by (nonlinear_arith)
            requires
                pow2(24 + p) <= pow2(23 + s),
        ;
    }
}

/// Rounding does not see a factor that numerator and denominator share.
pub proof fn lemma_round_cancel(n: nat, d: nat, c: nat)
    requires
        d > 0,
        c > 0,
    ensures
        round_ties_even(n * c, d * c) == round_ties_even(n, d),
{
    vstd::arithmetic::div_mod::lemma_div_multiples_vanish_quotient(c as int, n as int, d as int);
    vstd::arithmetic::div_mod::lemma_truncate_middle(n as int, c as int, d as int);
    vstd::arithmetic::mul::lemma_mul_is_commutative(n as int, c as int);
    vstd::arithmetic::mul::lemma_mul_is_commutative(d as int, c as int);
    let r = n % d;
    assert((n * c) % (d * c) == c * r);
    assert(2 * (c * r) < d * c <==> 2 * r < d) by (nonlinear_arith)
        requires
            c > 0,
    ;
    assert(2 * (c * r) == d * c <==> 2 * r == d) by (nonlinear_arith)
        requires
            c > 0,
    ;
}

/// A ratio below `x` rounds to `x` at most.
pub proof fn lemma_round_bound(n: nat, d: nat, x: nat)
    requires
        d > 0,
        n < d * x,
    ensures
        round_ties_even(n, d) <= x,
{
    vstd::arithmetic::div_mod::lemma_fundamental_div_mod(n as int, d as int);
    let q = n / d;
    assert(q < x) by (nonlinear_arith)
        requires
            d > 0,
            n < d * x,
            n == d * q + (n % d),
            0 <= n % d,
    ;
}

/// A ratio below `2^(24+k)` units rounds to a magnitude of `2^(24+k)` at most.
pub proof fn lemma_nearest_bound(n: nat, d: nat, k: nat)
    requires
        d > 0,
        n < d * pow2(24 + k),
    ensures
        nearest(n, d) <= pow2(24 + k),
{
    let p = spacing(n, d);
    lemma_spacing_bounds(n, d);
    lemma_pow2_pos(p);
    if p > k {
        lemma_pow2_monotone(24 + k, 23 + p);
        assert(d * pow2(24 + k) <= d * pow2(23 + p)) by (nonlinear_arith)
            requires
                pow2(24 + k) <= pow2(23 + p),
        ;
    }
    lemma_pow2_adds(24, p);
    assert(d * pow2(24 + p) == (d * pow2(p)) * pow2(24)) by (nonlinear_arith)
        requires
            pow2(24 + p) == pow2(24) * pow2(p),
    ;
    assert(d * pow2(p) > 0) by (nonlinear_arith)
        requires
            d > 0,
            pow2(p) > 0,
    ;
    lemma_round_bound(n, d * pow2(p), pow2(24));
    let r = round_ties_even(n, d * pow2(p));
    lemma_pow2_monotone(24 + p, 24 + k);
    assert(r * pow2(p) <= pow2(24 + k)) by (nonlinear_arith)
        requires
            r <= pow2(24),
            pow2(24 + p) == pow2(24) * pow2(p),
            pow2(24 + p) <= pow2(24 + k),
    ;
}

/// What [`tenth`] is made of.
pub proof fn lemma_tenth()
    ensures
        tenth().is_finite(),
        tenth().magnitude() == TENTH_SIGNIFICAND * pow2(122),
        tenth().magnitude() > 0,
{
    assert(tenth().exponent_field() == 123);
    assert(tenth().fraction_field() == 0x4C_CCCD);
    lemma_pow2_pos(122);
    assert(TENTH_SIGNIFICAND * pow2(122) > 0) by (nonlinear_arith)
        requires
            pow2(122) > 0,
    ;
}

/// A magnitude of 2^147 units at most, which is a quarter, rounds to zero.
pub proof fn lemma_round_ties_away_small(m: nat)
    requires
        m <= pow2(147),
    ensures
        round_ties_away(m) == 0,
{
    lemma_pow2_unfold(148);
    lemma_pow2_unfold(149);
    lemma_pow2_pos(147);
    vstd::arithmetic::div_mod::lemma_basic_div((m + pow2(148)) as int, one() as int);
}

/// A finite number without a part behind the point has no tenths.
pub proof fn lemma_tenths_of_whole(x: Float)
    requires
        x.is_finite(),
        x.fraction_magnitude() == 0,
    ensures
        x.tenths() == 0,
{
    lemma_tenth();
    let d = tenth().magnitude();
    assert(x.fraction_magnitude() * one() == 0);
    assert(spacing(0, d) == 0);
    lemma_pow2_bounds();
    assert(d * pow2(0) == d);
    vstd::arithmetic::div_mod::lemma_basic_div(0, d as int);
    vstd::arithmetic::div_mod::lemma_small_mod(0, d);
    assert(nearest(0, d) == 0);
    lemma_pow2_pos(147);
    lemma_round_ties_away_small(0);
}

/// A finite number whose part behind the point is below 2^143 units, which
/// is a sixty-fourth, has no tenths.
pub proof fn lemma_tenths_of_small(x: Float)
    requires
        x.is_finite(),
        x.fraction_magnitude() < pow2(143),
    ensures
        x.tenths() == 0,
{
    lemma_tenth();
    let f = x.fraction_magnitude();
    let d = tenth().magnitude();
    lemma_pow2_bounds();
    lemma_pow2_adds(143, 149);
    lemma_pow2_adds(23, 122);
    lemma_pow2_adds(145, 147);
    lemma_pow2_pos(149);
    assert(f * one() < pow2(143) * pow2(149)) by (nonlinear_arith)
        requires
            f < pow2(143),
            one() == pow2(149),
            pow2(149) > 0,
    ;
    assert(d * pow2(147) >= pow2(292)) by (nonlinear_arith)
        requires
            d == TENTH_SIGNIFICAND * pow2(122),
            TENTH_SIGNIFICAND >= pow2(23),
            pow2(23) * pow2(122) == pow2(145),
            pow2(145) * pow2(147) == pow2(292),
    ;
    lemma_nearest_bound(f * one(), d, 123);
    lemma_round_ties_away_small(nearest(f * one(), d));
}

/// The tenths of a number whose part behind the point is `m * 2^j` units,
/// where `num` is `m` scaled by `2^s` into the 24 bits above the significand
/// of [`tenth`]: the quotient is `num` over that significand, rounded, at a
/// spacing of `2^(j+27-s)`.
pub proof fn lemma_tenths_scaled(x: Float, m: nat, j: nat, s: nat, num: nat)
    requires
        x.is_finite(),
        x.fraction_magnitude() == m * pow2(j),
        num == m * pow2(s),
        TENTH_SIGNIFICAND * pow2(23) <= num < TENTH_SIGNIFICAND * pow2(24),
        s <= j + 27,
    ensures
        x.tenths() == round_ties_away(
            round_ties_even(num, TENTH_SIGNIFICAND as nat) * pow2((j + 27 - s) as nat),
        ),
        round_ties_even(num, TENTH_SIGNIFICAND as nat) <= pow2(24),
        j + 27 - s < 130,
{
    lemma_tenth();
    let p = (j + 27 - s) as nat;
    let sig = TENTH_SIGNIFICAND as nat;
    let f = x.fraction_magnitude();
    let n = f * one();
    let d = tenth().magnitude();
    let c = pow2(p) * pow2(122);
    lemma_pow2_pos(p);
    lemma_pow2_pos(122);
    lemma_pow2_adds(s, p);
    lemma_pow2_adds(j + 27, 122);
    lemma_pow2_adds(j, 149);
    lemma_pow2_adds(24, p);
    lemma_pow2_adds(23, p);
    assert(c > 0) by (nonlinear_arith)
        requires
            c == pow2(p) * pow2(122),
            pow2(p) > 0,
            pow2(122) > 0,
    ;
    assert(n == num * c) by (nonlinear_arith)
        requires
            n == (m * pow2(j)) * pow2(149),
            num == m * pow2(s),
            c == pow2(p) * pow2(122),
            pow2(s) * pow2(p) == pow2(j + 27),
            pow2(j + 27) * pow2(122) == pow2(j + 149),
            pow2(j) * pow2(149) == pow2(j + 149),
    ;
    assert(d * pow2(p) == sig * c) by (nonlinear_arith)
        requires
            d == sig * pow2(122),
            c == pow2(p) * pow2(122),
    ;
    assert(d * pow2(24 + p) == (sig * pow2(24)) * c) by (nonlinear_arith)
        requires
            d == sig * pow2(122),
            c == pow2(p) * pow2(122),
            pow2(24 + p) == pow2(24) * pow2(p),
    ;
    assert(d * pow2(23 + p) == (sig * pow2(23)) * c) by (nonlinear_arith)
        requires
            d == sig * pow2(122),
            c == pow2(p) * pow2(122),
            pow2(23 + p) == pow2(23) * pow2(p),
    ;
    assert(n < d * pow2(24 + p)) by (nonlinear_arith)
        requires
            n == num * c,
            d * pow2(24 + p) == (sig * pow2(24)) * c,
            num < sig * pow2(24),
            c > 0,
    ;
    assert(d * pow2(23 + p) <= n) by (nonlinear_arith)
        requires
            n == num * c,
            d * pow2(23 + p) == (sig * pow2(23)) * c,
            sig * pow2(23) <= num,
            c > 0,
    ;
    lemma_spacing_unique(n, d, p);
    lemma_round_cancel(num, sig, c);
    lemma_round_bound(num, sig, pow2(24));
    // the part behind the point is less than one, so the quotient is less than sixteen
    assert(p < 130) by {
        if p >= 130 {
            lemma_pow2_monotone(130, p);
            lemma_pow2_bounds();
            lemma_pow2_adds(23, 23);
            lemma_pow2_adds(46, 130);
            lemma_pow2_adds(149, 149);
            lemma_pow2_adds(23, 122);
            lemma_pow2_adds(145, 153);
            lemma_pow2_adds(130, 122);
            lemma_pow2_adds(46, 252);
            lemma_pow2_pos(149);
            vstd::arithmetic::div_mod::lemma_mod_bound(x.magnitude() as int, one() as int);
            assert(n < pow2(298)) by (nonlinear_arith)
                requires
                    n == f * pow2(149),
                    f < pow2(149),
                    pow2(149) * pow2(149) == pow2(298),
                    pow2(149) > 0,
            ;
            assert(n >= pow2(298)) by (nonlinear_arith)
                requires
                    n == num * c,
                    num >= sig * pow2(23),
                    sig >= pow2(23),
                    pow2(23) * pow2(23) == pow2(46),
                    c == pow2(p) * pow2(122),
                    pow2(p) >= pow2(130),
                    pow2(130) * pow2(122) == pow2(252),
                    pow2(46) * pow2(252) == pow2(298),
                    pow2(122) > 0,
            ;
        }
    }
}

/// No number has more than ten tenths behind the point.
pub proof fn lemma_tenths_bound(x: Float)
    ensures
        x.tenths() <= 10,
{
    if x.is_finite() {
        lemma_tenth();
        let sig = TENTH_SIGNIFICAND as nat;
        let f = x.fraction_magnitude();
        let n = f * one();
        let d = tenth().magnitude();
        let p = spacing(n, d);
        vstd::arithmetic::power2::lemma2_to64();
        lemma_pow2_pos(149);
        lemma_pow2_pos(p);
        lemma_pow2_adds(27, 122);
        vstd::arithmetic::div_mod::lemma_mod_bound(x.magnitude() as int, one() as int);
        // less than one, divided by a tenth, is less than ten
        assert(n < (10 * d) * pow2(149)) by (nonlinear_arith)
            requires
                n == f * pow2(149),
                f < pow2(149),
                d == sig * pow2(122),
                10 * sig >= pow2(27),
                pow2(27) * pow2(122) == pow2(149),
                pow2(149) > 0,
        ;
        lemma_spacing_bounds(n, d);
        if p >= 130 {
            lemma_pow2_monotone(153, 23 + p);
            lemma_pow2_adds(4, 149);
            assert(d * pow2(23 + p) >= (10 * d) * pow2(149)) by (nonlinear_arith)
                requires
                    pow2(23 + p) >= pow2(153),
                    pow2(153) == 16 * pow2(149),
            ;
        }
        let t = (149 - p) as nat;
        lemma_pow2_adds(p, t);
        assert(d * pow2(p) > 0) by (nonlinear_arith)
            requires
                d > 0,
                pow2(p) > 0,
        ;
        assert(n < (d * pow2(p)) * (10 * pow2(t))) by (nonlinear_arith)
            requires
                n < (10 * d) * pow2(149),
                pow2(149) == pow2(p) * pow2(t),
        ;
        lemma_round_bound(n, d * pow2(p), 10 * pow2(t));
        let r = round_ties_even(n, d * pow2(p));
        assert(r * pow2(p) <= 10 * one()) by (nonlinear_arith)
            requires
                r <= 10 * pow2(t),
                one() == pow2(p) * pow2(t),
        ;
        let m = nearest(n, d);
        lemma_pow2_unfold(149);
        vstd::arithmetic::div_mod::lemma_fundamental_div_mod((m + pow2(148)) as int, one() as int);
        vstd::arithmetic::div_mod::lemma_mod_bound((m + pow2(148)) as int, one() as int);
        let q = (m + pow2(148)) / one();
        assert(q <= 10) by (nonlinear_arith)
            requires
                m + pow2(148) == one() * q + ((m + pow2(148)) % one()),
                0 <= (m + pow2(148)) % one(),
                m <= 10 * one(),
                one() == 2 * pow2(148),
                pow2(148) > 0,
        {
            lemma_pow2_pos(148);
        }
    }
}

/// Two to the power of `k`.
fn power_of_two(k: u32) -> (r: u64)
    requires
        k < 63,
    ensures
        r == pow2(k as nat),
        r > 0,
{
    proof {
        vstd::bits::lemma_u64_pow2_no_overflow(k as nat);
        vstd::bits::lemma_u64_shl_is_mul(1, k as u64);
    }
    1u64 << (k as u64)
}

impl Float {
    /// The part behind the point, divided by one tenth in binary32 and
    /// rounded to the nearest whole number, ties away from zero.
    pub fn round_tenths(&self) -> (r: u32)
        ensures
            r == self.tenths(),
            r <= 10,
    {
        let e = (self.bits / 0x80_0000) % 0x100;
        let f = self.bits % 0x80_0000;
        if e == 255 {
            return 0;
        }
        if e >= 150 {
            proof {
                let sig = self.significand();
                lemma_scaled_mod(sig, 149, 0);
                lemma_pow2_adds((e - 150) as nat, 149);
                lemma_pow2_pos(149);
                vstd::arithmetic::div_mod::lemma_mod_multiples_basic(
                    (sig * pow2((e - 150) as nat)) as int,
                    one() as int,
                );
                assert(self.magnitude() == (sig * pow2((e - 150) as nat)) * one())
                    by (nonlinear_arith)
                    requires
                        self.magnitude() == sig * pow2((e - 1) as nat),
                        pow2((e - 1) as nat) == pow2((e - 150) as nat) * pow2(149),
                        one() == pow2(149),
                ;
                lemma_tenths_of_whole(*self);
            }
            return 0;
        }
        if e < 121 {
            proof {
                lemma_small_magnitude(*self);
                vstd::arithmetic::div_mod::lemma_small_mod(self.magnitude(), one());
                let j = self.scale();
                lemma_pow2_bounds();
                lemma_pow2_monotone(j, 119);
                lemma_pow2_adds(24, 119);
                assert(self.significand() * pow2(j) < pow2(24) * pow2(119)) by (nonlinear_arith)
                    requires
                        self.significand() < pow2(24),
                        0 < pow2(j) <= pow2(119),
                ;
                lemma_tenths_of_small(*self);
            }
            return 0;
        }
        let sig: u64 = 0x80_0000 + (f as u64);
        let m: u64 = if e >= 127 {
            sig % power_of_two(150 - e)
        } else {
            sig
        };
        proof {
            if e >= 127 {
                lemma_scaled_mod(sig as nat, (e - 1) as nat, (150 - e) as nat);
                lemma_pow2_monotone((150 - e) as nat, 23);
                lemma_pow2_bounds();
            } else {
                lemma_small_magnitude(*self);
                vstd::arithmetic::div_mod::lemma_small_mod(self.magnitude(), one());
            }
        }
        assert(self.fraction_magnitude() == m * pow2((e - 1) as nat));
        if m == 0 {
            proof {
                vstd::arithmetic::mul::lemma_mul_basics(pow2((e - 1) as nat) as int);
                lemma_tenths_of_whole(*self);
            }
            return 0;
        }
        let mut num: u64 = m;
        let mut s: u32 = 0;
        proof {
            lemma_pow2_bounds();
        }
        while num < TENTH_SIGNIFICAND * 0x80_0000
            invariant
                num == m * pow2(s as nat),
                0 < m < 0x100_0000,
                s <= 47,
                0 < num < TENTH_SIGNIFICAND * 0x100_0000,
            decreases TENTH_SIGNIFICAND * 0x100_0000 - num,
        {
            proof {
                lemma_pow2_unfold((s + 1) as nat);
                assert(2 * (m * pow2(s as nat)) == m * pow2((s + 1) as nat)) by (nonlinear_arith)
                    requires
                        pow2((s + 1) as nat) == 2 * pow2(s as nat),
                ;
                if s >= 47 {
                    lemma_pow2_monotone(47, s as nat);
                    lemma_pow2_adds(24, 23);
                    lemma_pow2_bounds();
                    assert(m * pow2(s as nat) >= pow2(47)) by (nonlinear_arith)
                        requires
                            m >= 1,
                            pow2(s as nat) >= pow2(47),
                    ;
                }
            }
            num = 2 * num;
            s = s + 1;
        }
        let q = num / TENTH_SIGNIFICAND;
        let rest = num % TENTH_SIGNIFICAND;
        let rn: u64 = if 2 * rest < TENTH_SIGNIFICAND || (2 * rest == TENTH_SIGNIFICAND && q % 2
            == 0) {
            q
        } else {
            q + 1
        };
        proof {
            lemma_pow2_bounds();
            lemma_tenths_scaled(*self, m as nat, (e - 1) as nat, s as nat, num as nat);
        }
        let p: u32 = e + 26 - s;
        if p <= 123 {
            proof {
                lemma_pow2_monotone(p as nat, 123);
                lemma_pow2_adds(24, 123);
                assert(rn * pow2(p as nat) <= pow2(147)) by (nonlinear_arith)
                    requires
                        rn <= pow2(24),
                        pow2(p as nat) <= pow2(123),
                        pow2(24) * pow2(123) == pow2(147),
                ;
                lemma_round_ties_away_small(rn as nat * pow2(p as nat));
            }
            return 0;
        }
        let t: u32 = 149 - p;
        let half = power_of_two(t - 1);
        let whole = power_of_two(t);
        proof {
            lemma_pow2_adds(p as nat, (t - 1) as nat);
            lemma_pow2_adds(p as nat, t as nat);
            crate::binary32::lemma_scaled_div((rn + half) as nat, p as nat, t as nat);
            assert(rn * pow2(p as nat) + pow2(148) == (rn + half) * pow2(p as nat))
                by (nonlinear_arith)
                requires
                    pow2(148) == pow2(p as nat) * half,
            ;
            lemma_pow2_monotone((t - 1) as nat, 24);
            lemma_pow2_monotone(20, t as nat);
            vstd::arithmetic::power2::lemma2_to64();
        }
        proof {
            lemma_tenths_bound(*self);
        }
        let digit = (rn + half) / whole;
        digit as u32
    }
}

} // verus!
