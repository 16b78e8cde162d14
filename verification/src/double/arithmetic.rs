//! The four operations on doubles, correctly rounded, and the conversion from integers.

use crate::double::rounding::{
    lemma_nearest, lemma_packed_one, nearest_magnitude, round_magnitude, scale,
};
use crate::double::{
    lemma_units_grow, lemma_units_zero, magnitude_units, power_of_two, Double, FRACTIONS, INFINITE,
    SIGN,
};
use crate::u256::U256;
use vstd::arithmetic::div_mod::lemma_fundamental_div_mod;
use vstd::arithmetic::power2::{
    lemma2_to64, lemma2_to64_rest, lemma_pow2_adds, lemma_pow2_pos, lemma_pow2_strictly_increases,
    lemma_pow2_unfold, pow2,
};
use vstd::prelude::*;

verus! {

/// The word that stands for no number.
pub const NAN: u64 = 0x7ff8_0000_0000_0000;

/// The double of the given sign and magnitude.
pub open spec fn signed(negative: bool, magnitude: nat) -> Double {
    Double {
        bits: if negative {
            (SIGN + magnitude) as u64
        } else {
            magnitude as u64
        },
    }
}

/// What stands for no number.
pub open spec fn not_a_number() -> Double {
    Double { bits: NAN }
}

/// The distance of an integer from zero.
pub open spec fn distance(x: int) -> nat {
    if x < 0 {
        (-x) as nat
    } else {
        x as nat
    }
}

impl Double {
    /// Whether the number is one of the infinities.
    pub open spec fn infinite(self) -> bool {
        self.magnitude() == INFINITE
    }

    /// The number with the other sign.
    pub open spec fn opposite(self) -> Double {
        signed(!self.negative(), self.magnitude())
    }

    /// The number without its sign.
    pub open spec fn absolute(self) -> Double {
        signed(false, self.magnitude())
    }

    /// `self + other`, the exact sum rounded to the nearest double.
    #[verifier::opaque]
    pub open spec fn plus(self, other: Double) -> Double {
        let sum = self.units() + other.units();
        if self.nan() || other.nan() {
            not_a_number()
        } else if self.infinite() && other.infinite() && self.negative() != other.negative() {
            not_a_number()
        } else if self.infinite() {
            self
        } else if other.infinite() {
            other
        } else if sum == 0 {
            signed(self.negative() && other.negative(), 0)
        } else {
            signed(sum < 0, nearest_magnitude(distance(sum), 1))
        }
    }

    /// `self - other`, the exact difference rounded to the nearest double.
    #[verifier::opaque]
    pub open spec fn minus(self, other: Double) -> Double {
        if other.nan() {
            not_a_number()
        } else {
            self.plus(other.opposite())
        }
    }

    /// `self * other`, the exact product rounded to the nearest double.
    #[verifier::opaque]
    pub open spec fn times(self, other: Double) -> Double {
        let negative = self.negative() != other.negative();
        if self.nan() || other.nan() {
            not_a_number()
        } else if self.infinite() || other.infinite() {
            if self.zero() || other.zero() {
                not_a_number()
            } else {
                signed(negative, INFINITE as nat)
            }
        } else {
            signed(
                negative,
                nearest_magnitude(distance(self.units()) * distance(other.units()), pow2(1074)),
            )
        }
    }

    /// `self / other`, the exact quotient rounded to the nearest double.
    #[verifier::opaque]
    pub open spec fn over(self, other: Double) -> Double {
        let negative = self.negative() != other.negative();
        if self.nan() || other.nan() {
            not_a_number()
        } else if self.infinite() && other.infinite() || self.zero() && other.zero() {
            not_a_number()
        } else if self.infinite() || other.zero() {
            signed(negative, INFINITE as nat)
        } else if other.infinite() {
            signed(negative, 0)
        } else {
            signed(
                negative,
                nearest_magnitude(distance(self.units()) * pow2(1074), distance(other.units())),
            )
        }
    }
}

/// The double nearest to an integer.
#[verifier::opaque]
pub open spec fn nearest_to_integer(n: nat) -> Double {
    signed(false, nearest_magnitude(n * pow2(1074), 1))
}

/// The double nearest to zero is zero.
pub proof fn lemma_nearest_zero(den: nat)
    requires
        den > 0,
    ensures
        nearest_magnitude(0, den) == 0,
{
    let zero = magnitude_units(0);
    let one = magnitude_units(1);
    assert(zero == 0 && one == 1);
    assert(zero * den == 0 && one * den == den && (zero + one) * den == den) by (nonlinear_arith)
        requires
            zero == 0,
            one == 1,
    ;
    lemma_nearest(0, den, 0);
}

/// Factors of a product of powers of two can be regrouped.
proof fn lemma_powers(a: nat, b: nat, c: nat, d: nat)
    requires
        a + b == c + d,
    ensures
        pow2(a) * pow2(b) == pow2(c) * pow2(d),
{
    lemma_pow2_adds(a, b);
    lemma_pow2_adds(c, d);
}

impl Double {
    fn of_parts(negative: bool, magnitude: u64) -> (r: Double)
        requires
            magnitude <= INFINITE,
        ensures
            r == signed(negative, magnitude as nat),
    {
        if negative {
            Double { bits: SIGN + magnitude }
        } else {
            Double { bits: magnitude }
        }
    }

    fn unsigned_bits(self) -> (r: u64)
        ensures
            r == self.magnitude(),
    {
        if self.bits >= SIGN {
            self.bits - SIGN
        } else {
            self.bits
        }
    }

    /// The significand of a number and the power of two that multiplies it.
    fn parts(self) -> (r: (u64, u64))
        requires
            !self.nan(),
        ensures
            r.0 < 2 * FRACTIONS,
            r.1 <= 2046,
            !self.infinite() ==> r.1 <= 2045,
            r.1 > 0 ==> r.0 >= FRACTIONS,
            magnitude_units(self.magnitude()) == r.0 * pow2(r.1 as nat),
            distance(self.units()) == r.0 * pow2(r.1 as nat),
            r.0 == 0 <==> self.magnitude() == 0,
    {
        let m: u64 = self.unsigned_bits();
        let exponent: u64 = m / FRACTIONS;
        let fraction: u64 = m % FRACTIONS;
        proof {
            lemma_fundamental_div_mod(m as int, FRACTIONS as int);
        }
        if exponent == 0 {
            proof {
                lemma_packed_one(m as nat, 0);
            }
            (m, 0)
        } else {
            proof {
                lemma_packed_one((FRACTIONS + fraction) as nat, (exponent - 1) as nat);
            }
            (FRACTIONS + fraction, exponent - 1)
        }
    }

    /// `self * other`.
    pub fn mul(self, other: Double) -> (r: Double)
        ensures
            r == self.times(other),
    {
        reveal(Double::times);
        if self.is_nan() || other.is_nan() {
            return Double { bits: NAN };
        }
        let negative: bool = (self.bits >= SIGN) != (other.bits >= SIGN);
        let m1: u64 = self.unsigned_bits();
        let m2: u64 = other.unsigned_bits();
        proof {
            lemma_units_zero(m1 as nat);
            lemma_units_zero(m2 as nat);
        }
        if m1 == INFINITE || m2 == INFINITE {
            if m1 == 0 || m2 == 0 {
                return Double { bits: NAN };
            }
            return Double::of_parts(negative, INFINITE);
        }
        let (s1, x1) = self.parts();
        let (s2, x2) = other.parts();
        let ghost u1 = distance(self.units());
        let ghost u2 = distance(other.units());
        proof {
            lemma_pow2_pos(1074);
        }
        if m1 == 0 || m2 == 0 {
            proof {
                assert(u1 * u2 == 0) by (nonlinear_arith)
                    requires
                        u1 == 0 || u2 == 0,
                ;
                lemma_nearest_zero(pow2(1074));
            }
            return Double::of_parts(negative, 0);
        }
        proof {
            assert(0 < s1 * s2 < 0x400_0000_0000_0000_0000_0000_0000) by (nonlinear_arith)
                requires
                    0 < s1 < 0x20_0000_0000_0000,
                    0 < s2 < 0x20_0000_0000_0000,
            ;
        }
        let s: u128 = s1 as u128 * s2 as u128;
        let shift: u64 = x1 + x2 + 1126;
        proof {
            let w = pow2(shift as nat) as int;
            let p = pow2(1074) as int;
            let k = scale() as int;
            let p1 = pow2(x1 as nat) as int;
            let p2 = pow2(x2 as nat) as int;
            lemma_pow2_pos(shift as nat);
            lemma_pow2_adds(x1 as nat, x2 as nat);
            lemma_powers(shift as nat, 1074, (x1 + x2) as nat, 2200);
            assert(s * w * p == (u1 * u2) * k) by (nonlinear_arith)
                requires
                    s == s1 * s2,
                    u1 == s1 * p1,
                    u2 == s2 * p2,
                    w * p == (p1 * p2) * k,
            ;
            assert(s * w * p < (s + 1) * w * p) by (nonlinear_arith)
                requires
                    w > 0,
                    p > 0,
            ;
        }
        let m: u64 = round_magnitude(s, shift, false, Ghost(u1 * u2), Ghost(pow2(1074)));
        Double::of_parts(negative, m)
    }
}

/// The double nearest to `n`.
pub fn from_u128(n: u128) -> (r: Double)
    ensures
        r == nearest_to_integer(n as nat),
{
    reveal(nearest_to_integer);
    if n == 0 {
        proof {
            lemma_nearest_zero(1);
            assert(0 * pow2(1074) == 0);
        }
        return Double { bits: 0 };
    }
    let ghost a = n as nat * pow2(1074);
    let ghost k = scale() as int;
    proof {
        lemma_pow2_pos(3274);
        lemma_pow2_adds(1074, 2200);
        assert(n * pow2(3274) == a * k) by (nonlinear_arith)
            requires
                pow2(3274) == pow2(1074) * k,
                a == n * pow2(1074),
        ;
    }
    if n < 0x100_0000_0000_0000_0000_0000_0000_0000 {
        proof {
            let w = pow2(3274) as int;
            assert(n * w * 1 < (n + 1) * w * 1) by (nonlinear_arith)
                requires
                    w > 0,
            ;
        }
        let m: u64 = round_magnitude(n, 3274, false, Ghost(a), Ghost(1));
        Double::of_parts(false, m)
    } else {
        let s: u128 = n / 256;
        let sticky: bool = n % 256 != 0;
        proof {
            let w = pow2(3274) as int;
            let w8 = pow2(3282) as int;
            lemma2_to64();
            lemma_pow2_adds(8, 3274);
            lemma_fundamental_div_mod(n as int, 256);
            assert(w8 == 256 * w);
            assert(s * w8 * 1 == (n - n % 256) * w) by (nonlinear_arith)
                requires
                    w8 == 256 * w,
                    n == 256 * s + n % 256,
            ;
            assert((s + 1) * w8 * 1 == (n - n % 256 + 256) * w) by (nonlinear_arith)
                requires
                    w8 == 256 * w,
                    n == 256 * s + n % 256,
            ;
            assert((n - n % 256) * w <= n * w && n * w < (n - n % 256 + 256) * w && ((n - n % 256) * w
                == n * w <==> n % 256 == 0)) by (nonlinear_arith)
                requires
                    0 <= n % 256 < 256,
                    w > 0,
            ;
        }
        let m: u64 = round_magnitude(s, 3282, sticky, Ghost(a), Ghost(1));
        Double::of_parts(false, m)
    }
}

/// The double nearest to `n`, whose high bits are `top` and whose `k` low bits are `low`.
fn from_high_bits(top: u128, k: u64, rest: bool, Ghost(n): Ghost<nat>, Ghost(low): Ghost<nat>) -> (r: Double)
    requires
        top >= 0x1_0000_0000_0000_0000,
        k <= 128,
        n == pow2(k as nat) * top + low,
        low < pow2(k as nat),
        rest <==> low != 0,
    ensures
        r == nearest_to_integer(n),
{
    reveal(nearest_to_integer);
    let ghost a = n * pow2(1074);
    let ghost w = pow2(3274) as int;
    let ghost cut = pow2(k as nat) as int;
    proof {
        let scaled = scale() as int;
        lemma_pow2_pos(3274);
        lemma_pow2_adds(1074, 2200);
        assert(n * w == a * scaled) by (nonlinear_arith)
            requires
                w == pow2(1074) * scaled,
                a == n * pow2(1074),
        ;
    }
    if top < 0x100_0000_0000_0000_0000_0000_0000_0000 {
        proof {
            lemma_pow2_adds(k as nat, 3274);
            lemma_tail(n as int, top as int, low as int, cut, w);
        }
        let m: u64 = round_magnitude(top, 3274 + k, rest, Ghost(a), Ghost(1));
        Double::of_parts(false, m)
    } else {
        let s: u128 = top / 256;
        let cut_off: u128 = top % 256;
        proof {
            lemma2_to64();
            lemma_pow2_adds(8, k as nat);
            lemma_pow2_adds(8 + k as nat, 3274);
            lemma_fundamental_div_mod(top as int, 256);
            assert(n == (256 * cut) * s + (cut * cut_off + low)) by (nonlinear_arith)
                requires
                    n == cut * top + low,
                    top == 256 * s + cut_off,
            ;
            assert(cut * cut_off + low < 256 * cut && (cut * cut_off + low == 0 <==> cut_off == 0 && low
                == 0)) by (nonlinear_arith)
                requires
                    0 <= cut_off < 256,
                    0 <= low < cut,
            ;
            assert(cut * cut_off >= 0) by (nonlinear_arith)
                requires
                    cut_off >= 0,
                    cut > 0,
            ;
            lemma_tail(n as int, s as int, cut * cut_off + low, 256 * cut, w);
        }
        let m: u64 = round_magnitude(s, 3282 + k, rest || cut_off != 0, Ghost(a), Ghost(1));
        Double::of_parts(false, m)
    }
}

/// The double nearest to a 256-bit integer.
pub fn from_u256(n: U256) -> (r: Double)
    ensures
        r == nearest_to_integer(n@),
{
    proof {
        lemma2_to64();
        lemma_pow2_adds(64, 64);
    }
    if n.w3 != 0 {
        let top: u128 = n.w3 as u128 * 0x1_0000_0000_0000_0000 + n.w2 as u128;
        let ghost low = (n.w0 + 0x1_0000_0000_0000_0000 * n.w1) as nat;
        from_high_bits(top, 128, n.w0 != 0 || n.w1 != 0, Ghost(n@), Ghost(low))
    } else if n.w2 != 0 {
        let top: u128 = n.w2 as u128 * 0x1_0000_0000_0000_0000 + n.w1 as u128;
        from_high_bits(top, 64, n.w0 != 0, Ghost(n@), Ghost(n.w0 as nat))
    } else {
        from_u128(n.as_u128())
    }
}

impl Double {
    /// A significand shifted to its full width, with the distance of the shift.
    fn normalized(significand: u64) -> (r: (u64, u64))
        requires
            0 < significand < 2 * FRACTIONS,
        ensures
            FRACTIONS <= r.0 < 2 * FRACTIONS,
            r.1 <= 52,
            r.0 == significand * pow2(r.1 as nat),
    {
        let mut s: u64 = significand;
        let mut n: u64 = 0;
        proof {
            lemma2_to64();
            assert(significand * pow2(0) == significand);
        }
        while s < FRACTIONS
            invariant
                0 < significand < 2 * FRACTIONS,
                0 < s < 2 * FRACTIONS,
                n <= 52,
                s == significand * pow2(n as nat),
            decreases 52 - n,
        {
            proof {
                if n == 52 {
                    lemma2_to64_rest();
                    assert(significand * pow2(52) >= pow2(52)) by (nonlinear_arith)
                        requires
                            significand >= 1,
                    ;
                }
                lemma_pow2_unfold((n + 1) as nat);
                assert(significand * (2 * pow2(n as nat)) == 2 * (significand * pow2(n as nat)))
                    by (nonlinear_arith);
            }
            s = s * 2;
            n = n + 1;
        }
        (s, n)
    }

    /// `self / other`.
    pub fn div(self, other: Double) -> (r: Double)
        ensures
            r == self.over(other),
    {
        reveal(Double::over);
        if self.is_nan() || other.is_nan() {
            return Double { bits: NAN };
        }
        let negative: bool = (self.bits >= SIGN) != (other.bits >= SIGN);
        let m1: u64 = self.unsigned_bits();
        let m2: u64 = other.unsigned_bits();
        proof {
            lemma_units_zero(m1 as nat);
            lemma_units_zero(m2 as nat);
            lemma_pow2_pos(1074);
        }
        if (m1 == INFINITE && m2 == INFINITE) || (m1 == 0 && m2 == 0) {
            return Double { bits: NAN };
        }
        if m1 == INFINITE || m2 == 0 {
            return Double::of_parts(negative, INFINITE);
        }
        if m2 == INFINITE {
            return Double::of_parts(negative, 0);
        }
        let (s1, x1) = self.parts();
        let (s2, x2) = other.parts();
        let ghost u1 = distance(self.units());
        let ghost u2 = distance(other.units());
        if m1 == 0 {
            proof {
                assert(u1 * pow2(1074) == 0) by (nonlinear_arith)
                    requires
                        u1 == 0,
                ;
                lemma_nearest_zero(u2);
            }
            return Double::of_parts(negative, 0);
        }
        let (wide, n) = Double::normalized(s1);
        proof {
            lemma2_to64();
            lemma_pow2_adds(64, 2);
        }
        let dividend: u128 = wide as u128 * 0x4_0000_0000_0000_0000;
        let s: u128 = dividend / s2 as u128;
        let rest: u128 = dividend % s2 as u128;
        let shift: u64 = x1 + 3208 - n - x2;
        proof {
            lemma_fundamental_div_mod(dividend as int, s2 as int);
            assert(0x1000_0000_0000_0000 <= s < 0x100_0000_0000_0000_0000_0000_0000_0000)
                by (nonlinear_arith)
                requires
                    dividend == s2 * s + rest,
                    0 <= rest < s2,
                    0 < s2 < 0x20_0000_0000_0000,
                    0x10_0000_0000_0000 * 0x4_0000_0000_0000_0000 <= dividend < 0x20_0000_0000_0000
                        * 0x4_0000_0000_0000_0000,
            ;
            let a = u1 * pow2(1074);
            let p1 = pow2(x1 as nat) as int;
            let p2 = pow2(x2 as nat) as int;
            let pn = pow2(n as nat) as int;
            let w = pow2(shift as nat) as int;
            let k = scale() as int;
            lemma_pow2_pos(shift as nat);
            lemma_pow2_pos(x2 as nat);
            lemma_pow2_adds(n as nat, 66);
            lemma_pow2_adds(shift as nat, x2 as nat);
            lemma_pow2_adds(x1 as nat, 1074);
            lemma_powers((n + 66) as nat, (shift + x2) as nat, (x1 + 1074) as nat, 2200);
            let v = w * p2;
            // The dividend, scaled, is the exact numerator.
            assert(dividend * v == a * k) by (nonlinear_arith)
                requires
                    dividend == wide * 0x4_0000_0000_0000_0000,
                    wide == s1 * pn,
                    a == u1 * pow2(1074),
                    u1 == s1 * p1,
                    (pn * 0x4_0000_0000_0000_0000) * v == (p1 * pow2(1074)) * k,
            ;
            assert(v > 0) by (nonlinear_arith)
                requires
                    v == w * p2,
                    w > 0,
                    p2 > 0,
            ;
            assert(s * w * u2 == (s2 * s) * v) by (nonlinear_arith)
                requires
                    u2 == s2 * p2,
                    v == w * p2,
            ;
            assert((s + 1) * w * u2 == (s2 * s + s2) * v) by (nonlinear_arith)
                requires
                    u2 == s2 * p2,
                    v == w * p2,
            ;
            assert((s2 * s) * v <= dividend * v && dividend * v < (s2 * s + s2) * v && ((s2 * s) * v
                == dividend * v <==> rest == 0)) by (nonlinear_arith)
                requires
                    dividend == s2 * s + rest,
                    0 <= rest < s2,
                    v > 0,
            ;
        }
        let m: u64 = round_magnitude(s, shift, rest != 0, Ghost(u1 * pow2(1074)), Ghost(u2));
        Double::of_parts(negative, m)
    }

    /// The magnitude nearest to the sum or the difference of the values of two magnitudes, the
    /// first not smaller than the second.
    fn combine(big: Double, small: Double, subtract: bool) -> (r: u64)
        requires
            !big.nan() && !big.infinite(),
            !small.nan() && !small.infinite(),
            small.magnitude() <= big.magnitude(),
            big.magnitude() > 0,
            subtract ==> small.magnitude() < big.magnitude(),
        ensures
            r <= INFINITE,
            r == nearest_magnitude(
                if subtract {
                    (magnitude_units(big.magnitude()) - magnitude_units(small.magnitude())) as nat
                } else {
                    magnitude_units(big.magnitude()) + magnitude_units(small.magnitude())
                },
                1,
            ),
    {
        let (s1, x1) = big.parts();
        let (s2, x2) = small.parts();
        let ghost u1 = magnitude_units(big.magnitude());
        let ghost u2 = magnitude_units(small.magnitude());
        let ghost a = if subtract {
            (u1 - u2) as nat
        } else {
            u1 + u2
        };
        let ghost k = scale() as int;
        let shift: u64 = x1 + 2140;
        let ghost w = pow2(shift as nat) as int;
        proof {
            lemma2_to64_rest();
            lemma_pow2_pos(2200);
            lemma_pow2_pos(shift as nat);
            if small.magnitude() < big.magnitude() {
                lemma_units_grow(small.magnitude(), big.magnitude());
            }
            lemma_exponents(s1, x1, s2, x2, u1, u2);
        }
        let head: u128 = s1 as u128 * 0x1000_0000_0000_0000;
        proof {
            // The larger operand, scaled.
            lemma_powers(60, shift as nat, x1 as nat, 2200);
            let p1 = pow2(x1 as nat) as int;
            assert(head * w == u1 * k) by (nonlinear_arith)
                requires
                    head == s1 * 0x1000_0000_0000_0000,
                    u1 == s1 * p1,
                    0x1000_0000_0000_0000 * w == p1 * k,
            ;
            assert((u1 - u2) * k == u1 * k - u2 * k) by (nonlinear_arith);
            assert((u1 + u2) * k == u1 * k + u2 * k) by (nonlinear_arith);
        }
        let gap: u64 = x1 - x2;
        if gap <= 60 {
            let factor: u128 = power_of_two(60 - gap);
            proof {
                if gap > 0 {
                    lemma_pow2_strictly_increases((60 - gap) as nat, 60);
                }
                assert(0 <= s2 * factor <= 0x20_0000_0000_0000 * 0x1000_0000_0000_0000)
                    by (nonlinear_arith)
                    requires
                        0 <= s2 < 0x20_0000_0000_0000,
                        0 < factor <= 0x1000_0000_0000_0000,
                ;
                lemma_powers((60 - gap) as nat, shift as nat, x2 as nat, 2200);
                let p2 = pow2(x2 as nat) as int;
                assert((s2 * factor) * w == u2 * k) by (nonlinear_arith)
                    requires
                        u2 == s2 * p2,
                        factor * w == p2 * k,
                ;
            }
            let tail: u128 = s2 as u128 * factor;
            proof {
                lemma_compare(head as int, tail as int, w, u1 as int, u2 as int, k);
            }
            let s: u128 = if subtract {
                head - tail
            } else {
                head + tail
            };
            proof {
                assert((head - tail) * w == head * w - tail * w) by (nonlinear_arith);
                assert((head + tail) * w == head * w + tail * w) by (nonlinear_arith);
                assert(s * w * 1 < (s + 1) * w * 1) by (nonlinear_arith)
                    requires
                        w > 0,
                ;
            }
            round_magnitude(s, shift, false, Ghost(a), Ghost(1))
        } else {
            let c: u64 = gap - 60;
            let tail: u64;
            let sticky: bool;
            let ghost y = pow2((x2 + 2200) as nat) as int;
            let ghost cut = pow2(c as nat) as int;
            proof {
                lemma_pow2_pos((x2 + 2200) as nat);
                lemma_pow2_adds(c as nat, (x2 + 2200) as nat);
                lemma_pow2_adds(x2 as nat, 2200);
                assert(w == cut * y);
                let p2 = pow2(x2 as nat) as int;
                assert(u2 * k == s2 * y) by (nonlinear_arith)
                    requires
                        u2 == s2 * p2,
                        y == p2 * k,
                ;
            }
            if c <= 63 {
                let divisor: u128 = power_of_two(c);
                let quotient: u128 = s2 as u128 / divisor;
                let rest: u128 = s2 as u128 % divisor;
                proof {
                    lemma_fundamental_div_mod(s2 as int, divisor as int);
                    assert(quotient <= s2) by (nonlinear_arith)
                        requires
                            s2 == divisor * quotient + rest,
                            divisor >= 1,
                            rest >= 0,
                    ;
                }
                tail = quotient as u64;
                sticky = rest != 0;
                proof {
                    lemma_tail(s2 as int, tail as int, rest as int, cut, y);
                }
            } else {
                tail = 0;
                sticky = s2 != 0;
                proof {
                    lemma2_to64();
                    if c > 64 {
                        lemma_pow2_strictly_increases(64, c as nat);
                    }
                    assert(cut * 0 == 0);
                    lemma_tail(s2 as int, 0, s2 as int, cut, y);
                }
            }
            let s: u128 = if subtract {
                if sticky {
                    head - tail as u128 - 1
                } else {
                    head - tail as u128
                }
            } else {
                head + tail as u128
            };
            proof {
                assert((head - tail - 1) * w == head * w - tail * w - w) by (nonlinear_arith);
                assert((head - tail) * w == head * w - tail * w) by (nonlinear_arith);
                assert((head + tail) * w == head * w + tail * w) by (nonlinear_arith);
                assert((tail + 1) * w == tail * w + w) by (nonlinear_arith);
                assert((s + 1) * w == s * w + w) by (nonlinear_arith);
                assert(s * w * 1 == s * w && (s + 1) * w * 1 == (s + 1) * w);
            }
            round_magnitude(s, shift, sticky, Ghost(a), Ghost(1))
        }
    }

    /// `self + other`.
    pub fn add(self, other: Double) -> (r: Double)
        ensures
            r == self.plus(other),
    {
        reveal(Double::plus);
        if self.is_nan() || other.is_nan() {
            return Double { bits: NAN };
        }
        let n1: bool = self.bits >= SIGN;
        let n2: bool = other.bits >= SIGN;
        let m1: u64 = self.unsigned_bits();
        let m2: u64 = other.unsigned_bits();
        if m1 == INFINITE && m2 == INFINITE && n1 != n2 {
            return Double { bits: NAN };
        }
        if m1 == INFINITE {
            return self;
        }
        if m2 == INFINITE {
            return other;
        }
        proof {
            lemma_units_zero(m1 as nat);
            lemma_units_zero(m2 as nat);
            if m1 < m2 {
                lemma_units_grow(m1 as nat, m2 as nat);
            } else if m2 < m1 {
                lemma_units_grow(m2 as nat, m1 as nat);
            }
        }
        if m1 == m2 && (n1 != n2 || m1 == 0) {
            return Double::of_parts(n1 && n2, 0);
        }
        if m1 >= m2 {
            let m: u64 = Double::combine(self, other, n1 != n2);
            Double::of_parts(n1, m)
        } else {
            let m: u64 = Double::combine(other, self, n1 != n2);
            Double::of_parts(n2, m)
        }
    }

    /// `self - other`.
    pub fn sub(self, other: Double) -> (r: Double)
        ensures
            r == self.minus(other),
    {
        reveal(Double::minus);
        if other.is_nan() {
            return Double { bits: NAN };
        }
        let n: bool = other.bits >= SIGN;
        let m: u64 = other.unsigned_bits();
        self.add(Double::of_parts(!n, m))
    }

    /// The number without its sign.
    pub fn abs(self) -> (r: Double)
        ensures
            r == self.absolute(),
    {
        Double { bits: self.unsigned_bits() }
    }
}

/// The larger of two finite numbers has no smaller power of two, and a full significand where its
/// power is the greater one.
proof fn lemma_exponents(s1: u64, x1: u64, s2: u64, x2: u64, u1: nat, u2: nat)
    requires
        s1 < 2 * FRACTIONS,
        s2 < 2 * FRACTIONS,
        x1 > 0 ==> s1 >= FRACTIONS,
        x2 > 0 ==> s2 >= FRACTIONS,
        u1 == s1 * pow2(x1 as nat),
        u2 == s2 * pow2(x2 as nat),
        u2 <= u1,
    ensures
        x2 <= x1,
{
    if x1 < x2 {
        lemma_pow2_unfold((x1 + 1) as nat);
        if x1 + 1 < x2 {
            lemma_pow2_strictly_increases((x1 + 1) as nat, x2 as nat);
        }
        let p1 = pow2(x1 as nat) as int;
        let p2 = pow2(x2 as nat) as int;
        lemma_pow2_pos(x1 as nat);
        assert(s1 * p1 < s2 * p2) by (nonlinear_arith)
            requires
                s1 < 2 * 0x10_0000_0000_0000,
                s2 >= 0x10_0000_0000_0000,
                p2 >= 2 * p1,
                p1 > 0,
        ;
    }
}

/// Two products by one positive factor are ordered as the two products they equal.
proof fn lemma_compare(head: int, tail: int, w: int, u1: int, u2: int, k: int)
    requires
        head * w == u1 * k,
        tail * w == u2 * k,
        w > 0,
        k > 0,
        u2 <= u1,
    ensures
        tail <= head,
        u2 < u1 ==> tail < head,
        u1 > 0 ==> head > 0,
{
    assert(u2 * k <= u1 * k) by (nonlinear_arith)
        requires
            u2 <= u1,
            k > 0,
    ;
    assert(tail <= head) by (nonlinear_arith)
        requires
            tail * w <= head * w,
            w > 0,
    ;
    if u2 < u1 {
        assert(u2 * k < u1 * k) by (nonlinear_arith)
            requires
                u2 < u1,
                k > 0,
        ;
        assert(tail < head) by (nonlinear_arith)
            requires
                tail * w < head * w,
                w > 0,
        ;
    }
    if u1 > 0 {
        assert(u1 * k > 0) by (nonlinear_arith)
            requires
                u1 > 0,
                k > 0,
        ;
        assert(head > 0) by (nonlinear_arith)
            requires
                head * w > 0,
                w > 0,
        ;
    }
}

/// The part of a shifted significand that is kept bounds the significand from both sides.
proof fn lemma_tail(s: int, tail: int, rest: int, cut: int, y: int)
    requires
        s == cut * tail + rest,
        0 <= rest < cut,
        y > 0,
    ensures
        tail * (cut * y) <= s * y < (tail + 1) * (cut * y),
        rest == 0 <==> tail * (cut * y) == s * y,
{
    assert(tail * (cut * y) + rest * y == s * y) by (nonlinear_arith)
        requires
            s == cut * tail + rest,
    ;
    assert((tail + 1) * (cut * y) == tail * (cut * y) + cut * y) by (nonlinear_arith);
    assert(0 <= rest * y && rest * y < cut * y && (rest == 0 <==> rest * y == 0))
        by (nonlinear_arith)
        requires
            0 <= rest < cut,
            y > 0,
    ;
}

} // verus!
