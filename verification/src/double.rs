//! Double-precision numbers held by their IEEE-754 bit pattern.
//!
//! Prices, rates and thresholds reach this crate as doubles. Here such a number is the 64-bit
//! word that encodes it, so that it can be ordered and truncated without any rounding: the
//! mathematical value of the word is an integer multiple of the smallest positive double.

use vstd::arithmetic::div_mod::{
    lemma_div_pos_is_pos, lemma_fundamental_div_mod, lemma_fundamental_div_mod_converse,
    lemma_mod_bound,
};
use vstd::arithmetic::power2::{
    lemma2_to64, lemma2_to64_rest, lemma_pow2_adds, lemma_pow2_pos, lemma_pow2_strictly_increases, lemma_pow2_unfold,
    pow2,
};
use vstd::prelude::*;

pub mod arithmetic;
pub mod chain;
pub mod constants;
pub mod error;
pub mod exact;
pub mod growth;
pub mod order;
pub mod rounding;

verus! {

/// The weight of the sign bit.
pub const SIGN: u64 = 0x8000_0000_0000_0000;

/// The magnitude of the infinities; every larger magnitude is not a number.
pub const INFINITE: u64 = 0x7ff0_0000_0000_0000;

/// The number of fractions that share one exponent.
pub const FRACTIONS: u64 = 0x0010_0000_0000_0000;

/// A double, as the word that encodes it.
#[derive(Clone, Copy, Debug, PartialEq, Eq, Structural)]
pub struct Double {
    pub bits: u64,
}

/// The value of a positive double of magnitude `m`, counted in units of two to the power -1074.
pub open spec fn magnitude_units(m: nat) -> nat {
    if m < FRACTIONS {
        m
    } else {
        (FRACTIONS as nat + m % (FRACTIONS as nat)) * pow2((m / (FRACTIONS as nat) - 1) as nat)
    }
}

impl Double {
    /// Whether the sign bit is set.
    pub open spec fn negative(self) -> bool {
        self.bits >= SIGN
    }

    /// The word without its sign bit.
    pub open spec fn magnitude(self) -> nat {
        if self.negative() {
            (self.bits - SIGN) as nat
        } else {
            self.bits as nat
        }
    }

    /// Whether the word encodes no number.
    pub open spec fn nan(self) -> bool {
        self.magnitude() > INFINITE
    }

    /// The value of the number, counted in units of two to the power -1074. The infinities stand
    /// beyond every finite number.
    pub open spec fn units(self) -> int {
        if self.negative() {
            -(magnitude_units(self.magnitude()) as int)
        } else {
            magnitude_units(self.magnitude()) as int
        }
    }

    /// `self < other`: false as soon as one of them is no number.
    pub open spec fn below(self, other: Double) -> bool {
        !self.nan() && !other.nan() && self.units() < other.units()
    }

    /// `self <= other`: false as soon as one of them is no number.
    pub open spec fn at_most(self, other: Double) -> bool {
        !self.nan() && !other.nan() && self.units() <= other.units()
    }

    /// `self == 0.0`, for either zero.
    pub open spec fn zero(self) -> bool {
        self.units() == 0
    }

    /// The smaller of two numbers; where one is no number, the other one.
    pub open spec fn lesser(self, other: Double) -> Double {
        if self.nan() {
            other
        } else if other.below(self) {
            other
        } else {
            self
        }
    }

    /// The greater of two numbers; where one is no number, the other one.
    pub open spec fn greater(self, other: Double) -> Double {
        if self.nan() {
            other
        } else if self.below(other) {
            other
        } else {
            self
        }
    }

    /// The whole part of the number, held between zero and `most`; zero where it is no number.
    pub open spec fn whole(self, most: nat) -> nat {
        if self.nan() || self.units() <= 0 {
            0
        } else if self.units() / pow2(1074) as int > most {
            most
        } else {
            (self.units() / pow2(1074) as int) as nat
        }
    }

    /// The least integer that is not smaller than the number, held between zero and `most`; zero
    /// where it is no number.
    pub open spec fn whole_up(self, most: nat) -> nat {
        let up = (self.units() + pow2(1074) - 1) / pow2(1074) as int;
        if self.nan() || self.units() <= 0 {
            0
        } else if up > most {
            most
        } else {
            up as nat
        }
    }
}

/// Consecutive magnitudes have growing values.
proof fn lemma_units_step(m: nat)
    ensures
        magnitude_units(m) < magnitude_units(m + 1),
{
    let p = FRACTIONS as nat;
    if m + 1 < p {
    } else if m + 1 == p {
        lemma2_to64();
        assert((m + 1) / p == 1 && (m + 1) % p == 0);
        assert(magnitude_units(m + 1) == p * pow2(0));
        assert(p * pow2(0) == p);
    } else {
        let e = m / p;
        let f = m % p;
        lemma_fundamental_div_mod(m as int, p as int);
        lemma_pow2_pos((e - 1) as nat);
        let w = pow2((e - 1) as nat);
        if f + 1 < p {
            lemma_fundamental_div_mod_converse((m + 1) as int, p as int, e as int, (f + 1) as int);
            assert(magnitude_units(m + 1) == (p + f + 1) * w);
            assert((p + f) * w < (p + f + 1) * w) by (nonlinear_arith)
                requires
                    w > 0,
            ;
        } else {
            assert(p * e + p == p * (e + 1)) by (nonlinear_arith);
            lemma_fundamental_div_mod_converse((m + 1) as int, p as int, (e + 1) as int, 0);
            lemma_pow2_unfold(e);
            assert(magnitude_units(m + 1) == p * (2 * w));
            assert((p + f) * w < p * (2 * w)) by (nonlinear_arith)
                requires
                    w > 0,
                    f + 1 == p,
            ;
        }
    }
}

/// A greater magnitude has a greater value.
pub proof fn lemma_units_grow(m: nat, n: nat)
    requires
        m < n,
    ensures
        magnitude_units(m) < magnitude_units(n),
    decreases n - m,
{
    lemma_units_step((n - 1) as nat);
    if m < n - 1 {
        lemma_units_grow(m, (n - 1) as nat);
    }
}

/// Only the magnitude zero has the value zero.
pub proof fn lemma_units_zero(m: nat)
    ensures
        magnitude_units(m) == 0 <==> m == 0,
{
    if m > 0 {
        lemma_units_grow(0, m);
    }
}

/// Numbers are ordered as their magnitudes are, negative ones the other way round.
proof fn lemma_order(a: Double, b: Double)
    ensures
        a.units() < b.units() <==> a.rank() < b.rank(),
{
    let m = a.magnitude();
    let n = b.magnitude();
    lemma_units_zero(m);
    lemma_units_zero(n);
    if m < n {
        lemma_units_grow(m, n);
    } else if n < m {
        lemma_units_grow(n, m);
    }
}

impl Double {
    /// The magnitude with the number's sign.
    spec fn rank(self) -> int {
        if self.negative() {
            -(self.magnitude() as int)
        } else {
            self.magnitude() as int
        }
    }

    fn signed_magnitude(self) -> (r: i64)
        ensures
            r == self.rank(),
    {
        if self.bits >= SIGN {
            -((self.bits - SIGN) as i64)
        } else {
            self.bits as i64
        }
    }

    /// Whether the word encodes no number.
    pub fn is_nan(self) -> (r: bool)
        ensures
            r == self.nan(),
    {
        if self.bits >= SIGN {
            self.bits - SIGN > INFINITE
        } else {
            self.bits > INFINITE
        }
    }

    /// `self < other`.
    pub fn is_below(self, other: Double) -> (r: bool)
        ensures
            r == self.below(other),
    {
        proof {
            lemma_order(self, other);
        }
        !self.is_nan() && !other.is_nan() && self.signed_magnitude() < other.signed_magnitude()
    }

    /// `self <= other`.
    pub fn is_at_most(self, other: Double) -> (r: bool)
        ensures
            r == self.at_most(other),
    {
        !self.is_nan() && !other.is_nan() && !other.is_below(self)
    }

    /// `self == 0.0`.
    pub fn is_zero(self) -> (r: bool)
        ensures
            r == self.zero(),
    {
        proof {
            lemma_units_zero(self.magnitude());
        }
        self.bits == 0 || self.bits == SIGN
    }

    /// The smaller of two numbers; where one is no number, the other one.
    pub fn min(self, other: Double) -> (r: Double)
        ensures
            r == self.lesser(other),
    {
        if self.is_nan() || other.is_below(self) {
            other
        } else {
            self
        }
    }

    /// The greater of two numbers; where one is no number, the other one.
    pub fn max(self, other: Double) -> (r: Double)
        ensures
            r == self.greater(other),
    {
        if self.is_nan() || self.is_below(other) {
            other
        } else {
            self
        }
    }
}

/// Below the magnitude of one, the value is below one.
proof fn lemma_fraction(m: nat)
    requires
        m < 1023 * FRACTIONS,
    ensures
        magnitude_units(m) < pow2(1074),
{
    let one = 1023 * (FRACTIONS as nat);
    lemma_units_grow(m, one);
    assert(one / (FRACTIONS as nat) == 1023 && one % (FRACTIONS as nat) == 0);
    lemma2_to64_rest();
    lemma_pow2_adds(52, 1022);
}

/// Between the magnitudes of one and of two to the power 52, the value is a significand divided
/// by a power of two.
proof fn lemma_mixed(m: nat)
    requires
        1023 * FRACTIONS <= m < 1075 * FRACTIONS,
    ensures
        ({
            let sig = FRACTIONS as int + m as int % (FRACTIONS as int);
            let v = pow2((1075 - m as int / (FRACTIONS as int)) as nat) as int;
            &&& v > 0
            &&& magnitude_units(m) as int / pow2(1074) as int == sig / v
            &&& (magnitude_units(m) + pow2(1074) - 1) / pow2(1074) as int == if sig % v == 0 {
                sig / v
            } else {
                sig / v + 1
            }
        }),
{
    let e = m as int / (FRACTIONS as int);
    lemma_fundamental_div_mod(m as int, FRACTIONS as int);
    let sig = FRACTIONS as int + m as int % (FRACTIONS as int);
    let w = pow2((e - 1) as nat) as int;
    let v = pow2((1075 - e) as nat) as int;
    let p = pow2(1074) as int;
    lemma_pow2_pos((e - 1) as nat);
    lemma_pow2_pos((1075 - e) as nat);
    lemma_pow2_adds((e - 1) as nat, (1075 - e) as nat);
    let q = sig / v;
    let r = sig % v;
    lemma_fundamental_div_mod(sig, v);
    lemma_mod_bound(sig, v);
    let units = magnitude_units(m) as int;
    assert(units == sig * w);
    assert(units == p * q + w * r) by (nonlinear_arith)
        requires
            units == sig * w,
            sig == v * q + r,
            p == w * v,
    ;
    assert(0 <= w * r && w * r < p) by (nonlinear_arith)
        requires
            0 <= r < v,
            w > 0,
            p == w * v,
    ;
    assert(p * q + w * r == q * p + w * r) by (nonlinear_arith);
    lemma_fundamental_div_mod_converse(units, p, q, w * r);
    if r == 0 {
        assert(w * r == 0) by (nonlinear_arith)
            requires
                r == 0,
        ;
        lemma_fundamental_div_mod_converse(units + p - 1, p, q, p - 1);
    } else {
        assert(w * r >= 1) by (nonlinear_arith)
            requires
                r >= 1,
                w >= 1,
        ;
        assert(p * (q + 1) == p * q + p) by (nonlinear_arith);
        lemma_fundamental_div_mod_converse(units + p - 1, p, q + 1, w * r - 1);
    }
}

/// From the magnitude of two to the power 52 on, the value is a whole number.
proof fn lemma_integral(m: nat)
    requires
        1075 * FRACTIONS <= m,
    ensures
        ({
            let sig = FRACTIONS as int + m as int % (FRACTIONS as int);
            let v = pow2((m as int / (FRACTIONS as int) - 1075) as nat) as int;
            &&& magnitude_units(m) as int / pow2(1074) as int == sig * v
            &&& (magnitude_units(m) + pow2(1074) - 1) / pow2(1074) as int == sig * v
            &&& v >= 1
        }),
{
    let e = m as int / (FRACTIONS as int);
    lemma_fundamental_div_mod(m as int, FRACTIONS as int);
    let sig = FRACTIONS as int + m as int % (FRACTIONS as int);
    let v = pow2((e - 1075) as nat) as int;
    let p = pow2(1074) as int;
    lemma_pow2_pos((e - 1075) as nat);
    lemma_pow2_pos(1074);
    lemma_pow2_adds((e - 1075) as nat, 1074);
    let units = magnitude_units(m) as int;
    assert(units == sig * (v * p));
    assert(units == p * (sig * v)) by (nonlinear_arith)
        requires
            units == sig * (v * p),
    ;
    lemma_fundamental_div_mod_converse(units, p, sig * v, 0);
    lemma_fundamental_div_mod_converse(units + p - 1, p, sig * v, p - 1);
}

/// Two to the power `k`.
pub(crate) fn power_of_two(k: u64) -> (r: u128)
    requires
        k <= 126,
    ensures
        r == pow2(k as nat),
        r >= 1,
{
    proof {
        lemma2_to64();
    }
    let mut r: u128 = 1;
    let mut i: u64 = 0;
    while i < k
        invariant
            i <= k <= 126,
            r == pow2(i as nat),
        decreases k - i,
    {
        proof {
            lemma_pow2_strictly_increases(i as nat, 126);
            lemma2_to64();
            lemma2_to64_rest();
            lemma_pow2_adds(64, 62);
            lemma_pow2_unfold((i + 1) as nat);
        }
        r = r * 2;
        i = i + 1;
    }
    proof {
        lemma_pow2_pos(k as nat);
    }
    r
}

impl Double {
    /// The conversion to a 128-bit unsigned integer: towards zero, held within the type's range,
    /// and zero for what is no number.
    pub fn to_u128(self) -> (r: u128)
        ensures
            r == self.whole(u128::MAX as nat),
    {
        if self.is_nan() || self.bits >= SIGN {
            proof {
                lemma_units_zero(self.magnitude());
            }
            return 0;
        }
        let ghost m = self.magnitude();
        let exponent: u64 = self.bits / FRACTIONS;
        let significand: u64 = FRACTIONS + self.bits % FRACTIONS;
        proof {
            lemma_units_zero(m);
            lemma_pow2_pos(1074);
        }
        if exponent < 1023 {
            proof {
                lemma_fraction(m);
                lemma_fundamental_div_mod_converse(self.units(), pow2(1074) as int, 0, self.units());
            }
            0
        } else if exponent < 1075 {
            proof {
                lemma_mixed(m);
            }
            let v: u128 = power_of_two(1075 - exponent);
            let r: u128 = significand as u128 / v;
            proof {
                if m > 0 && self.units() > 0 {
                    lemma_div_is_at_most(significand as int, v as int);
                }
            }
            r
        } else if exponent - 1075 <= 75 {
            proof {
                lemma_integral(m);
            }
            let v: u128 = power_of_two(exponent - 1075);
            proof {
                lemma_small_product(significand as int, (exponent - 1075) as nat);
            }
            significand as u128 * v
        } else {
            proof {
                lemma_integral(m);
                lemma_large_product(significand as int, (exponent - 1075) as nat);
            }
            u128::MAX
        }
    }

    /// The conversion to a 64-bit unsigned integer: towards zero, held within the type's range,
    /// and zero for what is no number.
    pub fn to_u64(self) -> (r: u64)
        ensures
            r == self.whole(u64::MAX as nat),
    {
        let w: u128 = self.to_u128();
        proof {
            lemma_pow2_pos(1074);
            if self.units() > 0 {
                lemma_div_pos_is_pos(self.units(), pow2(1074) as int);
            }
        }
        if w > u64::MAX as u128 {
            u64::MAX
        } else {
            w as u64
        }
    }

    /// The conversion of the number, rounded up, to an 8-bit unsigned integer held within the
    /// type's range; zero for what is no number.
    pub fn ceil_to_u8(self) -> (r: u8)
        ensures
            r == self.whole_up(u8::MAX as nat),
    {
        proof {
            lemma_units_zero(self.magnitude());
        }
        if self.is_nan() || self.bits >= SIGN || self.bits == 0 {
            return 0;
        }
        let ghost m = self.magnitude();
        let exponent: u64 = self.bits / FRACTIONS;
        let significand: u64 = FRACTIONS + self.bits % FRACTIONS;
        proof {
            lemma_pow2_pos(1074);
        }
        if exponent < 1023 {
            proof {
                lemma_fraction(m);
                let p = pow2(1074) as int;
                lemma_fundamental_div_mod_converse(self.units() + p - 1, p, 1, self.units() - 1);
            }
            1
        } else if exponent < 1075 {
            proof {
                lemma_mixed(m);
            }
            let v: u128 = power_of_two(1075 - exponent);
            let q: u128 = significand as u128 / v;
            let r: u128 = significand as u128 % v;
            if q >= 255 {
                255
            } else if r == 0 {
                q as u8
            } else {
                (q + 1) as u8
            }
        } else {
            proof {
                lemma_integral(m);
                let v = pow2((exponent - 1075) as nat) as int;
                assert(significand * v >= significand) by (nonlinear_arith)
                    requires
                        v >= 1,
                ;
            }
            255
        }
    }
}

/// A quotient of a significand is no greater than the significand.
proof fn lemma_div_is_at_most(x: int, d: int)
    requires
        x >= 0,
        d >= 1,
    ensures
        0 <= x / d <= x,
{
    lemma_fundamental_div_mod(x, d);
    lemma_mod_bound(x, d);
    assert(0 <= x / d <= x) by (nonlinear_arith)
        requires
            x == d * (x / d) + x % d,
            0 <= x % d < d,
            d >= 1,
            x >= 0,
    ;
}

/// A significand times a power of two up to the 75th fits in 128 bits.
proof fn lemma_small_product(sig: int, k: nat)
    requires
        FRACTIONS <= sig < 2 * FRACTIONS,
        k <= 75,
    ensures
        0 <= sig * pow2(k) <= u128::MAX,
{
    lemma2_to64();
    lemma_pow2_adds(64, 11);
    lemma_pow2_pos(k);
    if k < 75 {
        lemma_pow2_strictly_increases(k, 75);
    }
    assert(sig * pow2(k) < 2 * FRACTIONS * 0x800_0000_0000_0000_0000) by (nonlinear_arith)
        requires
            FRACTIONS <= sig < 2 * FRACTIONS,
            0 < pow2(k) <= 0x800_0000_0000_0000_0000,
    ;
    assert(sig * pow2(k) >= 0) by (nonlinear_arith)
        requires
            sig >= 0,
            pow2(k) > 0,
    ;
}

/// A significand times a power of two from the 76th on does not fit in 128 bits.
proof fn lemma_large_product(sig: int, k: nat)
    requires
        FRACTIONS <= sig,
        k > 75,
    ensures
        sig * pow2(k) > u128::MAX,
{
    lemma2_to64();
    lemma_pow2_adds(64, 12);
    if k > 76 {
        lemma_pow2_strictly_increases(76, k);
    }
    assert(sig * pow2(k) >= FRACTIONS * 0x1000_0000_0000_0000_0000) by (nonlinear_arith)
        requires
            FRACTIONS <= sig,
            pow2(k) >= 0x1000_0000_0000_0000_0000,
    ;
}

} // verus!
