//! Products of several factors: how they compare, and how far rounding moves them.

use crate::double::arithmetic::{distance, lemma_nearest_zero, nearest_to_integer};
use crate::double::constants::ONE;
use crate::double::error::{lemma_rounding_error, lemma_rounds_beyond, lemma_rounds_within, precision};
use crate::double::growth::{
    amount, lemma_exact, lemma_integer_is_exact, lemma_nearest_is_monotone, lemma_rounding_is_monotone,
    lemma_units_ordered,
};
use crate::double::order::lemma_one;
use crate::double::rounding::nearest_magnitude;
use crate::double::{lemma_units_zero, magnitude_units, Double, INFINITE};
use vstd::arithmetic::power2::{
    lemma2_to64_rest, lemma_pow2_adds, lemma_pow2_pos, lemma_pow2_strictly_increases, pow2,
};
use vstd::prelude::*;

verus! {

/// A number that is not negative, finite or not.
pub open spec fn reach(x: Double) -> bool {
    !x.negative() && x.magnitude() <= INFINITE
}

/// A finite number above zero.
pub open spec fn positive(x: Double) -> bool {
    amount(x) && x.magnitude() > 0
}

/// The value of a positive number is above zero.
pub proof fn lemma_positive(x: Double)
    ensures
        positive(x) ==> x.units() > 0,
        amount(x) && x.units() > 0 ==> positive(x),
{
    lemma_units_zero(x.magnitude());
}

/// A product grows with both of its factors, also where it is infinite.
pub proof fn law_product_grows_with_factors(x: Double, y: Double, f: Double, g: Double)
    requires
        reach(x),
        reach(y),
        positive(f),
        positive(g),
        x.at_most(y),
        f.at_most(g),
    ensures
        reach(x.times(f)),
        reach(y.times(g)),
        x.times(f).at_most(y.times(g)),
{
    reveal(Double::times);
    lemma_one();
    lemma_positive(f);
    lemma_positive(g);
    let p = pow2(1074);
    let inf = INFINITE as nat;
    let a = distance(x.units()) * distance(f.units());
    let b = distance(y.units()) * distance(g.units());
    lemma_rounding_is_monotone(a, p, inf);
    lemma_rounding_is_monotone(b, p, inf);
    lemma_units_ordered(x.magnitude(), y.magnitude());
    lemma_units_ordered(nearest_magnitude(a, p), inf);
    lemma_units_zero(inf);
    if y.magnitude() < inf {
        assert(a <= b) by (nonlinear_arith)
            requires
                a == distance(x.units()) * distance(f.units()),
                b == distance(y.units()) * distance(g.units()),
                distance(x.units()) <= distance(y.units()),
                distance(f.units()) <= distance(g.units()),
        ;
        lemma_nearest_is_monotone(a, b, p);
        lemma_units_ordered(nearest_magnitude(a, p), nearest_magnitude(b, p));
    }
}

/// The order of the terms does not matter, up to the sign of zero.
pub proof fn law_sum_commutes(x: Double, y: Double)
    requires
        reach(x),
        reach(y),
    ensures
        x.plus(y) == y.plus(x),
{
    reveal(Double::plus);
}

/// A sum of numbers that are not negative is one.
pub proof fn law_sum_of_reach(x: Double, y: Double)
    requires
        reach(x),
        reach(y),
    ensures
        reach(x.plus(y)),
{
    reveal(Double::plus);
    lemma_rounding_is_monotone(distance(x.units() + y.units()), 1, INFINITE as nat);
}

/// One is neutral.
pub proof fn law_one_is_neutral(x: Double)
    requires
        reach(x),
    ensures
        x.times(Double { bits: ONE }) == x,
        (Double { bits: ONE }).times(x) == x,
{
    reveal(Double::times);
    lemma_one();
    let p = pow2(1074);
    lemma_units_zero(x.magnitude());
    if x.magnitude() < INFINITE {
        lemma_exact(x.magnitude(), p);
        assert(x.units() * p == p * x.units()) by (nonlinear_arith);
    }
}

/// Zero times a finite number, or the other way round, is zero.
pub proof fn law_zero_absorbs(x: Double, y: Double)
    requires
        amount(x),
        amount(y),
        x.zero() || y.zero(),
    ensures
        x.times(y).zero(),
        amount(x.times(y)),
{
    reveal(Double::times);
    lemma_one();
    let (u, v) = (distance(x.units()), distance(y.units()));
    assert(u * v == 0) by (nonlinear_arith)
        requires
            u == 0 || v == 0,
    ;
    lemma_nearest_zero(pow2(1074));
    lemma_units_zero(0);
}

/// Whether a number is between two to the power -`k` and two to the power `k`.
pub open spec fn within(x: Double, k: nat) -> bool {
    amount(x) && pow2((1074 - k) as nat) <= x.units() <= pow2(1074 + k)
}

/// The product of two numbers of a moderate size is rounded by at most the exact product divided
/// by two to the power 53.
pub proof fn law_product_error(x: Double, f: Double, k: nat)
    requires
        k <= 900,
        within(x, k),
        within(f, 100),
    ensures
        within(x.times(f), k + 100),
        ({
            let exact = x.units() * f.units();
            -exact <= (x.times(f).units() * pow2(1074) - exact) * precision() <= exact
        }),
{
    reveal(Double::times);
    lemma_one();
    let p = pow2(1074);
    let (u, v) = (x.units() as nat, f.units() as nat);
    let a = u * v;
    let (low, high) = (pow2((1074 - k) as nat), pow2(1074 + k));
    lemma_pow2_adds((1074 - k) as nat, 974);
    lemma_pow2_adds((974 - k) as nat, 1074);
    lemma_pow2_adds(1074 + k, 1174);
    lemma_pow2_adds(1174 + k, 1074);
    assert(low * pow2(974) <= a) by (nonlinear_arith)
        requires
            low <= u,
            pow2(974) <= v,
            a == u * v,
    ;
    assert(a <= high * pow2(1174)) by (nonlinear_arith)
        requires
            u <= high,
            v <= pow2(1174),
            a == u * v,
    ;
    lemma_rounds_within(a, p, 1174 + k);
    lemma_rounds_beyond(a, p, (974 - k) as nat);
    lemma_rounding_error(a, p);
    let r = magnitude_units(nearest_magnitude(a, p)) * p;
    let least = pow2((974 - k) as nat);
    if k < 922 {
        lemma_pow2_strictly_increases(52, (974 - k) as nat);
    }
    lemma2_to64_rest();
    assert(p * 0x10_0000_0000_0000 <= a) by (nonlinear_arith)
        requires
            least * p <= a,
            0x10_0000_0000_0000 <= least,
    ;
}

/// The quotient of two numbers of a moderate size is rounded by at most the exact quotient divided
/// by two to the power 53.
pub proof fn law_quotient_error(x: Double, f: Double, k: nat)
    requires
        k <= 900,
        within(x, k),
        within(f, 100),
    ensures
        within(x.over(f), k + 100),
        ({
            let exact = x.units() * pow2(1074);
            -exact <= (x.over(f).units() * f.units() - exact) * precision() <= exact
        }),
{
    reveal(Double::over);
    lemma_one();
    let p = pow2(1074);
    let (u, v) = (x.units() as nat, f.units() as nat);
    let a = u * p;
    let (low, high) = (pow2((1074 - k) as nat), pow2(1074 + k));
    lemma_pow2_pos(974);
    lemma_pow2_pos((1074 - k) as nat);
    lemma_pow2_adds((1074 - k) as nat, 1074);
    lemma_pow2_adds((974 - k) as nat, 1174);
    lemma_pow2_adds(1074 + k, 1074);
    lemma_pow2_adds(1174 + k, 974);
    let (least, most) = (pow2((974 - k) as nat), pow2(1174 + k));
    assert(least * v <= a) by (nonlinear_arith)
        requires
            least * pow2(1174) == low * p,
            v <= pow2(1174),
            low <= u,
            a == u * p,
    ;
    assert(a <= most * v) by (nonlinear_arith)
        requires
            most * pow2(974) == high * p,
            pow2(974) <= v,
            u <= high,
            a == u * p,
    ;
    lemma_rounds_within(a, v, 1174 + k);
    lemma_rounds_beyond(a, v, (974 - k) as nat);
    lemma_rounding_error(a, v);
    if k < 922 {
        lemma_pow2_strictly_increases(52, (974 - k) as nat);
    }
    lemma2_to64_rest();
    assert(v * 0x10_0000_0000_0000 <= a) by (nonlinear_arith)
        requires
            least * v <= a,
            0x10_0000_0000_0000 <= least,
    ;
}

/// A positive whole number of at most fifty-three bits is of a moderate size.
pub proof fn lemma_whole_is_within(n: nat)
    requires
        0 < n < 0x20_0000_0000_0000,
    ensures
        within(nearest_to_integer(n), 100),
        nearest_to_integer(n).units() == n * pow2(1074),
{
    lemma_integer_is_exact(n);
    lemma_pow2_adds(100, 974);
    lemma_pow2_adds(100, 1074);
    lemma_pow2_pos(974);
    lemma_pow2_pos(1074);
    lemma_pow2_pos(100);
    lemma2_to64_rest();
    lemma_pow2_strictly_increases(53, 100);
    let (p, q, h) = (pow2(1074), pow2(974), pow2(100));
    assert(q <= n * p) by (nonlinear_arith)
        requires
            h * q == p,
            h > 0,
            q > 0,
            n > 0,
    ;
    assert(n * p <= h * p) by (nonlinear_arith)
        requires
            n <= h,
    ;
}

/// An error that one more rounded product adds.
pub proof fn lemma_error_adds(r: int, exact: int, f: int, q: int, scale: int, j: int)
    requires
        r >= 0,
        exact >= 0,
        f >= 0,
        scale >= 0,
        0 <= j <= precision(),
        -(j * exact) <= (r * scale - exact) * precision() <= j * exact,
        -(r * f) <= (q - r * f) * precision() <= r * f,
    ensures
        -((j + 2) * (exact * f)) <= (q * scale - exact * f) * precision() <= (j + 2) * (exact * f),
{
    let n = precision();
    let a = r * scale;
    assert((a - exact) * n <= n * exact) by (nonlinear_arith)
        requires
            (a - exact) * n <= j * exact,
            j <= n,
            exact >= 0,
    ;
    assert(a <= 2 * exact) by (nonlinear_arith)
        requires
            (a - exact) * n <= n * exact,
            n == 0x20_0000_0000_0000,
    ;
    let (d, e) = ((q - r * f) * n, (a - exact) * n);
    assert(-(r * f * scale) <= d * scale <= r * f * scale) by (nonlinear_arith)
        requires
            -(r * f) <= d <= r * f,
            scale >= 0,
    ;
    assert(r * f * scale == a * f) by (nonlinear_arith)
        requires
            a == r * scale,
    ;
    assert(a * f <= 2 * (exact * f)) by (nonlinear_arith)
        requires
            a <= 2 * exact,
            f >= 0,
    ;
    assert(-((j * exact) * f) <= e * f <= (j * exact) * f) by (nonlinear_arith)
        requires
            -(j * exact) <= e <= j * exact,
            f >= 0,
    ;
    assert((j * exact) * f == j * (exact * f)) by (nonlinear_arith);
    assert((j + 2) * (exact * f) == j * (exact * f) + 2 * (exact * f)) by (nonlinear_arith);
    assert((q * scale - exact * f) * n == d * scale + e * f) by (nonlinear_arith)
        requires
            d == (q - r * f) * n,
            e == (a - exact) * n,
            a == r * scale,
    ;
}

} // verus!
