//! How rounded sums, products and quotients compare with their operands, and that small integers
//! are counted without rounding.

use crate::double::arithmetic::{distance, lemma_nearest_zero, nearest_to_integer, signed};
use crate::double::constants::{ETHER, ONE, TWO, TWO_TO_128};
use crate::double::order::lemma_one;
use crate::double::rounding::{lemma_nearest, lemma_packed_one, nearest_magnitude, straddles};
use crate::double::{lemma_units_grow, lemma_units_zero, magnitude_units, Double, FRACTIONS, INFINITE};
use vstd::arithmetic::power2::{
    lemma2_to64, lemma2_to64_rest, lemma_pow2_adds, lemma_pow2_pos, lemma_pow2_unfold, pow2,
};
use vstd::prelude::*;

verus! {

/// A smaller or equal magnitude has a smaller or equal value.
pub proof fn lemma_units_ordered(m: nat, n: nat)
    ensures
        m <= n <==> magnitude_units(m) <= magnitude_units(n),
{
    if m < n {
        lemma_units_grow(m, n);
    } else if n < m {
        lemma_units_grow(n, m);
    }
}

/// Some magnitude below `k` straddles a quotient that is below the value of `k`.
pub proof fn lemma_straddled(a: nat, den: nat, k: nat)
    requires
        den > 0,
        a < magnitude_units(k) * den,
    ensures
        exists|n: nat| n < k && #[trigger] straddles(a, den, n),
    decreases k,
{
    if k == 0 {
        assert(magnitude_units(0) * den == 0) by (nonlinear_arith)
            requires
                magnitude_units(0) == 0,
        ;
    } else {
        let j = (k - 1) as nat;
        if magnitude_units(j) * den <= a {
            assert(straddles(a, den, j));
        } else {
            lemma_straddled(a, den, j);
            let n = choose|n: nat| n < j && #[trigger] straddles(a, den, n);
            assert(n < k && straddles(a, den, n));
        }
    }
}

/// A quotient that is at least the value of a magnitude is not rounded below it, and one that is
/// at most that value is not rounded above it.
pub proof fn lemma_rounding_is_monotone(a: nat, den: nat, m: nat)
    requires
        den > 0,
        m <= INFINITE,
    ensures
        magnitude_units(m) * den <= a ==> m <= nearest_magnitude(a, den),
        a <= magnitude_units(m) * den ==> nearest_magnitude(a, den) <= m,
        nearest_magnitude(a, den) <= INFINITE,
{
    let inf = INFINITE as nat;
    lemma_units_ordered(m, inf);
    assert(magnitude_units(m) * den <= magnitude_units(inf) * den) by (nonlinear_arith)
        requires
            magnitude_units(m) <= magnitude_units(inf),
    ;
    if magnitude_units(inf) * den <= a {
        if a <= magnitude_units(m) * den {
            assert(magnitude_units(inf) <= magnitude_units(m)) by (nonlinear_arith)
                requires
                    magnitude_units(inf) * den <= magnitude_units(m) * den,
                    den > 0,
            ;
            lemma_units_ordered(inf, m);
        }
    } else {
        lemma_straddled(a, den, inf);
        let n = choose|n: nat| n < inf && #[trigger] straddles(a, den, n);
        lemma_nearest(a, den, n);
        lemma_units_grow(n, n + 1);
        if magnitude_units(m) * den <= a {
            assert(magnitude_units(m) < magnitude_units(n + 1)) by (nonlinear_arith)
                requires
                    magnitude_units(m) * den < magnitude_units(n + 1) * den,
                    den > 0,
            ;
            lemma_units_ordered(n + 1, m);
        }
        if a <= magnitude_units(m) * den {
            assert(magnitude_units(n) <= magnitude_units(m)) by (nonlinear_arith)
                requires
                    magnitude_units(n) * den <= magnitude_units(m) * den,
                    den > 0,
            ;
            lemma_units_ordered(n, m);
            if n == m {
                let low = magnitude_units(n);
                let high = magnitude_units(n + 1);
                assert(2 * (low * den) < (low + high) * den) by (nonlinear_arith)
                    requires
                        low < high,
                        den > 0,
                ;
            }
        }
    }
}

/// The value of a magnitude is not rounded.
pub proof fn lemma_exact(m: nat, den: nat)
    requires
        den > 0,
        m <= INFINITE,
    ensures
        nearest_magnitude(magnitude_units(m) * den, den) == m,
{
    lemma_rounding_is_monotone(magnitude_units(m) * den, den, m);
}

/// A finite number that is not negative.
pub open spec fn amount(x: Double) -> bool {
    !x.negative() && x.magnitude() < INFINITE
}

/// A sum of two amounts is not below either.
pub proof fn law_sum_grows(x: Double, y: Double)
    requires
        amount(x),
        amount(y),
    ensures
        x.at_most(x.plus(y)),
        y.at_most(x.plus(y)),
        !x.plus(y).nan(),
{
    reveal(Double::plus);
    let (m, n) = (x.magnitude(), y.magnitude());
    let sum = (x.units() + y.units()) as nat;
    lemma_rounding_is_monotone(sum, 1, m);
    lemma_rounding_is_monotone(sum, 1, n);
    let k = nearest_magnitude(sum, 1);
    lemma_units_ordered(m, k);
    lemma_units_ordered(n, k);
}

/// An amount times a factor of at least one is not below the amount.
pub proof fn law_product_grows(x: Double, f: Double)
    requires
        amount(x),
        amount(f),
        (Double { bits: ONE }).at_most(f),
    ensures
        x.at_most(x.times(f)),
        !x.times(f).nan(),
{
    reveal(Double::times);
    lemma_one();
    let p = pow2(1074);
    let (u, v) = (x.units() as nat, f.units() as nat);
    let a = u * v;
    assert(u * p <= a) by (nonlinear_arith)
        requires
            a == u * v,
            p <= v,
    ;
    lemma_rounding_is_monotone(a, p, x.magnitude());
    lemma_units_ordered(x.magnitude(), nearest_magnitude(a, p));
}

/// An amount times a factor of at most one is an amount, and not above the first one.
pub proof fn law_product_shrinks(x: Double, f: Double)
    requires
        amount(x),
        amount(f),
        f.at_most(Double { bits: ONE }),
    ensures
        x.times(f).at_most(x),
        amount(x.times(f)),
{
    reveal(Double::times);
    lemma_one();
    let p = pow2(1074);
    let (u, v) = (x.units() as nat, f.units() as nat);
    let a = u * v;
    assert(a <= u * p) by (nonlinear_arith)
        requires
            a == u * v,
            v <= p,
    ;
    lemma_rounding_is_monotone(a, p, x.magnitude());
    lemma_units_ordered(nearest_magnitude(a, p), x.magnitude());
}

/// An amount divided by one of at least one is an amount, and not above the first one.
pub proof fn law_quotient_shrinks(x: Double, y: Double)
    requires
        amount(x),
        amount(y),
        (Double { bits: ONE }).at_most(y),
    ensures
        x.over(y).at_most(x),
        amount(x.over(y)),
{
    reveal(Double::over);
    lemma_one();
    lemma_units_zero(y.magnitude());
    let p = pow2(1074);
    let (u, v) = (x.units() as nat, y.units() as nat);
    assert(u * p <= u * v) by (nonlinear_arith)
        requires
            p <= v,
    ;
    lemma_rounding_is_monotone(u * p, v, x.magnitude());
    lemma_units_ordered(nearest_magnitude(u * p, v), x.magnitude());
}

/// An amount less a smaller or equal one is an amount, and not above the first one.
pub proof fn law_difference_shrinks(x: Double, y: Double)
    requires
        amount(x),
        amount(y),
        y.at_most(x),
    ensures
        x.minus(y).at_most(x),
        amount(x.minus(y)),
{
    reveal(Double::minus);
    reveal(Double::plus);
    lemma_units_zero(0);
    let rest = (x.units() - y.units()) as nat;
    assert(y.opposite().units() == -y.units());
    lemma_rounding_is_monotone(rest, 1, x.magnitude());
    lemma_units_ordered(nearest_magnitude(rest, 1), x.magnitude());
    lemma_units_ordered(0, x.magnitude());
}

/// The order of the factors does not matter.
pub proof fn law_product_commutes(x: Double, y: Double)
    ensures
        x.times(y) == y.times(x),
{
    reveal(Double::times);
    let (u, v) = (distance(x.units()), distance(y.units()));
    assert(u * v == v * u) by (nonlinear_arith);
}

/// The sum of an amount up to one and an amount up to two is an amount.
pub proof fn lemma_small_sum(x: Double, y: Double)
    requires
        amount(x),
        amount(y),
        x.at_most(Double { bits: ONE }),
        y.at_most(Double { bits: TWO }),
    ensures
        amount(x.plus(y)),
{
    reveal(Double::plus);
    lemma_one();
    lemma2_to64_rest();
    lemma_pow2_adds(52, 1023);
    lemma_pow2_adds(52, 1024);
    lemma_pow2_unfold(1075);
    lemma_pow2_unfold(1076);
    let two = TWO as nat;
    let four = 0x4010_0000_0000_0000nat;
    assert(two / (FRACTIONS as nat) == 1024 && two % (FRACTIONS as nat) == 0);
    assert(four / (FRACTIONS as nat) == 1025 && four % (FRACTIONS as nat) == 0);
    let sum = (x.units() + y.units()) as nat;
    lemma_rounding_is_monotone(sum, 1, four);
}

/// The double 10 to the power 18 is exact.
pub proof fn lemma_ether()
    ensures
        nearest_to_integer(1_000_000_000_000_000_000) == (Double { bits: ETHER }),
{
    reveal(nearest_to_integer);
    let m = ETHER as nat;
    assert(m / (FRACTIONS as nat) == 1082);
    assert(FRACTIONS as nat + m % (FRACTIONS as nat) == 7_812_500_000_000_000);
    lemma2_to64();
    lemma_pow2_adds(7, 1074);
    let p = pow2(1074);
    assert(7_812_500_000_000_000 * (128 * p) == 1_000_000_000_000_000_000 * p) by (nonlinear_arith);
    lemma_exact(m, 1);
    assert(magnitude_units(m) * 1 == 1_000_000_000_000_000_000 * p);
}

/// A product of amounts grows with its factor.
pub proof fn law_product_is_monotone(x: Double, f: Double, g: Double)
    requires
        amount(x),
        amount(f),
        amount(g),
        f.at_most(g),
    ensures
        x.times(f).at_most(x.times(g)),
{
    reveal(Double::times);
    lemma_one();
    let p = pow2(1074);
    let a = x.units() as nat * f.units() as nat;
    let b = x.units() as nat * g.units() as nat;
    assert(a <= b) by (nonlinear_arith)
        requires
            a == x.units() as nat * f.units() as nat,
            b == x.units() as nat * g.units() as nat,
            f.units() as nat <= g.units() as nat,
    ;
    let k = nearest_magnitude(b, p);
    lemma_rounding_is_monotone(b, p, INFINITE as nat);
    lemma_nearest_is_monotone(a, b, p);
    lemma_units_ordered(nearest_magnitude(a, p), k);
}

/// The greater of two quotients is not rounded below the smaller one.
pub proof fn lemma_nearest_is_monotone(a: nat, b: nat, den: nat)
    requires
        den > 0,
        a <= b,
    ensures
        nearest_magnitude(a, den) <= nearest_magnitude(b, den),
{
    let inf = INFINITE as nat;
    lemma_rounding_is_monotone(a, den, inf);
    lemma_rounding_is_monotone(b, den, inf);
    if a < magnitude_units(inf) * den && b < magnitude_units(inf) * den {
        lemma_straddled(a, den, inf);
        lemma_straddled(b, den, inf);
        let m = choose|n: nat| n < inf && #[trigger] straddles(a, den, n);
        let n = choose|n: nat| n < inf && #[trigger] straddles(b, den, n);
        lemma_nearest(a, den, m);
        lemma_nearest(b, den, n);
        assert(magnitude_units(m) < magnitude_units(n + 1)) by (nonlinear_arith)
            requires
                magnitude_units(m) * den < magnitude_units(n + 1) * den,
                den > 0,
        ;
        lemma_units_ordered(n + 1, m);
    }
}

/// An amount divided by a greater or equal one is at most one, and not negative.
pub proof fn law_share_is_at_most_one(x: Double, y: Double)
    requires
        amount(x),
        amount(y),
        !y.zero(),
        x.at_most(y),
    ensures
        x.over(y).at_most(Double { bits: ONE }),
        (Double { bits: 0 }).at_most(x.over(y)),
{
    reveal(Double::over);
    lemma_one();
    lemma_units_zero(0);
    lemma_units_zero(y.magnitude());
    let p = pow2(1074);
    let (u, v) = (x.units() as nat, y.units() as nat);
    assert(u * p <= p * v) by (nonlinear_arith)
        requires
            u <= v,
    ;
    lemma_rounding_is_monotone(u * p, v, ONE as nat);
    lemma_units_ordered(nearest_magnitude(u * p, v), ONE as nat);
}

/// An integer of at most fifty-three bits is the value of some magnitude.
proof fn lemma_small_integer(n: nat, b: nat)
    requires
        0 < n < pow2(b),
        b <= 53,
    ensures
        exists|m: nat| m < INFINITE && #[trigger] magnitude_units(m) == n * pow2(1074),
    decreases b,
{
    lemma2_to64_rest();
    if b == 0 {
        lemma2_to64();
    } else {
        let c = (b - 1) as nat;
        if n < pow2(c) {
            lemma_small_integer(n, c);
        } else {
            let up = (53 - b) as nat;
            let q = n * pow2(up);
            let t = (1021 + b) as nat;
            lemma_pow2_pos(up);
            lemma_pow2_adds(up, b);
            lemma_pow2_adds(up, c);
            lemma_pow2_adds(up, t);
            assert(pow2(52) == FRACTIONS && pow2(53) == 2 * FRACTIONS);
            assert(q < pow2(53)) by (nonlinear_arith)
                requires
                    q == n * pow2(up),
                    n < pow2(b),
                    pow2(up) > 0,
                    pow2(up) * pow2(b) == pow2(53),
            ;
            assert(pow2(52) <= q) by (nonlinear_arith)
                requires
                    q == n * pow2(up),
                    pow2(c) <= n,
                    pow2(up) * pow2(c) == pow2(52),
            ;
            lemma_packed_one(q, t);
            assert(q * pow2(t) == n * (pow2(up) * pow2(t))) by (nonlinear_arith)
                requires
                    q == n * pow2(up),
            ;
            let m = t * (FRACTIONS as nat) + q;
            assert(magnitude_units(m) == n * pow2(1074));
        }
    }
}

/// An integer of at most fifty-three bits is converted without rounding.
pub proof fn lemma_integer_is_exact(n: nat)
    requires
        n < 0x20_0000_0000_0000,
    ensures
        amount(nearest_to_integer(n)),
        nearest_to_integer(n).units() == n * pow2(1074),
{
    reveal(nearest_to_integer);
    if n == 0 {
        lemma_nearest_zero(1);
        assert(0 * pow2(1074) == 0);
    } else {
        lemma2_to64_rest();
        lemma_small_integer(n, 53);
        let m = choose|m: nat| m < INFINITE && #[trigger] magnitude_units(m) == n * pow2(1074);
        lemma_exact(m, 1);
        assert(magnitude_units(m) * 1 == n * pow2(1074));
    }
}

/// An integer of at most 128 bits is converted to an amount.
pub proof fn lemma_integer_is_amount(n: nat)
    requires
        n <= u128::MAX,
    ensures
        amount(nearest_to_integer(n)),
{
    reveal(nearest_to_integer);
    let m = TWO_TO_128 as nat;
    assert(m / (FRACTIONS as nat) == 1151 && m % (FRACTIONS as nat) == 0);
    lemma2_to64_rest();
    lemma_pow2_adds(52, 1150);
    lemma_pow2_adds(64, 64);
    lemma_pow2_adds(128, 1074);
    assert(n * pow2(1074) <= pow2(128) * pow2(1074)) by (nonlinear_arith)
        requires
            n <= pow2(128),
    ;
    lemma_rounding_is_monotone(n * pow2(1074), 1, m);
}

/// The order of two integers is that of the doubles nearest to them.
pub proof fn law_conversion_is_monotone(n: nat, k: nat)
    requires
        n <= k <= u128::MAX,
    ensures
        nearest_to_integer(n).at_most(nearest_to_integer(k)),
{
    lemma_integer_is_amount(n);
    lemma_integer_is_amount(k);
    reveal(nearest_to_integer);
    let p = pow2(1074);
    assert(n * p <= k * p) by (nonlinear_arith)
        requires
            n <= k,
    ;
    lemma_rounding_is_monotone(n * p, 1, INFINITE as nat);
    lemma_rounding_is_monotone(k * p, 1, INFINITE as nat);
    lemma_nearest_is_monotone(n * p, k * p, 1);
    lemma_units_ordered(nearest_magnitude(n * p, 1), nearest_magnitude(k * p, 1));
}

/// The double of a whole number of either sign.
pub open spec fn whole_number(n: int) -> Double {
    if n < 0 {
        nearest_to_integer((-n) as nat).opposite()
    } else {
        nearest_to_integer(n as nat)
    }
}

/// A whole number of at most fifty-three bits is converted without rounding.
proof fn lemma_whole_is_exact(n: int)
    requires
        -0x20_0000_0000_0000 < n < 0x20_0000_0000_0000,
    ensures
        whole_number(n).units() == n * pow2(1074),
        whole_number(n).magnitude() < INFINITE,
        whole_number(n).negative() <==> n < 0,
        whole_number(n) == signed(n < 0, nearest_magnitude(distance(n * pow2(1074)), 1)),
{
    let p = pow2(1074) as int;
    let k = distance(n);
    lemma_integer_is_exact(k);
    assert((-n) * p == -(n * p)) by (nonlinear_arith);
    assert(k * p >= 0) by (nonlinear_arith)
        requires
            k >= 0,
            p >= 0,
    ;
    lemma_rounding_is_monotone(k * pow2(1074), 1, INFINITE as nat);
    reveal(nearest_to_integer);
}

/// Counting up and down in steps of one is exact up to fifty-three bits, below zero as well.
pub proof fn law_counting_is_exact(n: int)
    requires
        -0x20_0000_0000_0000 < n,
        n + 1 < 0x20_0000_0000_0000,
    ensures
        whole_number(n).plus(Double { bits: ONE }) == whole_number(n + 1),
        whole_number(n + 1).minus(Double { bits: ONE }) == whole_number(n),
{
    lemma_whole_is_exact(n);
    lemma_whole_is_exact(n + 1);
    lemma_one();
    let p = pow2(1074) as int;
    assert((n + 1) * p == n * p + p) by (nonlinear_arith);
    assert(n * p == 0 <==> n == 0) by (nonlinear_arith)
        requires
            p > 0,
    ;
    assert((n + 1) * p == 0 <==> n + 1 == 0) by (nonlinear_arith)
        requires
            p > 0,
    ;
    assert(n * p < 0 <==> n < 0) by (nonlinear_arith)
        requires
            p > 0,
    ;
    assert((n + 1) * p < 0 <==> n + 1 < 0) by (nonlinear_arith)
        requires
            p > 0,
    ;
    assert((Double { bits: ONE }).opposite().units() == -p);
    lemma_nearest_zero(1);
    reveal(Double::plus);
    reveal(Double::minus);
}

/// A sum of two finite numbers is the exact sum, rounded; so the greater of two exact sums is not
/// rounded below the smaller one.
pub proof fn lemma_rounded_sums(a: int, b: int)
    requires
        a <= b,
    ensures
        signed(a < 0, nearest_magnitude(distance(a), 1)).units() <= signed(
            b < 0,
            nearest_magnitude(distance(b), 1),
        ).units(),
        !signed(a < 0, nearest_magnitude(distance(a), 1)).nan(),
        !signed(b < 0, nearest_magnitude(distance(b), 1)).nan(),
{
    let (m, n) = (nearest_magnitude(distance(a), 1), nearest_magnitude(distance(b), 1));
    lemma_rounding_is_monotone(distance(a), 1, INFINITE as nat);
    lemma_rounding_is_monotone(distance(b), 1, INFINITE as nat);
    if a >= 0 {
        lemma_nearest_is_monotone(distance(a), distance(b), 1);
        lemma_units_ordered(m, n);
    } else if b < 0 {
        lemma_nearest_is_monotone(distance(b), distance(a), 1);
        lemma_units_ordered(n, m);
    }
}

/// A sum grows with its first term, as far as both sums are numbers.
pub proof fn law_sum_is_monotone(x: Double, y: Double, z: Double)
    requires
        x.at_most(y),
    ensures
        !x.plus(z).nan() && !y.plus(z).nan() ==> x.plus(z).at_most(y.plus(z)),
{
    reveal(Double::plus);
    let inf = INFINITE as nat;
    if !x.plus(z).nan() && !y.plus(z).nan() {
        lemma_units_ordered(x.plus(z).magnitude(), inf);
        lemma_units_ordered(y.plus(z).magnitude(), inf);
        lemma_units_ordered(inf, x.magnitude());
        lemma_units_ordered(inf, y.magnitude());
        if x.magnitude() < INFINITE && y.magnitude() < INFINITE && z.magnitude() < INFINITE {
            lemma_units_zero(0);
            lemma_nearest_zero(1);
            lemma_rounded_sums(x.units() + z.units(), y.units() + z.units());
        }
    }
}

/// A difference grows with its first term: where the greater one is below a bound, so is the
/// smaller one.
pub proof fn law_difference_is_monotone(x: Double, y: Double, z: Double, bound: Double)
    requires
        x.at_most(y),
    ensures
        !x.minus(z).nan() && !y.minus(z).nan() ==> x.minus(z).at_most(y.minus(z)),
        y.minus(z).below(bound) ==> x.minus(z).below(bound),
{
    reveal(Double::minus);
    if !z.nan() {
        law_sum_is_monotone(x, y, z.opposite());
        if y.minus(z).below(bound) && x.minus(z).nan() {
            reveal(Double::plus);
            let inf = INFINITE as nat;
            lemma_units_zero(inf);
            lemma_units_ordered(bound.magnitude(), inf);
            lemma_units_ordered(inf, y.magnitude());
            lemma_units_ordered(y.magnitude(), inf);
            let w = z.opposite();
            lemma_rounding_is_monotone(distance(x.units() + w.units()), 1, inf);
            assert(x.infinite() && w.infinite() && x.negative() != w.negative());
            if x.negative() {
                assert(y.plus(w) == w);
            } else {
                assert(y.infinite() && !y.negative());
            }
        }
    }
}

/// A quotient of amounts falls while its divisor grows.
pub proof fn law_quotient_falls(x: Double, y: Double, z: Double)
    requires
        amount(x),
        amount(y),
        amount(z),
        !y.zero(),
        y.at_most(z),
    ensures
        x.over(z).at_most(x.over(y)),
{
    reveal(Double::over);
    lemma_units_zero(y.magnitude());
    lemma_units_zero(z.magnitude());
    let a = x.units() as nat * pow2(1074);
    let (v, w) = (y.units() as nat, z.units() as nat);
    lemma_rounding_is_monotone(a, v, INFINITE as nat);
    lemma_rounding_is_monotone(a, w, INFINITE as nat);
    let (m, n) = (nearest_magnitude(a, w), nearest_magnitude(a, v));
    lemma_larger_divisor(a, v, w);
    lemma_units_ordered(m, n);
}

/// A quotient by the greater divisor is not rounded above the one by the smaller divisor.
proof fn lemma_larger_divisor(a: nat, v: nat, w: nat)
    requires
        0 < v <= w,
    ensures
        nearest_magnitude(a, w) <= nearest_magnitude(a, v),
{
    // Both quotients over the common divisor.
    let (b, c) = (a * v, a * w);
    lemma_common_divisor(a, w, v);
    lemma_common_divisor(a, v, w);
    assert(w * v == v * w) by (nonlinear_arith);
    assert(b <= c) by (nonlinear_arith)
        requires
            b == a * v,
            c == a * w,
            v <= w,
    ;
    assert(v * w > 0) by (nonlinear_arith)
        requires
            v > 0,
            w > 0,
    ;
    lemma_nearest_is_monotone(b, c, v * w);
}

/// A quotient is rounded alike after both its terms were multiplied by one factor.
proof fn lemma_common_divisor(a: nat, den: nat, f: nat)
    requires
        den > 0,
        f > 0,
    ensures
        nearest_magnitude(a * f, den * f) == nearest_magnitude(a, den),
{
    let inf = INFINITE as nat;
    assert(den * f > 0) by (nonlinear_arith)
        requires
            den > 0,
            f > 0,
    ;
    assert forall|u: nat| #![trigger u * (den * f)] u * (den * f) == (u * den) * f by {
        assert(u * (den * f) == (u * den) * f) by (nonlinear_arith);
    }
    lemma_scaled(magnitude_units(inf) * den, a, f);
    assert(magnitude_units(inf) * (den * f) == (magnitude_units(inf) * den) * f);
    if a < magnitude_units(inf) * den {
        lemma_straddled(a, den, inf);
        let n = choose|n: nat| n < inf && #[trigger] straddles(a, den, n);
        let (low, high) = (magnitude_units(n), magnitude_units(n + 1));
        assert(low * (den * f) == (low * den) * f);
        assert(high * (den * f) == (high * den) * f);
        lemma_scaled(low * den, a, f);
        lemma_scaled(high * den, a, f);
        assert(straddles(a * f, den * f, n));
        lemma_nearest(a, den, n);
        lemma_nearest(a * f, den * f, n);
        assert((low + high) * (den * f) == ((low + high) * den) * f);
        assert(2 * (a * f) == (2 * a) * f) by (nonlinear_arith);
        lemma_scaled((low + high) * den, 2 * a, f);
    }
}

/// Two integers are ordered as their products by one positive factor.
proof fn lemma_scaled(x: nat, y: nat, f: nat)
    requires
        f > 0,
    ensures
        x <= y <==> x * f <= y * f,
        x == y <==> x * f == y * f,
{
    assert(x <= y <==> x * f <= y * f) by (nonlinear_arith)
        requires
            f > 0,
    ;
    assert(x == y <==> x * f == y * f) by (nonlinear_arith)
        requires
            f > 0,
    ;
}

/// What is at most a finite number is not infinite.
pub proof fn lemma_infinity_is_greatest(x: Double, y: Double)
    requires
        !x.negative(),
        amount(y),
        x.at_most(y),
    ensures
        amount(x),
{
    if x.magnitude() > y.magnitude() {
        lemma_units_grow(y.magnitude(), x.magnitude());
    }
}

/// A positive number has no sign.
pub proof fn lemma_unsigned(x: Double)
    requires
        (Double { bits: 0 }).below(x),
    ensures
        !x.negative(),
{
}

/// A number less nothing is a number.
pub proof fn lemma_less_nothing(x: Double)
    requires
        !x.nan(),
    ensures
        !x.minus(Double { bits: 0 }).nan(),
{
    reveal(Double::minus);
    reveal(Double::plus);
    lemma_units_zero(0);
    let zero = Double { bits: 0 };
    lemma_rounding_is_monotone(distance(x.units() + zero.opposite().units()), 1, INFINITE as nat);
}

/// A product of amounts is an amount or infinite.
pub proof fn lemma_product_of_amounts(x: Double, y: Double)
    requires
        amount(x),
        amount(y),
    ensures
        amount(x.times(y)) || x.times(y) == (Double { bits: INFINITE }),
{
    reveal(Double::times);
    lemma_one();
    lemma_rounding_is_monotone(distance(x.units()) * distance(y.units()), pow2(1074), INFINITE as nat);
}

/// Nothing times a finite number is nothing.
pub proof fn lemma_nothing_times(x: Double, y: Double)
    requires
        x.magnitude() == 0,
        y.magnitude() < INFINITE,
    ensures
        x.times(y).magnitude() == 0,
{
    reveal(Double::times);
    lemma_one();
    lemma_units_zero(0);
    assert(distance(x.units()) * distance(y.units()) == 0) by (nonlinear_arith)
        requires
            distance(x.units()) == 0,
    ;
    lemma_nearest_zero(pow2(1074));
}

/// Nothing divided by a positive number is nothing.
pub proof fn lemma_nothing_shared(x: Double, y: Double)
    requires
        x.magnitude() == 0,
    ensures
        (Double { bits: 0 }).below(y) ==> x.over(y).magnitude() == 0,
{
    reveal(Double::over);
    lemma_units_zero(0);
    if (Double { bits: 0 }).below(y) {
        assert(distance(x.units()) * pow2(1074) == 0) by (nonlinear_arith)
            requires
                distance(x.units()) == 0,
        ;
        lemma_nearest_zero(distance(y.units()));
    }
}

} // verus!
