//! Whole numbers of at most fifty-three bits: their sums, products and quotients are not rounded
//! as long as they are such numbers themselves.

use crate::double::arithmetic::{distance, lemma_nearest_zero, nearest_to_integer};
use crate::double::chain::{positive, reach, within};
use crate::double::constants::{
    ETHER, GWEI, HUNDRED, MILLION, NINETY_NINE, ONE, SECONDS_PER_DAY, TEN, TEN_THOUSAND, THIRTY, TWO,
};
use crate::double::error::lemma_rounds_within;
use crate::double::growth::{
    amount, lemma_exact, lemma_integer_is_exact, lemma_nearest_is_monotone, lemma_rounded_sums,
    lemma_rounding_is_monotone, lemma_units_ordered,
};
use crate::double::order::lemma_one;
use crate::double::rounding::nearest_magnitude;
use crate::double::{lemma_units_zero, Double, FRACTIONS, INFINITE};
use crate::u256::limit;
use vstd::arithmetic::power2::{
    lemma2_to64, lemma2_to64_rest, lemma_pow2_adds, lemma_pow2_pos, lemma_pow2_strictly_increases, pow2,
};
use vstd::prelude::*;

verus! {

/// One more than the greatest whole number that is told apart from all of its neighbours.
pub open spec fn countable() -> nat {
    0x20_0000_0000_0000
}

/// A number is determined by its value.
pub proof fn lemma_determined(x: Double, y: Double)
    requires
        amount(x),
        amount(y),
        x.units() == y.units(),
    ensures
        x == y,
{
    lemma_units_ordered(x.magnitude(), y.magnitude());
    lemma_units_ordered(y.magnitude(), x.magnitude());
}

/// A word whose significand is a multiple of a power of two stands for a whole number.
proof fn lemma_constant(bits: u64, n: nat, s: nat)
    requires
        FRACTIONS <= bits < INFINITE,
        n < countable(),
        FRACTIONS as nat + bits as nat % (FRACTIONS as nat) == n * pow2(s),
        bits as nat / (FRACTIONS as nat) - 1 + s == 1074,
    ensures
        nearest_to_integer(n) == (Double { bits }),
        amount(Double { bits }),
        (Double { bits }).units() == n * pow2(1074),
{
    let t = (bits as nat / (FRACTIONS as nat) - 1) as nat;
    lemma_pow2_adds(s, t);
    assert((n * pow2(s)) * pow2(t) == n * (pow2(s) * pow2(t))) by (nonlinear_arith);
    lemma_integer_is_exact(n);
    lemma_determined(nearest_to_integer(n), Double { bits });
}

/// The words that the formulas use stand for the whole numbers that they are named after.
pub proof fn law_constants()
    ensures
        nearest_to_integer(1) == (Double { bits: ONE }),
        nearest_to_integer(2) == (Double { bits: TWO }),
        nearest_to_integer(10) == (Double { bits: TEN }),
        nearest_to_integer(30) == (Double { bits: THIRTY }),
        nearest_to_integer(99) == (Double { bits: NINETY_NINE }),
        nearest_to_integer(100) == (Double { bits: HUNDRED }),
        nearest_to_integer(10_000) == (Double { bits: TEN_THOUSAND }),
        nearest_to_integer(86_400) == (Double { bits: SECONDS_PER_DAY }),
        nearest_to_integer(1_000_000) == (Double { bits: MILLION }),
        nearest_to_integer(1_000_000_000) == (Double { bits: GWEI }),
{
    lemma2_to64();
    lemma2_to64_rest();
    lemma_constant(ONE, 1, 52);
    lemma_constant(TWO, 2, 51);
    lemma_constant(TEN, 10, 49);
    lemma_constant(THIRTY, 30, 48);
    lemma_constant(NINETY_NINE, 99, 46);
    lemma_constant(HUNDRED, 100, 46);
    lemma_constant(TEN_THOUSAND, 10_000, 39);
    lemma_constant(SECONDS_PER_DAY, 86_400, 36);
    lemma_constant(MILLION, 1_000_000, 33);
    lemma_constant(GWEI, 1_000_000_000, 23);
}

/// The sum of two whole numbers is not rounded.
pub proof fn law_whole_sum(m: nat, n: nat)
    requires
        m + n < countable(),
    ensures
        nearest_to_integer(m).plus(nearest_to_integer(n)) == nearest_to_integer(m + n),
{
    reveal(Double::plus);
    lemma_integer_is_exact(m);
    lemma_integer_is_exact(n);
    lemma_integer_is_exact(m + n);
    let p = pow2(1074);
    assert((m + n) * p == m * p + n * p) by (nonlinear_arith);
    let k = nearest_to_integer(m + n).magnitude();
    lemma_exact(k, 1);
    lemma_units_zero(0);
    lemma_units_zero(k);
}

/// The difference of two whole numbers is not rounded.
pub proof fn law_whole_difference(m: nat, n: nat)
    requires
        n <= m < countable(),
    ensures
        nearest_to_integer(m).minus(nearest_to_integer(n)) == nearest_to_integer((m - n) as nat),
{
    reveal(Double::minus);
    reveal(Double::plus);
    let d = (m - n) as nat;
    lemma_integer_is_exact(m);
    lemma_integer_is_exact(n);
    lemma_integer_is_exact(d);
    let p = pow2(1074);
    assert(d * p + n * p == m * p) by (nonlinear_arith)
        requires
            d + n == m,
    ;
    let y = nearest_to_integer(n);
    assert(y.opposite().units() == -y.units() && y.opposite().magnitude() == y.magnitude());
    let k = nearest_to_integer(d).magnitude();
    lemma_exact(k, 1);
    lemma_units_zero(0);
    lemma_units_zero(k);
}

/// The product of two whole numbers is not rounded.
pub proof fn law_whole_product(m: nat, n: nat)
    requires
        m < countable(),
        n < countable(),
        m * n < countable(),
    ensures
        nearest_to_integer(m).times(nearest_to_integer(n)) == nearest_to_integer(m * n),
{
    reveal(Double::times);
    lemma_one();
    lemma_integer_is_exact(m);
    lemma_integer_is_exact(n);
    lemma_integer_is_exact(m * n);
    let p = pow2(1074);
    assert((m * p) * (n * p) == (m * n * p) * p) by (nonlinear_arith);
    lemma_exact(nearest_to_integer(m * n).magnitude(), p);
}

/// The quotient of a product of two whole numbers by one of them is not rounded.
pub proof fn law_whole_quotient(m: nat, n: nat)
    requires
        m < countable(),
        0 < n < countable(),
        m * n < countable(),
    ensures
        nearest_to_integer(m * n).over(nearest_to_integer(n)) == nearest_to_integer(m),
{
    reveal(Double::over);
    lemma_one();
    lemma_integer_is_exact(m);
    lemma_integer_is_exact(n);
    lemma_integer_is_exact(m * n);
    let p = pow2(1074);
    assert((m * n * p) * p == (m * p) * (n * p)) by (nonlinear_arith);
    assert(n * p > 0) by (nonlinear_arith)
        requires
            n > 0,
            p > 0,
    ;
    lemma_exact(nearest_to_integer(m).magnitude(), n * p);
}

/// A quotient grows with what is divided, also where it is infinite.
pub proof fn law_quotient_grows(x: Double, y: Double, d: Double)
    requires
        reach(x),
        reach(y),
        positive(d),
        x.at_most(y),
    ensures
        reach(x.over(d)),
        reach(y.over(d)),
        x.over(d).at_most(y.over(d)),
{
    reveal(Double::over);
    lemma_units_zero(d.magnitude());
    let p = pow2(1074);
    let inf = INFINITE as nat;
    let v = distance(d.units());
    let (a, b) = (distance(x.units()) * p, distance(y.units()) * p);
    lemma_rounding_is_monotone(a, v, inf);
    lemma_rounding_is_monotone(b, v, inf);
    lemma_units_ordered(x.magnitude(), y.magnitude());
    lemma_units_ordered(nearest_magnitude(a, v), inf);
    if y.magnitude() < inf {
        assert(a <= b) by (nonlinear_arith)
            requires
                a == distance(x.units()) * p,
                b == distance(y.units()) * p,
                distance(x.units()) <= distance(y.units()),
        ;
        lemma_nearest_is_monotone(a, b, v);
        lemma_units_ordered(nearest_magnitude(a, v), nearest_magnitude(b, v));
    }
}

/// A positive number divided by itself is one.
pub proof fn law_own_share(x: Double)
    requires
        positive(x),
    ensures
        x.over(x) == (Double { bits: ONE }),
{
    reveal(Double::over);
    lemma_one();
    lemma_units_zero(x.magnitude());
    let u = distance(x.units());
    assert(u * pow2(1074) == pow2(1074) * u) by (nonlinear_arith);
    lemma_exact(ONE as nat, u);
}

/// A number less itself is zero.
pub proof fn law_less_itself(x: Double)
    requires
        amount(x),
    ensures
        x.minus(x).zero(),
        amount(x.minus(x)),
{
    reveal(Double::minus);
    reveal(Double::plus);
    lemma_units_zero(0);
    assert(x.opposite().units() == -x.units());
}

/// A number less zero is itself.
pub proof fn law_less_nothing(x: Double, y: Double)
    requires
        positive(x),
        y.zero(),
        amount(y),
    ensures
        x.minus(y) == x,
{
    reveal(Double::minus);
    reveal(Double::plus);
    lemma_units_zero(x.magnitude());
    assert(y.opposite().units() == 0);
    lemma_exact(x.magnitude(), 1);
}

/// Zero and a number are that number.
pub proof fn law_nothing_more(x: Double, y: Double)
    requires
        amount(x),
        x.zero(),
        positive(y),
    ensures
        x.plus(y) == y,
        y.plus(x) == y,
{
    reveal(Double::plus);
    lemma_units_zero(y.magnitude());
    lemma_exact(y.magnitude(), 1);
}

/// Where less is taken off, no less is left.
pub proof fn law_taking_less(x: Double, y: Double, z: Double)
    requires
        !x.nan(),
        amount(y),
        amount(z),
        y.at_most(z),
    ensures
        x.minus(z).at_most(x.minus(y)),
{
    reveal(Double::minus);
    reveal(Double::plus);
    lemma_units_zero(0);
    assert(y.opposite().units() == -y.units() && z.opposite().units() == -z.units());
    let (a, b) = (x.units() - z.units(), x.units() - y.units());
    lemma_nearest_zero(1);
    lemma_rounded_sums(a, b);
    lemma_rounding_is_monotone(distance(a), 1, INFINITE as nat);
    lemma_rounding_is_monotone(distance(b), 1, INFINITE as nat);
}

/// A difference falls while what is taken off grows.
pub proof fn law_difference_falls(x: Double, y: Double, z: Double)
    requires
        amount(x),
        amount(y),
        amount(z),
        y.at_most(z),
        z.at_most(x),
    ensures
        x.minus(z).at_most(x.minus(y)),
{
    reveal(Double::minus);
    reveal(Double::plus);
    lemma_units_zero(0);
    let (a, b) = ((x.units() - z.units()) as nat, (x.units() - y.units()) as nat);
    assert(y.opposite().units() == -y.units() && z.opposite().units() == -z.units());
    lemma_nearest_zero(1);
    lemma_nearest_is_monotone(a, b, 1);
    lemma_rounding_is_monotone(a, 1, INFINITE as nat);
    lemma_rounding_is_monotone(b, 1, INFINITE as nat);
    lemma_units_ordered(nearest_magnitude(a, 1), nearest_magnitude(b, 1));
}

/// Nothing divided by a positive number is nothing.
pub proof fn law_nothing_is_shared(x: Double, d: Double)
    requires
        amount(x),
        x.zero(),
        positive(d),
    ensures
        x.over(d).zero(),
        amount(x.over(d)),
{
    reveal(Double::over);
    lemma_units_zero(d.magnitude());
    lemma_units_zero(0);
    assert(distance(x.units()) * pow2(1074) == 0) by (nonlinear_arith)
        requires
            distance(x.units()) == 0,
    ;
    lemma_nearest_zero(distance(d.units()));
}

/// What is no number makes no number of any result. Opposite infinities have no sum; nothing has
/// no product with an infinity and no quotient with nothing; anything else divided by nothing is
/// infinite, and a finite number divided by an infinity is nothing.
pub proof fn law_results_that_are_no_numbers(x: Double, y: Double)
    ensures
        x.nan() || y.nan() ==> x.plus(y).nan() && x.minus(y).nan() && x.times(y).nan() && x.over(
            y,
        ).nan(),
        x.infinite() && y.infinite() && x.negative() != y.negative() ==> x.plus(y).nan(),
        x.infinite() && y.infinite() && x.negative() == y.negative() ==> x.minus(y).nan(),
        x.infinite() && y.zero() && !y.nan() ==> x.times(y).nan() && y.times(x).nan(),
        x.zero() && y.zero() ==> x.over(y).nan(),
        x.infinite() && y.infinite() ==> x.over(y).nan(),
        !x.nan() && !x.zero() && y.zero() ==> x.over(y).infinite(),
        x.magnitude() < INFINITE && !x.zero() && y.infinite() ==> x.over(y).zero(),
        x.infinite() && y.magnitude() < INFINITE ==> x.plus(y) == x,
{
    reveal(Double::plus);
    reveal(Double::minus);
    reveal(Double::times);
    reveal(Double::over);
    lemma_units_zero(x.magnitude());
    lemma_units_zero(y.magnitude());
    lemma_units_zero(0);
}

/// A product and a quotient are negative if and only if the signs differ; a sum has the sign of
/// both terms where they share one. The opposite of a number has the other sign and the same size,
/// and the number without its sign has the same size.
pub proof fn law_signs(x: Double, y: Double)
    requires
        x.magnitude() < INFINITE,
        y.magnitude() < INFINITE,
        !y.zero(),
    ensures
        x.times(y).negative() <==> x.negative() != y.negative(),
        x.over(y).negative() <==> x.negative() != y.negative(),
        x.negative() == y.negative() ==> (x.plus(y).negative() <==> x.negative()),
        x.opposite().negative() != x.negative() && x.opposite().units() == -x.units(),
        !x.absolute().negative() && x.absolute().magnitude() == x.magnitude(),
        x.minus(y) == x.plus(y.opposite()),
{
    reveal(Double::plus);
    reveal(Double::minus);
    reveal(Double::times);
    reveal(Double::over);
    lemma_one();
    lemma_units_zero(x.magnitude());
    lemma_units_zero(y.magnitude());
    let inf = INFINITE as nat;
    lemma_rounding_is_monotone(distance(x.units()) * distance(y.units()), pow2(1074), inf);
    lemma_rounding_is_monotone(distance(x.units()) * pow2(1074), distance(y.units()), inf);
    lemma_rounding_is_monotone(distance(x.units() + y.units()), 1, inf);
}

/// An integer of 256 bits is converted to an amount, and the order of two is kept.
pub proof fn law_wide_conversion(n: nat, k: nat)
    requires
        n <= k < limit(),
    ensures
        amount(nearest_to_integer(n)),
        amount(nearest_to_integer(k)),
        nearest_to_integer(n).at_most(nearest_to_integer(k)),
{
    reveal(nearest_to_integer);
    let p = pow2(1074);
    lemma2_to64_rest();
    lemma_pow2_adds(64, 64);
    assert(pow2(128) == 0x1_0000_0000_0000_0000_0000_0000_0000_0000);
    lemma_pow2_adds(128, 128);
    assert(pow2(256) == limit());
    lemma_pow2_adds(256, 1074);
    let w = pow2(256);
    assert(n * p <= k * p && k * p <= w * p) by (nonlinear_arith)
        requires
            n <= k,
            k <= w,
    ;
    lemma_rounds_within(n * p, 1, 1330);
    lemma_rounds_within(k * p, 1, 1330);
    lemma_nearest_is_monotone(n * p, k * p, 1);
    lemma_units_ordered(nearest_magnitude(n * p, 1), nearest_magnitude(k * p, 1));
}

/// An ether has 10 to the power 18 wei, which is of a moderate size.
pub proof fn lemma_ether_is_within()
    ensures
        within(Double { bits: ETHER }, 100),
        (Double { bits: ETHER }).units() == 1_000_000_000_000_000_000 * pow2(1074),
{
    let m = ETHER as nat;
    assert(m / (FRACTIONS as nat) == 1082);
    assert(FRACTIONS as nat + m % (FRACTIONS as nat) == 7_812_500_000_000_000);
    lemma2_to64();
    lemma2_to64_rest();
    lemma_pow2_adds(7, 1074);
    lemma_pow2_adds(100, 974);
    lemma_pow2_adds(100, 1074);
    lemma_pow2_pos(974);
    lemma_pow2_pos(1074);
    lemma_pow2_strictly_increases(64, 100);
    let (p, q, h) = (pow2(1074), pow2(974), pow2(100));
    assert(7_812_500_000_000_000 * (128 * p) == 1_000_000_000_000_000_000 * p) by (nonlinear_arith);
    assert(q <= 1_000_000_000_000_000_000 * p) by (nonlinear_arith)
        requires
            h * q == p,
            h > 1,
            q > 0,
    ;
    assert(1_000_000_000_000_000_000 * p <= h * p) by (nonlinear_arith)
        requires
            1_000_000_000_000_000_000 <= h,
    ;
}

} // verus!
