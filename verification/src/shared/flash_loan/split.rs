//! How the amounts that a price range takes add up.

use crate::double::arithmetic::{distance, lemma_nearest_zero, nearest_to_integer};
use crate::double::constants::{ONE, Q96};
use crate::double::error::{
    lemma_gap, lemma_rounding_error, lemma_rounds_beyond, lemma_rounds_within, precision,
};
use crate::double::growth::{
    amount, law_difference_shrinks, law_quotient_falls, law_sum_grows, lemma_infinity_is_greatest,
    lemma_nothing_shared, lemma_nothing_times, lemma_rounding_is_monotone,
};
use crate::double::order::lemma_one;
use crate::double::rounding::nearest_magnitude;
use crate::double::{lemma_units_grow, lemma_units_zero, magnitude_units, Double, FRACTIONS, INFINITE};
use crate::shared::flash_loan::jit::RangePrice;
use vstd::arithmetic::div_mod::lemma_fundamental_div_mod;
use vstd::arithmetic::power2::{
    lemma2_to64, lemma2_to64_rest, lemma_pow2_adds, lemma_pow2_pos, lemma_pow2_strictly_increases,
    lemma_pow2_unfold, pow2,
};
use vstd::prelude::*;

verus! {

/// Whether an amount is at least two to the power `low` and at most two to the power `high`, both
/// in units.
spec fn between(x: Double, low: nat, high: nat) -> bool {
    amount(x) && pow2(low) <= x.units() <= pow2(high)
}

/// The double nearest to an integer of at most 128 bits: how great it is, and how exact.
proof fn lemma_converted(n: nat)
    requires
        n <= u128::MAX,
    ensures
        amount(nearest_to_integer(n)),
        nearest_to_integer(n).units() <= pow2(1202),
        n > 0 ==> pow2(1074) <= nearest_to_integer(n).units(),
        n == 0 ==> nearest_to_integer(n).units() == 0,
        -(n * pow2(1074)) <= (nearest_to_integer(n).units() - n * pow2(1074)) * precision() <= n * pow2(
            1074,
        ),
{
    reveal(nearest_to_integer);
    let p = pow2(1074);
    let x = n * p;
    lemma2_to64();
    lemma_pow2_pos(1074);
    lemma_pow2_adds(64, 64);
    lemma_pow2_adds(128, 1074);
    assert(x <= pow2(1202) * 1) by (nonlinear_arith)
        requires
            x == n * p,
            n <= pow2(128),
            pow2(128) * p == pow2(1202),
    ;
    lemma_rounds_within(x, 1, 1202);
    lemma_rounding_error(x, 1);
    let r = magnitude_units(nearest_magnitude(x, 1));
    assert(r * 1 == r);
    if n > 0 {
        assert(pow2(1074) * 1 <= x) by (nonlinear_arith)
            requires
                x == n * p,
                n >= 1,
                p == pow2(1074),
        ;
        lemma_rounds_beyond(x, 1, 1074);
    } else {
        assert(x == 0) by (nonlinear_arith)
            requires
                x == n * p,
                n == 0,
        ;
    }
}

/// How great the price of the pool is at least and at most, where it lies within the range.
proof fn lemma_price(price: RangePrice)
    requires
        price.sqrt_price_x96@ / 0x1_0000_0000_0000_0000_0000_0000nat <= u128::MAX,
        price.within(),
    ensures
        between(price.current(), 978, 1203),
{
    let q96 = 0x1_0000_0000_0000_0000_0000_0000nat;
    let (w, r) = (price.sqrt_price_x96@ / q96, price.sqrt_price_x96@ % q96);
    let (hi, nr, scale) = (nearest_to_integer(w), nearest_to_integer(r), Double { bits: Q96 });
    let lo = nr.over(scale);
    let c = hi.plus(lo);
    lemma_converted(w);
    lemma_converted(r);
    lemma_scale();
    // The rest is at most two to the power 96, and so is the double nearest to it.
    let x = r * pow2(1074);
    lemma2_to64();
    lemma2_to64_rest();
    lemma_pow2_adds(64, 32);
    lemma_pow2_adds(96, 1074);
    assert(x <= pow2(1170) * 1) by (nonlinear_arith)
        requires
            x == r * pow2(1074),
            r <= pow2(96),
            pow2(96) * pow2(1074) == pow2(1170),
    ;
    lemma_rounds_within(x, 1, 1170);
    assert(nr.units() <= pow2(1170)) by {
        reveal(nearest_to_integer);
    }
    // The fraction is at most one.
    let a = nr.units() as nat * pow2(1074);
    let d = pow2(1170);
    lemma_pow2_pos(1170);
    assert(a <= pow2(1074) * d) by (nonlinear_arith)
        requires
            a == nr.units() as nat * pow2(1074),
            nr.units() as nat <= d,
    ;
    lemma_rounds_within(a, d, 1074);
    lemma_units_zero(scale.magnitude());
    assert(amount(lo) && lo.units() == magnitude_units(nearest_magnitude(a, d))) by {
        reveal(Double::over);
    }
    law_sum_grows(hi, lo);
    // The sum.
    let sum = (hi.units() + lo.units()) as nat;
    lemma_pow2_strictly_increases(1074, 1202);
    lemma_pow2_unfold(1203);
    assert(sum <= pow2(1203) * 1);
    lemma_rounds_within(sum, 1, 1203);
    lemma_units_zero(0);
    assert(amount(c) && c.units() <= pow2(1203)) by {
        reveal(Double::plus);
        lemma_pow2_pos(1203);
    }
    if w > 0 {
        lemma_pow2_strictly_increases(978, 1074);
    } else if r > 0 {
        lemma_pow2_adds(978, 1170);
        lemma_pow2_adds(1074, 1074);
        assert(pow2(978) * d <= a) by (nonlinear_arith)
            requires
                a == nr.units() as nat * pow2(1074),
                pow2(1074) <= nr.units() as nat,
                pow2(978) * d == pow2(1074) * pow2(1074),
        ;
        lemma_rounds_beyond(a, d, 978);
    } else {
        assert(a == 0) by (nonlinear_arith)
            requires
                a == nr.units() as nat * pow2(1074),
                nr.units() == 0,
        ;
        lemma_nearest_zero(d);
        assert(lo.units() == 0);
        assert(c.units() == 0) by {
            reveal(Double::plus);
        }
        lemma_units_zero(price.sqrt_lower.magnitude());
    }
}

/// The double two to the power 96, in units.
proof fn lemma_scale()
    ensures
        amount(Double { bits: Q96 }),
        (Double { bits: Q96 }).units() == pow2(1170),
{
    let m = Q96 as nat;
    assert(m / (FRACTIONS as nat) == 1119 && m % (FRACTIONS as nat) == 0);
    lemma2_to64_rest();
    lemma_pow2_adds(52, 1118);
}

/// What one unit of liquidity takes of the second token: the difference of two numbers is no
/// smaller than the place of the last digit of the greater one.
proof fn lemma_share1(price: RangePrice)
    requires
        price.within(),
        between(price.current(), 978, 1203),
    ensures
        between(price.share1(), 925, 1203),
{
    let (c, a) = (price.current(), price.sqrt_lower);
    let (m, k) = (c.magnitude(), a.magnitude());
    lemma_units_zero(0);
    assert(k < m) by {
        if m < k {
            lemma_units_grow(m, k);
        }
    }
    law_difference_shrinks(c, a);
    let below = (m - 1) as nat;
    if k < below {
        lemma_units_grow(k, below);
    }
    lemma_gap(below);
    let rest = (c.units() - a.units()) as nat;
    let gap = (magnitude_units(m) - magnitude_units(below)) as nat;
    lemma2_to64_rest();
    lemma_pow2_adds(925, 53);
    assert(pow2(925) <= gap) by (nonlinear_arith)
        requires
            pow2(925) * 0x20_0000_0000_0000 <= gap * 0x20_0000_0000_0000,
    ;
    lemma_rounds_beyond(rest, 1, 925);
    assert(a.opposite().units() == -a.units());
    assert(price.share1().units() == magnitude_units(nearest_magnitude(rest, 1))) by {
        reveal(Double::minus);
        reveal(Double::plus);
        lemma_rounding_is_monotone(rest, 1, INFINITE as nat);
    }
}

/// What one unit of liquidity takes of the first token.
proof fn lemma_share0(price: RangePrice)
    requires
        price.within(),
        between(price.current(), 978, 1203),
    ensures
        amount(price.share0()),
        price.share0().units() <= pow2(1170),
{
    let one = Double { bits: ONE };
    let (c, b) = (price.current(), price.sqrt_upper);
    let (x, y) = (one.over(c), one.over(b));
    lemma_one();
    lemma_pow2_pos(978);
    lemma_units_zero(0);
    lemma_units_zero(c.magnitude());
    lemma_units_zero(b.magnitude());
    let p = pow2(1074);
    let (a, d) = (p * p, c.units() as nat);
    lemma_pow2_adds(1074, 1074);
    lemma_pow2_adds(1170, 978);
    assert(a <= pow2(1170) * d) by (nonlinear_arith)
        requires
            a == pow2(1170) * pow2(978),
            pow2(978) <= d,
    ;
    lemma_rounds_within(a, d, 1170);
    assert(amount(x) && x.units() == magnitude_units(nearest_magnitude(a, d))) by {
        reveal(Double::over);
    }
    assert(amount(y) && y.at_most(x)) by {
        if amount(b) {
            law_quotient_falls(one, c, b);
            assert(!y.negative()) by {
                reveal(Double::over);
                lemma_rounding_is_monotone(a, distance(b.units()), INFINITE as nat);
            }
            lemma_infinity_is_greatest(y, x);
        } else {
            reveal(Double::over);
        }
    }
    law_difference_shrinks(x, y);
}

/// What one unit of liquidity takes of both tokens, and how exact that sum is.
proof fn lemma_shares(price: RangePrice)
    requires
        between(price.share1(), 925, 1203),
        amount(price.share0()),
        price.share0().units() <= pow2(1170),
    ensures
        ({
            let both = price.share1().plus(price.share0());
            let sum = price.share1().units() + price.share0().units();
            &&& between(both, 925, 1204)
            &&& -sum <= (both.units() - sum) * precision() <= sum
        }),
{
    let (s1, s0) = (price.share1(), price.share0());
    let sum = (s1.units() + s0.units()) as nat;
    lemma_pow2_pos(925);
    lemma_pow2_strictly_increases(1170, 1203);
    lemma_pow2_unfold(1204);
    law_sum_grows(s1, s0);
    lemma_rounds_within(sum, 1, 1204);
    lemma_rounding_error(sum, 1);
    let r = magnitude_units(nearest_magnitude(sum, 1));
    assert(r * 1 == r);
    assert(amount(s1.plus(s0)) && s1.plus(s0).units() == r) by {
        reveal(Double::plus);
    }
}

/// The liquidity that an amount buys, and how exact it is.
proof fn lemma_liquidity(bought: Double, both: Double)
    requires
        between(bought, 1074, 1202),
        between(both, 925, 1204),
    ensures
        amount(bought.over(both)),
        ({
            let a = bought.units() * pow2(1074);
            -a <= (bought.over(both).units() * both.units() - a) * precision() <= a
        }),
{
    let (y, d, p) = (bought.units() as nat, both.units() as nat, pow2(1074));
    let a = y * p;
    lemma_pow2_pos(925);
    lemma_pow2_adds(1202, 1074);
    lemma_pow2_adds(1351, 925);
    assert(a <= pow2(1351) * d) by (nonlinear_arith)
        requires
            a == y * p,
            y <= pow2(1202),
            pow2(1202) * p == pow2(1351) * pow2(925),
            pow2(925) <= d,
    ;
    lemma_rounds_within(a, d, 1351);
    lemma_rounding_error(a, d);
    // Half a unit is no more than the relative error.
    lemma_pow2_adds(1074, 1074);
    lemma2_to64_rest();
    lemma_pow2_adds(52, 1204);
    lemma_pow2_strictly_increases(1256, 2148);
    assert(p * p <= a) by (nonlinear_arith)
        requires
            a == y * p,
            p <= y,
    ;
    assert(FRACTIONS * d <= a);
    lemma_units_zero(both.magnitude());
    assert(amount(bought.over(both)) && bought.over(both).units() == magnitude_units(
        nearest_magnitude(a, d),
    )) by {
        reveal(Double::over);
    }
}

/// What some liquidity takes of one token, and how exact that is.
proof fn lemma_taken(liquidity: Double, share: Double)
    requires
        amount(liquidity),
        amount(share),
        liquidity.units() * share.units() <= pow2(1203) * pow2(1074),
    ensures
        amount(liquidity.times(share)),
        ({
            let a = liquidity.units() * share.units();
            let bound = a + precision() * pow2(1074);
            -bound <= (liquidity.times(share).units() * pow2(1074) - a) * precision() <= bound
        }),
{
    let p = pow2(1074);
    let (u, v) = (liquidity.units() as nat, share.units() as nat);
    let a = u * v;
    lemma_pow2_pos(1074);
    lemma_rounds_within(a, p, 1203);
    lemma_rounding_error(a, p);
    assert(amount(liquidity.times(share)) && liquidity.times(share).units() == magnitude_units(
        nearest_magnitude(a, p),
    )) by {
        reveal(Double::times);
    }
}

/// The product of an inequality by a factor that is not negative.
proof fn lemma_scaled(x: int, y: int, f: int)
    requires
        x <= y,
        0 <= f,
    ensures
        x * f <= y * f,
{
    assert(x * f <= y * f) by (nonlinear_arith)
        requires
            x <= y,
            0 <= f,
    ;
}

/// The bounds of four roundings in a row, taken together.
proof fn lemma_linear(lw: int, ld: int, yp: int, tp: int, xp: int, p: int)
    requires
        p > 0,
        xp >= 0,
        0x1f_ffff_ffff_ffff * lw <= 0x20_0000_0000_0000 * ld <= 0x20_0000_0000_0001 * lw,
        0x1f_ffff_ffff_ffff * xp <= 0x20_0000_0000_0000 * yp <= 0x20_0000_0000_0001 * xp,
        0x1f_ffff_ffff_ffff * yp <= 0x20_0000_0000_0000 * ld <= 0x20_0000_0000_0001 * yp,
        0x1f_ffff_ffff_ffff * lw - 0x40_0000_0000_0000 * p <= 0x20_0000_0000_0000 * tp,
        0x20_0000_0000_0000 * tp <= 0x20_0000_0000_0001 * lw + 0x40_0000_0000_0000 * p,
    ensures
        tp * 0x4_0000_0000_0000 <= xp * 0x4_0000_0000_0001 + 0xc_0000_0000_0000 * p,
        xp * 0x3_ffff_ffff_ffff <= tp * 0x4_0000_0000_0000 + 0xc_0000_0000_0000 * p,
{
    assert(yp >= 0);
    assert(ld >= 0);
    assert(lw >= 0);
    assert(0x20_0000_0000_0000 * lw <= 0x20_0000_0000_0003 * yp);
    assert(0x20_0000_0000_0000 * lw <= 0x20_0000_0000_0005 * xp);
    assert(0x20_0000_0000_0000 * tp <= 0x20_0000_0000_0007 * xp + 0x40_0000_0000_0000 * p);
    assert(0x1f_ffff_ffff_fffd * yp <= 0x20_0000_0000_0000 * lw);
    assert(0x1f_ffff_ffff_fffb * xp <= 0x20_0000_0000_0000 * lw);
    assert(0x1f_ffff_ffff_fff9 * xp <= 0x20_0000_0000_0000 * tp + 0x40_0000_0000_0000 * p);
}

/// The errors of four roundings in a row, taken together: `y` stands for the amount `x`, `d` for
/// the sum `w`, `l` for their quotient, and `t` for the product of `l` and `w`.
proof fn lemma_errors_together(x: int, y: int, w: int, d: int, l: int, t: int, p: int)
    requires
        p > 0,
        x >= 0,
        l >= 0,
        -x <= (y - x) * precision() <= x,
        -w <= (d - w) * precision() <= w,
        -(y * p) <= (l * d - y * p) * precision() <= y * p,
        -(l * w + 2 * (precision() * p)) <= (t * p - l * w) * precision() <= l * w + 2 * (precision() * p),
    ensures
        t * 0x4_0000_0000_0000 <= x * 0x4_0000_0000_0001 + 0xc_0000_0000_0000,
        x * 0x3_ffff_ffff_ffff <= (t + 3) * 0x4_0000_0000_0000,
{
    let (lw, ld, yp, tp, xp) = (l * w, l * d, y * p, t * p, x * p);
    // The sum that was rounded to `d`, times `l`.
    lemma_scaled(0x1f_ffff_ffff_ffff * w, 0x20_0000_0000_0000 * d, l);
    lemma_scaled(0x20_0000_0000_0000 * d, 0x20_0000_0000_0001 * w, l);
    lemma_regrouped(l, w);
    lemma_regrouped(l, d);
    // The amount that was rounded to `y`, times `p`.
    lemma_scaled(0x1f_ffff_ffff_ffff * x, 0x20_0000_0000_0000 * y, p);
    lemma_scaled(0x20_0000_0000_0000 * y, 0x20_0000_0000_0001 * x, p);
    lemma_regrouped(p, x);
    lemma_regrouped(p, y);
    assert(xp >= 0) by (nonlinear_arith)
        requires
            xp == x * p,
            x >= 0,
            p > 0,
    ;
    // All of it together, times `p`.
    lemma_linear(lw, ld, yp, tp, xp, p);
    let (a, b) = (t * 0x4_0000_0000_0000, x * 0x4_0000_0000_0001 + 0xc_0000_0000_0000);
    assert(a <= b) by (nonlinear_arith)
        requires
            tp * 0x4_0000_0000_0000 <= xp * 0x4_0000_0000_0001 + 0xc_0000_0000_0000 * p,
            tp == t * p,
            xp == x * p,
            p > 0,
            a == t * 0x4_0000_0000_0000,
            b == x * 0x4_0000_0000_0001 + 0xc_0000_0000_0000,
    ;
    let (c, f) = (x * 0x3_ffff_ffff_ffff, (t + 3) * 0x4_0000_0000_0000);
    assert(c <= f) by (nonlinear_arith)
        requires
            xp * 0x3_ffff_ffff_ffff <= tp * 0x4_0000_0000_0000 + 0xc_0000_0000_0000 * p,
            tp == t * p,
            xp == x * p,
            p > 0,
            c == x * 0x3_ffff_ffff_ffff,
            f == (t + 3) * 0x4_0000_0000_0000,
    ;
}

/// The factors that bound a rounded value, regrouped.
proof fn lemma_regrouped(f: int, v: int)
    ensures
        (0x1f_ffff_ffff_ffff * v) * f == 0x1f_ffff_ffff_ffff * (f * v),
        (0x20_0000_0000_0000 * v) * f == 0x20_0000_0000_0000 * (f * v),
        (0x20_0000_0000_0001 * v) * f == 0x20_0000_0000_0001 * (f * v),
        f * v == v * f,
{
    assert((0x1f_ffff_ffff_ffff * v) * f == 0x1f_ffff_ffff_ffff * (f * v)) by (nonlinear_arith);
    assert((0x20_0000_0000_0000 * v) * f == 0x20_0000_0000_0000 * (f * v)) by (nonlinear_arith);
    assert((0x20_0000_0000_0001 * v) * f == 0x20_0000_0000_0001 * (f * v)) by (nonlinear_arith);
    assert(f * v == v * f) by (nonlinear_arith);
}

/// The whole parts of two numbers, and of their sum.
proof fn lemma_whole_parts(t1: int, t0: int, n: int, p: int)
    requires
        p > 0x10_0000_0000_0000,
        t1 >= 0,
        t0 >= 0,
        n >= 0,
        (t1 + t0) * 0x4_0000_0000_0000 <= (n * p) * 0x4_0000_0000_0001 + 0xc_0000_0000_0000,
        (n * p) * 0x3_ffff_ffff_ffff <= (t1 + t0 + 3) * 0x4_0000_0000_0000,
    ensures
        (t1 / p + t0 / p) * 0x4_0000_0000_0000 <= n * 0x4_0000_0000_0001,
        n * 0x3_ffff_ffff_ffff <= (t1 / p + t0 / p + 2) * 0x4_0000_0000_0000,
{
    lemma_fundamental_div_mod(t1, p);
    lemma_fundamental_div_mod(t0, p);
    let (q1, q0) = (t1 / p, t0 / p);
    let s = q1 + q0;
    assert(p * q1 + p * q0 == s * p) by (nonlinear_arith)
        requires
            s == q1 + q0,
    ;
    let (a, b) = (s * 0x4_0000_0000_0000, n * 0x4_0000_0000_0001);
    assert(a <= b) by (nonlinear_arith)
        requires
            (s * p) * 0x4_0000_0000_0000 <= (n * p) * 0x4_0000_0000_0001 + 0xc_0000_0000_0000,
            p > 0x10_0000_0000_0000,
            a == s * 0x4_0000_0000_0000,
            b == n * 0x4_0000_0000_0001,
    ;
    let (c, d) = (n * 0x3_ffff_ffff_ffff, (s + 2) * 0x4_0000_0000_0000);
    assert(c <= d) by (nonlinear_arith)
        requires
            (n * p) * 0x3_ffff_ffff_ffff <= (s * p + 2 * p + 1) * 0x4_0000_0000_0000,
            p > 0x10_0000_0000_0000,
            c == n * 0x3_ffff_ffff_ffff,
            d == (s + 2) * 0x4_0000_0000_0000,
    ;
}

/// The amounts of both tokens that a price range takes add up to the amount that is split: exactly
/// where the range takes one token alone; and where the price lies within the range, up to a part
/// in two to the power 50, which the formula is rounded by, and up to two least units, which the
/// whole parts leave out.
pub proof fn law_amounts_add_up(price: RangePrice, total: nat, zfo: bool)
    requires
        price.sqrt_price_x96@ / 0x1_0000_0000_0000_0000_0000_0000nat <= u128::MAX,
        total <= u128::MAX,
    ensures
        ({
            let (a0, a1) = price.amounts(total, zfo);
            &&& price.one_sided() ==> a0 + a1 == total
            &&& price.within() ==> {
                &&& !price.one_sided()
                &&& (a0 + a1) * 0x4_0000_0000_0000 <= total * 0x4_0000_0000_0001
                &&& total * 0x3_ffff_ffff_ffff <= (a0 + a1 + 2) * 0x4_0000_0000_0000
            }
            &&& price.within() && total > u64::MAX ==> {
                &&& (a0 + a1) * 1000 <= total * 1001
                &&& total * 999 <= (a0 + a1) * 1000
            }
        }),
{
    if price.within() {
        lemma_amounts_within(price, total, zfo);
    }
}

/// The amounts of both tokens where the price lies within the range.
proof fn lemma_amounts_within(price: RangePrice, total: nat, zfo: bool)
    requires
        price.sqrt_price_x96@ / 0x1_0000_0000_0000_0000_0000_0000nat <= u128::MAX,
        total <= u128::MAX,
        price.within(),
    ensures
        ({
            let (a0, a1) = price.amounts(total, zfo);
            &&& !price.one_sided()
            &&& (a0 + a1) * 0x4_0000_0000_0000 <= total * 0x4_0000_0000_0001
            &&& total * 0x3_ffff_ffff_ffff <= (a0 + a1 + 2) * 0x4_0000_0000_0000
        }),
{
    let (s1, s0) = (price.share1(), price.share0());
    let both = s1.plus(s0);
    let bought = nearest_to_integer(total);
    let zero = Double { bits: 0 };
    let p = pow2(1074);
    lemma_price(price);
    lemma_share1(price);
    lemma_share0(price);
    lemma_shares(price);
    lemma_converted(total);
    lemma_pow2_pos(925);
    lemma_pow2_pos(1074);
    lemma_units_zero(0);
    assert(!price.one_sided());
    if total > 0 {
        let l = price.liquidity(total);
        lemma_liquidity(bought, both);
        let (y, d, lu, w) = (bought.units(), both.units(), l.units(), s1.units() + s0.units());
        let (v1, v0) = (s1.units(), s0.units());
        lemma_products_fit(y, w, d, lu, v1, v0);
        lemma_taken(l, s1);
        lemma_taken(l, s0);
        let (t1, t0) = (l.times(s1).units(), l.times(s0).units());
        assert(lu * v1 + lu * v0 == lu * w) by (nonlinear_arith)
            requires
                w == v1 + v0,
        ;
        let t = t1 + t0;
        assert(t * p == t1 * p + t0 * p) by (nonlinear_arith)
            requires
                t == t1 + t0,
        ;
        lemma_errors_together((total * p) as int, y, w, d, lu, t, p as int);
        lemma2_to64_rest();
        lemma_pow2_strictly_increases(53, 1074);
        lemma_whole_parts(t1, t0, total as int, p as int);
    } else {
        lemma_units_zero(bought.magnitude());
        lemma_nothing_shared(bought, both);
        lemma_nothing_times(price.liquidity(total), s1);
        lemma_nothing_times(price.liquidity(total), s0);
    }
}

/// The products of the liquidity and its shares are not too great.
proof fn lemma_products_fit(y: int, w: int, d: int, l: int, v1: int, v0: int)
    requires
        0 <= y <= pow2(1202),
        0 <= l,
        0 <= v1,
        0 <= v0,
        w == v1 + v0,
        -w <= (d - w) * precision() <= w,
        -(y * pow2(1074)) <= (l * d - y * pow2(1074)) * precision() <= y * pow2(1074),
    ensures
        l * v1 <= pow2(1203) * pow2(1074),
        l * v0 <= pow2(1203) * pow2(1074),
{
    let p = pow2(1074) as int;
    let (lw, ld, yp) = (l * w, l * d, y * p);
    lemma_pow2_pos(1074);
    lemma_pow2_unfold(1203);
    lemma_scaled(0x1f_ffff_ffff_ffff * w, 0x20_0000_0000_0000 * d, l);
    lemma_regrouped(l, w);
    lemma_regrouped(l, d);
    lemma_scaled(y, pow2(1202) as int, p);
    assert((2 * pow2(1202)) * p == 2 * (pow2(1202) * p)) by (nonlinear_arith);
    assert(yp >= 0) by (nonlinear_arith)
        requires
            yp == y * p,
            y >= 0,
            p > 0,
    ;
    assert(lw <= 2 * yp);
    assert(l * v1 <= lw && l * v0 <= lw) by (nonlinear_arith)
        requires
            lw == l * (v1 + v0),
            l >= 0,
            v1 >= 0,
            v0 >= 0,
    ;
}

} // verus!
