//! How far a rounded result is from the exact one.

use crate::double::arithmetic::distance;
use crate::double::growth::{lemma_rounding_is_monotone, lemma_straddled};
use crate::double::rounding::{lemma_nearest, lemma_packed, lemma_packed_one, nearest_magnitude, straddles};
use crate::double::{lemma_units_grow, magnitude_units, FRACTIONS, INFINITE};
use vstd::arithmetic::div_mod::lemma_fundamental_div_mod;
use vstd::arithmetic::power2::{lemma2_to64, lemma2_to64_rest, lemma_pow2_adds, lemma_pow2_pos, pow2};
use vstd::prelude::*;

verus! {

/// Two to the power 53: a result is rounded by at most its own value divided by this.
pub open spec fn precision() -> int {
    0x20_0000_0000_0000
}

/// The distance to the next magnitude: at most the value divided by two to the power 52, or one
/// unit; and at least the next value divided by two to the power 53.
pub proof fn lemma_gap(m: nat)
    ensures
        ({
            let (low, high) = (magnitude_units(m), magnitude_units(m + 1));
            &&& low < high
            &&& (high - low) * FRACTIONS <= low || high - low == 1
            &&& high <= (high - low) * precision()
        }),
{
    let p = FRACTIONS as nat;
    let (t, q) = if m < p {
        (0nat, m)
    } else {
        lemma_fundamental_div_mod(m as int, p as int);
        assert(m / p >= 1) by (nonlinear_arith)
            requires
                m >= p,
                p > 0,
        ;
        ((m / p - 1) as nat, p + m % p)
    };
    assert(t * p + q == m) by {
        if m >= p {
            let k = m / p;
            assert((k - 1) * p + p == p * k) by (nonlinear_arith);
        }
    }
    lemma_packed(q, t);
    lemma_pow2_pos(t);
    let w = pow2(t) as int;
    assert((q + 1) * w == q * w + w) by (nonlinear_arith);
    if m < p {
        lemma2_to64();
    } else {
        assert(w * p <= q * w) by (nonlinear_arith)
            requires
                q >= p,
                w > 0,
        ;
    }
    assert((q + 1) * w <= w * (2 * p)) by (nonlinear_arith)
        requires
            q + 1 <= 2 * p,
            w > 0,
    ;
}

/// A quotient that is not too great is rounded by at most its own value divided by two to the
/// power 53, or by half a unit.
pub proof fn lemma_rounding_error(a: nat, den: nat)
    requires
        den > 0,
        a < magnitude_units(INFINITE as nat) * den,
    ensures
        ({
            let r = magnitude_units(nearest_magnitude(a, den)) * den;
            ||| -a <= (r - a) * precision() <= a
            ||| -den <= 2 * (r - a) <= den
        }),
{
    let inf = INFINITE as nat;
    lemma_straddled(a, den, inf);
    let n = choose|n: nat| n < inf && #[trigger] straddles(a, den, n);
    lemma_nearest(a, den, n);
    lemma_gap(n);
    let (low, high) = (magnitude_units(n), magnitude_units(n + 1));
    let gap = (high - low) as nat;
    assert((low + high) * den == 2 * (low * den) + gap * den) by (nonlinear_arith)
        requires
            high == low + gap,
    ;
    assert(high * den == low * den + gap * den) by (nonlinear_arith)
        requires
            high == low + gap,
    ;
    let r = magnitude_units(nearest_magnitude(a, den)) * den;
    assert(-(gap * den) <= 2 * (r - a) <= gap * den);
    if gap == 1 {
        assert(gap * den == den) by (nonlinear_arith)
            requires
                gap == 1,
        ;
    } else {
        assert((gap * den) * FRACTIONS <= low * den) by (nonlinear_arith)
            requires
                gap * FRACTIONS <= low,
        ;
    }
}

/// The magnitude of a power of two.
pub open spec fn power_magnitude(k: nat) -> nat {
    ((k - 51) * FRACTIONS) as nat
}

/// The value of the magnitude of a power of two.
pub proof fn lemma_power_magnitude(k: nat)
    requires
        52 <= k <= 2097,
    ensures
        magnitude_units(power_magnitude(k)) == pow2(k),
        power_magnitude(k) < INFINITE,
{
    let t = (k - 52) as nat;
    lemma_packed_one(FRACTIONS as nat, t);
    lemma2_to64_rest();
    lemma_pow2_adds(52, t);
    assert(t * (FRACTIONS as nat) + FRACTIONS == (k - 51) * FRACTIONS) by (nonlinear_arith)
        requires
            t == k - 52,
    ;
}

/// A quotient up to a power of two is rounded to a finite number up to that power.
pub proof fn lemma_rounds_within(a: nat, den: nat, k: nat)
    requires
        den > 0,
        52 <= k <= 2097,
        a <= pow2(k) * den,
    ensures
        nearest_magnitude(a, den) < INFINITE,
        magnitude_units(nearest_magnitude(a, den)) <= pow2(k),
        a < magnitude_units(INFINITE as nat) * den,
{
    lemma_power_magnitude(k);
    let (m, n, inf) = (nearest_magnitude(a, den), power_magnitude(k), INFINITE as nat);
    lemma_rounding_is_monotone(a, den, n);
    if m < n {
        lemma_units_grow(m, n);
    }
    lemma_units_grow(n, inf);
    assert(pow2(k) * den < magnitude_units(inf) * den) by (nonlinear_arith)
        requires
            pow2(k) < magnitude_units(inf),
            den > 0,
    ;
}

/// A quotient from a power of two on is not rounded below that power.
pub proof fn lemma_rounds_beyond(a: nat, den: nat, k: nat)
    requires
        den > 0,
        52 <= k <= 2097,
        pow2(k) * den <= a,
    ensures
        pow2(k) <= magnitude_units(nearest_magnitude(a, den)),
{
    lemma_power_magnitude(k);
    let (m, n) = (nearest_magnitude(a, den), power_magnitude(k));
    lemma_rounding_is_monotone(a, den, n);
    if n < m {
        lemma_units_grow(n, m);
    }
}

/// No other magnitude is nearer to a quotient than the one it is rounded to, and of two that are
/// equally near the even one is taken.
pub proof fn law_rounding_is_nearest(a: nat, den: nat, other: nat)
    requires
        den > 0,
        a < magnitude_units(INFINITE as nat) * den,
    ensures
        ({
            let m = nearest_magnitude(a, den);
            let (near, far) = (magnitude_units(m) * den - a, magnitude_units(other) * den - a);
            &&& distance(near) <= distance(far)
            &&& distance(near) == distance(far) && other != m ==> m % 2 == 0
        }),
{
    let inf = INFINITE as nat;
    lemma_straddled(a, den, inf);
    let n = choose|n: nat| n < inf && #[trigger] straddles(a, den, n);
    lemma_nearest(a, den, n);
    lemma_units_grow(n, n + 1);
    let (low, high, u) = (magnitude_units(n), magnitude_units(n + 1), magnitude_units(other));
    assert((low + high) * den == low * den + high * den) by (nonlinear_arith);
    if other <= n {
        if other < n {
            lemma_units_grow(other, n);
            assert(u * den < low * den) by (nonlinear_arith)
                requires
                    u < low,
                    den > 0,
            ;
        }
    } else {
        if other > n + 1 {
            lemma_units_grow(n + 1, other);
            assert(high * den < u * den) by (nonlinear_arith)
                requires
                    high < u,
                    den > 0,
            ;
        }
    }
}

} // verus!
