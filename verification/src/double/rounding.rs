//! Rounding of an exact quotient to the nearest double, ties to the even one.

use crate::double::{lemma_units_grow, magnitude_units, power_of_two, FRACTIONS, INFINITE};
use vstd::arithmetic::div_mod::{
    lemma_fundamental_div_mod, lemma_fundamental_div_mod_converse,
};
use vstd::arithmetic::power2::{
    lemma2_to64, lemma2_to64_rest, lemma_pow2_adds, lemma_pow2_pos, lemma_pow2_strictly_increases,
    lemma_pow2_unfold, pow2,
};
use vstd::prelude::*;

verus! {

/// The quotient `a / den`, in units, lies at the magnitude `m` or between it and the next one.
pub open spec fn straddles(a: nat, den: nat, m: nat) -> bool {
    magnitude_units(m) * den <= a < magnitude_units(m + 1) * den
}

/// The magnitude whose value is nearest to the quotient `a / den`, in units; of two that are
/// equally near, the even one. The magnitude of the infinities takes part with the value that
/// follows the greatest finite one.
pub open spec fn nearest_magnitude(a: nat, den: nat) -> nat {
    if magnitude_units(INFINITE as nat) * den <= a {
        INFINITE as nat
    } else {
        let m = choose|m: nat| straddles(a, den, m);
        let middle = (magnitude_units(m) + magnitude_units(m + 1)) * den;
        if 2 * a < middle || (2 * a == middle && m % 2 == 0) {
            m
        } else {
            m + 1
        }
    }
}

/// At most one magnitude straddles a quotient.
proof fn lemma_straddles_once(a: nat, den: nat, m: nat, n: nat)
    requires
        straddles(a, den, m),
        straddles(a, den, n),
    ensures
        m == n,
{
    if m < n {
        if m + 1 < n {
            lemma_units_grow(m + 1, n);
        }
        assert(magnitude_units(m + 1) * den <= magnitude_units(n) * den) by (nonlinear_arith)
            requires
                magnitude_units(m + 1) <= magnitude_units(n),
        ;
    } else if n < m {
        if n + 1 < m {
            lemma_units_grow(n + 1, m);
        }
        assert(magnitude_units(n + 1) * den <= magnitude_units(m) * den) by (nonlinear_arith)
            requires
                magnitude_units(n + 1) <= magnitude_units(m),
        ;
    }
}

/// A magnitude that straddles a quotient settles the nearest one.
pub proof fn lemma_nearest(a: nat, den: nat, m: nat)
    requires
        den > 0,
        straddles(a, den, m),
    ensures
        m >= INFINITE ==> nearest_magnitude(a, den) == INFINITE,
        m < INFINITE ==> nearest_magnitude(a, den) == ({
            let middle = (magnitude_units(m) + magnitude_units(m + 1)) * den;
            if 2 * a < middle || (2 * a == middle && m % 2 == 0) {
                m
            } else {
                m + 1
            }
        }),
{
    let inf = INFINITE as nat;
    if m >= inf {
        if m > inf {
            lemma_units_grow(inf, m);
        }
        assert(magnitude_units(inf) * den <= magnitude_units(m) * den) by (nonlinear_arith)
            requires
                magnitude_units(inf) <= magnitude_units(m),
        ;
    } else {
        if m + 1 < inf {
            lemma_units_grow(m + 1, inf);
        }
        assert(magnitude_units(m + 1) * den <= magnitude_units(inf) * den) by (nonlinear_arith)
            requires
                magnitude_units(m + 1) <= magnitude_units(inf),
        ;
        let n = choose|n: nat| straddles(a, den, n);
        lemma_straddles_once(a, den, m, n);
    }
}

/// The value of the magnitude that has the significand `q` at the exponent step `t`, and of the
/// next one.
pub proof fn lemma_packed(q: nat, t: nat)
    requires
        q < 2 * FRACTIONS,
        t > 0 ==> q >= FRACTIONS,
    ensures
        magnitude_units(t * (FRACTIONS as nat) + q) == q * pow2(t),
        magnitude_units(t * (FRACTIONS as nat) + q + 1) == (q + 1) * pow2(t),
{
    lemma_packed_one(q, t);
    if q + 1 < 2 * FRACTIONS {
        lemma_packed_one(q + 1, t);
    } else {
        let p = FRACTIONS as nat;
        assert(t * p + q + 1 == (t + 1) * p + p) by (nonlinear_arith)
            requires
                q + 1 == 2 * p,
        ;
        lemma_packed_one(p, t + 1);
        lemma_pow2_unfold(t + 1);
        assert(p * (2 * pow2(t)) == (q + 1) * pow2(t)) by (nonlinear_arith)
            requires
                q + 1 == 2 * p,
        ;
    }
}

/// The value of the magnitude that has the significand `q` at the exponent step `t`.
pub proof fn lemma_packed_one(q: nat, t: nat)
    requires
        q < 2 * FRACTIONS,
        t > 0 ==> q >= FRACTIONS,
    ensures
        magnitude_units(t * (FRACTIONS as nat) + q) == q * pow2(t),
{
    let p = FRACTIONS as nat;
    lemma2_to64();
    if q < p {
        assert(t * p == 0) by (nonlinear_arith)
            requires
                t == 0,
        ;
        assert(q * pow2(0) == q);
    } else {
        assert(t * p + q == (t + 1) * p + (q - p)) by (nonlinear_arith);
        assert((t + 1) * p == p * (t + 1)) by (nonlinear_arith);
        lemma_fundamental_div_mod_converse((t * p + q) as int, p as int, (t + 1) as int, q - p);
        assert((t + 1) * p >= p) by (nonlinear_arith);
    }
}

/// The distance by which scaled quantities are shifted, so that no exponent is negative.
pub open spec fn scale() -> nat {
    pow2(2200)
}

/// `s` times two to the power `shift`, scaled down, is `a / den` rounded down to a multiple of
/// that power, and `sticky` tells whether something was cut off.
pub open spec fn approximates(s: nat, shift: nat, sticky: bool, a: nat, den: nat) -> bool {
    &&& s * pow2(shift) * den <= a * scale() < (s + 1) * pow2(shift) * den
    &&& sticky <==> s * pow2(shift) * den != a * scale()
}

/// The number of bits of `s`.
fn bit_length(s: u128) -> (r: u64)
    requires
        0 < s < 0x100_0000_0000_0000_0000_0000_0000_0000,
    ensures
        1 <= r <= 120,
        pow2((r - 1) as nat) <= s < pow2(r as nat),
{
    proof {
        lemma2_to64();
        lemma2_to64_rest();
        lemma_pow2_adds(64, 56);
    }
    let mut r: u64 = 1;
    let mut top: u128 = 2;
    while top <= s
        invariant
            0 < s < 0x100_0000_0000_0000_0000_0000_0000_0000,
            1 <= r <= 120,
            top == pow2(r as nat),
            pow2((r - 1) as nat) <= s,
            pow2(120) == 0x100_0000_0000_0000_0000_0000_0000_0000,
        decreases 120 - r,
    {
        proof {
            if r == 120 {
                assert(false);
            }
            lemma_pow2_unfold((r + 1) as nat);
        }
        top = top * 2;
        r = r + 1;
    }
    r
}

/// An inequality survives the division of both sides by a positive factor.
proof fn lemma_cancel(x: int, y: int, k: int)
    requires
        k > 0,
    ensures
        x * k <= y * k <==> x <= y,
        x * k < y * k <==> x < y,
        x * k == y * k <==> x == y,
{
    assert(x * k <= y * k <==> x <= y) by (nonlinear_arith)
        requires
            k > 0,
    ;
    assert(x * k < y * k <==> x < y) by (nonlinear_arith)
        requires
            k > 0,
    ;
    assert(x * k == y * k <==> x == y) by (nonlinear_arith)
        requires
            k > 0,
    ;
}

/// Cutting the `d` low bits of `s` off leaves the significand of a straddling magnitude, and the
/// bits cut off tell on which side of the middle the quotient lies.
proof fn lemma_cut(s: nat, shift: nat, sticky: bool, a: nat, den: nat, q: nat, rem: nat, d: nat, t: nat)
    requires
        approximates(s, shift, sticky, a, den),
        d >= 1,
        d + shift == 2200 + t,
        s == q * pow2(d) + rem,
        rem < pow2(d),
    ensures
        q * pow2(t) * den <= a < (q + 1) * pow2(t) * den,
        rem < pow2((d - 1) as nat) ==> 2 * a < (2 * q + 1) * pow2(t) * den,
        rem > pow2((d - 1) as nat) ==> 2 * a > (2 * q + 1) * pow2(t) * den,
        rem == pow2((d - 1) as nat) && sticky ==> 2 * a > (2 * q + 1) * pow2(t) * den,
        rem == pow2((d - 1) as nat) && !sticky ==> 2 * a == (2 * q + 1) * pow2(t) * den,
{
    let k = scale() as int;
    let w = pow2(shift) as int;
    let dd = pow2(d) as int;
    let tt = pow2(t) as int;
    let h = pow2((d - 1) as nat) as int;
    let wd = w * den;
    lemma_pow2_pos(2200);
    lemma_pow2_pos(shift);
    lemma_pow2_pos(t);
    lemma_pow2_adds(d, shift);
    lemma_pow2_adds(2200, t);
    lemma_pow2_unfold(d);
    assert(dd == 2 * h);
    assert(dd * w == k * tt);
    assert(wd >= 0) by (nonlinear_arith)
        requires
            wd == w * den,
            w > 0,
            den >= 0,
    ;
    assert(s * w * den == s * wd) by (nonlinear_arith)
        requires
            wd == w * den,
    ;
    assert((s + 1) * w * den == (s + 1) * wd) by (nonlinear_arith)
        requires
            wd == w * den,
    ;
    // Each bound on `a` is compared after multiplication by the scale.
    assert forall|c: int| #[trigger] (c * tt * den) * k == c * dd * wd by {
        assert((c * tt * den) * k == c * dd * wd) by (nonlinear_arith)
            requires
                dd * w == k * tt,
                wd == w * den,
        ;
    }
    assert(q * dd * wd <= s * wd) by (nonlinear_arith)
        requires
            s == q * dd + rem,
            rem >= 0,
            wd >= 0,
    ;
    assert((s + 1) * wd <= (q + 1) * dd * wd) by (nonlinear_arith)
        requires
            s == q * dd + rem,
            rem < dd,
            wd >= 0,
    ;
    assert((q * tt * den) * k == q * dd * wd);
    assert(((q + 1) * tt * den) * k == (q + 1) * dd * wd);
    lemma_cancel(q * tt * den, a as int, k);
    lemma_cancel(a as int, (q + 1) * tt * den, k);
    assert(((2 * q + 1) * tt * den) * k == (2 * q + 1) * dd * wd);
    lemma_cancel(2 * a as int, (2 * q + 1) * tt * den, k);
    lemma_cancel((2 * q + 1) * tt * den, 2 * a as int, k);
    let middle = q * dd + h;
    assert((2 * q + 1) * dd * wd == 2 * (middle * wd)) by (nonlinear_arith)
        requires
            middle == q * dd + h,
            dd == 2 * h,
    ;
    assert((2 * a) * k == 2 * (a * k)) by (nonlinear_arith);
    if rem < h {
        assert((s + 1) * wd <= middle * wd) by (nonlinear_arith)
            requires
                s + 1 <= middle,
                wd >= 0,
        ;
    } else if rem > h {
        assert(wd > 0) by (nonlinear_arith)
            requires
                s * wd < (s + 1) * wd,
        ;
        assert(middle * wd < s * wd) by (nonlinear_arith)
            requires
                s > middle,
                wd > 0,
        ;
    } else {
        assert(s == middle);
    }
}

/// A significand that needs no cut is the quotient itself.
proof fn lemma_exact(s: nat, shift: nat, a: nat, den: nat, q: nat, up: nat, t: nat)
    requires
        approximates(s, shift, false, a, den),
        shift == 2200 + t + up,
        q == s * pow2(up),
    ensures
        a == q * pow2(t) * den,
{
    let k = scale() as int;
    let w = pow2(shift) as int;
    let uu = pow2(up) as int;
    let tt = pow2(t) as int;
    lemma_pow2_pos(2200);
    lemma_pow2_adds(2200, t);
    lemma_pow2_adds(2200 + t, up);
    assert(w == k * tt * uu);
    assert((q * tt * den) * k == s * w * den) by (nonlinear_arith)
        requires
            w == k * tt * uu,
            q == s * uu,
    ;
    lemma_cancel(a as int, q * tt * den, k);
}

/// The quotient of a division by a power of two, bounded by powers of two.
proof fn lemma_quotient_bounds(s: nat, d: nat, q: nat, rem: nat)
    requires
        s == q * pow2(d) + rem,
        rem < pow2(d),
        s < pow2(d + 53),
    ensures
        q < 2 * FRACTIONS,
        pow2(d + 52) <= s ==> q >= FRACTIONS,
{
    lemma2_to64_rest();
    lemma_pow2_adds(d, 53);
    lemma_pow2_adds(d, 52);
    lemma_pow2_pos(d);
    let dd = pow2(d) as int;
    assert(q < 0x20_0000_0000_0000) by (nonlinear_arith)
        requires
            s == q * dd + rem,
            rem >= 0,
            s < dd * 0x20_0000_0000_0000,
            dd > 0,
    ;
    if pow2(d + 52) <= s {
        assert(q >= 0x10_0000_0000_0000) by (nonlinear_arith)
            requires
                s == q * dd + rem,
                rem < dd,
                s >= dd * 0x10_0000_0000_0000,
                dd > 0,
        ;
    }
}

/// The magnitude nearest to the quotient `a / den`, from an approximation of it.
pub(crate) fn round_magnitude(
    s: u128,
    shift: u64,
    sticky: bool,
    Ghost(a): Ghost<nat>,
    Ghost(den): Ghost<nat>,
) -> (m: u64)
    requires
        0 < s < 0x100_0000_0000_0000_0000_0000_0000_0000,
        sticky ==> s >= 0x1000_0000_0000_0000,
        shift <= 6000,
        den > 0,
        approximates(s as nat, shift as nat, sticky, a, den),
    ensures
        m == nearest_magnitude(a, den),
        m <= INFINITE,
{
    let length: u64 = bit_length(s);
    let t: u64 = if length + shift > 2253 {
        length + shift - 2253
    } else {
        0
    };
    proof {
        lemma2_to64();
        lemma2_to64_rest();
        if length < 61 {
            if length < 60 {
                lemma_pow2_strictly_increases(length as nat, 60);
            }
        }
    }
    if 2200 + t > shift {
        let d: u64 = 2200 + t - shift;
        let q: u64;
        let upper: bool;
        if d <= 126 {
            let cut: u128 = power_of_two(d);
            let half: u128 = power_of_two(d - 1);
            let quotient: u128 = s / cut;
            let rem: u128 = s % cut;
            proof {
                lemma_fundamental_div_mod(s as int, cut as int);
                assert(cut as int * (s as int / cut as int) == quotient as nat * pow2(d as nat))
                    by (nonlinear_arith)
                    requires
                        cut == pow2(d as nat),
                        quotient == s as int / cut as int,
                ;
                if length < d + 53 {
                    lemma_pow2_strictly_increases(length as nat, (d + 53) as nat);
                }
                lemma_quotient_bounds(s as nat, d as nat, quotient as nat, rem as nat);
                lemma_cut(
                    s as nat,
                    shift as nat,
                    sticky,
                    a,
                    den,
                    quotient as nat,
                    rem as nat,
                    d as nat,
                    t as nat,
                );
            }
            q = quotient as u64;
            upper = rem > half || (rem == half && (sticky || q % 2 == 1));
        } else {
            proof {
                assert(0 * pow2(d as nat) == 0);
                lemma_pow2_strictly_increases(length as nat, (d - 1) as nat);
                lemma_pow2_unfold(d as nat);
                lemma_cut(
                    s as nat,
                    shift as nat,
                    sticky,
                    a,
                    den,
                    0,
                    s as nat,
                    d as nat,
                    t as nat,
                );
            }
            q = 0;
            upper = false;
        }
        proof {
            lemma_packed(q as nat, t as nat);
        }
        let ghost m0 = t as nat * (FRACTIONS as nat) + q as nat;
        proof {
            let u = magnitude_units(m0);
            let v = magnitude_units(m0 + 1);
            let tt = pow2(t as nat) as int;
            assert((u + v) * den == (2 * q + 1) * tt * den) by (nonlinear_arith)
                requires
                    u == q * tt,
                    v == (q + 1) * tt,
            ;
            lemma_nearest(a, den, m0);
            assert(m0 % 2 == q as nat % 2) by (nonlinear_arith)
                requires
                    m0 == t as nat * 0x10_0000_0000_0000 + q as nat,
            ;
        }
        finish(t, q, upper)
    } else {
        let up: u64 = shift - 2200 - t;
        let ghost m0: nat;
        let factor: u128;
        proof {
            assert(length <= 53);
            assert(!sticky);
        }
        factor = power_of_two(up);
        proof {
            lemma_pow2_adds(up as nat, length as nat);
            lemma_pow2_adds(up as nat, (length - 1) as nat);
            if up + length < 53 {
                lemma_pow2_strictly_increases((up + length) as nat, 53);
            }
            assert(s * factor < 0x20_0000_0000_0000) by (nonlinear_arith)
                requires
                    s < pow2(length as nat),
                    factor > 0,
                    factor * pow2(length as nat) <= 0x20_0000_0000_0000,
            ;
            if t > 0 {
                assert(s * factor >= 0x10_0000_0000_0000) by (nonlinear_arith)
                    requires
                        s >= pow2((length - 1) as nat),
                        factor > 0,
                        factor * pow2((length - 1) as nat) >= 0x10_0000_0000_0000,
                ;
            }
        }
        let q: u64 = (s * factor) as u64;
        proof {
            lemma_exact(s as nat, shift as nat, a, den, q as nat, up as nat, t as nat);
            lemma_packed(q as nat, t as nat);
            m0 = t as nat * (FRACTIONS as nat) + q as nat;
            let u = magnitude_units(m0);
            let v = magnitude_units(m0 + 1);
            let tt = pow2(t as nat) as int;
            lemma_pow2_pos(t as nat);
            assert(u * den <= a < v * den && 2 * a < (u + v) * den) by (nonlinear_arith)
                requires
                    u == q * tt,
                    v == (q + 1) * tt,
                    a == q * tt * den,
                    tt > 0,
                    den > 0,
            ;
            lemma_nearest(a, den, m0);
        }
        finish(t, q, false)
    }
}

/// The magnitude at significand `q` and exponent step `t`, or the next one, held at the
/// infinities.
fn finish(t: u64, q: u64, upper: bool) -> (m: u64)
    requires
        t <= 6000,
        q < 2 * FRACTIONS,
    ensures
        ({
            let m0 = t as nat * (FRACTIONS as nat) + q as nat;
            m == if m0 >= INFINITE {
                INFINITE as nat
            } else if upper {
                m0 + 1
            } else {
                m0
            }
        }),
{
    let base: u128 = t as u128 * 0x10_0000_0000_0000 + q as u128;
    if base >= INFINITE as u128 {
        INFINITE
    } else if upper {
        base as u64 + 1
    } else {
        base as u64
    }
}

} // verus!
