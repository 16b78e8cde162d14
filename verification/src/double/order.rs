//! The order of doubles.

use crate::double::constants::ONE;
use crate::double::{lemma_units_grow, Double, FRACTIONS};
use vstd::arithmetic::div_mod::{lemma_fundamental_div_mod, lemma_mod_bound};
use vstd::arithmetic::power2::{lemma2_to64_rest, lemma_pow2_adds, lemma_pow2_pos, pow2};
use vstd::prelude::*;

verus! {

/// The value of the double 1, in units.
pub proof fn lemma_one()
    ensures
        (Double { bits: ONE }).units() == pow2(1074),
        pow2(1074) > 0,
{
    let m = ONE as nat;
    assert(m / (FRACTIONS as nat) == 1023 && m % (FRACTIONS as nat) == 0);
    lemma2_to64_rest();
    lemma_pow2_adds(52, 1022);
    lemma_pow2_pos(1074);
}

/// A positive double with the smaller word is the smaller number.
pub proof fn lemma_words(a: u64, b: u64)
    requires
        a < b,
        b <= 0x7ff0_0000_0000_0000,
    ensures
        (Double { bits: a }).below(Double { bits: b }),
{
    lemma_units_grow(a as nat, b as nat);
}

/// The order of doubles is strict and transitive, and of two numbers that are not equal in value
/// one is below the other.
pub proof fn law_order(a: Double, b: Double, c: Double)
    ensures
        !a.below(a),
        a.below(b) ==> !b.below(a),
        a.below(b) && b.below(c) ==> a.below(c),
        !a.nan() && !b.nan() ==> (a.at_most(b) <==> !b.below(a)),
        a.at_most(b) && b.at_most(c) ==> a.at_most(c),
        a.at_most(b) && b.below(c) ==> a.below(c),
{
}

/// The smaller of two numbers is no greater than either, and the greater one no smaller; both
/// ignore what is no number.
pub proof fn law_bounds(a: Double, b: Double)
    requires
        !a.nan(),
        !b.nan(),
    ensures
        a.lesser(b).at_most(a) && a.lesser(b).at_most(b),
        a.at_most(a.greater(b)) && b.at_most(a.greater(b)),
{
}

/// A number that is at least one is rounded up to at least one.
pub proof fn lemma_at_least_one(x: Double, most: nat)
    requires
        (Double { bits: ONE }).at_most(x),
        most >= 1,
    ensures
        x.whole_up(most) >= 1,
{
    lemma_one();
    let p = pow2(1074) as int;
    let up = (x.units() + p - 1) / p;
    assert(up >= 1) by (nonlinear_arith)
        requires
            p > 0,
            x.units() >= p,
            up == (x.units() + p - 1) / p,
    ;
}

/// The smaller and the greater of two numbers are these two numbers; what is no number is passed
/// over.
pub proof fn law_bounds_are_met(a: Double, b: Double)
    ensures
        a.lesser(b) == a || a.lesser(b) == b,
        a.greater(b) == a || a.greater(b) == b,
        a.below(b) ==> a.lesser(b) == a && a.greater(b) == b,
        b.below(a) ==> a.lesser(b) == b && a.greater(b) == a,
        a.nan() ==> a.lesser(b) == b && a.greater(b) == b,
        b.nan() ==> a.lesser(b) == a || a.nan(),
        b.nan() ==> a.greater(b) == a || a.nan(),
{
}

/// The whole part of a number is not above it, and one more is; it is held between zero and the
/// greatest value. The number rounded up is not below it, and one less is.
pub proof fn law_whole_parts(x: Double, most: nat)
    requires
        !x.nan(),
    ensures
        x.whole(most) <= most,
        x.units() <= 0 ==> x.whole(most) == 0 && x.whole_up(most) == 0,
        x.units() > 0 ==> x.whole(most) * pow2(1074) <= x.units(),
        x.units() > 0 && x.whole(most) < most ==> x.units() < (x.whole(most) + 1) * pow2(1074),
        x.units() > 0 && x.units() <= most * pow2(1074) ==> x.units() <= x.whole_up(most) * pow2(1074),
        x.units() > 0 && x.whole_up(most) > 0 ==> (x.whole_up(most) - 1) * pow2(1074) < x.units(),
{
    lemma_pow2_pos(1074);
    let (u, p) = (x.units(), pow2(1074) as int);
    let (low, up) = (u / p, (u + p - 1) / p);
    lemma_fundamental_div_mod(u, p);
    lemma_mod_bound(u, p);
    lemma_fundamental_div_mod(u + p - 1, p);
    lemma_mod_bound(u + p - 1, p);
    assert(p * low == low * p && p * up == up * p) by (nonlinear_arith);
    assert((low + 1) * p == low * p + p && (up - 1) * p == up * p - p) by (nonlinear_arith);
    if u > 0 {
        assert(low >= 0) by (nonlinear_arith)
            requires
                (low + 1) * p > 0,
                p > 0,
        ;
        assert(most < low ==> most * p <= low * p) by (nonlinear_arith)
            requires
                p > 0,
        ;
        assert(most < up ==> (most - 1) * p <= (up - 1) * p && most * p <= (up - 1) * p) by (nonlinear_arith)
            requires
                p > 0,
        ;
    }
}

} // verus!
