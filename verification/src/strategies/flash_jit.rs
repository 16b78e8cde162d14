//! Liquidity for a single swap: it is lent to a pool just before a large swap and taken back just
//! after.

use crate::config::Config;
use crate::double::arithmetic::{distance, from_u128, nearest_to_integer};
use crate::double::chain::{
    law_one_is_neutral, law_product_error, law_product_grows_with_factors, law_quotient_error, law_zero_absorbs,
    lemma_error_adds, lemma_positive, lemma_whole_is_within, positive, reach, within,
};
use crate::double::constants::{ETHER, MILLION, ONE, TEN};
use crate::double::error::precision;
use crate::double::exact::{
    countable, law_constants, law_less_nothing, law_nothing_is_shared, law_nothing_more, law_own_share,
    law_quotient_grows, law_taking_less, law_whole_product, lemma_determined, lemma_ether_is_within,
};
use crate::double::growth::{
    amount, law_conversion_is_monotone, law_difference_is_monotone, law_product_commutes,
    law_product_is_monotone, law_product_shrinks, law_quotient_falls, law_quotient_shrinks,
    law_share_is_at_most_one, law_sum_grows, law_sum_is_monotone, lemma_infinity_is_greatest,
    lemma_integer_is_amount, lemma_integer_is_exact, lemma_less_nothing, lemma_nothing_shared,
    lemma_nothing_times, lemma_product_of_amounts, lemma_rounding_is_monotone, lemma_unsigned,
};
use crate::double::order::{lemma_one, lemma_words};
use crate::double::{lemma_units_grow, lemma_units_zero, Double, FRACTIONS, INFINITE};
use crate::monitoring::metrics::{after_trade, record_trade, Metrics};
use crate::shared::address::{all_zero, is_zero_address, Address};
use crate::shared::addresses::Addresses;
use crate::shared::flash_loan::calldata::router_known;
use crate::shared::flash_loan::jit::{JitPosition, RangePrice};
use crate::shared::flash_loan::{provider_for, shares_fit, FlashError, FlashLoanRouter, FlashProvider};
use crate::shared::market::{Balances, DexType, PendingSwap};
use crate::shared::submission::{
    build_bundle, next_nonce, Bundle, SignRequest, SubmissionPipeline, BUNDLE_GAS,
};
use crate::u256::U256;
use vstd::arithmetic::power2::{
    lemma2_to64, lemma2_to64_rest, lemma_pow2_adds, lemma_pow2_pos, lemma_pow2_strictly_increases, pow2,
};
use vstd::prelude::*;

verus! {

/// The double 580000: the gas that the strategy takes.
pub const JIT_GAS: u64 = 0x4121_b340_0000_0000;

/// The double 0.01: the share of a swap that stands for the own liquidity.
pub const LIQUIDITY_SHARE: u64 = 0x3f84_7ae1_47ae_147b;

/// A tick, rounded to the spacing of its pool in both directions.
#[derive(Clone, Copy, Debug)]
pub struct RoundedTick {
    pub floor: i32,
    pub ceil: i32,
}

/// A range of ticks.
#[derive(Clone, Copy, Debug, PartialEq, Eq, Structural)]
pub struct TickRange {
    pub lower: i32,
    pub upper: i32,
}

/// The range that a swap moves the price through, between its tick now and the one it ends at.
pub open spec fn swap_range(zero_for_one: bool, ending: RoundedTick, current: RoundedTick) -> TickRange {
    if zero_for_one {
        TickRange { lower: ending.floor, upper: current.ceil }
    } else {
        TickRange { lower: current.floor, upper: ending.ceil }
    }
}

/// A swap of the first token moves the price down, and one of the second token up: the range goes
/// from the lower of its two ticks, rounded down, to the upper one, rounded up. So it holds both
/// ticks, and a swap that goes back moves through the same range.
pub proof fn law_range_holds_the_swap(zero_for_one: bool, ending: RoundedTick, current: RoundedTick)
    requires
        ending.floor <= ending.ceil,
        current.floor <= current.ceil,
        zero_for_one ==> ending.floor <= current.floor && ending.ceil <= current.ceil,
        !zero_for_one ==> current.floor <= ending.floor && current.ceil <= ending.ceil,
    ensures
        ({
            let range = swap_range(zero_for_one, ending, current);
            &&& range.lower <= ending.floor && range.lower <= current.floor
            &&& ending.ceil <= range.upper && current.ceil <= range.upper
            &&& range.lower == ending.floor || range.lower == current.floor
            &&& range.upper == ending.ceil || range.upper == current.ceil
            &&& range == swap_range(!zero_for_one, current, ending)
        }),
{
}

/// The range that a swap moves the price through; an empty one is an error.
pub fn tick_range(zero_for_one: bool, ending: RoundedTick, current: RoundedTick) -> (r: Result<
    TickRange,
    TickRange,
>)
    ensures
        r is Ok <==> swap_range(zero_for_one, ending, current).lower < swap_range(
            zero_for_one,
            ending,
            current,
        ).upper,
        r matches Ok(range) ==> range == swap_range(zero_for_one, ending, current),
        r matches Err(range) ==> range == swap_range(zero_for_one, ending, current),
{
    let range: TickRange = if zero_for_one {
        TickRange { lower: ending.floor, upper: current.ceil }
    } else {
        TickRange { lower: current.floor, upper: ending.ceil }
    };
    if range.lower >= range.upper {
        Err(range)
    } else {
        Ok(range)
    }
}

/// The share of a swap's fees that goes to the own liquidity: it is diluted by what is there.
pub open spec fn fee_share(amount_usd: Double, existing: nat) -> Double {
    let own = amount_usd.times(Double { bits: LIQUIDITY_SHARE });
    let all = nearest_to_integer(existing).plus(own);
    if (Double { bits: 0 }).below(all) {
        own.over(all)
    } else {
        Double { bits: ONE }
    }
}

/// The gas that the strategy takes, with the safety margin.
pub open spec fn jit_gas(margin: Double) -> nat {
    (Double { bits: JIT_GAS }).times(margin).whole(u64::MAX as nat)
}

/// What some gas costs in dollars.
pub open spec fn gas_cost(gas: nat, gas_price_wei: nat, eth_price: Double) -> Double {
    nearest_to_integer(gas).times(nearest_to_integer(gas_price_wei)).over(Double { bits: ETHER }).times(
        eth_price,
    )
}

/// The profit of serving a swap: its fees as far as they are captured, less the loan, which is
/// free, and less the gas.
pub open spec fn expected_profit(
    swap: PendingSwap,
    margin: Double,
    existing: nat,
    gas_price_wei: nat,
    eth_price: Double,
) -> Double {
    let tier = nearest_to_integer(swap.fee as nat).over(Double { bits: MILLION });
    swap.amount_usd.times(tier).times(fee_share(swap.amount_usd, existing)).minus(
        Double { bits: 0 },
    ).minus(gas_cost(jit_gas(margin), gas_price_wei, eth_price))
}

/// Whether a profit is too small for the strategy, or for any trade.
pub open spec fn too_little(profit: Double, cfg: Config) -> bool {
    profit.below(cfg.min_jit_profit_usd) || profit.below(cfg.min_profit_usd)
}

/// A swap is served if and only if its profit reaches both floors; a greater profit then is too.
pub proof fn law_profit_reaches_both_floors(profit: Double, greater: Double, cfg: Config)
    requires
        !cfg.min_jit_profit_usd.nan(),
        !cfg.min_profit_usd.nan(),
        profit.at_most(greater),
    ensures
        !too_little(profit, cfg) <==> cfg.min_jit_profit_usd.at_most(profit)
            && cfg.min_profit_usd.at_most(profit),
        !too_little(profit, cfg) ==> !too_little(greater, cfg),
{
}

/// Whether a pending swap is passed over: it is smaller than ten times the least swap, or its pool
/// is not known.
pub open spec fn passed_over(swap: PendingSwap, cfg: Config) -> bool {
    swap.amount_usd.below(cfg.jit_min_swap_usd.times(Double { bits: TEN })) || all_zero(swap.pool@)
}

/// A swap of a known pool is looked at if and only if it reaches ten times the least swap; one
/// whose pool is the zero address never is.
pub proof fn law_small_swaps_are_passed_over(swap: PendingSwap, cfg: Config, least: nat)
    requires
        !swap.amount_usd.nan(),
        least <= 1_000_000_000,
        cfg.jit_min_swap_usd == nearest_to_integer(least),
    ensures
        passed_over(swap, cfg) <==> {
            ||| swap.amount_usd.below(nearest_to_integer(10 * least))
            ||| forall|i: int| 0 <= i < 20 ==> #[trigger] swap.pool@[i] == 0
        },
{
    law_constants();
    law_whole_product(least, 10);
    assert(swap.pool@.len() == 20);
}

/// The profit of serving a swap, where it is large enough for the strategy and for any trade; the
/// liquidity in the range and the price of gas are told by the chain.
pub fn worthwhile_profit(
    swap: &PendingSwap,
    cfg: &Config,
    in_range_liq: U256,
    gas_price_wei: u128,
    eth_price: Double,
) -> (r: Option<Double>)
    requires
        in_range_liq@ <= u128::MAX,
    ensures
        ({
            let profit = expected_profit(
                *swap,
                cfg.gas_estimate_safety_margin,
                in_range_liq@,
                gas_price_wei as nat,
                eth_price,
            );
            r == if too_little(profit, *cfg) {
                None
            } else {
                Some(profit)
            }
        }),
{
    let zero: Double = Double { bits: 0 };
    let tier: Double = from_u128(swap.fee as u128).div(Double { bits: MILLION });
    let own: Double = swap.amount_usd.mul(Double { bits: LIQUIDITY_SHARE });
    let existing: Double = from_u128(in_range_liq.as_u128());
    let all: Double = existing.add(own);
    let share: Double = if zero.is_below(all) {
        own.div(all)
    } else {
        Double { bits: ONE }
    };
    let fees: Double = swap.amount_usd.mul(tier).mul(share);
    let gas: u64 = Double { bits: JIT_GAS }.mul(cfg.gas_estimate_safety_margin).to_u64();
    let cost: Double = from_u128(gas as u128).mul(from_u128(gas_price_wei)).div(
        Double { bits: ETHER },
    ).mul(eth_price);
    let profit: Double = fees.sub(zero).sub(cost);
    if profit.is_below(cfg.min_jit_profit_usd) || profit.is_below(cfg.min_profit_usd) {
        None
    } else {
        Some(profit)
    }
}

/// The gas of the strategy is 580000, times the safety margin; a greater margin is no less gas.
pub proof fn law_gas_has_a_margin(times: nat, margin: Double, greater: Double)
    requires
        times <= 1_000_000_000,
        amount(margin),
        amount(greater),
        margin.at_most(greater),
    ensures
        jit_gas(nearest_to_integer(times)) == 580_000 * times,
        jit_gas(margin) <= jit_gas(greater),
{
    let gas = Double { bits: JIT_GAS };
    lemma_one();
    let p = pow2(1074) as int;
    lemma_jit_gas();
    law_whole_product(580_000, times);
    lemma_integer_is_exact(580_000 * times);
    let n = (580_000 * times) as int;
    assert((n * p) / p == n && (n > 0 ==> n * p > 0) && (n == 0 ==> n * p == 0)) by (nonlinear_arith)
        requires
            p > 0,
            n >= 0,
    ;
    law_product_is_monotone(gas, margin, greater);
    lemma_product_of_amounts(gas, margin);
    lemma_product_of_amounts(gas, greater);
    let (u, v) = (gas.times(margin).units(), gas.times(greater).units());
    assert(u <= v ==> u / p <= v / p) by (nonlinear_arith)
        requires
            p > 0,
    ;
}

/// The gas of the strategy is a whole number.
proof fn lemma_jit_gas()
    ensures
        nearest_to_integer(580_000) == (Double { bits: JIT_GAS }),
        amount(Double { bits: JIT_GAS }),
{
    let m = JIT_GAS as nat;
    assert(m / (FRACTIONS as nat) == 1042);
    assert(FRACTIONS as nat + m % (FRACTIONS as nat) == 580_000 * 0x2_0000_0000);
    lemma2_to64_rest();
    lemma_pow2_adds(33, 1041);
    let (a, b) = (pow2(33), pow2(1041));
    assert((580_000 * a) * b == 580_000 * (a * b)) by (nonlinear_arith);
    lemma_integer_is_exact(580_000);
    lemma_determined(nearest_to_integer(580_000), Double { bits: JIT_GAS });
}

/// What some gas costs is the gas times its price in ether times the price of an ether, up to the
/// rounding of three operations. Values are counted in units, of which one has two to the power
/// 1074, and an ether has 10 to the power 18 wei.
pub proof fn law_gas_cost_is_the_product(gas: nat, gas_price_wei: nat, eth_price: Double)
    requires
        0 < gas < countable(),
        0 < gas_price_wei < countable(),
        within(eth_price, 100),
    ensures
        ({
            let one = pow2(1074) as int;
            let wei = 1_000_000_000_000_000_000 * one;
            let exact = ((gas * one) * (gas_price_wei * one)) * one * eth_price.units();
            let scaled = (gas_cost(gas, gas_price_wei, eth_price).units() * one) * (wei * one);
            -(6 * exact) <= (scaled - exact) * precision() <= 6 * exact
        }),
{
    lemma_one();
    let one = pow2(1074) as int;
    let (g, w) = (nearest_to_integer(gas), nearest_to_integer(gas_price_wei));
    let ether = Double { bits: ETHER };
    lemma_whole_is_within(gas);
    lemma_whole_is_within(gas_price_wei);
    lemma_ether_is_within();
    let r1 = g.times(w);
    let r2 = r1.over(ether);
    let r3 = r2.times(eth_price);
    law_product_error(g, w, 100);
    law_quotient_error(r1, ether, 200);
    law_product_error(r2, eth_price, 300);
    let exact = (gas * one) * (gas_price_wei * one);
    let wei = ether.units();
    assert(exact >= 0) by (nonlinear_arith)
        requires
            exact == (gas * one) * (gas_price_wei * one),
            one > 0,
            gas > 0,
            gas_price_wei > 0,
    ;
    lemma_error_adds(r1.units(), exact, one, r2.units() * wei, one, 2);
    assert((r2.units() * wei) * one == r2.units() * (wei * one)) by (nonlinear_arith);
    assert(exact * one >= 0 && wei * one >= 0) by (nonlinear_arith)
        requires
            exact >= 0,
            one > 0,
            wei > 0,
    ;
    lemma_error_adds(
        r2.units(),
        exact * one,
        eth_price.units(),
        r3.units() * one,
        wei * one,
        4,
    );
}

/// Dearer gas does not cost less, and a dearer ether not either; no gas costs nothing.
pub proof fn law_gas_cost_grows(
    gas: nat,
    more: nat,
    gas_price_wei: nat,
    dearer: nat,
    eth_price: Double,
    higher: Double,
)
    requires
        gas <= more <= u64::MAX,
        0 < gas_price_wei <= dearer <= u128::MAX,
        positive(eth_price),
        positive(higher),
        eth_price.at_most(higher),
    ensures
        gas_cost(gas, gas_price_wei, eth_price).at_most(gas_cost(more, dearer, higher)),
        reach(gas_cost(gas, gas_price_wei, eth_price)),
        gas == 0 ==> gas_cost(gas, gas_price_wei, eth_price).zero(),
{
    let ether = Double { bits: ETHER };
    let (g, h) = (nearest_to_integer(gas), nearest_to_integer(more));
    let (w, d) = (nearest_to_integer(gas_price_wei), nearest_to_integer(dearer));
    lemma_integer_is_amount(gas);
    lemma_integer_is_amount(more);
    lemma_integer_is_amount(gas_price_wei);
    lemma_integer_is_amount(dearer);
    law_conversion_is_monotone(gas, more);
    law_conversion_is_monotone(1, gas_price_wei);
    law_conversion_is_monotone(gas_price_wei, dearer);
    lemma_integer_is_exact(1);
    lemma_one();
    lemma_positive(w);
    lemma_positive(d);
    law_product_grows_with_factors(g, h, w, d);
    law_quotient_grows(g.times(w), h.times(d), ether);
    law_product_grows_with_factors(
        g.times(w).over(ether),
        h.times(d).over(ether),
        eth_price,
        higher,
    );
    if gas == 0 {
        lemma_integer_is_exact(0);
        law_zero_absorbs(g, w);
        law_nothing_is_shared(g.times(w), ether);
        law_zero_absorbs(g.times(w).over(ether), eth_price);
    }
}

/// Without other liquidity in the range all fees of a swap are captured.
pub proof fn law_alone_captures_all(amount_usd: Double)
    requires
        within(amount_usd, 100),
    ensures
        fee_share(amount_usd, 0) == (Double { bits: ONE }),
{
    let own = amount_usd.times(Double { bits: LIQUIDITY_SHARE });
    lemma_words(LIQUIDITY_SHARE, ONE);
    lemma_share_is_within();
    law_product_error(amount_usd, Double { bits: LIQUIDITY_SHARE }, 100);
    lemma_pow2_pos(874);
    lemma_positive(own);
    lemma_integer_is_exact(0);
    law_nothing_more(nearest_to_integer(0), own);
    lemma_units_zero(0);
    law_own_share(own);
}

/// The share that stands for the own liquidity is of a moderate size.
proof fn lemma_share_is_within()
    ensures
        within(Double { bits: LIQUIDITY_SHARE }, 100),
{
    let m = LIQUIDITY_SHARE as nat;
    assert(m / (FRACTIONS as nat) == 1016);
    lemma_one();
    lemma_pow2_adds(100, 1074);
    lemma_pow2_pos(100);
    lemma_pow2_pos(1015);
    lemma_pow2_strictly_increases(974, 1015);
    lemma_words(LIQUIDITY_SHARE, ONE);
    let (p, h, q) = (pow2(1074), pow2(100), pow2(1015));
    assert(p <= h * p) by (nonlinear_arith)
        requires
            h > 0,
    ;
    let f = FRACTIONS as nat + m % (FRACTIONS as nat);
    assert(q <= f * q) by (nonlinear_arith)
        requires
            f > 0,
    ;
}

/// Higher costs do not raise the profit of serving a swap, and a higher fee of the pool does not
/// lower it.
pub proof fn law_profit_is_fees_less_gas(
    swap: PendingSwap,
    other: PendingSwap,
    margin: Double,
    existing: nat,
    gas_price_wei: nat,
    cheaper: nat,
    eth_price: Double,
)
    requires
        within(swap.amount_usd, 100),
        other.amount_usd == swap.amount_usd,
        swap.fee <= other.fee,
        existing <= u128::MAX,
        0 < cheaper <= gas_price_wei <= u128::MAX,
        positive(eth_price),
        ({
            let cost = gas_cost(jit_gas(margin), gas_price_wei, eth_price);
            amount(cost)
        }),
    ensures
        ({
            let p = expected_profit(swap, margin, existing, gas_price_wei, eth_price);
            let q = expected_profit(other, margin, existing, cheaper, eth_price);
            !p.nan() && !q.nan() ==> p.at_most(q)
        }),
{
    let (zero, a, million) = (Double { bits: 0 }, swap.amount_usd, Double { bits: MILLION });
    let gas = jit_gas(margin);
    lemma_one();
    let (u, one) = ((Double { bits: JIT_GAS }).times(margin).units(), pow2(1074) as int);
    assert(u > 0 ==> u / one >= 0) by (nonlinear_arith)
        requires
            one > 0,
    ;
    let (cost, less) = (gas_cost(gas, gas_price_wei, eth_price), gas_cost(gas, cheaper, eth_price));
    law_gas_cost_grows(gas, gas, cheaper, gas_price_wei, eth_price, eth_price);
    lemma_infinity_is_greatest(less, cost);
    let (n, k) = (nearest_to_integer(swap.fee as nat), nearest_to_integer(other.fee as nat));
    lemma_integer_is_amount(swap.fee as nat);
    lemma_integer_is_amount(other.fee as nat);
    law_conversion_is_monotone(swap.fee as nat, other.fee as nat);
    lemma_words(ONE, MILLION);
    law_quotient_shrinks(n, million);
    law_quotient_shrinks(k, million);
    law_quotient_grows(n, k, million);
    let (x, y) = (n.over(million), k.over(million));
    law_product_is_monotone(a, x, y);
    lemma_share_is_amount(a, existing);
    let share = fee_share(a, existing);
    lemma_product_of_amounts(a, x);
    lemma_product_of_amounts(a, y);
    let (g, h) = (a.times(x), a.times(y));
    let (f, e) = (g.times(share), h.times(share));
    if !(f.nan()) && !(e.nan()) {
        assert(f.at_most(e) && reach(f) && reach(e)) by {
            if share.magnitude() == 0 {
                reveal(Double::times);
                lemma_units_zero(0);
                lemma_units_zero(INFINITE as nat);
                law_zero_absorbs(g, share);
                law_zero_absorbs(h, share);
            } else {
                law_product_grows_with_factors(g, h, share, share);
            }
        }
        lemma_less_nothing(f);
        lemma_less_nothing(e);
        law_difference_is_monotone(f, e, zero, zero);
        law_difference_is_monotone(f.minus(zero), e.minus(zero), cost, zero);
        law_taking_less(e.minus(zero), less, cost);
    } else {
        reveal(Double::minus);
        reveal(Double::plus);
    }
}

/// A swap that is served alone, with gas that costs nothing, brings its size times its fee, which
/// is told in millionths, up to the rounding of two operations. Values are counted in units, of
/// which one has two to the power 1074.
pub proof fn law_fees_of_a_lone_swap(swap: PendingSwap, gas_price_wei: nat, eth_price: Double)
    requires
        within(swap.amount_usd, 100),
        swap.fee > 0,
        0 < gas_price_wei <= u128::MAX,
        positive(eth_price),
    ensures
        ({
            let one = pow2(1074) as int;
            let exact = (swap.fee * one) * one * swap.amount_usd.units();
            let profit = expected_profit(swap, Double { bits: 0 }, 0, gas_price_wei, eth_price);
            let scaled = (profit.units() * one) * (1_000_000 * one);
            -(4 * exact) <= (scaled - exact) * precision() <= 4 * exact
        }),
{
    let (zero, million, a) = (Double { bits: 0 }, Double { bits: MILLION }, swap.amount_usd);
    lemma_one();
    let one = pow2(1074) as int;
    let f = nearest_to_integer(swap.fee as nat);
    lemma_whole_is_within(swap.fee as nat);
    lemma_whole_is_within(1_000_000);
    law_constants();
    law_quotient_error(f, million, 100);
    let tier = f.over(million);
    law_product_error(tier, a, 200);
    law_product_commutes(tier, a);
    let fees = a.times(tier);
    law_alone_captures_all(a);
    law_one_is_neutral(fees);
    lemma_jit_gas();
    lemma_units_zero(0);
    law_zero_absorbs(Double { bits: JIT_GAS }, zero);
    assert(jit_gas(zero) == 0);
    law_gas_cost_grows(0, 0, gas_price_wei, gas_price_wei, eth_price, eth_price);
    let cost = gas_cost(0, gas_price_wei, eth_price);
    lemma_units_zero(cost.magnitude());
    lemma_pow2_pos(774);
    lemma_positive(fees);
    law_less_nothing(fees, zero);
    law_less_nothing(fees, cost);
    let (u, m) = (f.units(), million.units());
    assert(u * one >= 0 && u > 0) by (nonlinear_arith)
        requires
            u == swap.fee * one,
            one > 0,
            swap.fee > 0,
    ;
    lemma_error_adds(tier.units(), u * one, a.units(), fees.units() * one, m, 2);
}

/// The captured share of the fees, times all liquidity of the range with the own one, is the own
/// liquidity, up to the rounding of one quotient.
pub proof fn law_share_is_the_own_part(amount_usd: Double, existing: nat, own: Double, all: Double)
    requires
        own == amount_usd.times(Double { bits: LIQUIDITY_SHARE }),
        all == nearest_to_integer(existing).plus(own),
        within(own, 200),
        within(all, 100),
    ensures
        ({
            let exact = own.units() * pow2(1074);
            -exact <= (fee_share(amount_usd, existing).units() * all.units() - exact) * precision()
                <= exact
        }),
{
    lemma_pow2_pos(974);
    lemma_units_zero(0);
    law_quotient_error(own, all, 200);
}

/// The position that serves a swap.
pub open spec fn serving_position(swap: PendingSwap, range: TickRange) -> JitPosition {
    JitPosition {
        t0: swap.token_in,
        t1: swap.token_out,
        fee: swap.fee,
        tick_lower: range.lower,
        tick_upper: range.upper,
        amount: swap.amount_in,
        zfo: swap.zero_for_one,
    }
}

/// The position that serves a swap is in the pool of the swap: in its tokens, its fee and its
/// range, with the amount and the direction of the swap. What is borrowed is what the swap gives.
pub proof fn law_position_serves_the_swap(swap: PendingSwap, range: TickRange)
    ensures
        ({
            let position = serving_position(swap, range);
            &&& position.t0 == swap.token_in && position.t1 == swap.token_out
            &&& position.fee == swap.fee && position.amount == swap.amount_in
            &&& position.tick_lower == range.lower && position.tick_upper == range.upper
            &&& position.zfo == swap.zero_for_one
            &&& swap.zero_for_one ==> position.borrowed() == swap.token_in@ && position.other()
                == swap.token_out@
            &&& !swap.zero_for_one ==> position.borrowed() == swap.token_out@ && position.other()
                == swap.token_in@
        }),
{
}

/// How far the service of a swap has come.
pub enum JitStep {
    /// The tick of the pool, and the one that the swap ends at, are to be found.
    Ticks { swap: PendingSwap },
    /// The liquidity in the range and the price of gas are to be found.
    Measuring { swap: PendingSwap, range: TickRange },
    /// The lenders of the given token are to be asked what they hold, and the pool for its price.
    Lending { swap: PendingSwap, range: TickRange, profit: Double },
    /// The transaction is to be signed.
    Signing { swap: PendingSwap, request: SignRequest, profit: Double },
    /// The digest of the bundle is to be signed, and the bundle to be sent.
    Bundling { bundle: Bundle, profit: Double },
    /// The bundle was sent.
    Traded,
    /// The bundle could not be signed, so it was not sent.
    Unsent,
    /// The swap is not worth serving.
    Skipped,
    /// The swap moves the price through no tick.
    Degenerate { range: TickRange },
    /// The calldata cannot be made.
    Failed { error: FlashError },
}

impl JitStep {
    /// Looks at a pending swap: it has to be large enough, and its pool has to be known.
    pub fn start(swap: PendingSwap, cfg: &Config) -> (r: JitStep)
        ensures
            r == if passed_over(swap, *cfg) {
                JitStep::Skipped
            } else {
                JitStep::Ticks { swap }
            },
    {
        let least: Double = cfg.jit_min_swap_usd.mul(Double { bits: TEN });
        if swap.amount_usd.is_below(least) || is_zero_address(&swap.pool) {
            JitStep::Skipped
        } else {
            JitStep::Ticks { swap }
        }
    }

    /// Takes the tick that the swap ends at and the one of the pool.
    pub fn located(self, ending: RoundedTick, current: RoundedTick) -> (r: JitStep)
        ensures
            r == match self {
                JitStep::Ticks { swap } => {
                    let range = swap_range(swap.zero_for_one, ending, current);
                    if range.lower >= range.upper {
                        JitStep::Degenerate { range }
                    } else {
                        JitStep::Measuring { swap, range }
                    }
                },
                _ => self,
            },
    {
        match self {
            JitStep::Ticks { swap } => match tick_range(swap.zero_for_one, ending, current) {
                Ok(range) => JitStep::Measuring { swap, range },
                Err(range) => JitStep::Degenerate { range },
            },
            other => other,
        }
    }

    /// Takes the liquidity in the range, none where it is not told, and the price of gas; too
    /// small a profit is skipped.
    pub fn measured(self, cfg: &Config, in_range_liq: Option<U256>, gas_price_wei: u128, eth_price: Double) -> (r:
        JitStep)
        requires
            in_range_liq matches Some(l) ==> l@ <= u128::MAX,
        ensures
            r == match self {
                JitStep::Measuring { swap, range } => {
                    let existing = match in_range_liq {
                        Some(l) => l@,
                        None => 0,
                    };
                    let profit = expected_profit(
                        swap,
                        cfg.gas_estimate_safety_margin,
                        existing,
                        gas_price_wei as nat,
                        eth_price,
                    );
                    if too_little(profit, *cfg) {
                        JitStep::Skipped
                    } else {
                        JitStep::Lending { swap, range, profit }
                    }
                },
                _ => self,
            },
    {
        match self {
            JitStep::Measuring { swap, range } => {
                let existing: U256 = match in_range_liq {
                    Some(l) => l,
                    None => U256::zero(),
                };
                match worthwhile_profit(&swap, cfg, existing, gas_price_wei, eth_price) {
                    Some(profit) => JitStep::Lending { swap, range, profit },
                    None => JitStep::Skipped,
                }
            },
            other => other,
        }
    }

    /// The token whose lenders are to be asked what they hold: the one that is borrowed.
    pub fn borrowed(&self) -> (r: Option<Address>)
        ensures
            r == match *self {
                JitStep::Lending { swap, .. } => Some(
                    if swap.zero_for_one {
                        swap.token_in
                    } else {
                        swap.token_out
                    },
                ),
                _ => None,
            },
    {
        match self {
            JitStep::Lending { swap, .. } => if swap.zero_for_one {
                Some(swap.token_in)
            } else {
                Some(swap.token_out)
            },
            _ => None,
        }
    }

    /// Takes what the lenders hold and the pool's price, and makes the transaction: the contract
    /// has to make the whole dollars of the expected profit. Where its calldata cannot be made,
    /// no nonce is taken.
    pub fn lent(
        self,
        pipeline: &mut SubmissionPipeline,
        flash: &FlashLoanRouter,
        addresses: &Addresses,
        held: &Balances,
        price: &Option<RangePrice>,
    ) -> (r: JitStep)
        requires
            self matches JitStep::Lending { swap, range, .. } ==> {
                &&& shares_fit(*held)
                &&& router_known(*addresses, DexType::UniswapV3) ==> {
                    &&& serving_position(swap, range).amounts_fit(*price)
                    &&& swap.fee * 100 <= u32::MAX
                }
            },
        ensures
            match self {
                JitStep::Lending { swap, range, profit } => if router_known(
                    *addresses,
                    DexType::UniswapV3,
                ) {
                    &&& r matches JitStep::Signing { swap: s, request, profit: p }
                    &&& s == swap
                    &&& p == profit
                    &&& request.asks(
                        serving_position(swap, range).plan(
                            *flash,
                            *addresses,
                            provider_for(swap.amount_in@, *held),
                            *price,
                            profit.whole(u64::MAX as nat) as u64,
                        ).calldata(),
                        BUNDLE_GAS,
                        ONE,
                        old(pipeline).next(),
                    )
                    &&& final(pipeline).next() == next_nonce(old(pipeline).next())
                    &&& final(pipeline).same_endpoints(*old(pipeline))
                } else {
                    &&& r == (JitStep::Failed { error: FlashError::BadRouter(DexType::UniswapV3) })
                    &&& *final(pipeline) == *old(pipeline)
                },
                _ => r == self && *final(pipeline) == *old(pipeline),
            },
    {
        match self {
            JitStep::Lending { swap, range, profit } => {
                let provider: FlashProvider = flash.select_provider(swap.amount_in, held);
                match flash.build_flash_jit(
                    addresses,
                    provider,
                    price,
                    swap.token_in,
                    swap.token_out,
                    swap.fee,
                    range.lower,
                    range.upper,
                    swap.amount_in,
                    profit.to_u64(),
                    swap.zero_for_one,
                ) {
                    Ok(calldata) => {
                        let request: SignRequest = pipeline.submit_jit_bundle(calldata);
                        JitStep::Signing { swap, request, profit }
                    },
                    Err(error) => JitStep::Failed { error },
                }
            },
            other => other,
        }
    }

    /// Takes the signed transaction, and puts it before the swap, for the block after that of the
    /// swap.
    pub fn signed(self, signed_raw: &[u8]) -> (r: JitStep)
        requires
            self matches JitStep::Signing { swap, .. } ==> swap.block_number < u64::MAX,
        ensures
            match self {
                JitStep::Signing { swap, profit, .. } => {
                    &&& r matches JitStep::Bundling { bundle, profit: p }
                    &&& p == profit
                    &&& bundle.holds(signed_raw@, swap.raw_tx@, (swap.block_number + 1) as nat)
                },
                _ => r == self,
            },
    {
        match self {
            JitStep::Signing { swap, profit, .. } => JitStep::Bundling {
                bundle: build_bundle(signed_raw, swap.raw_tx.as_slice(), swap.block_number + 1),
                profit,
            },
            other => other,
        }
    }

    /// Takes whether the bundle was signed and sent, and counts the trade where it was; that
    /// builders have taken it is counted by their replies.
    pub fn sent(self, went_out: bool, m: &mut Metrics) -> (r: JitStep)
        ensures
            match self {
                JitStep::Bundling { profit, .. } => if went_out {
                    &&& r == JitStep::Traded
                    &&& final(m)@ == after_trade(old(m)@, "flash_jit"@, profit)
                } else {
                    r == JitStep::Unsent && *final(m) == *old(m)
                },
                _ => r == self && *final(m) == *old(m),
            },
    {
        match self {
            JitStep::Bundling { profit, .. } => {
                if !went_out {
                    return JitStep::Unsent;
                }
                record_trade(m, "flash_jit", profit);
                JitStep::Traded
            },
            other => other,
        }
    }
}

/// The own share of a swap's fees is at most one, and not negative, however much liquidity is
/// there.
pub proof fn law_fee_share(amount_usd: Double, existing: nat)
    requires
        amount(amount_usd),
        existing <= u128::MAX,
    ensures
        fee_share(amount_usd, existing).at_most(Double { bits: ONE }),
        (Double { bits: 0 }).at_most(fee_share(amount_usd, existing)),
{
    lemma_words(LIQUIDITY_SHARE, ONE);
    lemma_words(0, ONE);
    let own = amount_usd.times(Double { bits: LIQUIDITY_SHARE });
    law_product_shrinks(amount_usd, Double { bits: LIQUIDITY_SHARE });
    lemma_integer_is_amount(existing);
    let all = nearest_to_integer(existing).plus(own);
    law_sum_grows(nearest_to_integer(existing), own);
    if (Double { bits: 0 }).below(all) {
        if amount(all) {
            law_share_is_at_most_one(own, all);
        } else {
            reveal(Double::over);
        }
    }
}

/// The own share of a swap's fees does not grow with the liquidity that is there.
proof fn lemma_share_falls(amount_usd: Double, less: nat, more: nat)
    requires
        amount(amount_usd),
        less <= more <= u128::MAX,
    ensures
        fee_share(amount_usd, more).at_most(fee_share(amount_usd, less)),
{
    let own = amount_usd.times(Double { bits: LIQUIDITY_SHARE });
    let (e1, e2) = (nearest_to_integer(less), nearest_to_integer(more));
    let (all1, all2) = (e1.plus(own), e2.plus(own));
    law_fee_share(amount_usd, less);
    law_fee_share(amount_usd, more);
    lemma_words(LIQUIDITY_SHARE, ONE);
    law_product_shrinks(amount_usd, Double { bits: LIQUIDITY_SHARE });
    lemma_integer_is_amount(less);
    lemma_integer_is_amount(more);
    law_sum_grows(e1, own);
    law_sum_grows(e2, own);
    law_conversion_is_monotone(less, more);
    law_sum_is_monotone(e1, e2, own);
    if (Double { bits: 0 }).below(all1) {
        lemma_unsigned(all1);
        lemma_unsigned(all2);
        if amount(all2) {
            lemma_infinity_is_greatest(all1, all2);
            law_quotient_falls(own, all1, all2);
        } else {
            reveal(Double::over);
        }
    }
}

/// More liquidity in the range never makes a swap worth more: the profit does not grow with it, and
/// where it is too small for some floor, it stays too small.
pub proof fn law_liquidity_dilutes(
    swap: PendingSwap,
    margin: Double,
    less: nat,
    more: nat,
    gas_price_wei: nat,
    eth_price: Double,
    floor: Double,
)
    requires
        !swap.amount_usd.below(Double { bits: 0 }),
        less <= more <= u128::MAX,
    ensures
        ({
            let p = expected_profit(swap, margin, less, gas_price_wei, eth_price);
            let q = expected_profit(swap, margin, more, gas_price_wei, eth_price);
            &&& !p.nan() && !q.nan() ==> q.at_most(p)
            &&& p.below(floor) ==> q.below(floor)
        }),
{
    let zero = Double { bits: 0 };
    let tier = nearest_to_integer(swap.fee as nat).over(Double { bits: MILLION });
    let gross = swap.amount_usd.times(tier);
    let (s1, s2) = (fee_share(swap.amount_usd, less), fee_share(swap.amount_usd, more));
    let (x, y) = (gross.times(s1), gross.times(s2));
    let cost = gas_cost(jit_gas(margin), gas_price_wei, eth_price);
    lemma_fees_fall(swap, less, more);
    if y.at_most(x) {
        law_difference_is_monotone(y, x, zero, floor);
        lemma_less_nothing(x);
        lemma_less_nothing(y);
        law_difference_is_monotone(y.minus(zero), x.minus(zero), cost, floor);
    } else {
        reveal(Double::minus);
        reveal(Double::plus);
        lemma_units_zero(0);
        lemma_words(0, INFINITE);
        if !floor.nan() && floor.magnitude() < INFINITE {
            lemma_units_grow(floor.magnitude(), INFINITE as nat);
        }
        assert(x.nan() || x == (Double { bits: INFINITE }));
        assert(x.minus(zero) == x || x.nan() && x.minus(zero).nan());
        assert(!x.minus(zero).minus(cost).below(floor));
        assert(y.minus(zero).nan() || x.nan());
    }
}

/// The captured fees do not grow with the liquidity, or they are infinite or no number.
proof fn lemma_fees_fall(swap: PendingSwap, less: nat, more: nat)
    requires
        !swap.amount_usd.below(Double { bits: 0 }),
        less <= more <= u128::MAX,
    ensures
        ({
            let tier = nearest_to_integer(swap.fee as nat).over(Double { bits: MILLION });
            let gross = swap.amount_usd.times(tier);
            let x = gross.times(fee_share(swap.amount_usd, less));
            let y = gross.times(fee_share(swap.amount_usd, more));
            y.at_most(x) || x.nan() || (x == (Double { bits: INFINITE }) && y.nan())
        }),
{
    let a = swap.amount_usd;
    let own = a.times(Double { bits: LIQUIDITY_SHARE });
    let tier = nearest_to_integer(swap.fee as nat).over(Double { bits: MILLION });
    let gross = a.times(tier);
    let (s1, s2) = (fee_share(a, less), fee_share(a, more));
    lemma_integer_is_amount(swap.fee as nat);
    lemma_words(ONE, MILLION);
    law_quotient_shrinks(nearest_to_integer(swap.fee as nat), Double { bits: MILLION });
    lemma_units_zero(a.magnitude());
    lemma_units_zero(0);
    if amount(a) {
        lemma_share_falls(a, less, more);
        lemma_share_is_amount(a, less);
        lemma_share_is_amount(a, more);
        lemma_product_of_amounts(a, tier);
        if amount(gross) {
            law_product_is_monotone(gross, s2, s1);
        } else {
            reveal(Double::times);
            lemma_units_zero(s1.magnitude());
            lemma_units_zero(s2.magnitude());
        }
    } else if a.magnitude() == 0 {
        lemma_nothing_times(a, Double { bits: LIQUIDITY_SHARE });
        lemma_nothing_times(a, tier);
        lemma_nothing_shared(own, nearest_to_integer(less).plus(own));
        lemma_nothing_shared(own, nearest_to_integer(more).plus(own));
        lemma_nothing_times(gross, s1);
        lemma_nothing_times(gross, s2);
    } else {
        lemma_integer_is_amount(less);
        reveal(Double::times);
        reveal(Double::plus);
        reveal(Double::over);
        lemma_units_zero(LIQUIDITY_SHARE as nat);
        lemma_words(0, INFINITE);
    }
}

/// The own share of a swap's fees is an amount.
proof fn lemma_share_is_amount(amount_usd: Double, existing: nat)
    requires
        amount(amount_usd),
        existing <= u128::MAX,
    ensures
        amount(fee_share(amount_usd, existing)),
{
    law_fee_share(amount_usd, existing);
    let share = fee_share(amount_usd, existing);
    lemma_words(LIQUIDITY_SHARE, ONE);
    law_product_shrinks(amount_usd, Double { bits: LIQUIDITY_SHARE });
    if share.magnitude() >= INFINITE {
        lemma_units_grow(ONE as nat, share.magnitude());
    }
    reveal(Double::over);
    let own = amount_usd.times(Double { bits: LIQUIDITY_SHARE });
    let all = nearest_to_integer(existing).plus(own);
    if (Double { bits: 0 }).below(all) {
        lemma_unsigned(all);
        lemma_rounding_is_monotone(
            distance(own.units()) * pow2(1074),
            distance(all.units()),
            INFINITE as nat,
        );
    }
}

} // verus!
