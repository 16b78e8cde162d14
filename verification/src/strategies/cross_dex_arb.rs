//! Arbitrage between two exchanges: a token is bought where it is cheap and sold where it is dear.

use crate::config::Config;
use crate::double::arithmetic::{distance, nearest_to_integer};
use crate::double::chain::{law_product_grows_with_factors, law_zero_absorbs, lemma_positive, positive};
use crate::double::constants::{ONE, TEN_THOUSAND};
use crate::double::exact::{
    countable, law_constants, law_less_itself, law_nothing_is_shared, law_quotient_grows,
    law_whole_difference, law_whole_product, law_whole_quotient, lemma_determined,
};
use crate::double::growth::{
    law_difference_is_monotone, law_difference_shrinks, lemma_integer_is_exact,
    lemma_rounding_is_monotone,
};
use crate::double::order::lemma_one;
use crate::double::{lemma_units_zero, Double, INFINITE};
use crate::monitoring::metrics::{
    after_simulation, after_trade, record_sim_result, record_trade, Metrics,
};
use crate::shared::address::Address;
use crate::shared::addresses::Addresses;
use crate::shared::flash_loan::calldata::{cross_dex_plan, router_known};
use crate::shared::flash_loan::{provider_for, shares_fit, FlashError, FlashLoanRouter, FlashProvider};
use crate::shared::market::{ArbSizing, Balances, PoolQuote, PoolState, SimResult};
use crate::shared::submission::{
    after_attempt, next_nonce, record_attempt, SignRequest, SubmissionPipeline,
};
use crate::u256::U256;
use vstd::arithmetic::power2::pow2;
use vstd::prelude::*;

verus! {

/// The greatest share of a reserve that is borrowed, in percent.
pub const MOST_PERCENT: u64 = 30;

/// How far two prices are apart, in basis points of the lower one.
pub open spec fn price_spread(ap: Double, up: Double) -> Double {
    ap.minus(up).absolute().over(ap.lesser(up)).times(Double { bits: TEN_THOUSAND })
}

/// A pool that is bought at and one that is sold at.
#[derive(Clone, Copy, Debug)]
pub struct Crossing {
    pub buy: PoolState,
    pub sell: PoolState,
    pub spread_bps: Double,
}

/// The pools that are bought and sold at, where both have a price and the prices are far enough
/// apart.
pub open spec fn crossing(aero: PoolState, uni: PoolState, ap: Double, up: Double, min_spread: Double) -> Option<
    Crossing,
> {
    let spread_bps = price_spread(ap, up);
    if ap.zero() || up.zero() || spread_bps.below(min_spread) {
        None
    } else if ap.below(up) {
        Some(Crossing { buy: aero, sell: uni, spread_bps })
    } else {
        Some(Crossing { buy: uni, sell: aero, spread_bps })
    }
}

/// The pools that are bought and sold at, given the state of both and what one unit of the first
/// token costs at each in units of the second one.
pub fn find_crossing(aero: &PoolState, uni: &PoolState, ap: Double, up: Double, cfg: &Config) -> (r: Option<
    Crossing,
>)
    ensures
        r == crossing(*aero, *uni, ap, up, cfg.min_arb_spread_bps),
{
    if ap.is_zero() || up.is_zero() {
        return None;
    }
    let gap: Double = ap.sub(up).abs();
    let spread_bps: Double = gap.div(ap.min(up)).mul(Double { bits: TEN_THOUSAND });
    if spread_bps.is_below(cfg.min_arb_spread_bps) {
        return None;
    }
    if ap.is_below(up) {
        Some(Crossing { buy: *aero, sell: *uni, spread_bps })
    } else {
        Some(Crossing { buy: *uni, sell: *aero, spread_bps })
    }
}

impl Crossing {
    /// What the size is worked out from: the reserves of the same token in both pools.
    pub open spec fn sizing_view(self) -> ArbSizing {
        ArbSizing {
            reserve_buy: self.buy.reserve0,
            reserve_sell: self.sell.reserve0,
            fee_buy: self.buy.fee_bps,
            fee_sell: self.sell.fee_bps,
            most_percent: MOST_PERCENT,
        }
    }

    /// What the size is worked out from.
    pub fn sizing(&self) -> (r: ArbSizing)
        ensures
            r == self.sizing_view(),
    {
        ArbSizing {
            reserve_buy: self.buy.reserve0,
            reserve_sell: self.sell.reserve0,
            fee_buy: self.buy.fee_bps,
            fee_sell: self.sell.fee_bps,
            most_percent: MOST_PERCENT,
        }
    }
}

/// How far an arbitrage between two pools has come.
pub enum ArbStep {
    /// The best size is to be worked out.
    Sizing { pools: Crossing },
    /// The trade is to be simulated.
    Simulating { pools: Crossing, amount: U256 },
    /// The lenders of the first token are to be asked what they hold.
    Lending { pools: Crossing, amount: U256, sim: SimResult },
    /// The transaction is to be signed and sent.
    Signing { request: SignRequest, profit_usd: Double },
    /// The trade was made.
    Traded,
    /// The transaction could not be signed, so it was not sent.
    Unsent,
    /// There is nothing to trade.
    Skipped,
    /// The calldata cannot be made.
    Failed { error: FlashError },
}

impl ArbStep {
    /// Looks at the pools of a pair of tokens, one of each exchange.
    pub fn start(aero: &Option<PoolQuote>, uni: &Option<PoolQuote>, cfg: &Config) -> (r: ArbStep)
        ensures
            r == match (*aero, *uni) {
                (Some(a), Some(u)) => match crossing(
                    a.pool,
                    u.pool,
                    a.price,
                    u.price,
                    cfg.min_arb_spread_bps,
                ) {
                    Some(pools) => ArbStep::Sizing { pools },
                    None => ArbStep::Skipped,
                },
                _ => ArbStep::Skipped,
            },
    {
        match (aero, uni) {
            (Some(a), Some(u)) => match find_crossing(&a.pool, &u.pool, a.price, u.price, cfg) {
                Some(pools) => ArbStep::Sizing { pools },
                None => ArbStep::Skipped,
            },
            _ => ArbStep::Skipped,
        }
    }

    /// Takes the best size; a trade of size zero is skipped.
    pub fn sized(self, amount: U256) -> (r: ArbStep)
        ensures
            r == match self {
                ArbStep::Sizing { pools } => if amount@ == 0 {
                    ArbStep::Skipped
                } else {
                    ArbStep::Simulating { pools, amount }
                },
                _ => self,
            },
    {
        match self {
            ArbStep::Sizing { pools } => if amount.is_zero() {
                ArbStep::Skipped
            } else {
                ArbStep::Simulating { pools, amount }
            },
            other => other,
        }
    }

    /// What follows a simulation: too small a profit is skipped.
    pub open spec fn after_simulation(self, sim: SimResult, cfg: Config) -> ArbStep {
        match self {
            ArbStep::Simulating { pools, amount } => if sim.profit_usd.below(cfg.min_profit_usd) {
                ArbStep::Skipped
            } else {
                ArbStep::Lending { pools, amount, sim }
            },
            _ => self,
        }
    }

    /// Takes what the simulation foresees; too small a profit is skipped.
    pub fn simulated(self, sim: SimResult, cfg: &Config) -> (r: ArbStep)
        ensures
            r == self.after_simulation(sim, *cfg),
    {
        match self {
            ArbStep::Simulating { pools, amount } => if sim.profit_usd.is_below(cfg.min_profit_usd) {
                ArbStep::Skipped
            } else {
                ArbStep::Lending { pools, amount, sim }
            },
            other => other,
        }
    }

    /// The token whose lenders are to be asked what they hold: the one that is borrowed.
    pub fn borrowed(&self) -> (r: Option<Address>)
        ensures
            r == match *self {
                ArbStep::Lending { pools, .. } => Some(pools.buy.token0),
                _ => None,
            },
    {
        match self {
            ArbStep::Lending { pools, .. } => Some(pools.buy.token0),
            _ => None,
        }
    }

    /// Takes what the lenders hold, and makes the transaction. It counts as submitted from here
    /// on; where its calldata cannot be made, no nonce is taken.
    pub fn lent(
        self,
        m: &mut Metrics,
        pipeline: &mut SubmissionPipeline,
        flash: &FlashLoanRouter,
        addresses: &Addresses,
        held: &Balances,
    ) -> (r: ArbStep)
        requires
            self matches ArbStep::Lending { pools, .. } ==> {
                &&& shares_fit(*held)
                &&& pools.buy.fee_bps * 100 <= u32::MAX
                &&& router_known(*addresses, pools.buy.dex) ==> pools.sell.fee_bps * 100 <= u32::MAX
            },
        ensures
            match self {
                ArbStep::Lending { pools, amount, sim } => {
                    &&& final(m)@ == after_simulation(old(m)@, "cross_dex_arb"@, "submitted"@)
                    &&& if !router_known(*addresses, pools.buy.dex) {
                        r == (ArbStep::Failed { error: FlashError::BadRouter(pools.buy.dex) })
                            && *final(pipeline) == *old(pipeline)
                    } else if !router_known(*addresses, pools.sell.dex) {
                        r == (ArbStep::Failed { error: FlashError::BadRouter(pools.sell.dex) })
                            && *final(pipeline) == *old(pipeline)
                    } else {
                        &&& r matches ArbStep::Signing { request, profit_usd }
                        &&& profit_usd == sim.profit_usd
                        &&& request.asks(
                            cross_dex_plan(
                                *addresses,
                                provider_for(amount@, *held),
                                amount@,
                                pools.buy,
                                pools.sell,
                                sim.min_profit_wei@,
                            ).calldata(),
                            sim.gas_estimate,
                            ONE,
                            old(pipeline).next(),
                        )
                        &&& final(pipeline).next() == next_nonce(old(pipeline).next())
                        &&& final(pipeline).same_endpoints(*old(pipeline))
                    }
                },
                _ => r == self && *final(m) == *old(m) && *final(pipeline) == *old(pipeline),
            },
    {
        match self {
            ArbStep::Lending { pools, amount, sim } => {
                record_sim_result(m, "cross_dex_arb", "submitted");
                let provider: FlashProvider = flash.select_provider(amount, held);
                match flash.build_cross_dex_arb(
                    addresses,
                    provider,
                    amount,
                    &pools.buy,
                    &pools.sell,
                    sim.min_profit_wei,
                ) {
                    Ok(calldata) => ArbStep::Signing {
                        request: pipeline.submit(calldata, sim.gas_estimate),
                        profit_usd: sim.profit_usd,
                    },
                    Err(error) => ArbStep::Failed { error },
                }
            },
            other => other,
        }
    }

    /// Takes whether the transaction was signed and sent: one that was is counted, and so is the
    /// trade; one that was not leaves no trace.
    pub fn sent(self, went_out: bool, m: &mut Metrics) -> (r: ArbStep)
        ensures
            match self {
                ArbStep::Signing { profit_usd, .. } => if went_out {
                    &&& r == ArbStep::Traded
                    &&& final(m)@ == after_trade(
                        after_attempt(old(m)@, true),
                        "cross_dex_arb"@,
                        profit_usd,
                    )
                } else {
                    r == ArbStep::Unsent && final(m)@ == after_attempt(old(m)@, false)
                },
                _ => r == self && *final(m) == *old(m),
            },
    {
        match self {
            ArbStep::Signing { profit_usd, .. } => {
                record_attempt(m, went_out);
                if !went_out {
                    return ArbStep::Unsent;
                }
                record_trade(m, "cross_dex_arb", profit_usd);
                ArbStep::Traded
            },
            other => other,
        }
    }
}

/// How far two prices are apart does not depend on their order, and equal prices are not apart.
pub proof fn law_spread_is_symmetric(ap: Double, up: Double)
    requires
        positive(ap),
        positive(up),
    ensures
        price_spread(ap, up) == price_spread(up, ap),
        ap == up ==> price_spread(ap, up).zero(),
{
    reveal(Double::minus);
    reveal(Double::plus);
    lemma_units_zero(0);
    assert(ap.opposite().units() == -ap.units() && up.opposite().units() == -up.units());
    let d = ap.units() - up.units();
    lemma_rounding_is_monotone(distance(d), 1, INFINITE as nat);
    if ap.units() == up.units() {
        lemma_determined(ap, up);
        law_less_itself(ap);
        assert(ap.minus(ap).absolute().magnitude() == 0);
        law_nothing_is_shared(ap.minus(ap).absolute(), ap);
        law_zero_absorbs(ap.minus(ap).absolute().over(ap), Double { bits: TEN_THOUSAND });
    } else {
        assert(ap.lesser(up) == up.lesser(ap));
        assert(ap.minus(up).absolute() == up.minus(ap).absolute());
    }
}

/// Where the dearer pool gets dearer still, the prices are no less apart.
pub proof fn law_spread_widens(low: Double, high: Double, higher: Double)
    requires
        positive(low),
        positive(high),
        positive(higher),
        low.at_most(high),
        high.at_most(higher),
    ensures
        price_spread(low, high).at_most(price_spread(low, higher)),
{
    let bps = Double { bits: TEN_THOUSAND };
    law_spread_is_symmetric(low, high);
    law_spread_is_symmetric(low, higher);
    law_difference_shrinks(high, low);
    law_difference_shrinks(higher, low);
    law_difference_is_monotone(high, higher, low, low);
    let (x, y) = (high.minus(low), higher.minus(low));
    assert(x.absolute() == x && y.absolute() == y);
    if high.units() == low.units() {
        lemma_determined(high, low);
    }
    if higher.units() == low.units() {
        lemma_determined(higher, low);
    }
    assert(high.lesser(low) == low && higher.lesser(low) == low);
    law_quotient_grows(x, y, low);
    law_product_grows_with_factors(x.over(low), y.over(low), bps, bps);
}

/// Where one price is a whole number of times the other one, the prices are ten thousand basis
/// points apart for each time beyond the first.
pub proof fn law_spread_of_whole_prices(price: nat, times: nat)
    requires
        price > 0,
        times < 100_000_000_000,
        price * (times + 1) < countable(),
        price < countable(),
        price * times < countable(),
    ensures
        price_spread(nearest_to_integer(price), nearest_to_integer(price * (times + 1)))
            == nearest_to_integer(10_000 * times),
{
    let (low, high) = (nearest_to_integer(price), nearest_to_integer(price * (times + 1)));
    assert(price * (times + 1) == price * times + price) by (nonlinear_arith);
    assert(times * price == price * times) by (nonlinear_arith);
    assert(price * times >= 0) by (nonlinear_arith);
    lemma_integer_is_exact(price);
    lemma_integer_is_exact(price * (times + 1));
    lemma_integer_is_exact(price * times);
    lemma_one();
    let p = pow2(1074);
    assert(price * p > 0) by (nonlinear_arith)
        requires
            price > 0,
            p > 0,
    ;
    assert(price * p <= (price * (times + 1)) * p) by (nonlinear_arith)
        requires
            price <= price * (times + 1),
    ;
    lemma_positive(low);
    lemma_positive(high);
    law_spread_is_symmetric(low, high);
    law_whole_difference(price * (times + 1), price);
    let gap = nearest_to_integer(price * times);
    assert(gap.absolute() == gap);
    if high.units() == low.units() {
        lemma_determined(high, low);
    }
    law_whole_quotient(times, price);
    law_constants();
    law_whole_product(times, 10_000);
}

/// Two pools are traded at if and only if both have a price and the prices are not too close. The
/// cheaper one is bought at, whichever of the two is looked at first.
pub proof fn law_every_wide_spread_is_traded(
    aero: PoolState,
    uni: PoolState,
    ap: Double,
    up: Double,
    min_spread: Double,
)
    requires
        positive(ap),
        positive(up),
    ensures
        crossing(aero, uni, ap, up, min_spread) is Some <==> !price_spread(ap, up).below(min_spread),
        crossing(aero, uni, ap, up, min_spread) matches Some(c) ==> {
            &&& c.spread_bps == price_spread(ap, up)
            &&& ap.below(up) ==> c.buy == aero && c.sell == uni
            &&& up.below(ap) ==> c.buy == uni && c.sell == aero
        },
        ap.units() != up.units() ==> crossing(aero, uni, ap, up, min_spread) == crossing(
            uni,
            aero,
            up,
            ap,
            min_spread,
        ),
{
    lemma_units_zero(ap.magnitude());
    lemma_units_zero(up.magnitude());
    law_spread_is_symmetric(ap, up);
}

/// A pool without a price is never traded at.
pub proof fn law_no_price_no_trade(aero: PoolState, uni: PoolState, ap: Double, up: Double, min_spread: Double)
    requires
        ap.zero() || up.zero(),
    ensures
        crossing(aero, uni, ap, up, min_spread) is None,
{
}

/// The size is worked out from the reserve and the fee of both pools, three tenths of a reserve at
/// most.
pub proof fn law_sizing_looks_at_both_pools(c: Crossing)
    ensures
        c.sizing_view().reserve_buy == c.buy.reserve0 && c.sizing_view().fee_buy == c.buy.fee_bps,
        c.sizing_view().reserve_sell == c.sell.reserve0 && c.sizing_view().fee_sell
            == c.sell.fee_bps,
        10 * c.sizing_view().most_percent == 300,
{
}

/// A simulated trade goes on if and only if its profit is not below the least one, with the pools,
/// the size and the simulation as they were; any other step stays as it is.
pub proof fn law_small_profits_are_skipped(step: ArbStep, sim: SimResult, cfg: Config)
    requires
        !sim.profit_usd.nan(),
        !cfg.min_profit_usd.nan(),
    ensures
        step matches ArbStep::Simulating { pools, amount } ==> {
            &&& cfg.min_profit_usd.at_most(sim.profit_usd) ==> step.after_simulation(sim, cfg) == (
            ArbStep::Lending { pools, amount, sim })
            &&& sim.profit_usd.below(cfg.min_profit_usd) ==> step.after_simulation(sim, cfg)
                is Skipped
        },
        !(step is Simulating) ==> step.after_simulation(sim, cfg) == step,
{
}

/// The pool that is bought at is never the dearer one, and the spread is never below the least
/// one.
pub proof fn law_buys_cheap(aero: PoolState, uni: PoolState, ap: Double, up: Double, min_spread: Double)
    ensures
        crossing(aero, uni, ap, up, min_spread) matches Some(c) ==> {
            &&& !c.spread_bps.below(min_spread)
            &&& (c.buy == aero && c.sell == uni && !up.below(ap)) || (c.buy == uni && c.sell == aero
                && !ap.below(up))
        },
{
}

} // verus!
