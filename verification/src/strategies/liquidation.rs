//! Liquidation of borrowers whose collateral no longer covers their debt.

use crate::config::Config;
use crate::double::constants::{ETHER, ONE, TWO_TO_128};
use crate::double::chain::{
    law_product_error, law_product_grows_with_factors, law_quotient_error, law_zero_absorbs,
    lemma_error_adds, lemma_positive, positive, within,
};
use crate::double::error::precision;
use crate::double::exact::{
    law_nothing_is_shared, law_quotient_grows, lemma_determined, lemma_ether_is_within,
};
use crate::double::growth::{amount, law_quotient_falls};
use crate::double::order::{law_whole_parts, lemma_one, lemma_words};
use crate::double::{lemma_units_zero, Double, FRACTIONS};
use crate::monitoring::metrics::{after_trade, record_trade, Metrics};
use crate::shared::address::Address;
use crate::shared::addresses::Addresses;
use crate::shared::flash_loan::calldata::{liquidation_plan, router_known};
use crate::shared::flash_loan::{provider_for, shares_fit, FlashError, FlashLoanRouter, FlashProvider};
use crate::shared::market::{Balances, BorrowPosition, DexType, SimResult};
use crate::shared::submission::{
    after_attempt, next_nonce, record_attempt, SignRequest, SubmissionPipeline, URGENT_TIP,
};
use crate::u256::U256;
use vstd::arithmetic::power2::{lemma2_to64_rest, lemma_pow2_adds, lemma_pow2_pos, pow2};
use vstd::prelude::*;

verus! {

/// The least profit that the contract accepts, in wei: the configured dollars at the given price
/// of an ether, which counts as a dollar at least.
pub open spec fn profit_floor(min_usd: Double, eth_price: Double) -> nat {
    min_usd.greater(Double { bits: 0 }).over(eth_price.greater(Double { bits: ONE })).times(
        Double { bits: ETHER },
    ).lesser(Double { bits: TWO_TO_128 }).whole(u128::MAX as nat)
}

/// The least profit that the contract accepts, in wei.
pub fn min_profit_wei(cfg: &Config, eth_price: Double) -> (r: U256)
    ensures
        r@ == profit_floor(cfg.min_liquidation_profit_usd, eth_price),
{
    let min_usd: Double = cfg.min_liquidation_profit_usd.max(Double { bits: 0 });
    let price: Double = eth_price.max(Double { bits: ONE });
    let wei: Double = min_usd.div(price).mul(Double { bits: ETHER });
    U256::from_u128(wei.min(Double { bits: TWO_TO_128 }).to_u128())
}

/// A higher least profit in dollars, or a lower price of an ether, does not lower the least profit
/// in wei; and no profit in dollars is none in wei.
pub proof fn law_floor_grows(min_usd: Double, higher: Double, eth_price: Double, lower: Double)
    requires
        amount(min_usd),
        amount(higher),
        positive(eth_price),
        positive(lower),
        min_usd.at_most(higher),
        lower.at_most(eth_price),
    ensures
        profit_floor(min_usd, eth_price) <= profit_floor(higher, lower),
        min_usd.zero() ==> profit_floor(min_usd, eth_price) == 0,
        eth_price.at_most(Double { bits: ONE }) ==> profit_floor(min_usd, eth_price)
            == profit_floor(min_usd, Double { bits: ONE }),
        min_usd.at_most(Double { bits: 0 }) ==> profit_floor(min_usd, eth_price) == 0,
{
    let (zero, one, ether) = (Double { bits: 0 }, Double { bits: ONE }, Double { bits: ETHER });
    lemma_one();
    lemma_units_zero(0);
    let (m, n) = (min_usd.greater(zero), higher.greater(zero));
    let (e, l) = (eth_price.greater(one), lower.greater(one));
    lemma_positive(e);
    lemma_positive(l);
    lemma_positive(one);
    if eth_price.at_most(one) && e != one {
        lemma_determined(eth_price, one);
    }
    law_quotient_falls(m, l, e);
    law_quotient_grows(m, n, l);
    law_quotient_grows(m, m, e);
    law_product_grows_with_factors(m.over(e), n.over(l), ether, ether);
    let (x, y) = (m.over(e).times(ether), n.over(l).times(ether));
    let most = Double { bits: TWO_TO_128 };
    let (u, v, p) = (x.lesser(most).units(), y.lesser(most).units(), pow2(1074) as int);
    assert(u <= v ==> u / p <= v / p) by (nonlinear_arith)
        requires
            p > 0,
    ;
    assert(u > 0 ==> u / p >= 0) by (nonlinear_arith)
        requires
            p > 0,
    ;
    assert(v > 0 ==> v / p >= 0) by (nonlinear_arith)
        requires
            p > 0,
    ;
    if m.zero() {
        law_nothing_is_shared(m, e);
        law_zero_absorbs(m.over(e), ether);
        lemma_words(0, TWO_TO_128);
    }
}

/// The least profit in wei is the one in dollars, divided by the price of an ether, times 10 to the
/// power 18, rounded down, up to the rounding of two operations. Values are counted in units, of
/// which one has two to the power 1074.
pub proof fn law_floor_is_the_dollars_in_wei(min_usd: Double, eth_price: Double)
    requires
        within(min_usd, 100),
        within(eth_price, 100),
        (Double { bits: ONE }).at_most(eth_price),
        profit_floor(min_usd, eth_price) < u128::MAX,
    ensures
        ({
            let one = pow2(1074) as int;
            let wei = profit_floor(min_usd, eth_price);
            let exact = (min_usd.units() * one) * (1_000_000_000_000_000_000 * one);
            &&& (wei * one * one * eth_price.units() - exact) * precision() <= 4 * exact
            &&& -(4 * exact) <= ((wei + 1) * one * one * eth_price.units() - exact) * precision()
        }),
{
    let (zero, one, ether) = (Double { bits: 0 }, Double { bits: ONE }, Double { bits: ETHER });
    lemma_one();
    lemma_units_zero(0);
    lemma_ether_is_within();
    lemma_pow2_pos(974);
    lemma_pow2_pos(774);
    let p = pow2(1074) as int;
    law_quotient_error(min_usd, eth_price, 100);
    let share = min_usd.over(eth_price);
    law_product_error(share, ether, 200);
    let wei = share.times(ether);
    let (u, v, e, w) = (min_usd.units(), eth_price.units(), ether.units(), wei.units());
    assert(u * p >= 0) by (nonlinear_arith)
        requires
            u >= 0,
            p > 0,
    ;
    lemma_error_adds(share.units(), u * p, e, w * p, v, 2);
    assert(min_usd.greater(zero) == min_usd && eth_price.greater(one) == eth_price);
    lemma_greatest_wei();
    assert(wei.lesser(Double { bits: TWO_TO_128 }) == wei);
    law_whole_parts(wei, u128::MAX as nat);
    let floor = profit_floor(min_usd, eth_price) as int;
    let n = precision();
    assert(floor * p * p * v <= w * p * v) by (nonlinear_arith)
        requires
            floor * p <= w,
            p > 0,
            v > 0,
    ;
    assert(w * p * v <= (floor + 1) * p * p * v) by (nonlinear_arith)
        requires
            w < (floor + 1) * p,
            p > 0,
            v > 0,
    ;
}

/// Two to the power 128 wei are too many.
proof fn lemma_greatest_wei()
    ensures
        (Double { bits: TWO_TO_128 }).whole(u128::MAX as nat) == u128::MAX,
{
    let m = TWO_TO_128 as nat;
    assert(m / (FRACTIONS as nat) == 1151 && m % (FRACTIONS as nat) == 0);
    lemma2_to64_rest();
    lemma_pow2_adds(52, 1150);
    lemma_pow2_adds(64, 64);
    assert(pow2(128) == 0x1_0000_0000_0000_0000_0000_0000_0000_0000);
    lemma_pow2_adds(128, 1074);
    lemma_pow2_pos(1074);
    let (w, p) = (pow2(128) as int, pow2(1074) as int);
    assert((w * p) / p == w && w * p > 0) by (nonlinear_arith)
        requires
            p > 0,
            w > 0,
    ;
}

/// A simulated liquidation goes on if and only if its profit is not below that of a liquidation
/// and not below that of any trade; any other step stays as it is.
pub proof fn law_small_profits_are_skipped(step: LiquidationStep, sim: SimResult, cfg: Config)
    requires
        !sim.profit_usd.nan(),
        !cfg.min_profit_usd.nan(),
        !cfg.min_liquidation_profit_usd.nan(),
    ensures
        step matches LiquidationStep::Simulating { pos } ==> {
            &&& step.after_simulation(sim, cfg) == (LiquidationStep::Routing { pos, sim })
                <==> cfg.min_profit_usd.at_most(sim.profit_usd)
                && cfg.min_liquidation_profit_usd.at_most(sim.profit_usd)
            &&& step.after_simulation(sim, cfg) is Routing || step.after_simulation(sim, cfg) is Skipped
        },
        !(step is Simulating) ==> step.after_simulation(sim, cfg) == step,
{
}

/// How far a liquidation has come.
pub enum LiquidationStep {
    /// The liquidation is to be simulated.
    Simulating { pos: BorrowPosition },
    /// The route that swaps the collateral for the debt is to be found.
    Routing { pos: BorrowPosition, sim: SimResult },
    /// The lenders of the debt are to be asked what they hold.
    Lending { pos: BorrowPosition, sim: SimResult, swap_route: Vec<u8> },
    /// The transaction is to be signed and sent.
    Signing { request: SignRequest, profit_usd: Double },
    /// The borrower was liquidated.
    Traded,
    /// The transaction could not be signed, so it was not sent.
    Unsent,
    /// The liquidation is not worth its costs.
    Skipped,
    /// The calldata cannot be made.
    Failed { error: FlashError },
}

impl LiquidationStep {
    /// Takes up a borrower.
    pub fn start(pos: BorrowPosition) -> (r: LiquidationStep)
        ensures
            r == (LiquidationStep::Simulating { pos }),
    {
        LiquidationStep::Simulating { pos }
    }

    /// What follows a simulation: a profit that is too small for a liquidation, or for any trade,
    /// is skipped.
    pub open spec fn after_simulation(self, sim: SimResult, cfg: Config) -> LiquidationStep {
        match self {
            LiquidationStep::Simulating { pos } => if sim.profit_usd.below(
                cfg.min_liquidation_profit_usd,
            ) || sim.profit_usd.below(cfg.min_profit_usd) {
                LiquidationStep::Skipped
            } else {
                LiquidationStep::Routing { pos, sim }
            },
            _ => self,
        }
    }

    /// Takes what the simulation foresees; a profit that is too small for a liquidation, or for any
    /// trade, is skipped.
    pub fn simulated(self, sim: SimResult, cfg: &Config) -> (r: LiquidationStep)
        ensures
            r == self.after_simulation(sim, *cfg),
    {
        match self {
            LiquidationStep::Simulating { pos } => if sim.profit_usd.is_below(
                cfg.min_liquidation_profit_usd,
            ) || sim.profit_usd.is_below(cfg.min_profit_usd) {
                LiquidationStep::Skipped
            } else {
                LiquidationStep::Routing { pos, sim }
            },
            other => other,
        }
    }

    /// Takes the route that swaps the collateral for the debt.
    pub fn routed(self, swap_route: Vec<u8>) -> (r: LiquidationStep)
        ensures
            r == match self {
                LiquidationStep::Routing { pos, sim } => LiquidationStep::Lending {
                    pos,
                    sim,
                    swap_route,
                },
                _ => self,
            },
    {
        match self {
            LiquidationStep::Routing { pos, sim } => LiquidationStep::Lending { pos, sim, swap_route },
            other => other,
        }
    }

    /// The token whose lenders are to be asked what they hold: the one that is borrowed.
    pub fn borrowed(&self) -> (r: Option<Address>)
        ensures
            r == match *self {
                LiquidationStep::Lending { pos, .. } => Some(pos.debt_asset),
                _ => None,
            },
    {
        match self {
            LiquidationStep::Lending { pos, .. } => Some(pos.debt_asset),
            _ => None,
        }
    }

    /// Takes what the lenders hold, and makes the transaction, which is urgent; where its calldata
    /// cannot be made, no nonce is taken.
    pub fn lent(
        self,
        pipeline: &mut SubmissionPipeline,
        flash: &FlashLoanRouter,
        addresses: &Addresses,
        cfg: &Config,
        held: &Balances,
        eth_price: Double,
    ) -> (r: LiquidationStep)
        requires
            self matches LiquidationStep::Lending { pos, swap_route, .. } ==> {
                &&& shares_fit(*held)
                &&& pos.morpho_market_params@.len() + swap_route@.len() + 1024 <= u32::MAX
            },
        ensures
            match self {
                LiquidationStep::Lending { pos, sim, swap_route } => if router_known(
                    *addresses,
                    DexType::UniswapV3,
                ) {
                    &&& r matches LiquidationStep::Signing { request, profit_usd }
                    &&& profit_usd == sim.profit_usd
                    &&& request.asks(
                        liquidation_plan(
                            *addresses,
                            pos,
                            provider_for(pos.debt_amount@, *held),
                            swap_route@,
                            profit_floor(cfg.min_liquidation_profit_usd, eth_price),
                        ).calldata(),
                        sim.gas_estimate,
                        URGENT_TIP,
                        old(pipeline).next(),
                    )
                    &&& final(pipeline).next() == next_nonce(old(pipeline).next())
                    &&& final(pipeline).same_endpoints(*old(pipeline))
                } else {
                    &&& r == (LiquidationStep::Failed {
                        error: FlashError::BadRouter(DexType::UniswapV3),
                    })
                    &&& *final(pipeline) == *old(pipeline)
                },
                _ => r == self && *final(pipeline) == *old(pipeline),
            },
    {
        match self {
            LiquidationStep::Lending { pos, sim, swap_route } => {
                let provider: FlashProvider = flash.select_provider(pos.debt_amount, held);
                let floor: U256 = min_profit_wei(cfg, eth_price);
                match flash.build_liquidation(addresses, &pos, provider, &swap_route, floor) {
                    Ok(calldata) => LiquidationStep::Signing {
                        request: pipeline.submit_priority(calldata, sim.gas_estimate),
                        profit_usd: sim.profit_usd,
                    },
                    Err(error) => LiquidationStep::Failed { error },
                }
            },
            other => other,
        }
    }

    /// Takes whether the transaction was signed and sent: one that was is counted, and so is the
    /// trade; one that was not leaves no trace.
    pub fn sent(self, went_out: bool, m: &mut Metrics) -> (r: LiquidationStep)
        ensures
            match self {
                LiquidationStep::Signing { profit_usd, .. } => if went_out {
                    &&& r == LiquidationStep::Traded
                    &&& final(m)@ == after_trade(
                        after_attempt(old(m)@, true),
                        "liquidation"@,
                        profit_usd,
                    )
                } else {
                    r == LiquidationStep::Unsent && final(m)@ == after_attempt(old(m)@, false)
                },
                _ => r == self && *final(m) == *old(m),
            },
    {
        match self {
            LiquidationStep::Signing { profit_usd, .. } => {
                record_attempt(m, went_out);
                if !went_out {
                    return LiquidationStep::Unsent;
                }
                record_trade(m, "liquidation", profit_usd);
                LiquidationStep::Traded
            },
            other => other,
        }
    }
}

} // verus!
