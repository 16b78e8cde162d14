//! Circular arbitrage through three pools.

use crate::config::Config;
use crate::double::arithmetic::nearest_to_integer;
use crate::double::chain::{
    law_one_is_neutral, law_product_error, law_product_grows_with_factors, law_zero_absorbs,
    lemma_error_adds, positive, within,
};
use crate::double::constants::{ONE, TEN_THOUSAND};
use crate::double::error::precision;
use crate::double::exact::{law_constants, law_whole_difference, law_whole_product};
use crate::double::growth::{
    amount, law_difference_is_monotone, law_difference_shrinks, law_product_commutes,
    law_product_is_monotone, lemma_product_of_amounts,
};
use crate::double::order::{lemma_one, lemma_words};
use crate::double::Double;
use crate::monitoring::metrics::{after_trade, record_trade, Metrics};
use crate::shared::address::Address;
use crate::shared::addresses::Addresses;
use crate::shared::flash_loan::calldata::{
    is_stable_pool, numbered_dex, route_fault, stable_pool, Triangle,
};
use crate::shared::flash_loan::{provider_for, shares_fit, FlashError, FlashLoanRouter, FlashProvider};
use crate::shared::market::{ArbSizing, Balances, DexType, PoolState, SimResult};
use crate::shared::submission::{
    after_attempt, next_nonce, record_attempt, SignRequest, SubmissionPipeline,
};
use crate::u256::U256;
use vstd::arithmetic::power2::pow2;
use vstd::prelude::*;

verus! {

/// The double 1.0008: what a round has to return at least for each unit.
pub const LEAST_RATIO: u64 = 0x3ff0_0346_dc5d_6388;

/// The greatest share of a reserve that is borrowed, in percent.
pub const MOST_PERCENT: u64 = 20;

/// One swap of a round: the pool, what it gives for a unit, and what its fee leaves.
#[derive(Clone, Copy, Debug)]
pub struct Leg {
    pub pool: PoolState,
    pub rate: Double,
    pub fee_factor: Double,
}

/// The exchange that a pool of a round is looked for at.
pub open spec fn leg_dex(dex_type: u8) -> DexType {
    if dex_type == 0 {
        DexType::Aerodrome
    } else {
        DexType::UniswapV3
    }
}

/// The exchange that a pool of a round is looked for at.
pub fn lookup_dex(dex_type: u8) -> (r: DexType)
    ensures
        r == leg_dex(dex_type),
{
    if dex_type == 0 {
        DexType::Aerodrome
    } else {
        DexType::UniswapV3
    }
}

/// What a round returns for each unit, fees included.
pub open spec fn round_ratio(a: Leg, b: Leg, c: Leg) -> Double {
    a.rate.times(a.fee_factor).times(b.rate).times(b.fee_factor).times(c.rate).times(c.fee_factor)
}

/// What a round gains, in basis points of what goes in.
pub open spec fn gain_bps(ratio: Double) -> Double {
    ratio.minus(Double { bits: ONE }).times(Double { bits: TEN_THOUSAND })
}

/// Whether a round returns too little to be looked at: no more than the least ratio, or a gain
/// below the least spread.
pub open spec fn unpromising(ratio: Double, min_spread_bps: Double) -> bool {
    ratio.at_most(Double { bits: LEAST_RATIO }) || gain_bps(ratio).below(min_spread_bps)
}

/// What a round returns for each unit, where that is enough.
pub fn promising_ratio(a: &Leg, b: &Leg, c: &Leg, min_spread_bps: Double) -> (r: Option<Double>)
    ensures
        r == if unpromising(round_ratio(*a, *b, *c), min_spread_bps) {
            None
        } else {
            Some(round_ratio(*a, *b, *c))
        },
{
    let ratio: Double = a.rate.mul(a.fee_factor).mul(b.rate).mul(b.fee_factor).mul(c.rate).mul(
        c.fee_factor,
    );
    let gain: Double = ratio.sub(Double { bits: ONE }).mul(Double { bits: TEN_THOUSAND });
    if ratio.is_at_most(Double { bits: LEAST_RATIO }) || gain.is_below(min_spread_bps) {
        None
    } else {
        Some(ratio)
    }
}

/// A swap that changes nothing: it gives one unit for each, and takes no fee.
pub open spec fn neutral(leg: Leg) -> bool {
    leg.rate == (Double { bits: ONE }) && leg.fee_factor == (Double { bits: ONE })
}

/// Whether what a swap gives, and what its fee leaves, are positive and finite.
pub open spec fn sound_leg(leg: Leg) -> bool {
    positive(leg.rate) && positive(leg.fee_factor)
}

/// A round does not return less where one of its swaps gives more, or where a fee leaves more.
pub proof fn law_ratio_grows_with_every_leg(a: Leg, b: Leg, c: Leg, x: Leg, y: Leg, z: Leg)
    requires
        sound_leg(a),
        sound_leg(b),
        sound_leg(c),
        sound_leg(x),
        sound_leg(y),
        sound_leg(z),
        a.rate.at_most(x.rate) && a.fee_factor.at_most(x.fee_factor),
        b.rate.at_most(y.rate) && b.fee_factor.at_most(y.fee_factor),
        c.rate.at_most(z.rate) && c.fee_factor.at_most(z.fee_factor),
    ensures
        round_ratio(a, b, c).at_most(round_ratio(x, y, z)),
{
    let (q, r) = (a.rate.times(a.fee_factor), x.rate.times(x.fee_factor));
    law_product_grows_with_factors(a.rate, x.rate, a.fee_factor, x.fee_factor);
    law_product_grows_with_factors(q, r, b.rate, y.rate);
    let (q, r) = (q.times(b.rate), r.times(y.rate));
    law_product_grows_with_factors(q, r, b.fee_factor, y.fee_factor);
    let (q, r) = (q.times(b.fee_factor), r.times(y.fee_factor));
    law_product_grows_with_factors(q, r, c.rate, z.rate);
    let (q, r) = (q.times(c.rate), r.times(z.rate));
    law_product_grows_with_factors(q, r, c.fee_factor, z.fee_factor);
}

/// A round with a swap that gives nothing, or whose fee leaves nothing, returns nothing.
pub proof fn law_round_without_a_leg_returns_nothing(a: Leg, b: Leg, c: Leg)
    requires
        within(a.rate, 100) || a.rate.zero(),
        within(b.rate, 100) || b.rate.zero(),
        within(c.rate, 100) || c.rate.zero(),
        within(a.fee_factor, 100) || a.fee_factor.zero(),
        within(b.fee_factor, 100) || b.fee_factor.zero(),
        within(c.fee_factor, 100) || c.fee_factor.zero(),
        amount(a.rate) && amount(b.rate) && amount(c.rate),
        amount(a.fee_factor) && amount(b.fee_factor) && amount(c.fee_factor),
        a.rate.zero() || b.rate.zero() || c.rate.zero() || a.fee_factor.zero()
            || b.fee_factor.zero() || c.fee_factor.zero(),
    ensures
        round_ratio(a, b, c).zero(),
{
    lemma_nothing_passes(a.rate, a.fee_factor, 100);
    let r = a.rate.times(a.fee_factor);
    lemma_nothing_passes(r, b.rate, 200);
    let r = r.times(b.rate);
    lemma_nothing_passes(r, b.fee_factor, 300);
    let r = r.times(b.fee_factor);
    lemma_nothing_passes(r, c.rate, 400);
    let r = r.times(c.rate);
    lemma_nothing_passes(r, c.fee_factor, 500);
}

/// A product with a factor zero is zero, and another one stays of a moderate size.
proof fn lemma_nothing_passes(r: Double, f: Double, k: nat)
    requires
        k <= 900,
        amount(r),
        amount(f),
        within(r, k) || r.zero(),
        within(f, 100) || f.zero(),
    ensures
        amount(r.times(f)),
        within(r.times(f), k + 100) || r.times(f).zero(),
        r.zero() || f.zero() ==> r.times(f).zero(),
{
    if r.zero() || f.zero() {
        law_zero_absorbs(r, f);
    } else {
        law_product_error(r, f, k);
    }
}

/// A round of which two swaps change nothing returns what the third one gives, less its fee.
pub proof fn law_neutral_legs_drop_out(leg: Leg, m: Leg, n: Leg)
    requires
        amount(leg.rate),
        amount(leg.fee_factor),
        neutral(m),
        neutral(n),
    ensures
        round_ratio(leg, m, n) == leg.rate.times(leg.fee_factor),
        round_ratio(m, leg, n) == leg.rate.times(leg.fee_factor),
        round_ratio(m, n, leg) == leg.rate.times(leg.fee_factor),
{
    let one = Double { bits: ONE };
    lemma_product_of_amounts(leg.rate, leg.fee_factor);
    law_one_is_neutral(leg.rate.times(leg.fee_factor));
    law_one_is_neutral(leg.rate);
    law_one_is_neutral(one);
}

/// Whether two integers differ by no more than ten times the second one divided by two to the
/// power 53.
pub open spec fn nearly(x: int, exact: int) -> bool {
    -(10 * exact) <= (x - exact) * precision() <= 10 * exact
}

/// What a round returns is the product of the rates and of the fee factors of all three swaps, up
/// to the rounding of five products. Values are counted in units, of which one has two to the
/// power 1074.
pub proof fn law_ratio_is_the_product(a: Leg, b: Leg, c: Leg)
    requires
        within(a.rate, 100) && within(a.fee_factor, 100),
        within(b.rate, 100) && within(b.fee_factor, 100),
        within(c.rate, 100) && within(c.fee_factor, 100),
    ensures
        ({
            let one = pow2(1074) as int;
            nearly(
                round_ratio(a, b, c).units() * (one * (one * (one * (one * one)))),
                a.rate.units() * a.fee_factor.units() * b.rate.units() * b.fee_factor.units()
                    * c.rate.units() * c.fee_factor.units(),
            )
        }),
{
    lemma_one();
    let one = pow2(1074) as int;
    let r1 = a.rate.times(a.fee_factor);
    let r2 = r1.times(b.rate);
    let r3 = r2.times(b.fee_factor);
    let r4 = r3.times(c.rate);
    let r5 = r4.times(c.fee_factor);
    law_product_error(a.rate, a.fee_factor, 100);
    law_product_error(r1, b.rate, 200);
    law_product_error(r2, b.fee_factor, 300);
    law_product_error(r3, c.rate, 400);
    law_product_error(r4, c.fee_factor, 500);
    let e0 = a.rate.units();
    let e1 = e0 * a.fee_factor.units();
    let e2 = e1 * b.rate.units();
    let e3 = e2 * b.fee_factor.units();
    let e4 = e3 * c.rate.units();
    lemma_factor(a.rate.units(), e0, a.fee_factor.units(), r1.units(), 1, one, 0);
    let s2 = one * one;
    lemma_factor(r1.units(), e1, b.rate.units(), r2.units(), one, one, 2);
    let s3 = one * s2;
    lemma_factor(r2.units(), e2, b.fee_factor.units(), r3.units(), s2, one, 4);
    let s4 = one * s3;
    lemma_factor(r3.units(), e3, c.rate.units(), r4.units(), s3, one, 6);
    lemma_factor(r4.units(), e4, c.fee_factor.units(), r5.units(), s4, one, 8);
}

/// An error that one more factor adds.
proof fn lemma_factor(r: int, exact: int, f: int, next: int, scale: int, one: int, j: int)
    requires
        r >= 0,
        exact >= 0,
        f >= 0,
        scale > 0,
        one > 0,
        0 <= j <= 8,
        -(j * exact) <= (r * scale - exact) * precision() <= j * exact,
        -(r * f) <= (next * one - r * f) * precision() <= r * f,
    ensures
        -((j + 2) * (exact * f)) <= (next * (one * scale) - exact * f) * precision() <= (j + 2) * (exact
            * f),
        exact * f >= 0,
        one * scale > 0,
{
    lemma_error_adds(r, exact, f, next * one, scale, j);
    assert((next * one) * scale == next * (one * scale)) by (nonlinear_arith);
    assert(exact * f >= 0 && one * scale > 0) by (nonlinear_arith)
        requires
            exact >= 0,
            f >= 0,
            one > 0,
            scale > 0,
    ;
}

/// A round that returns no more than it takes is never looked at, nor is one whose gain is below
/// the least spread; any other that returns more than the least ratio is.
pub proof fn law_promising_rounds_gain(ratio: Double, min_spread_bps: Double)
    requires
        !ratio.nan(),
        !min_spread_bps.nan(),
    ensures
        ratio.at_most(Double { bits: ONE }) ==> unpromising(ratio, min_spread_bps),
        !unpromising(ratio, min_spread_bps) ==> (Double { bits: LEAST_RATIO }).below(ratio)
            && !ratio.minus(Double { bits: ONE }).times(Double { bits: TEN_THOUSAND }).below(
            min_spread_bps,
        ),
        (Double { bits: LEAST_RATIO }).below(ratio) && !ratio.minus(Double { bits: ONE }).times(
            Double { bits: TEN_THOUSAND },
        ).below(min_spread_bps) ==> !unpromising(ratio, min_spread_bps),
{
    lemma_words(ONE, LEAST_RATIO);
}

/// A round that returns more, against a lower floor, stays promising.
pub proof fn law_better_rounds_stay_promising(ratio: Double, better: Double, floor: Double, lower: Double)
    requires
        amount(ratio),
        amount(better),
        ratio.at_most(better),
        lower.at_most(floor),
        !unpromising(ratio, floor),
    ensures
        !unpromising(better, lower),
{
    let (one, bps) = (Double { bits: ONE }, Double { bits: TEN_THOUSAND });
    lemma_words(ONE, LEAST_RATIO);
    law_difference_shrinks(ratio, one);
    law_difference_shrinks(better, one);
    law_difference_is_monotone(ratio, better, one, one);
    let (x, y) = (ratio.minus(one), better.minus(one));
    law_product_is_monotone(bps, x, y);
    law_product_commutes(bps, x);
    law_product_commutes(bps, y);
}

/// A round that returns a whole number of times what it takes gains ten thousand basis points for
/// each time beyond the first.
pub proof fn law_gain_of_whole_ratios(times: nat)
    requires
        1 <= times <= 1_000_000_000,
    ensures
        gain_bps(nearest_to_integer(times)) == nearest_to_integer((10_000 * (times - 1)) as nat),
{
    law_constants();
    law_whole_difference(times, 1);
    law_whole_product((times - 1) as nat, 10_000);
}

/// What the size of two neighbouring swaps is worked out from.
pub open spec fn pair_sizing(a: PoolState, b: PoolState) -> ArbSizing {
    ArbSizing {
        reserve_buy: a.reserve0,
        reserve_sell: b.reserve0,
        fee_buy: a.fee_bps,
        fee_sell: b.fee_bps,
        most_percent: MOST_PERCENT,
    }
}

/// What the size of a round is worked out from: both pairs of neighbouring swaps.
pub fn sizings(a: &Leg, b: &Leg, c: &Leg) -> (r: (ArbSizing, ArbSizing))
    ensures
        r == (pair_sizing(a.pool, b.pool), pair_sizing(b.pool, c.pool)),
{
    (
        ArbSizing {
            reserve_buy: a.pool.reserve0,
            reserve_sell: b.pool.reserve0,
            fee_buy: a.pool.fee_bps,
            fee_sell: b.pool.fee_bps,
            most_percent: MOST_PERCENT,
        },
        ArbSizing {
            reserve_buy: b.pool.reserve0,
            reserve_sell: c.pool.reserve0,
            fee_buy: b.pool.fee_bps,
            fee_sell: c.pool.fee_bps,
            most_percent: MOST_PERCENT,
        },
    )
}

/// Each pair of swaps is sized by the reserve and the fee of both of its pools, a fifth of a
/// reserve at most; the pool in the middle counts in both pairs.
pub proof fn law_sizing_looks_at_both_pools(a: PoolState, b: PoolState, c: PoolState)
    ensures
        ({
            let (first, second) = (pair_sizing(a, b), pair_sizing(b, c));
            &&& first.reserve_buy == a.reserve0 && first.fee_buy == a.fee_bps
            &&& first.reserve_sell == b.reserve0 && first.fee_sell == b.fee_bps
            &&& second.reserve_buy == first.reserve_sell && second.fee_buy == first.fee_sell
            &&& second.reserve_sell == c.reserve0 && second.fee_sell == c.fee_bps
            &&& 5 * first.most_percent == 100 && second.most_percent == first.most_percent
        }),
{
}

/// The size of a round: the smaller of the best sizes of both pairs, if it is not zero.
pub fn round_amount(first: U256, second: U256) -> (r: Option<U256>)
    ensures
        r is None <==> first@ == 0 || second@ == 0,
        r matches Some(a) ==> a@ == if first@ <= second@ {
            first@
        } else {
            second@
        },
{
    let amount: U256 = first.min(second);
    if amount.is_zero() {
        None
    } else {
        Some(amount)
    }
}

/// The route of a round, as the contract is told.
pub open spec fn route_of(tokens: [Address; 3], dex_types: [u8; 3], a: PoolState, b: PoolState, c: PoolState) -> Triangle {
    Triangle {
        tokens,
        dex_types,
        fees_bps: [a.fee_bps, b.fee_bps, c.fee_bps],
        stables: [
            stable_pool(a.dex, a.fee_bps),
            stable_pool(b.dex, b.fee_bps),
            stable_pool(c.dex, c.fee_bps),
        ],
    }
}

/// A round that is looked at.
#[derive(Clone, Copy, Debug)]
pub struct Round {
    pub tokens: [Address; 3],
    pub dex_types: [u8; 3],
    pub first: Leg,
    pub second: Leg,
    pub third: Leg,
}

impl Round {
    /// The route of the round, as the contract is told.
    pub open spec fn route(self) -> Triangle {
        route_of(
            self.tokens,
            self.dex_types,
            self.first.pool,
            self.second.pool,
            self.third.pool,
        )
    }
}

/// Each swap of a round goes to the exchange at which its pool was looked for.
pub proof fn law_pools_are_looked_for_where_they_are_traded(dex_type: u8)
    ensures
        numbered_dex(dex_type) matches Some(dex) ==> leg_dex(dex_type) == dex,
{
}

/// The contract is told the fee of each pool of a round, and whether it is a stable one, in the
/// order of the swaps, and the tokens and exchanges of the round as they are.
pub proof fn law_route_is_that_of_the_round(round: Round)
    ensures
        ({
            let route = round.route();
            let (a, b, c) = (round.first.pool, round.second.pool, round.third.pool);
            &&& route.tokens == round.tokens && route.dex_types == round.dex_types
            &&& route.fees_bps@[0] == a.fee_bps
            &&& route.fees_bps@[1] == b.fee_bps
            &&& route.fees_bps@[2] == c.fee_bps
            &&& route.stables@[0] == (a.dex is Aerodrome && a.fee_bps <= 9)
            &&& route.stables@[1] == (b.dex is Aerodrome && b.fee_bps <= 9)
            &&& route.stables@[2] == (c.dex is Aerodrome && c.fee_bps <= 9)
        }),
{
}

/// How far a circular arbitrage has come.
pub enum TriStep {
    /// The best sizes of both pairs of swaps are to be worked out.
    Sizing { round: Round },
    /// The round is to be simulated.
    Simulating { round: Round, amount: U256 },
    /// The lenders of the first token are to be asked what they hold.
    Lending { round: Round, amount: U256, sim: SimResult },
    /// The transaction is to be signed and sent.
    Signing { request: SignRequest, profit_usd: Double },
    /// The trade was made.
    Traded,
    /// The transaction could not be signed, so it was not sent.
    Unsent,
    /// There is nothing to trade.
    Skipped,
    /// The calldata cannot be made.
    Failed { error: FlashError },
}

/// A simulated round goes on if and only if its profit is not below the least one, with the round,
/// the size and the simulation as they were; any other step stays as it is.
pub proof fn law_small_profits_are_skipped(step: TriStep, sim: SimResult, cfg: Config)
    requires
        !sim.profit_usd.nan(),
        !cfg.min_profit_usd.nan(),
    ensures
        step matches TriStep::Simulating { round, amount } ==> {
            &&& cfg.min_profit_usd.at_most(sim.profit_usd) ==> step.after_simulation(sim, cfg) == (
            TriStep::Lending { round, amount, sim })
            &&& sim.profit_usd.below(cfg.min_profit_usd) ==> step.after_simulation(sim, cfg)
                is Skipped
        },
        !(step is Simulating) ==> step.after_simulation(sim, cfg) == step,
{
}

impl TriStep {
    /// Looks at the pools of a round; one that does not return enough is skipped.
    pub fn start(round: &Option<Round>, cfg: &Config) -> (r: TriStep)
        ensures
            r == match *round {
                Some(t) => if unpromising(
                    round_ratio(t.first, t.second, t.third),
                    cfg.min_arb_spread_bps,
                ) {
                    TriStep::Skipped
                } else {
                    TriStep::Sizing { round: t }
                },
                None => TriStep::Skipped,
            },
    {
        match round {
            Some(t) => match promising_ratio(&t.first, &t.second, &t.third, cfg.min_arb_spread_bps) {
                Some(_) => TriStep::Sizing { round: *t },
                None => TriStep::Skipped,
            },
            None => TriStep::Skipped,
        }
    }

    /// Takes the best sizes of both pairs of swaps; the smaller one counts, and zero is skipped.
    pub fn sized(self, first: U256, second: U256) -> (r: TriStep)
        ensures
            match self {
                TriStep::Sizing { round } => if first@ == 0 || second@ == 0 {
                    r == TriStep::Skipped
                } else {
                    &&& r matches TriStep::Simulating { round: t, amount }
                    &&& t == round
                    &&& amount@ == if first@ <= second@ {
                        first@
                    } else {
                        second@
                    }
                },
                _ => r == self,
            },
    {
        match self {
            TriStep::Sizing { round } => match round_amount(first, second) {
                Some(amount) => TriStep::Simulating { round, amount },
                None => TriStep::Skipped,
            },
            other => other,
        }
    }

    /// What follows a simulation: too small a profit is skipped.
    pub open spec fn after_simulation(self, sim: SimResult, cfg: Config) -> TriStep {
        match self {
            TriStep::Simulating { round, amount } => if sim.profit_usd.below(cfg.min_profit_usd) {
                TriStep::Skipped
            } else {
                TriStep::Lending { round, amount, sim }
            },
            _ => self,
        }
    }

    /// Takes what the simulation foresees; too small a profit is skipped.
    pub fn simulated(self, sim: SimResult, cfg: &Config) -> (r: TriStep)
        ensures
            r == self.after_simulation(sim, *cfg),
    {
        match self {
            TriStep::Simulating { round, amount } => if sim.profit_usd.is_below(cfg.min_profit_usd) {
                TriStep::Skipped
            } else {
                TriStep::Lending { round, amount, sim }
            },
            other => other,
        }
    }

    /// The token whose lenders are to be asked what they hold: the one that is borrowed.
    pub fn borrowed(&self) -> (r: Option<Address>)
        ensures
            r == match *self {
                TriStep::Lending { round, .. } => Some(round.tokens@[0]),
                _ => None,
            },
    {
        match self {
            TriStep::Lending { round, .. } => Some(round.tokens[0]),
            _ => None,
        }
    }

    /// Takes what the lenders hold, and makes the transaction; where its calldata cannot be made,
    /// no nonce is taken.
    pub fn lent(
        self,
        pipeline: &mut SubmissionPipeline,
        flash: &FlashLoanRouter,
        addresses: &Addresses,
        held: &Balances,
    ) -> (r: TriStep)
        requires
            self matches TriStep::Lending { round, .. } ==> {
                &&& shares_fit(*held)
                &&& round.route().fees_fit(*addresses)
            },
        ensures
            match self {
                TriStep::Lending { round, amount, sim } => match route_fault(
                    *addresses,
                    round.dex_types@,
                ) {
                    Some(error) => {
                        &&& r == (TriStep::Failed { error })
                        &&& *final(pipeline) == *old(pipeline)
                    },
                    None => {
                        &&& r matches TriStep::Signing { request, profit_usd }
                        &&& profit_usd == sim.profit_usd
                        &&& request.asks(
                            round.route().plan(
                                *addresses,
                                provider_for(amount@, *held),
                                amount@,
                                sim.min_profit_wei@,
                            ).calldata(),
                            sim.gas_estimate,
                            ONE,
                            old(pipeline).next(),
                        )
                        &&& final(pipeline).next() == next_nonce(old(pipeline).next())
                        &&& final(pipeline).same_endpoints(*old(pipeline))
                    },
                },
                _ => r == self && *final(pipeline) == *old(pipeline),
            },
    {
        match self {
            TriStep::Lending { round, amount, sim } => {
                let provider: FlashProvider = flash.select_provider(amount, held);
                let (a, b, c) = (round.first.pool, round.second.pool, round.third.pool);
                let fees_bps: [u32; 3] = [a.fee_bps, b.fee_bps, c.fee_bps];
                let stables: [bool; 3] = [is_stable_pool(&a), is_stable_pool(&b), is_stable_pool(&c)];
                match flash.build_tri_arb(
                    addresses,
                    provider,
                    round.tokens,
                    round.dex_types,
                    fees_bps,
                    stables,
                    amount,
                    sim.min_profit_wei,
                ) {
                    Ok(calldata) => TriStep::Signing {
                        request: pipeline.submit(calldata, sim.gas_estimate),
                        profit_usd: sim.profit_usd,
                    },
                    Err(error) => TriStep::Failed { error },
                }
            },
            other => other,
        }
    }

    /// Takes whether the transaction was signed and sent: one that was is counted, and so is the
    /// trade; one that was not leaves no trace.
    pub fn sent(self, went_out: bool, m: &mut Metrics) -> (r: TriStep)
        ensures
            match self {
                TriStep::Signing { profit_usd, .. } => if went_out {
                    &&& r == TriStep::Traded
                    &&& final(m)@ == after_trade(
                        after_attempt(old(m)@, true),
                        "tri_arb"@,
                        profit_usd,
                    )
                } else {
                    r == TriStep::Unsent && final(m)@ == after_attempt(old(m)@, false)
                },
                _ => r == self && *final(m) == *old(m),
            },
    {
        match self {
            TriStep::Signing { profit_usd, .. } => {
                record_attempt(m, went_out);
                if !went_out {
                    return TriStep::Unsent;
                }
                record_trade(m, "tri_arb", profit_usd);
                TriStep::Traded
            },
            other => other,
        }
    }
}

} // verus!
