//! What the main loop decides: when something is due, which prices hold, and what is alerted.

use crate::circuit::{
    after_revert, after_success, record_revert, record_success, Breaker, REVERT_THRESHOLD,
    REVERT_THRESHOLD_JIT,
};
use crate::config::Config;
use crate::double::arithmetic::{from_u128, nearest_to_integer};
use crate::double::chain::{law_one_is_neutral, law_sum_commutes};
use crate::double::constants::{ETHER, GWEI, ONE, TEN, THIRTY};
use crate::double::exact::{
    law_constants, law_nothing_is_shared, law_own_share, law_quotient_grows, law_whole_product,
    law_whole_quotient, law_whole_sum,
};
use crate::double::growth::{
    amount, law_conversion_is_monotone, law_product_grows, law_product_is_monotone,
    law_quotient_shrinks, law_sum_grows, law_sum_is_monotone, lemma_ether, lemma_integer_is_amount,
    lemma_integer_is_exact,
};
use crate::double::order::{lemma_one, lemma_words};
use crate::double::{lemma_units_grow, Double};
use crate::monitoring::metrics::{update_gas_reserve, Measures, Metrics};
use crate::shared::abi::{function_selector, selector};
use crate::shared::address::{address_at, address_from, lemma_address_from, read_address, told_address, Address};
use crate::shared::flash_loan::depths::CallRequest;
use crate::u256::U256;
use vstd::prelude::*;

verus! {

/// The strategies that the engine runs.
#[derive(Clone, Copy, Debug, PartialEq, Eq, Structural)]
pub enum Strategy {
    CrossDexArb,
    TriArb,
    Liquidation,
    FlashJit,
    RateArb,
}

impl Strategy {
    /// The name that alerts call the strategy by.
    pub open spec fn name(self) -> Seq<char> {
        match self {
            Strategy::CrossDexArb => "S1-CrossDexArb"@,
            Strategy::TriArb => "S2-TriArb"@,
            Strategy::Liquidation => "S3-Liq"@,
            Strategy::FlashJit => "S4-JIT"@,
            Strategy::RateArb => "S5-RateArb"@,
        }
    }

    /// The failures after which the strategy is paused.
    pub open spec fn most_reverts(self) -> u32 {
        match self {
            Strategy::FlashJit => REVERT_THRESHOLD_JIT,
            _ => REVERT_THRESHOLD,
        }
    }

    /// The milliseconds that the strategy has for a block; the one that serves pending swaps does
    /// not run by the block.
    pub open spec fn milliseconds(self) -> Option<u64> {
        match self {
            Strategy::CrossDexArb | Strategy::TriArb => Some(500),
            Strategy::Liquidation => Some(900),
            Strategy::FlashJit => None,
            Strategy::RateArb => Some(600),
        }
    }

    /// The name that alerts call the strategy by.
    pub fn label(self) -> (r: &'static str)
        ensures
            r@ == self.name(),
    {
        match self {
            Strategy::CrossDexArb => "S1-CrossDexArb",
            Strategy::TriArb => "S2-TriArb",
            Strategy::Liquidation => "S3-Liq",
            Strategy::FlashJit => "S4-JIT",
            Strategy::RateArb => "S5-RateArb",
        }
    }

    /// The failures after which the strategy is paused.
    pub fn threshold(self) -> (r: u32)
        ensures
            r == self.most_reverts(),
    {
        match self {
            Strategy::FlashJit => REVERT_THRESHOLD_JIT,
            _ => REVERT_THRESHOLD,
        }
    }

    /// The milliseconds that the strategy has for a block.
    pub fn timeout_ms(self) -> (r: Option<u64>)
        ensures
            r == self.milliseconds(),
    {
        match self {
            Strategy::CrossDexArb => Some(500),
            Strategy::TriArb => Some(500),
            Strategy::Liquidation => Some(900),
            Strategy::FlashJit => None,
            Strategy::RateArb => Some(600),
        }
    }
}

/// Counts how a run of a strategy has ended.
pub fn settle(breaker: &mut Breaker, succeeded: bool)
    ensures
        final(breaker)@ == if succeeded {
            after_success(old(breaker)@)
        } else {
            after_revert(old(breaker)@)
        },
{
    if succeeded {
        record_success(breaker);
    } else {
        record_revert(breaker);
    }
}

/// Whether pending swaps are served.
pub fn serves_pending_swaps(cfg: &Config, breaker: &Breaker) -> (r: bool)
    ensures
        r == (cfg.jit_enabled && breaker@.reverts < REVERT_THRESHOLD_JIT),
{
    cfg.jit_enabled && breaker.reverts() < REVERT_THRESHOLD_JIT
}

/// Whether something that is done every so many blocks is due.
pub fn is_due(block: u64, every: u64) -> (r: bool)
    requires
        every > 0,
    ensures
        r == (block % every == 0),
{
    block % every == 0
}

/// The prices of an ether and of a bitcoin, in dollars.
#[derive(Clone, Copy, Debug, PartialEq, Eq, Structural)]
pub struct Prices {
    pub eth: Double,
    pub btc: Double,
}

/// The prices that hold: those that are told, else the configured one for an ether, and thirty
/// ethers for a bitcoin.
pub open spec fn prices_of(eth: Option<Double>, btc: Option<Double>, fallback: Double) -> Prices {
    let eth_price = match eth {
        Some(p) => p,
        None => fallback,
    };
    Prices {
        eth: eth_price,
        btc: match btc {
            Some(p) => p,
            None => eth_price.times(Double { bits: THIRTY }),
        },
    }
}

/// The prices that hold, given those that are told.
pub fn current_prices(eth: Option<Double>, btc: Option<Double>, cfg: &Config) -> (r: Prices)
    ensures
        r == prices_of(eth, btc, cfg.eth_price_fallback_usd),
{
    let eth_price: Double = match eth {
        Some(p) => p,
        None => cfg.eth_price_fallback_usd,
    };
    let btc_price: Double = match btc {
        Some(p) => p,
        None => eth_price.mul(Double { bits: THIRTY }),
    };
    Prices { eth: eth_price, btc: btc_price }
}

/// The factor by which the least spread is raised: it grows with the price of gas, up to ten.
pub open spec fn spread_factor(base_fee_wei: u64) -> Double {
    let gwei = nearest_to_integer(base_fee_wei as nat).over(Double { bits: GWEI });
    (Double { bits: ONE }).plus(gwei.over(Double { bits: TEN })).lesser(Double { bits: TEN })
}

/// The least spread of an arbitrage, raised where gas is dear.
pub open spec fn raised_spread(configured: Double, base_fee_wei: u64) -> Double {
    configured.times(spread_factor(base_fee_wei))
}

/// Raises the least spread of an arbitrage where gas is dear.
pub fn raise_spread(cfg: &mut Config, configured: Double, base_fee_wei: u64)
    ensures
        *final(cfg) == (Config {
            min_arb_spread_bps: raised_spread(configured, base_fee_wei),
            ..*old(cfg)
        }),
{
    let ten: Double = Double { bits: TEN };
    let gwei: Double = from_u128(base_fee_wei as u128).div(Double { bits: GWEI });
    let factor: Double = Double { bits: ONE }.add(gwei.div(ten)).min(ten);
    cfg.min_arb_spread_bps = configured.mul(factor);
}

/// The least spread is never lowered, and never raised to more than ten times the configured one.
pub proof fn law_spread_is_raised(configured: Double, base_fee_wei: u64)
    requires
        amount(configured),
    ensures
        configured.at_most(raised_spread(configured, base_fee_wei)),
        raised_spread(configured, base_fee_wei).at_most(configured.times(Double { bits: TEN })),
{
    let one = Double { bits: ONE };
    let ten = Double { bits: TEN };
    let fee = nearest_to_integer(base_fee_wei as nat);
    lemma_words(ONE, TEN);
    lemma_words(ONE, GWEI);
    lemma_integer_is_amount(base_fee_wei as nat);
    law_quotient_shrinks(fee, Double { bits: GWEI });
    law_quotient_shrinks(fee.over(Double { bits: GWEI }), ten);
    law_sum_grows(one, fee.over(Double { bits: GWEI }).over(ten));
    let factor = spread_factor(base_fee_wei);
    assert(one.at_most(factor) && factor.at_most(ten));
    assert(amount(factor)) by {
        crate::double::order::lemma_one();
        if factor.magnitude() >= TEN {
            if factor.magnitude() > TEN {
                crate::double::lemma_units_grow(TEN as nat, factor.magnitude());
            }
        }
    }
    law_product_grows(configured, factor);
    law_product_is_monotone(configured, factor, ten);
}

/// The ether of a balance.
pub open spec fn ether_of(balance: nat) -> Double {
    nearest_to_integer(balance).over(Double { bits: ETHER })
}

/// Notes what is left for gas, and tells the ether that is alerted where it is less than one.
pub fn check_gas_reserve(m: &mut Metrics, balance: U256) -> (r: Option<Double>)
    requires
        balance@ <= u128::MAX,
    ensures
        final(m)@ == (Measures { gas_reserve_eth: ether_of(balance@), ..old(m)@ }),
        r == if ether_of(balance@).below(Double { bits: ONE }) {
            Some(ether_of(balance@))
        } else {
            None
        },
{
    let eth: Double = from_u128(balance.as_u128()).div(Double { bits: ETHER });
    if update_gas_reserve(m, eth) {
        Some(eth)
    } else {
        None
    }
}

/// The call that asks the configured provider of addresses for the lending pool, where its
/// address can be read.
pub fn lending_pool_call(cfg: &Config) -> (r: Option<CallRequest>)
    ensures
        r is Some <==> told_address(cfg.aave_addresses_provider@) is Some,
        r matches Some(call) ==> Some(call.to) == told_address(cfg.aave_addresses_provider@)
            && call.data@ == selector("getPool()"@),
{
    match read_address(cfg.aave_addresses_provider.as_str()) {
        Some(to) => Some(CallRequest { to, data: function_selector("getPool()") }),
        None => None,
    }
}

/// The lending pool that the reply tells.
pub fn read_lending_pool(reply: &[u8]) -> (r: Address)
    requires
        reply@.len() >= 32,
    ensures
        r == address_from(reply@.subrange(12, 32)),
{
    let r: Address = address_at(reply, 0);
    proof {
        lemma_address_from(r);
    }
    r
}

/// Dearer gas does not lower the least spread, and each ten gwei add its configured value once, up
/// to ten times.
pub proof fn law_spread_grows_with_gas(configured: Double, base_fee_wei: u64, dearer: u64, tens: nat)
    requires
        amount(configured),
        base_fee_wei <= dearer,
        tens <= 9,
    ensures
        raised_spread(configured, base_fee_wei).at_most(raised_spread(configured, dearer)),
        dearer == 10_000_000_000 * tens ==> raised_spread(configured, dearer) == configured.times(
            nearest_to_integer(1 + tens),
        ),
        dearer == 0 ==> raised_spread(configured, dearer) == configured,
        dearer == 10_000_000_000 * tens ==> spread_factor(dearer) == nearest_to_integer(1 + tens),
{
    let (one, ten, gwei) = (Double { bits: ONE }, Double { bits: TEN }, Double { bits: GWEI });
    let (x, y) = (nearest_to_integer(base_fee_wei as nat), nearest_to_integer(dearer as nat));
    lemma_one();
    lemma_words(ONE, TEN);
    lemma_words(ONE, GWEI);
    lemma_integer_is_amount(base_fee_wei as nat);
    lemma_integer_is_amount(dearer as nat);
    law_conversion_is_monotone(base_fee_wei as nat, dearer as nat);
    law_quotient_grows(x, y, gwei);
    law_quotient_shrinks(x, gwei);
    law_quotient_shrinks(y, gwei);
    let (a, b) = (x.over(gwei), y.over(gwei));
    law_quotient_grows(a, b, ten);
    law_quotient_shrinks(a, ten);
    law_quotient_shrinks(b, ten);
    let (c, d) = (a.over(ten), b.over(ten));
    law_sum_grows(one, c);
    law_sum_grows(one, d);
    law_sum_commutes(one, c);
    law_sum_commutes(one, d);
    law_sum_is_monotone(c, d, one);
    let (f, g) = (spread_factor(base_fee_wei), spread_factor(dearer));
    assert(f.at_most(g) && g.at_most(ten) && one.at_most(f));
    lemma_unsigned_factor(f);
    lemma_unsigned_factor(g);
    law_product_is_monotone(configured, f, g);
    if dearer == 10_000_000_000 * tens {
        law_constants();
        law_whole_quotient(10 * tens, 1_000_000_000);
        law_whole_quotient(tens, 10);
        law_whole_sum(1, tens);
        law_conversion_is_monotone(1 + tens, 10);
    }
    if dearer == 0 {
        law_constants();
        law_whole_quotient(0, 1_000_000_000);
        law_whole_quotient(0, 10);
        law_whole_sum(1, 0);
        law_one_is_neutral(configured);
    }
}

/// A factor between one and ten is an amount.
proof fn lemma_unsigned_factor(factor: Double)
    requires
        (Double { bits: ONE }).at_most(factor),
        factor.at_most(Double { bits: TEN }),
    ensures
        amount(factor),
{
    lemma_one();
    if factor.magnitude() > TEN {
        lemma_units_grow(TEN as nat, factor.magnitude());
    }
}

/// Prices that are told hold, and the configured one counts only where none is told for an ether;
/// a bitcoin without a price of its own is worth thirty ethers.
pub proof fn law_told_prices_hold(eth: Double, btc: Double, fallback: Double, other: Double, n: nat)
    requires
        n <= 1_000_000_000,
    ensures
        prices_of(Some(eth), Some(btc), fallback) == (Prices { eth, btc }),
        prices_of(Some(eth), None, fallback) == prices_of(Some(eth), None, other),
        prices_of(None, Some(btc), fallback) == (Prices { eth: fallback, btc }),
        prices_of(Some(eth), None, fallback).eth == eth,
        prices_of(None, None, fallback).btc == prices_of(Some(fallback), None, other).btc,
        eth == nearest_to_integer(n) ==> prices_of(Some(eth), None, fallback).btc
            == nearest_to_integer(30 * n),
{
    law_constants();
    law_whole_product(n, 30);
}

/// A greater balance is no less ether, and 10 to the power 18 wei are one.
pub proof fn law_ether_grows(balance: nat, more: nat)
    requires
        balance <= more <= u128::MAX,
    ensures
        ether_of(balance).at_most(ether_of(more)),
        more == 1_000_000_000_000_000_000 ==> ether_of(more) == (Double { bits: ONE }),
        balance == 0 ==> ether_of(balance).zero(),
{
    let ether = Double { bits: ETHER };
    lemma_integer_is_amount(balance);
    lemma_integer_is_amount(more);
    law_conversion_is_monotone(balance, more);
    law_quotient_grows(nearest_to_integer(balance), nearest_to_integer(more), ether);
    lemma_ether();
    law_own_share(ether);
    if balance == 0 {
        lemma_integer_is_exact(0);
        lemma_one();
        law_nothing_is_shared(nearest_to_integer(0), ether);
    }
}

/// The liquidity strategy is paused earlier than any other, and it alone does not run by the
/// block.
pub proof fn law_strategies_are_told_apart(s: Strategy)
    ensures
        s is FlashJit <==> s.milliseconds() is None,
        s is FlashJit ==> s.most_reverts() == 10,
        !(s is FlashJit) ==> s.most_reverts() == 25,
        s is CrossDexArb || s is TriArb ==> s.milliseconds() == Some(500u64),
        s is Liquidation ==> s.milliseconds() == Some(900u64),
        s is RateArb ==> s.milliseconds() == Some(600u64),
{
}

} // verus!
