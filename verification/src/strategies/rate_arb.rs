//! Rate arbitrage: an asset is supplied where it earns more than it costs to borrow.

use crate::config::Config;
use crate::double::arithmetic::{from_u128, nearest_to_integer};
use crate::double::chain::{
    law_product_grows_with_factors, law_quotient_error, law_sum_commutes, law_sum_of_reach, positive,
    within,
};
use crate::double::constants::{GREATEST, HUNDRED, ONE, SECONDS_PER_DAY, TEN_THOUSAND, TWO};
use crate::double::error::precision;
use crate::double::exact::{
    countable, law_constants, law_quotient_grows, law_whole_product, law_whole_quotient, law_whole_sum,
    lemma_determined,
};
use crate::double::growth::{
    amount, law_conversion_is_monotone, law_difference_shrinks, law_sum_is_monotone, lemma_exact, lemma_integer_is_amount,
    lemma_integer_is_exact,
};
use crate::double::order::{lemma_at_least_one, lemma_one, lemma_words};
use crate::double::{lemma_units_zero, Double, FRACTIONS};
use crate::monitoring::metrics::{
    after_close, after_open, after_trade, alert_hf, health_alert, record_position_close,
    record_position_open, record_trade, HealthAlert, Measures, Metrics,
};
use crate::shared::address::{
    address_at, address_from, all_zero, lemma_address_from, parsed_address, read_address, same_address,
    told_address, Address,
};
use crate::shared::addresses::Addresses;
use crate::shared::flash_loan::carry::{
    close_fault, close_plan, law_loops_use_the_loan, loop_amounts, loop_count, open_plan, total,
};
use crate::shared::flash_loan::depths::{balance_data, balance_of, CallRequest};
use crate::shared::flash_loan::{provider_for, shares_fit, FlashError, FlashLoanRouter, FlashProvider};
use crate::shared::market::Balances;
use crate::shared::health_factor::{lists, HealthFactorMonitor};
use crate::shared::rate_feed::{
    noted_protocols, noted_rates, noted_spread, reply_bytes, reserve_call, reserve_data, RateFeed,
    RateSnapshot,
};
use crate::shared::submission::{
    after_attempt, next_nonce, record_attempt, SignRequest, SubmissionPipeline, URGENT_TIP,
};
use crate::u256::{big_endian, lemma_u256_of, lemma_u256_value, limit, u256_of, U256};
use vstd::arithmetic::power2::{lemma2_to64, lemma2_to64_rest, lemma_pow2_adds, pow2};
use vstd::prelude::*;

verus! {

/// The double 1.3: the health factor that a carry is opened with at least.
pub const TARGET_HF: u64 = 0x3ff4_cccc_cccc_cccd;

/// The double 1.5: the leverage that a carry has at least, where it is safe.
pub const LEVERAGE_FLOOR: u64 = 0x3ff8_0000_0000_0000;

/// The double 4: the leverage that a carry has at most.
pub const LEVERAGE_MOST: u64 = 0x4010_0000_0000_0000;

/// The gas limit of a transaction that closes a carry.
pub const CLOSE_GAS: u64 = 700_000;

/// An open carry.
#[derive(Clone, Copy, Debug)]
pub struct RateArbPosition {
    pub asset: Address,
    pub supply_proto: Address,
    pub borrow_proto: Address,
    pub notional_usd: Double,
    pub leverage: Double,
    pub net_apy: Double,
    pub health_factor: Double,
    pub opened_block: u64,
    pub opened_ts: u64,
    pub pnl_usd: Double,
    /// The debt, which the loan that closes the carry has to cover.
    pub debt_amount_wei: U256,
}

// Closing.

/// Why a carry is closed.
#[derive(Clone, Copy, Debug, PartialEq, Eq, Structural)]
pub enum UnwindReason {
    Emergency,
    LowHealth,
    SpreadCompressed,
    MaxHoldExceeded,
}

impl UnwindReason {
    /// The reason in words.
    pub open spec fn words(self) -> Seq<char> {
        match self {
            UnwindReason::Emergency => "EMERGENCY: HF critical"@,
            UnwindReason::LowHealth => "HF below threshold"@,
            UnwindReason::SpreadCompressed => "Spread compressed"@,
            UnwindReason::MaxHoldExceeded => "Max hold exceeded"@,
        }
    }

    /// The reason in words.
    pub fn text(self) -> (r: &'static str)
        ensures
            r@ == self.words(),
    {
        match self {
            UnwindReason::Emergency => "EMERGENCY: HF critical",
            UnwindReason::LowHealth => "HF below threshold",
            UnwindReason::SpreadCompressed => "Spread compressed",
            UnwindReason::MaxHoldExceeded => "Max hold exceeded",
        }
    }
}

/// The blocks for which a carry has been held.
pub open spec fn held_blocks(pos: RateArbPosition, current_block: u64) -> nat {
    if current_block >= pos.opened_block {
        (current_block - pos.opened_block) as nat
    } else {
        0
    }
}

/// The days that some blocks take, at two seconds each.
pub open spec fn days_of_blocks(blocks: nat) -> Double {
    nearest_to_integer(blocks).times(Double { bits: TWO }).over(Double { bits: SECONDS_PER_DAY })
}

/// Why a carry is to be closed, if it is: a critical health factor counts at once, everything
/// else only after the least number of blocks.
pub open spec fn due_reason(pos: RateArbPosition, spread_bps: Double, cfg: Config, current_block: u64) -> Option<
    UnwindReason,
> {
    let held = held_blocks(pos, current_block);
    if pos.health_factor.below(cfg.rate_arb_emergency_hf) {
        Some(UnwindReason::Emergency)
    } else if held < cfg.rate_arb_min_hold_blocks {
        None
    } else if pos.health_factor.below(cfg.rate_arb_close_hf) {
        Some(UnwindReason::LowHealth)
    } else if spread_bps.below(cfg.rate_arb_close_spread_bps) {
        Some(UnwindReason::SpreadCompressed)
    } else if cfg.rate_arb_max_hold_days.below(days_of_blocks(held)) {
        Some(UnwindReason::MaxHoldExceeded)
    } else {
        None
    }
}

/// Why a carry is to be closed, if it is.
pub fn unwind_reason(pos: &RateArbPosition, spread_bps: Double, cfg: &Config, current_block: u64) -> (r: Option<
    UnwindReason,
>)
    ensures
        r == due_reason(*pos, spread_bps, *cfg, current_block),
{
    let held: u64 = if current_block >= pos.opened_block {
        current_block - pos.opened_block
    } else {
        0
    };
    let hold_days: Double = from_u128(held as u128).mul(Double { bits: TWO }).div(
        Double { bits: SECONDS_PER_DAY },
    );
    if pos.health_factor.is_below(cfg.rate_arb_emergency_hf) {
        Some(UnwindReason::Emergency)
    } else if held < cfg.rate_arb_min_hold_blocks {
        None
    } else if pos.health_factor.is_below(cfg.rate_arb_close_hf) {
        Some(UnwindReason::LowHealth)
    } else if spread_bps.is_below(cfg.rate_arb_close_spread_bps) {
        Some(UnwindReason::SpreadCompressed)
    } else if cfg.rate_arb_max_hold_days.is_below(hold_days) {
        Some(UnwindReason::MaxHoldExceeded)
    } else {
        None
    }
}

/// A carry whose health factor is critical is closed at once, however short it has been held.
pub proof fn law_emergency_ignores_hold(
    pos: RateArbPosition,
    spread_bps: Double,
    cfg: Config,
    current_block: u64,
)
    requires
        pos.health_factor.below(cfg.rate_arb_emergency_hf),
    ensures
        due_reason(pos, spread_bps, cfg, current_block) == Some(UnwindReason::Emergency),
{
}

/// Without an emergency no carry is closed before the least number of blocks.
pub proof fn law_hold_is_respected(
    pos: RateArbPosition,
    spread_bps: Double,
    cfg: Config,
    current_block: u64,
)
    requires
        held_blocks(pos, current_block) < cfg.rate_arb_min_hold_blocks,
        !pos.health_factor.below(cfg.rate_arb_emergency_hf),
    ensures
        due_reason(pos, spread_bps, cfg, current_block) is None,
{
}

/// Once the least hold is over, a carry is closed if and only if its health factor is below the
/// threshold for closing, or the spread is below the one for closing, or it has been held for more
/// than the greatest number of days: each of the three is enough on its own. The reason that is
/// given is true, and the earlier ones among the three are given first.
pub proof fn law_each_reason_is_enough(
    pos: RateArbPosition,
    spread_bps: Double,
    cfg: Config,
    current_block: u64,
)
    requires
        pos.opened_block + cfg.rate_arb_min_hold_blocks <= current_block,
        !pos.health_factor.below(cfg.rate_arb_emergency_hf),
    ensures
        ({
            let reason = due_reason(pos, spread_bps, cfg, current_block);
            let days = days_of_blocks((current_block - pos.opened_block) as nat);
            let unhealthy = pos.health_factor.below(cfg.rate_arb_close_hf);
            let narrow = spread_bps.below(cfg.rate_arb_close_spread_bps);
            let long = cfg.rate_arb_max_hold_days.below(days);
            &&& reason is Some <==> unhealthy || narrow || long
            &&& reason == Some(UnwindReason::LowHealth) <==> unhealthy
            &&& reason == Some(UnwindReason::SpreadCompressed) <==> narrow && !unhealthy
            &&& reason == Some(UnwindReason::MaxHoldExceeded) <==> long && !narrow && !unhealthy
        }),
{
}

/// Beyond the greatest hold a carry is closed whatever its spread and whatever its health factor.
pub proof fn law_no_carry_is_held_too_long(
    pos: RateArbPosition,
    health_factor: Double,
    spread_bps: Double,
    cfg: Config,
    current_block: u64,
)
    requires
        pos.opened_block + cfg.rate_arb_min_hold_blocks <= current_block,
        cfg.rate_arb_max_hold_days.below(
            days_of_blocks((current_block - pos.opened_block) as nat),
        ),
    ensures
        due_reason(
            RateArbPosition { health_factor, ..pos },
            spread_bps,
            cfg,
            current_block,
        ) is Some,
{
}

/// Nothing but the health factor of a carry and the block at which it was opened decides whether
/// it is closed, beside the spread; and a worse health factor never keeps a carry open.
pub proof fn law_closing_looks_at_health(
    pos: RateArbPosition,
    other: RateArbPosition,
    spread_bps: Double,
    cfg: Config,
    current_block: u64,
)
    requires
        pos.opened_block == other.opened_block,
        other.health_factor.at_most(pos.health_factor),
    ensures
        other.health_factor == pos.health_factor ==> due_reason(pos, spread_bps, cfg, current_block)
            == due_reason(other, spread_bps, cfg, current_block),
        due_reason(pos, spread_bps, cfg, current_block) is Some ==> due_reason(
            other,
            spread_bps,
            cfg,
            current_block,
        ) is Some,
{
}

/// A narrower spread never keeps a carry open.
pub proof fn law_closing_looks_at_the_spread(
    pos: RateArbPosition,
    spread_bps: Double,
    narrower: Double,
    cfg: Config,
    current_block: u64,
)
    requires
        narrower.at_most(spread_bps),
    ensures
        due_reason(pos, spread_bps, cfg, current_block) is Some ==> due_reason(
            pos,
            narrower,
            cfg,
            current_block,
        ) is Some,
{
}

/// A carry that is closed at some block, and not in an emergency, would be closed later as well.
pub proof fn law_closing_stays_due(
    pos: RateArbPosition,
    spread_bps: Double,
    cfg: Config,
    current_block: u64,
    later: u64,
)
    requires
        current_block <= later,
        due_reason(pos, spread_bps, cfg, current_block) is Some,
    ensures
        due_reason(pos, spread_bps, cfg, later) is Some,
{
    law_days_grow(held_blocks(pos, current_block), held_blocks(pos, later));
}

/// The blocks for which a carry has been held are those since it was opened.
pub proof fn law_held_since_opened(pos: RateArbPosition, current_block: u64)
    ensures
        current_block >= pos.opened_block ==> pos.opened_block + held_blocks(pos, current_block)
            == current_block,
        current_block <= pos.opened_block ==> held_blocks(pos, current_block) == 0,
{
}

/// A day has 43200 blocks: whole days are counted without rounding.
pub proof fn law_whole_days(days: nat)
    requires
        days <= 100_000_000_000,
    ensures
        days_of_blocks(43_200 * days) == nearest_to_integer(days),
{
    law_constants();
    law_whole_product(43_200 * days, 2);
    law_whole_quotient(days, 86_400);
}

/// More blocks do not take fewer days.
pub proof fn law_days_grow(blocks: nat, more: nat)
    requires
        blocks <= more <= u64::MAX,
    ensures
        days_of_blocks(blocks).at_most(days_of_blocks(more)),
{
    let (two, day) = (Double { bits: TWO }, Double { bits: SECONDS_PER_DAY });
    let (x, y) = (nearest_to_integer(blocks), nearest_to_integer(more));
    law_conversion_is_monotone(blocks, more);
    lemma_integer_is_amount(blocks);
    lemma_integer_is_amount(more);
    law_product_grows_with_factors(x, y, two, two);
    law_quotient_grows(x.times(two), y.times(two), day);
}

/// Carries are closed whether or not opening them is enabled.
pub proof fn law_closing_needs_no_switch(
    pos: RateArbPosition,
    spread_bps: Double,
    cfg: Config,
    enabled: bool,
    current_block: u64,
)
    ensures
        due_reason(pos, spread_bps, cfg, current_block) == due_reason(
            pos,
            spread_bps,
            Config { rate_arb_open_enabled: enabled, ..cfg },
            current_block,
        ),
{
}

/// A carry that is to be closed, and why.
#[derive(Clone, Copy, Debug)]
pub struct Unwind {
    pub pos: RateArbPosition,
    pub reason: UnwindReason,
}

/// The carries of a list that are to be closed, in the order of the list.
pub open spec fn due_unwinds(
    list: Seq<RateArbPosition>,
    rates: Map<Address, RateSnapshot>,
    cfg: Config,
    current_block: u64,
) -> Seq<Unwind>
    decreases list.len(),
{
    if list.len() == 0 {
        Seq::empty()
    } else {
        let before = due_unwinds(list.drop_last(), rates, cfg, current_block);
        let pos = list.last();
        match due_reason(pos, noted_spread(rates, pos.asset), cfg, current_block) {
            Some(reason) => before.push(Unwind { pos, reason }),
            None => before,
        }
    }
}

/// The carries of two lists are closed one list after the other: each carry is judged on its own,
/// and their order is kept. A single carry is closed once, or not at all.
pub proof fn law_carries_are_judged_on_their_own(
    list: Seq<RateArbPosition>,
    more: Seq<RateArbPosition>,
    rates: Map<Address, RateSnapshot>,
    cfg: Config,
    current_block: u64,
)
    ensures
        due_unwinds(list + more, rates, cfg, current_block) == due_unwinds(
            list,
            rates,
            cfg,
            current_block,
        ) + due_unwinds(more, rates, cfg, current_block),
        due_unwinds(list, rates, cfg, current_block).len() <= list.len(),
        list.len() == 1 ==> due_unwinds(list, rates, cfg, current_block) == match due_reason(
            list[0],
            noted_spread(rates, list[0].asset),
            cfg,
            current_block,
        ) {
            Some(reason) => seq![Unwind { pos: list[0], reason }],
            None => Seq::empty(),
        },
    decreases list.len() + more.len(),
{
    if more.len() == 0 {
        assert(list + more =~= list);
        let empty = due_unwinds(more, rates, cfg, current_block);
        assert(due_unwinds(list, rates, cfg, current_block) + empty =~= due_unwinds(
            list,
            rates,
            cfg,
            current_block,
        ));
        if list.len() > 0 {
            law_carries_are_judged_on_their_own(list.drop_last(), more, rates, cfg, current_block);
        }
        if list.len() == 1 {
            assert(list.drop_last() =~= Seq::empty());
            assert(due_unwinds(list.drop_last(), rates, cfg, current_block) =~= Seq::empty());
        }
    } else {
        law_carries_are_judged_on_their_own(list, more.drop_last(), rates, cfg, current_block);
        assert((list + more).drop_last() =~= list + more.drop_last());
        assert((list + more).last() == more.last());
        assert(due_unwinds(list + more, rates, cfg, current_block) =~= due_unwinds(
            list,
            rates,
            cfg,
            current_block,
        ) + due_unwinds(more, rates, cfg, current_block));
    }
}

/// Every carry of a list that has a reason to be closed is closed for that reason, and no other
/// one is closed.
pub proof fn law_exactly_the_due_are_closed(
    list: Seq<RateArbPosition>,
    rates: Map<Address, RateSnapshot>,
    cfg: Config,
    current_block: u64,
    u: Unwind,
)
    ensures
        due_unwinds(list, rates, cfg, current_block).contains(u) <==> list.contains(u.pos)
            && due_reason(u.pos, noted_spread(rates, u.pos.asset), cfg, current_block) == Some(
            u.reason,
        ),
    decreases list.len(),
{
    let all = due_unwinds(list, rates, cfg, current_block);
    if list.len() > 0 {
        let rest = list.drop_last();
        let last = list.last();
        let before = due_unwinds(rest, rates, cfg, current_block);
        law_exactly_the_due_are_closed(rest, rates, cfg, current_block, u);
        assert(list.contains(u.pos) <==> rest.contains(u.pos) || u.pos == last) by {
            if rest.contains(u.pos) {
                let i = choose|i: int| 0 <= i < rest.len() && rest[i] == u.pos;
                assert(list[i] == u.pos);
            }
            if list.contains(u.pos) && u.pos != last {
                let i = choose|i: int| 0 <= i < list.len() && list[i] == u.pos;
                assert(rest[i] == u.pos);
            }
            assert(list[list.len() - 1] == last);
        }
        match due_reason(last, noted_spread(rates, last.asset), cfg, current_block) {
            Some(reason) => {
                let added = Unwind { pos: last, reason };
                assert(all.contains(u) <==> before.contains(u) || u == added) by {
                    if before.contains(u) {
                        let i = choose|i: int| 0 <= i < before.len() && before[i] == u;
                        assert(all[i] == u);
                    }
                    if all.contains(u) && u != added {
                        let i = choose|i: int| 0 <= i < all.len() && all[i] == u;
                        assert(before[i] == u);
                    }
                    assert(all[all.len() - 1] == added);
                }
            },
            None => {},
        }
    }
}

/// The carries that are to be closed, in the order of the list.
pub fn check_and_unwind_positions(
    positions: &Vec<RateArbPosition>,
    feed: &RateFeed,
    cfg: &Config,
    current_block: u64,
) -> (r: Vec<Unwind>)
    ensures
        r@ == due_unwinds(positions@, feed@, *cfg, current_block),
{
    let mut r: Vec<Unwind> = Vec::new();
    let n: usize = positions.len();
    let mut i: usize = 0;
    assert(positions@.take(0) =~= Seq::empty());
    while i < n
        invariant
            n == positions@.len(),
            i <= n,
            r@ == due_unwinds(positions@.take(i as int), feed@, *cfg, current_block),
        decreases n - i,
    {
        let pos: RateArbPosition = positions[i];
        let spread_bps: Double = feed.net_spread_bps(pos.asset);
        match unwind_reason(&pos, spread_bps, cfg, current_block) {
            Some(reason) => r.push(Unwind { pos, reason }),
            None => {},
        }
        i = i + 1;
        assert(positions@.take(i as int).drop_last() =~= positions@.take(i - 1));
    }
    assert(positions@.take(n as int) =~= positions@);
    r
}

/// How far the question for the debt of a carry has come.
#[derive(Clone, Copy, Debug)]
pub enum DebtQuery {
    /// The lending pool is asked for the state of the asset.
    Reserve,
    /// The token that stands for the debt is asked for the balance.
    Balance { debt_token: Address },
    /// The debt is known, or cannot be had.
    Known { debt: Option<U256> },
}

impl DebtQuery {
    /// What follows a reply, or the lack of one: the debt token is the eleventh word of the state
    /// of an asset, and its balance is the debt with all interest.
    pub open spec fn after(self, reply: Option<Seq<u8>>) -> DebtQuery {
        match self {
            DebtQuery::Reserve => match reply {
                Some(bytes) => if bytes.len() >= 352 {
                    DebtQuery::Balance { debt_token: address_from(bytes.subrange(332, 352)) }
                } else {
                    DebtQuery::Known { debt: None }
                },
                None => DebtQuery::Known { debt: None },
            },
            DebtQuery::Balance { .. } => match reply {
                Some(bytes) => if bytes.len() >= 32 {
                    DebtQuery::Known { debt: Some(u256_of(big_endian(bytes.take(32)))) }
                } else {
                    DebtQuery::Known { debt: None }
                },
                None => DebtQuery::Known { debt: None },
            },
            DebtQuery::Known { .. } => self,
        }
    }

    /// The next call, while the debt is not known.
    pub fn request(&self, asset: Address, pool: Address, flash_executor: Address) -> (r: Option<CallRequest>)
        ensures
            match *self {
                DebtQuery::Reserve => r matches Some(call) && call.to == pool && call.data@
                    == reserve_data(asset@),
                DebtQuery::Balance { debt_token } => r matches Some(call) && call.to == debt_token
                    && call.data@ == balance_data(flash_executor@),
                DebtQuery::Known { .. } => r is None,
            },
    {
        match *self {
            DebtQuery::Reserve => Some(reserve_call(pool, asset)),
            DebtQuery::Balance { debt_token } => Some(balance_of(debt_token, flash_executor)),
            DebtQuery::Known { .. } => None,
        }
    }

    /// Takes the reply to the last call, or the lack of one.
    pub fn step(self, reply: &Option<Vec<u8>>) -> (r: DebtQuery)
        ensures
            r == self.after(reply_bytes(*reply)),
    {
        match self {
            DebtQuery::Reserve => match reply {
                Some(bytes) => {
                    if bytes.len() < 352 {
                        return DebtQuery::Known { debt: None };
                    }
                    let debt_token: Address = address_at(bytes.as_slice(), 320);
                    proof {
                        lemma_address_from(debt_token);
                    }
                    DebtQuery::Balance { debt_token }
                },
                None => DebtQuery::Known { debt: None },
            },
            DebtQuery::Balance { .. } => match reply {
                Some(bytes) => {
                    if bytes.len() < 32 {
                        return DebtQuery::Known { debt: None };
                    }
                    let word: &[u8] = vstd::slice::slice_subrange(bytes.as_slice(), 0, 32);
                    assert(word@ =~= bytes@.take(32));
                    let debt: U256 = U256::from_big_endian(word);
                    proof {
                        lemma_u256_of(debt);
                    }
                    DebtQuery::Known { debt: Some(debt) }
                },
                None => DebtQuery::Known { debt: None },
            },
            DebtQuery::Known { debt } => DebtQuery::Known { debt },
        }
    }
}

/// The debt token is what stands in the last twenty bytes of the eleventh word of the state of an
/// asset, and the debt is the first word of the reply to the question for the balance; a shorter
/// reply, or none, leaves the debt unknown.
pub proof fn law_debt_is_read(query: DebtQuery, reply: Seq<u8>, token: Address, debt: U256)
    ensures
        query is Reserve && reply.len() >= 352 && (forall|i: int|
            0 <= i < 20 ==> reply[332 + i] == #[trigger] token@[i]) ==> query.after(Some(reply))
            == (DebtQuery::Balance { debt_token: token }),
        query is Reserve && reply.len() < 352 ==> query.after(Some(reply)) == (DebtQuery::Known {
            debt: None,
        }),
        query is Balance && reply.len() >= 32 && big_endian(reply.subrange(0, 32)) == debt@
            ==> query.after(Some(reply)) == (DebtQuery::Known { debt: Some(debt) }),
        query is Balance && reply.len() < 32 ==> query.after(Some(reply)) == (DebtQuery::Known {
            debt: None,
        }),
        !(query is Known) ==> query.after(None) == (DebtQuery::Known { debt: None }),
{
    if query is Reserve && reply.len() >= 352 && (forall|i: int|
        0 <= i < 20 ==> reply[332 + i] == #[trigger] token@[i]) {
        assert(reply.subrange(332, 352) =~= token@);
        lemma_address_from(token);
    }
    if query is Balance && reply.len() >= 32 {
        assert(reply.take(32) =~= reply.subrange(0, 32));
        lemma_u256_of(debt);
    }
}

/// Two replies at most tell the debt, or that it cannot be had.
pub proof fn law_debt_takes_two_replies(query: DebtQuery, first: Option<Seq<u8>>, second: Option<Seq<u8>>)
    ensures
        query.after(first).after(second) is Known,
        query is Known ==> query.after(first) == query,
{
}

/// A debt with half a percent more, for the interest until it is repaid.
pub open spec fn buffered(debt: nat) -> nat {
    debt * 1005 / 1000
}

/// The debt that the closing loan covers, before the buffer.
pub open spec fn owed(pos: RateArbPosition, debt: Option<U256>) -> nat {
    match debt {
        Some(d) => d@,
        None => pos.debt_amount_wei@,
    }
}

/// The carry as it is closed: its debt is the one that the closing loan covers.
pub open spec fn to_close(pos: RateArbPosition, debt: Option<U256>) -> RateArbPosition {
    RateArbPosition { debt_amount_wei: u256_of(buffered(owed(pos, debt))), ..pos }
}

/// The carry with the debt that the closing loan covers: the live debt, or the stored one where
/// that is not known, with the buffer.
pub fn closing_position(pos: &RateArbPosition, live_debt: Option<U256>) -> (r: RateArbPosition)
    requires
        owed(*pos, live_debt) * 1005 < limit(),
    ensures
        r == to_close(*pos, live_debt),
        r.debt_amount_wei@ == buffered(owed(*pos, live_debt)),
{
    let debt: U256 = match live_debt {
        Some(d) => d,
        None => pos.debt_amount_wei,
    };
    let mut closing: RateArbPosition = *pos;
    closing.debt_amount_wei = debt.times(1005).over(1000);
    proof {
        lemma_u256_of(closing.debt_amount_wei);
    }
    closing
}

/// The closing loan covers the live debt and half a percent beyond it, up to a fraction of the
/// least unit, and no more.
pub proof fn law_buffer_covers_debt(debt: nat)
    ensures
        debt <= buffered(debt),
        buffered(debt) * 1000 <= debt * 1005,
        debt * 1005 < buffered(debt) * 1000 + 1000,
{
}

/// A carry is closed with its live debt where that is known, whatever debt is stored, and with
/// the stored one where it is not; all else stays as it was.
pub proof fn law_closing_keeps_the_carry(pos: RateArbPosition, live: U256)
    requires
        live@ * 1005 < limit(),
        pos.debt_amount_wei@ * 1005 < limit(),
    ensures
        ({
            let (known, unknown) = (to_close(pos, Some(live)), to_close(pos, None));
            &&& live@ * 1005 - 1000 < known.debt_amount_wei@ * 1000 <= live@ * 1005
            &&& pos.debt_amount_wei@ * 1005 - 1000 < unknown.debt_amount_wei@ * 1000
                <= pos.debt_amount_wei@ * 1005
            &&& known == (RateArbPosition { debt_amount_wei: known.debt_amount_wei, ..pos })
            &&& unknown == (RateArbPosition { debt_amount_wei: unknown.debt_amount_wei, ..pos })
        }),
{
    lemma_u256_value(buffered(live@));
    lemma_u256_value(buffered(pos.debt_amount_wei@));
}

/// The tip for closing a carry: an emergency is urgent.
pub open spec fn closing_tip(reason: UnwindReason) -> u64 {
    if reason is Emergency {
        URGENT_TIP
    } else {
        ONE
    }
}

/// An emergency is closed with two and a half times the tip of any other carry, and nothing else
/// is.
pub proof fn law_emergencies_are_urgent(reason: UnwindReason)
    ensures
        reason is Emergency <==> (Double { bits: ONE }).below(Double { bits: closing_tip(reason) }),
        !(reason is Emergency) ==> closing_tip(reason) == ONE,
        reason is Emergency ==> (Double { bits: TWO }).times(Double { bits: closing_tip(reason) })
            == nearest_to_integer(5),
{
    let urgent = Double { bits: URGENT_TIP };
    lemma_words(ONE, URGENT_TIP);
    reveal(Double::times);
    lemma_one();
    law_constants();
    lemma_integer_is_exact(2);
    lemma_integer_is_exact(5);
    let m = URGENT_TIP as nat;
    assert(m / (FRACTIONS as nat) == 1024 && m % (FRACTIONS as nat) == 0x4_0000_0000_0000);
    lemma2_to64_rest();
    lemma_pow2_adds(50, 1023);
    lemma_pow2_adds(1, 1073);
    lemma2_to64();
    let (p, h, a) = (pow2(1074), pow2(1073), pow2(50));
    assert(0x14_0000_0000_0000 * pow2(1023) == 5 * (a * pow2(1023))) by (nonlinear_arith)
        requires
            a == 0x4_0000_0000_0000,
    ;
    assert((2 * p) * (5 * h) == (5 * p) * p) by (nonlinear_arith)
        requires
            p == 2 * h,
    ;
    lemma_exact(nearest_to_integer(5).magnitude(), p);
}

/// What is to be signed to close a carry; an emergency is urgent. Where the calldata cannot be
/// made, no nonce is taken.
pub fn unwind_request(
    pipeline: &mut SubmissionPipeline,
    flash: &FlashLoanRouter,
    closing: &RateArbPosition,
    reason: UnwindReason,
) -> (r: Result<SignRequest, FlashError>)
    ensures
        r is Ok <==> close_fault(*closing) is None,
        r matches Err(e) ==> close_fault(*closing) == Some(e) && *final(pipeline) == *old(pipeline),
        r matches Ok(request) ==> {
            &&& request.asks(
                close_plan(*flash, *closing).calldata(),
                CLOSE_GAS,
                closing_tip(reason),
                old(pipeline).next(),
            )
            &&& final(pipeline).next() == next_nonce(old(pipeline).next())
            &&& final(pipeline).same_endpoints(*old(pipeline))
        },
{
    let calldata: Vec<u8> = flash.build_rate_arb_close(closing)?;
    if reason == UnwindReason::Emergency {
        Ok(pipeline.submit_priority(calldata, CLOSE_GAS))
    } else {
        Ok(pipeline.submit(calldata, CLOSE_GAS))
    }
}

/// Counts a carry that was closed, and takes it out.
pub fn complete_unwind(monitor: &mut HealthFactorMonitor, m: &mut Metrics, pos: &RateArbPosition)
    requires
        old(monitor).well_formed(),
    ensures
        final(monitor).well_formed(),
        final(monitor)@ == old(monitor)@.remove(pos.asset),
        final(monitor).pool() == old(monitor).pool(),
        final(m)@ == after_close(after_trade(old(m)@, "rate_arb_close"@, pos.pnl_usd)),
{
    record_trade(m, "rate_arb_close", pos.pnl_usd);
    monitor.remove_position(pos.asset);
    record_position_close(m, "rate_arb");
}

/// How far the closing of a carry has come.
pub enum UnwindStep {
    /// The debt is to be asked for.
    Asking { unwind: Unwind, query: DebtQuery },
    /// The debt is known, or cannot be had.
    Closing { unwind: Unwind, debt: Option<U256> },
    /// The transaction is to be signed and sent.
    Signing { unwind: Unwind, request: SignRequest },
    /// The carry was closed; the carries that are left are to be saved.
    Saving { positions: Vec<RateArbPosition> },
    /// The carry was closed, and the carries that are left were handed to the store.
    Closed,
    /// The transaction could not be signed, so it was not sent.
    Unsent,
    /// The calldata cannot be made.
    Failed { error: FlashError },
}

impl UnwindStep {
    /// Takes up a carry that is to be closed.
    pub fn start(unwind: Unwind) -> (r: UnwindStep)
        ensures
            r == (UnwindStep::Asking { unwind, query: DebtQuery::Reserve }),
    {
        UnwindStep::Asking { unwind, query: DebtQuery::Reserve }
    }

    /// Takes the reply to the last call, or the lack of one.
    pub fn replied(self, reply: &Option<Vec<u8>>) -> (r: UnwindStep)
        ensures
            r == match self {
                UnwindStep::Asking { unwind, query } => match query.after(reply_bytes(*reply)) {
                    DebtQuery::Known { debt } => UnwindStep::Closing { unwind, debt },
                    next => UnwindStep::Asking { unwind, query: next },
                },
                _ => self,
            },
    {
        match self {
            UnwindStep::Asking { unwind, query } => {
                let next: DebtQuery = query.step(reply);
                match next {
                    DebtQuery::Known { debt } => UnwindStep::Closing { unwind, debt },
                    _ => UnwindStep::Asking { unwind, query: next },
                }
            },
            other => other,
        }
    }

    /// Makes the transaction, which is urgent in an emergency; where its calldata cannot be made,
    /// no nonce is taken.
    pub fn close(self, pipeline: &mut SubmissionPipeline, flash: &FlashLoanRouter) -> (r: UnwindStep)
        requires
            self matches UnwindStep::Closing { unwind, debt } ==> owed(unwind.pos, debt) * 1005
                < limit(),
        ensures
            match self {
                UnwindStep::Closing { unwind, debt } => match close_fault(to_close(unwind.pos, debt)) {
                    Some(error) => {
                        &&& r == (UnwindStep::Failed { error })
                        &&& *final(pipeline) == *old(pipeline)
                    },
                    None => {
                        &&& r matches UnwindStep::Signing { unwind: u, request }
                        &&& u == unwind
                        &&& request.asks(
                            close_plan(*flash, to_close(unwind.pos, debt)).calldata(),
                            CLOSE_GAS,
                            closing_tip(unwind.reason),
                            old(pipeline).next(),
                        )
                        &&& final(pipeline).next() == next_nonce(old(pipeline).next())
                        &&& final(pipeline).same_endpoints(*old(pipeline))
                    },
                },
                _ => r == self && *final(pipeline) == *old(pipeline),
            },
    {
        match self {
            UnwindStep::Closing { unwind, debt } => {
                let closing: RateArbPosition = closing_position(&unwind.pos, debt);
                match unwind_request(pipeline, flash, &closing, unwind.reason) {
                    Ok(request) => UnwindStep::Signing { unwind, request },
                    Err(error) => UnwindStep::Failed { error },
                }
            },
            other => other,
        }
    }

    /// Takes whether the transaction was signed and sent: one that was is counted, the carry is
    /// taken out, and all that are left are to be saved at once; one that was not leaves no trace.
    pub fn sent(self, went_out: bool, monitor: &mut HealthFactorMonitor, m: &mut Metrics) -> (r: UnwindStep)
        requires
            old(monitor).well_formed(),
        ensures
            final(monitor).well_formed(),
            final(monitor).pool() == old(monitor).pool(),
            match self {
                UnwindStep::Signing { unwind, .. } => if went_out {
                    &&& r matches UnwindStep::Saving { positions }
                    &&& lists(positions@, final(monitor)@)
                    &&& final(monitor)@ == old(monitor)@.remove(unwind.pos.asset)
                    &&& final(m)@ == after_close(
                        after_trade(
                            after_attempt(old(m)@, true),
                            "rate_arb_close"@,
                            unwind.pos.pnl_usd,
                        ),
                    )
                } else {
                    &&& r == UnwindStep::Unsent
                    &&& final(monitor)@ == old(monitor)@
                    &&& final(m)@ == after_attempt(old(m)@, false)
                },
                _ => r == self && final(monitor)@ == old(monitor)@ && *final(m) == *old(m),
            },
    {
        match self {
            UnwindStep::Signing { unwind, .. } => {
                record_attempt(m, went_out);
                if !went_out {
                    return UnwindStep::Unsent;
                }
                complete_unwind(monitor, m, &unwind.pos);
                UnwindStep::Saving { positions: monitor.get_rate_arb_positions() }
            },
            other => other,
        }
    }

    /// Goes on once the carries that are left were handed to the store.
    pub fn saved(self) -> (r: UnwindStep)
        ensures
            r == match self {
                UnwindStep::Saving { .. } => UnwindStep::Closed,
                _ => self,
            },
    {
        match self {
            UnwindStep::Saving { .. } => UnwindStep::Closed,
            other => other,
        }
    }
}

/// The lowest health factor of some carries; the greatest finite double where there are none.
pub open spec fn least_health(list: Seq<RateArbPosition>) -> Double
    decreases list.len(),
{
    if list.len() == 0 {
        Double { bits: GREATEST }
    } else {
        least_health(list.drop_last()).lesser(list.last().health_factor)
    }
}

/// Notes the lowest health factor of the carries that are left, and tells how it is to be taken.
pub fn note_least_health(positions: &Vec<RateArbPosition>, m: &mut Metrics) -> (r: Option<HealthAlert>)
    ensures
        final(m)@ == (Measures { rate_arb_min_hf: least_health(positions@), ..old(m)@ }),
        r == health_alert(least_health(positions@)),
{
    let mut least: Double = Double { bits: GREATEST };
    let n: usize = positions.len();
    let mut i: usize = 0;
    assert(positions@.take(0) =~= Seq::empty());
    while i < n
        invariant
            n == positions@.len(),
            i <= n,
            least == least_health(positions@.take(i as int)),
            *m == *old(m),
        decreases n - i,
    {
        least = least.min(positions[i].health_factor);
        i = i + 1;
        assert(positions@.take(i as int).drop_last() =~= positions@.take(i - 1));
    }
    assert(positions@.take(n as int) =~= positions@);
    alert_hf(m, least)
}

/// No carry has a health factor below the lowest one.
pub proof fn law_least_health(list: Seq<RateArbPosition>, i: int)
    requires
        0 <= i < list.len(),
    ensures
        !list[i].health_factor.below(least_health(list)),
        !least_health(list).nan(),
    decreases list.len(),
{
    lemma_least_is_number(list);
    lemma_least_is_number(list.drop_last());
    if i < list.len() - 1 {
        law_least_health(list.drop_last(), i);
        assert(list.drop_last()[i] == list[i]);
    }
}

/// The lowest health factor is that of one of the carries, or the greatest finite double, and it
/// is below that one as soon as a carry is.
pub proof fn law_least_health_is_met(list: Seq<RateArbPosition>)
    ensures
        least_health(list) == (Double { bits: GREATEST }) || exists|i: int|
            0 <= i < list.len() && (#[trigger] list[i]).health_factor == least_health(list),
        forall|i: int|
            0 <= i < list.len() && !(#[trigger] list[i]).health_factor.nan()
                ==> least_health(list).at_most(list[i].health_factor),
    decreases list.len(),
{
    lemma_least_is_number(list);
    if list.len() > 0 {
        let rest = list.drop_last();
        law_least_health_is_met(rest);
        assert(list[list.len() - 1] == list.last());
        if least_health(list) == least_health(rest) && least_health(rest) != (Double { bits: GREATEST }) {
            let i = choose|i: int|
                0 <= i < rest.len() && (#[trigger] rest[i]).health_factor == least_health(rest);
            assert(list[i] == rest[i]);
        }
    }
    assert forall|i: int| 0 <= i < list.len() && !(#[trigger] list[i]).health_factor.nan() implies least_health(
        list,
    ).at_most(list[i].health_factor) by {
        law_least_health(list, i);
    }
}

/// The lowest health factor is a number.
proof fn lemma_least_is_number(list: Seq<RateArbPosition>)
    ensures
        !least_health(list).nan(),
    decreases list.len(),
{
    if list.len() > 0 {
        lemma_least_is_number(list.drop_last());
    }
}

// Opening.

/// The assets that carries are opened with.
#[derive(Clone, Copy, Debug, PartialEq, Eq, Structural)]
pub enum CarryAsset {
    Usdc,
    Weth,
    CbEth,
    WstEth,
    CbBtc,
}

impl CarryAsset {
    /// The address of the asset, as it is written down.
    pub open spec fn written(self, addresses: Addresses) -> Seq<char> {
        match self {
            CarryAsset::Usdc => addresses.usdc@,
            CarryAsset::Weth => addresses.weth@,
            CarryAsset::CbEth => addresses.cbeth@,
            CarryAsset::WstEth => addresses.wsteth@,
            CarryAsset::CbBtc => addresses.cbbtc@,
        }
    }

    /// The greatest notional of a carry, in the asset's least units.
    pub open spec fn most(self, cfg: Config) -> nat {
        match self {
            CarryAsset::Usdc => cfg.rate_arb_max_notional_usdc as nat,
            CarryAsset::CbBtc => (cfg.rate_arb_max_notional_weth / 30) as nat,
            _ => cfg.rate_arb_max_notional_weth as nat,
        }
    }

    /// The least notional of a carry, in dollars, where there is one.
    pub open spec fn least_usd(self, cfg: Config) -> Option<Double> {
        match self {
            CarryAsset::CbBtc => Some(cfg.rate_arb_cbbtc_min_notional_usd),
            _ => None,
        }
    }

    fn text<'a>(self, addresses: &'a Addresses) -> (r: &'a str)
        ensures
            r@ == self.written(*addresses),
    {
        match self {
            CarryAsset::Usdc => addresses.usdc.as_str(),
            CarryAsset::Weth => addresses.weth.as_str(),
            CarryAsset::CbEth => addresses.cbeth.as_str(),
            CarryAsset::WstEth => addresses.wsteth.as_str(),
            CarryAsset::CbBtc => addresses.cbbtc.as_str(),
        }
    }

    fn cap(self, cfg: &Config) -> (r: u128)
        ensures
            r == self.most(*cfg),
    {
        match self {
            CarryAsset::Usdc => cfg.rate_arb_max_notional_usdc,
            CarryAsset::CbBtc => cfg.rate_arb_max_notional_weth / 30,
            _ => cfg.rate_arb_max_notional_weth,
        }
    }
}

/// Each asset stands under its own name, and no two share one.
pub proof fn law_assets_have_their_own_names(addresses: Addresses, kind: CarryAsset)
    ensures
        kind is Usdc ==> kind.written(addresses) == addresses.usdc@,
        kind is Weth ==> kind.written(addresses) == addresses.weth@,
        kind is CbEth ==> kind.written(addresses) == addresses.cbeth@,
        kind is WstEth ==> kind.written(addresses) == addresses.wsteth@,
        kind is CbBtc ==> kind.written(addresses) == addresses.cbbtc@,
{
}

/// Dollars have a limit of their own; the kinds of ether share one; and that of bitcoin is a
/// thirtieth of it, rounded down. Only bitcoin has a least notional.
pub proof fn law_limits_of_assets(cfg: Config)
    ensures
        CarryAsset::Usdc.most(cfg) == cfg.rate_arb_max_notional_usdc,
        CarryAsset::Weth.most(cfg) == cfg.rate_arb_max_notional_weth,
        CarryAsset::CbEth.most(cfg) == CarryAsset::Weth.most(cfg),
        CarryAsset::WstEth.most(cfg) == CarryAsset::Weth.most(cfg),
        30 * CarryAsset::CbBtc.most(cfg) <= cfg.rate_arb_max_notional_weth < 30
            * CarryAsset::CbBtc.most(cfg) + 30,
        CarryAsset::CbBtc.least_usd(cfg) == Some(cfg.rate_arb_cbbtc_min_notional_usd),
        CarryAsset::Usdc.least_usd(cfg) is None,
        CarryAsset::Weth.least_usd(cfg) is None,
        CarryAsset::CbEth.least_usd(cfg) is None,
        CarryAsset::WstEth.least_usd(cfg) is None,
{
}

/// The assets that carries are opened with, in the order in which they are looked at.
pub fn carry_assets() -> (r: Vec<CarryAsset>)
    ensures
        r@ == seq![
            CarryAsset::Usdc,
            CarryAsset::Weth,
            CarryAsset::CbEth,
            CarryAsset::WstEth,
            CarryAsset::CbBtc,
        ],
{
    let r: Vec<CarryAsset> = vec![
        CarryAsset::Usdc,
        CarryAsset::Weth,
        CarryAsset::CbEth,
        CarryAsset::WstEth,
        CarryAsset::CbBtc,
    ];
    assert(r@ =~= seq![
        CarryAsset::Usdc,
        CarryAsset::Weth,
        CarryAsset::CbEth,
        CarryAsset::WstEth,
        CarryAsset::CbBtc,
    ]);
    r
}

/// The assets of the open carries.
pub fn open_assets(positions: &Vec<RateArbPosition>) -> (r: Vec<Address>)
    ensures
        r@ == Seq::new(positions@.len(), |i: int| positions@[i].asset),
{
    let mut r: Vec<Address> = Vec::new();
    let n: usize = positions.len();
    let mut i: usize = 0;
    while i < n
        invariant
            n == positions@.len(),
            i <= n,
            r@.len() == i,
            forall|j: int| 0 <= j < i ==> #[trigger] r@[j] == positions@[j].asset,
        decreases n - i,
    {
        r.push(positions[i].asset);
        i = i + 1;
    }
    assert(r@ =~= Seq::new(positions@.len(), |i: int| positions@[i].asset));
    r
}

/// Why no carry is opened.
#[derive(Clone, Copy, Debug, PartialEq, Eq, Structural)]
pub enum SkipReason {
    AlreadyOpen,
    NarrowSpread,
    /// The best rates are not both those of the lending pool.
    ForeignRoute,
    OpeningDisabled,
    NoDepth,
    SmallNotional,
    LowHealth,
    NoProfit,
}

/// Why the search for carries ends.
#[derive(Clone, Copy, Debug, PartialEq, Eq, Structural)]
pub enum CarryError {
    BadAsset(CarryAsset),
    BadPool,
}

/// A carry that may be opened.
#[derive(Clone, Copy, Debug)]
pub struct CarryCandidate {
    pub kind: CarryAsset,
    pub asset: Address,
    pub spread_bps: Double,
    pub supply_apy: Double,
    pub borrow_apy: Double,
    pub supply_proto: Address,
    pub borrow_proto: Address,
}

/// What is found of an asset.
#[derive(Clone, Copy, Debug)]
pub enum Screening {
    Fail(CarryError),
    Skip(SkipReason),
    Pass(CarryCandidate),
}

/// What is found of an asset, before anything is asked of the chain.
pub open spec fn screened(
    kind: CarryAsset,
    addresses: Addresses,
    cfg: Config,
    open: Seq<Address>,
    rates: Map<Address, RateSnapshot>,
) -> Screening {
    match told_address(kind.written(addresses)) {
        None => Screening::Fail(CarryError::BadAsset(kind)),
        Some(asset) => {
            let spread_bps = noted_spread(rates, asset);
            let protocols = noted_protocols(rates, asset);
            if open.contains(asset) {
                Screening::Skip(SkipReason::AlreadyOpen)
            } else if spread_bps.below(cfg.min_rate_spread_bps) {
                Screening::Skip(SkipReason::NarrowSpread)
            } else {
                match told_address(addresses.aave_v3_pool_proxy@) {
                    None => Screening::Fail(CarryError::BadPool),
                    Some(pool) => if protocols != (pool, pool) {
                        Screening::Skip(SkipReason::ForeignRoute)
                    } else if !cfg.rate_arb_open_enabled {
                        Screening::Skip(SkipReason::OpeningDisabled)
                    } else {
                        Screening::Pass(
                            CarryCandidate {
                                kind,
                                asset,
                                spread_bps,
                                supply_apy: noted_rates(rates, asset).0,
                                borrow_apy: noted_rates(rates, asset).1,
                                supply_proto: protocols.0,
                                borrow_proto: protocols.1,
                            },
                        )
                    },
                }
            }
        },
    }
}

/// Whether an address is among some addresses.
fn among(list: &Vec<Address>, a: &Address) -> (r: bool)
    ensures
        r == list@.contains(*a),
{
    let n: usize = list.len();
    let mut i: usize = 0;
    while i < n
        invariant
            n == list@.len(),
            i <= n,
            forall|j: int| 0 <= j < i ==> #[trigger] list@[j] != *a,
        decreases n - i,
    {
        if same_address(&list[i], a) {
            assert(list@[i as int] == *a);
            return true;
        }
        i = i + 1;
    }
    false
}

/// What is found of an asset, before anything is asked of the chain.
pub fn screen(
    kind: CarryAsset,
    addresses: &Addresses,
    cfg: &Config,
    open: &Vec<Address>,
    feed: &RateFeed,
) -> (r: Screening)
    ensures
        r == screened(kind, *addresses, *cfg, open@, feed@),
{
    let asset: Address = match read_address(kind.text(addresses)) {
        Some(a) => a,
        None => return Screening::Fail(CarryError::BadAsset(kind)),
    };
    if among(open, &asset) {
        return Screening::Skip(SkipReason::AlreadyOpen);
    }
    let spread_bps: Double = feed.net_spread_bps(asset);
    if spread_bps.is_below(cfg.min_rate_spread_bps) {
        return Screening::Skip(SkipReason::NarrowSpread);
    }
    let (supply_apy, borrow_apy) = feed.get_best_spread(asset);
    let (supply_proto, borrow_proto) = feed.get_best_proto_addresses(asset);
    let pool: Address = match read_address(addresses.aave_v3_pool_proxy.as_str()) {
        Some(a) => a,
        None => return Screening::Fail(CarryError::BadPool),
    };
    if !same_address(&supply_proto, &pool) || !same_address(&borrow_proto, &pool) {
        return Screening::Skip(SkipReason::ForeignRoute);
    }
    if !cfg.rate_arb_open_enabled {
        return Screening::Skip(SkipReason::OpeningDisabled);
    }
    Screening::Pass(
        CarryCandidate {
            kind,
            asset,
            spread_bps,
            supply_apy,
            borrow_apy,
            supply_proto,
            borrow_proto,
        },
    )
}

/// A carry is only opened where that is enabled, where none of its asset is open, where the
/// spread is not too narrow, and where it both supplies to the lending pool and borrows from it.
pub proof fn law_opening_conditions(
    kind: CarryAsset,
    addresses: Addresses,
    cfg: Config,
    open: Seq<Address>,
    rates: Map<Address, RateSnapshot>,
)
    ensures
        screened(kind, addresses, cfg, open, rates) matches Screening::Pass(c) ==> {
            &&& cfg.rate_arb_open_enabled
            &&& !open.contains(c.asset)
            &&& !c.spread_bps.below(cfg.min_rate_spread_bps)
            &&& Some(c.supply_proto) == told_address(addresses.aave_v3_pool_proxy@)
            &&& Some(c.borrow_proto) == told_address(addresses.aave_v3_pool_proxy@)
        },
{
}

/// A carry may be opened if and only if its asset and the lending pool can be read, none of the
/// asset is open, what the asset earns is more than what it costs by the least spread at least,
/// both are best at the lending pool, and opening is enabled. What is found is the noted rates of
/// the asset.
pub proof fn law_every_sound_carry_passes(
    kind: CarryAsset,
    addresses: Addresses,
    cfg: Config,
    open: Seq<Address>,
    rates: Map<Address, RateSnapshot>,
    asset: Address,
    pool: Address,
    noted: RateSnapshot,
)
    requires
        told_address(kind.written(addresses)) == Some(asset),
        told_address(addresses.aave_v3_pool_proxy@) == Some(pool),
        rates.dom().contains(asset) && rates[asset] == noted,
    ensures
        ({
            let found = screened(kind, addresses, cfg, open, rates);
            let spread_bps = noted.supply_apy.minus(noted.borrow_apy).times(
                Double { bits: TEN_THOUSAND },
            );
            &&& found is Pass <==> {
                &&& forall|i: int| 0 <= i < open.len() ==> #[trigger] open[i] != asset
                &&& !spread_bps.below(cfg.min_rate_spread_bps)
                &&& noted.supply_proto == pool && noted.borrow_proto == pool
                &&& cfg.rate_arb_open_enabled
            }
            &&& found matches Screening::Pass(c) ==> c == (CarryCandidate {
                kind,
                asset,
                spread_bps,
                supply_apy: noted.supply_apy,
                borrow_apy: noted.borrow_apy,
                supply_proto: pool,
                borrow_proto: pool,
            })
            &&& !(found is Fail)
            &&& open.contains(asset) ==> found == Screening::Skip(SkipReason::AlreadyOpen)
            &&& found == Screening::Skip(SkipReason::NarrowSpread) <==> !open.contains(asset)
                && spread_bps.below(cfg.min_rate_spread_bps)
            &&& found == Screening::Skip(SkipReason::ForeignRoute) ==> noted.supply_proto != pool
                || noted.borrow_proto != pool
            &&& found == Screening::Skip(SkipReason::OpeningDisabled) ==> !cfg.rate_arb_open_enabled
        }),
{
    if !open.contains(asset) {
        assert forall|i: int| 0 <= i < open.len() implies #[trigger] open[i] != asset by {
            if open[i] == asset {
                assert(open.contains(asset));
            }
        }
    }
}

/// An asset whose address cannot be read ends the search, and so does a lending pool whose
/// address cannot be read, once an asset has a spread that is wide enough.
pub proof fn law_unreadable_addresses_end_the_search(
    kind: CarryAsset,
    addresses: Addresses,
    cfg: Config,
    open: Seq<Address>,
    rates: Map<Address, RateSnapshot>,
)
    ensures
        parsed_address(kind.written(addresses)) is None <==> screened(
            kind,
            addresses,
            cfg,
            open,
            rates,
        ) == Screening::Fail(CarryError::BadAsset(kind)),
        screened(kind, addresses, cfg, open, rates) == Screening::Fail(CarryError::BadPool)
            ==> parsed_address(addresses.aave_v3_pool_proxy@) is None,
{
}

/// The notional of a carry: two fifths of what the lender holds, up to the greatest one.
pub open spec fn sized_notional(depth: nat, most: nat) -> nat {
    if depth * 40 / 100 <= most {
        depth * 40 / 100
    } else {
        most
    }
}

/// A carry takes no more than two fifths of what the lender holds, and no more than the greatest
/// notional, and as much as these two leave.
pub proof fn law_notional_is_bounded(depth: nat, most: nat)
    ensures
        5 * sized_notional(depth, most) <= 2 * depth,
        sized_notional(depth, most) <= most,
        sized_notional(depth, most) == most || 5 * (sized_notional(depth, most) + 1) > 2 * depth,
{
}

/// The leverage at which a carry still has the target health factor.
pub open spec fn safe_leverage(liq_thresh: Double, base: Double) -> Double {
    let debt_share = (Double { bits: ONE }).over(Double { bits: TARGET_HF });
    if debt_share.below(liq_thresh) {
        liq_thresh.over(liq_thresh.minus(debt_share))
    } else {
        base
    }
}

/// The greatest leverage: the safe one, between one and four.
pub open spec fn leverage_cap(liq_thresh: Double, base: Double) -> Double {
    safe_leverage(liq_thresh, base).lesser(Double { bits: LEVERAGE_MOST }).greater(
        Double { bits: ONE },
    )
}

/// The leverage of a carry: it grows with the spread, from the least one up to the greatest one.
pub open spec fn chosen_leverage(base: Double, spread_bps: Double, liq_thresh: Double) -> Double {
    let cap = leverage_cap(liq_thresh, base);
    base.plus(spread_bps.over(Double { bits: HUNDRED })).greater(
        (Double { bits: LEVERAGE_FLOOR }).lesser(cap),
    ).lesser(cap)
}

/// The leverage of a carry.
pub fn dynamic_leverage(base: Double, spread_bps: Double, liq_thresh: Double) -> (r: Double)
    ensures
        r == chosen_leverage(base, spread_bps, liq_thresh),
{
    let one: Double = Double { bits: ONE };
    let debt_share: Double = one.div(Double { bits: TARGET_HF });
    let max_safe: Double = if debt_share.is_below(liq_thresh) {
        liq_thresh.div(liq_thresh.sub(debt_share))
    } else {
        base
    };
    let cap: Double = max_safe.min(Double { bits: LEVERAGE_MOST }).max(one);
    let wanted: Double = base.add(spread_bps.div(Double { bits: HUNDRED }));
    let floor: Double = Double { bits: LEVERAGE_FLOOR }.min(cap);
    wanted.max(floor).min(cap)
}

/// The leverage is never above its cap, which is never above four; where the safe leverage is at
/// least one, the leverage is not above it either. It is never below one.
pub proof fn law_leverage_is_capped(base: Double, spread_bps: Double, liq_thresh: Double)
    ensures
        chosen_leverage(base, spread_bps, liq_thresh).at_most(leverage_cap(liq_thresh, base)),
        leverage_cap(liq_thresh, base).at_most(Double { bits: LEVERAGE_MOST }),
        (Double { bits: ONE }).at_most(safe_leverage(liq_thresh, base)) ==> chosen_leverage(
            base,
            spread_bps,
            liq_thresh,
        ).at_most(safe_leverage(liq_thresh, base)),
        (Double { bits: ONE }).at_most(chosen_leverage(base, spread_bps, liq_thresh)),
{
    lemma_words(ONE, LEVERAGE_FLOOR);
    lemma_words(ONE, LEVERAGE_MOST);
}

/// The leverage grows with the spread, and is one and a half at least where the cap allows it.
pub proof fn law_leverage_grows_with_spread(base: Double, spread_bps: Double, wider: Double, liq_thresh: Double)
    requires
        amount(base),
        amount(spread_bps),
        amount(wider),
        spread_bps.at_most(wider),
    ensures
        chosen_leverage(base, spread_bps, liq_thresh).at_most(
            chosen_leverage(base, wider, liq_thresh),
        ),
        (Double { bits: LEVERAGE_FLOOR }).at_most(chosen_leverage(base, spread_bps, liq_thresh))
            || leverage_cap(liq_thresh, base).at_most(
            chosen_leverage(base, spread_bps, liq_thresh),
        ),
{
    let hundred = Double { bits: HUNDRED };
    lemma_words(ONE, LEVERAGE_FLOOR);
    lemma_words(ONE, LEVERAGE_MOST);
    law_quotient_grows(spread_bps, wider, hundred);
    let (x, y) = (spread_bps.over(hundred), wider.over(hundred));
    law_sum_of_reach(base, x);
    law_sum_of_reach(base, y);
    law_sum_commutes(base, x);
    law_sum_commutes(base, y);
    law_sum_is_monotone(x, y, base);
}

/// Each hundred basis points of the spread add one to the leverage, between the floor and the cap.
pub proof fn law_leverage_of_whole_percents(base: nat, percents: nat, liq_thresh: Double)
    requires
        percents <= 1_000_000_000,
        base <= 1_000_000_000,
        2 <= base + percents,
    ensures
        ({
            let cap = leverage_cap(liq_thresh, nearest_to_integer(base));
            chosen_leverage(nearest_to_integer(base), nearest_to_integer(100 * percents), liq_thresh)
                == if cap.below(nearest_to_integer(base + percents)) {
                cap
            } else {
                nearest_to_integer(base + percents)
            }
        }),
{
    law_constants();
    law_whole_quotient(percents, 100);
    law_whole_sum(base, percents);
    lemma_integer_is_amount(base + percents);
    law_conversion_is_monotone(2, base + percents);
    lemma_words(LEVERAGE_FLOOR, TWO);
    lemma_words(ONE, LEVERAGE_FLOOR);
    lemma_words(ONE, LEVERAGE_MOST);
}

/// The safe leverage, times what the threshold exceeds the debt share of the target health factor
/// by, is the threshold, up to the rounding of one quotient.
pub proof fn law_safe_leverage_fills_the_room(liq_thresh: Double, base: Double, room: Double)
    requires
        (Double { bits: ONE }).over(Double { bits: TARGET_HF }).below(liq_thresh),
        room == liq_thresh.minus((Double { bits: ONE }).over(Double { bits: TARGET_HF })),
        within(liq_thresh, 100),
        within(room, 100),
    ensures
        ({
            let exact = liq_thresh.units() * pow2(1074);
            -exact <= (safe_leverage(liq_thresh, base).units() * room.units() - exact) * precision()
                <= exact
        }),
{
    law_quotient_error(liq_thresh, room, 100);
}

/// The cap is the safe leverage itself where that is between one and four, and the nearer of these
/// two where it is not; the least leverage is one and a half.
pub proof fn law_cap_is_the_safe_leverage(liq_thresh: Double, base: Double)
    ensures
        ({
            let (safe, cap) = (safe_leverage(liq_thresh, base), leverage_cap(liq_thresh, base));
            let (one, four) = (Double { bits: ONE }, nearest_to_integer(4));
            &&& one.at_most(safe) && safe.at_most(four) ==> cap == safe
            &&& four.below(safe) ==> cap == four
            &&& safe.below(one) ==> cap == one
        }),
        (Double { bits: TWO }).times(Double { bits: LEVERAGE_FLOOR }) == nearest_to_integer(3),
{
    let (m, n) = (LEVERAGE_MOST as nat, LEVERAGE_FLOOR as nat);
    assert(m / (FRACTIONS as nat) == 1025 && m % (FRACTIONS as nat) == 0);
    assert(n / (FRACTIONS as nat) == 1023 && n % (FRACTIONS as nat) == 0x8_0000_0000_0000);
    lemma_words(ONE, LEVERAGE_MOST);
    reveal(Double::times);
    lemma_one();
    law_constants();
    lemma_integer_is_exact(2);
    lemma_integer_is_exact(3);
    lemma_integer_is_exact(4);
    lemma2_to64();
    lemma2_to64_rest();
    lemma_pow2_adds(50, 1024);
    lemma_pow2_adds(51, 1022);
    lemma_pow2_adds(1, 1073);
    let (p, h) = (pow2(1074), pow2(1073));
    let (a, b, c, d) = (pow2(50), pow2(1024), pow2(51), pow2(1022));
    assert(0x10_0000_0000_0000 * b == 4 * (a * b)) by (nonlinear_arith)
        requires
            a == 0x4_0000_0000_0000,
    ;
    assert(0x18_0000_0000_0000 * d == 3 * (c * d)) by (nonlinear_arith)
        requires
            c == 0x8_0000_0000_0000,
    ;
    lemma_determined(nearest_to_integer(4), Double { bits: LEVERAGE_MOST });
    assert((2 * p) * (3 * h) == (3 * p) * p) by (nonlinear_arith)
        requires
            p == 2 * h,
    ;
    lemma_exact(nearest_to_integer(3).magnitude(), p);
}

/// Without room for the target health factor the cap is that of the base leverage.
pub proof fn law_leverage_without_room(base: Double, liq_thresh: Double)
    requires
        !(Double { bits: ONE }).over(Double { bits: TARGET_HF }).below(liq_thresh),
    ensures
        safe_leverage(liq_thresh, base) == base,
{
}

/// A carry is looped at least once.
proof fn lemma_loops(base: Double, spread_bps: Double, liq_thresh: Double)
    ensures
        loop_count(chosen_leverage(base, spread_bps, liq_thresh)) > 0,
{
    law_leverage_is_capped(base, spread_bps, liq_thresh);
    lemma_at_least_one(chosen_leverage(base, spread_bps, liq_thresh), 255);
}

/// The size of a carry.
#[derive(Clone, Copy, Debug)]
pub struct CarrySize {
    pub notional: U256,
    pub leverage: Double,
}

/// What an amount is worth in dollars, given the least units of a whole token and its price.
pub open spec fn worth(amount: nat, token_units: Double, price: Double) -> Double {
    nearest_to_integer(amount).over(token_units).times(price)
}

/// Whole tokens are worth as many times their price.
pub proof fn law_worth_of_whole_tokens(tokens: nat, token_units: nat, price: nat)
    requires
        0 < token_units < countable(),
        tokens < countable(),
        price < countable(),
        tokens * token_units < countable(),
        tokens * price < countable(),
    ensures
        worth(tokens * token_units, nearest_to_integer(token_units), nearest_to_integer(price))
            == nearest_to_integer(tokens * price),
{
    law_whole_quotient(tokens, token_units);
    law_whole_product(tokens, price);
}

/// More of a token, at a higher price, is not worth less.
pub proof fn law_worth_grows(amount: nat, more: nat, token_units: Double, price: Double, higher: Double)
    requires
        amount <= more <= u128::MAX,
        positive(token_units),
        positive(price),
        positive(higher),
        price.at_most(higher),
    ensures
        worth(amount, token_units, price).at_most(worth(more, token_units, higher)),
{
    lemma_integer_is_amount(amount);
    lemma_integer_is_amount(more);
    law_conversion_is_monotone(amount, more);
    let (x, y) = (nearest_to_integer(amount), nearest_to_integer(more));
    law_quotient_grows(x, y, token_units);
    law_product_grows_with_factors(x.over(token_units), y.over(token_units), price, higher);
}

/// Why a carry cannot be sized, if it cannot.
pub open spec fn size_fault(
    c: CarryCandidate,
    cfg: Config,
    depth: nat,
    token_units: Double,
    btc_price: Double,
) -> Option<SkipReason> {
    let notional = sized_notional(depth, c.kind.most(cfg));
    if notional == 0 {
        Some(SkipReason::NoDepth)
    } else if c.kind.least_usd(cfg) is Some && worth(notional, token_units, btc_price).below(
        c.kind.least_usd(cfg)->0,
    ) {
        Some(SkipReason::SmallNotional)
    } else {
        None
    }
}

/// The size of a carry, given what the lender holds, the least units of a whole token, the price
/// of a bitcoin, and the share of the collateral at which the asset is liquidated.
pub fn size(
    c: &CarryCandidate,
    cfg: &Config,
    depth: U256,
    token_units: Double,
    btc_price: Double,
    liq_thresh: Double,
) -> (r: Result<CarrySize, SkipReason>)
    requires
        depth@ * 40 < limit(),
    ensures
        r is Ok <==> size_fault(*c, *cfg, depth@, token_units, btc_price) is None,
        r matches Err(e) ==> size_fault(*c, *cfg, depth@, token_units, btc_price) == Some(e),
        r matches Ok(s) ==> {
            &&& s.notional@ == sized_notional(depth@, c.kind.most(*cfg))
            &&& s.leverage == chosen_leverage(
                cfg.rate_arb_base_leverage,
                c.spread_bps,
                liq_thresh,
            )
            &&& loop_count(s.leverage) > 0
            &&& s.notional@ <= u128::MAX
        },
{
    let share: U256 = depth.times(40).over(100);
    let notional: U256 = share.min(U256::from_u128(c.kind.cap(cfg)));
    if notional.is_zero() {
        return Err(SkipReason::NoDepth);
    }
    if c.kind == CarryAsset::CbBtc {
        let usd: Double = from_u128(notional.as_u128()).div(token_units).mul(btc_price);
        if usd.is_below(cfg.rate_arb_cbbtc_min_notional_usd) {
            return Err(SkipReason::SmallNotional);
        }
    }
    let leverage: Double = dynamic_leverage(cfg.rate_arb_base_leverage, c.spread_bps, liq_thresh);
    proof {
        lemma_loops(cfg.rate_arb_base_leverage, c.spread_bps, liq_thresh);
    }
    Ok(CarrySize { notional, leverage })
}

/// A carry cannot be sized where two fifths of what the lender holds are less than one unit, or
/// where its limit is zero; one of bitcoin not either where its notional is worth less than the
/// least one. There is no other reason.
pub proof fn law_sizes_that_fail(
    c: CarryCandidate,
    cfg: Config,
    depth: nat,
    token_units: Double,
    btc_price: Double,
)
    ensures
        ({
            let fault = size_fault(c, cfg, depth, token_units, btc_price);
            &&& fault == Some(SkipReason::NoDepth) <==> depth < 3 || c.kind.most(cfg) == 0
            &&& fault == Some(SkipReason::SmallNotional) ==> c.kind is CbBtc
            &&& c.kind is CbBtc && depth >= 3 && cfg.rate_arb_max_notional_weth >= 30 ==> (fault
                == Some(SkipReason::SmallNotional) <==> worth(
                sized_notional(depth, (cfg.rate_arb_max_notional_weth / 30) as nat),
                token_units,
                btc_price,
            ).below(cfg.rate_arb_cbbtc_min_notional_usd))
            &&& fault is Some ==> fault == Some(SkipReason::NoDepth) || fault == Some(
                SkipReason::SmallNotional,
            )
        }),
{
}

/// What the simulation of a new carry foresees.
#[derive(Clone, Copy, Debug)]
pub struct CarrySim {
    pub post_hf: Double,
    pub profit_usd: Double,
    pub gas_estimate: u64,
}

/// Why a simulated carry is not opened, if it is not.
pub open spec fn sim_fault(sim: CarrySim) -> Option<SkipReason> {
    if sim.post_hf.below(Double { bits: TARGET_HF }) {
        Some(SkipReason::LowHealth)
    } else if sim.profit_usd.below(Double { bits: 0 }) {
        Some(SkipReason::NoProfit)
    } else {
        None
    }
}

/// Why a simulated carry is not opened, if it is not.
pub fn judge_sim(sim: &CarrySim) -> (r: Option<SkipReason>)
    ensures
        r == sim_fault(*sim),
{
    if sim.post_hf.is_below(Double { bits: TARGET_HF }) {
        Some(SkipReason::LowHealth)
    } else if sim.profit_usd.is_below(Double { bits: 0 }) {
        Some(SkipReason::NoProfit)
    } else {
        None
    }
}

/// A simulated carry is opened if and only if its health factor is not below the target and its
/// profit is not negative; a better one is then opened too.
pub proof fn law_simulations_that_fail(sim: CarrySim, better: CarrySim)
    requires
        sim.post_hf.at_most(better.post_hf),
        sim.profit_usd.at_most(better.profit_usd),
    ensures
        sim_fault(sim) is None <==> (Double { bits: TARGET_HF }).at_most(sim.post_hf)
            && (Double { bits: 0 }).at_most(sim.profit_usd),
        sim_fault(sim) == Some(SkipReason::LowHealth) <==> sim.post_hf.below(
            Double { bits: TARGET_HF },
        ),
        sim_fault(sim) is None ==> sim_fault(better) is None,
        sim_fault(sim) is Some ==> sim_fault(sim) == Some(SkipReason::LowHealth) || sim_fault(sim)
            == Some(SkipReason::NoProfit),
{
}

/// What is to be signed to open a carry.
pub fn open_request(
    pipeline: &mut SubmissionPipeline,
    flash: &FlashLoanRouter,
    provider: FlashProvider,
    c: &CarryCandidate,
    s: &CarrySize,
    gas_estimate: u64,
) -> (r: SignRequest)
    requires
        loop_count(s.leverage) > 0,
    ensures
        r.asks(
            open_plan(
                *flash,
                provider,
                c.asset@,
                s.notional@,
                s.leverage,
                c.supply_proto@,
                c.borrow_proto@,
            ).calldata(),
            gas_estimate,
            ONE,
            old(pipeline).next(),
        ),
        final(pipeline).next() == next_nonce(old(pipeline).next()),
        final(pipeline).same_endpoints(*old(pipeline)),
{
    let calldata: Vec<u8> = flash.build_rate_arb_open(
        provider,
        c.asset,
        s.notional,
        s.leverage,
        c.supply_proto,
        c.borrow_proto,
    );
    pipeline.submit(calldata, gas_estimate)
}

/// The carry that was opened. Its debt is the notional: as much is borrowed as is supplied.
pub open spec fn opened(
    c: CarryCandidate,
    s: CarrySize,
    sim: CarrySim,
    current_block: u64,
    opened_ts: u64,
) -> RateArbPosition {
    RateArbPosition {
        asset: c.asset,
        supply_proto: c.supply_proto,
        borrow_proto: c.borrow_proto,
        notional_usd: nearest_to_integer(s.notional@),
        leverage: s.leverage,
        net_apy: c.supply_apy.minus(c.borrow_apy),
        health_factor: sim.post_hf,
        opened_block: current_block,
        opened_ts,
        pnl_usd: Double { bits: 0 },
        debt_amount_wei: s.notional,
    }
}

/// A carry that was opened is of the asset, at the protocols and with the leverage that were
/// found, at the block and the time of its opening, with the health factor that was foreseen; it
/// has gained nothing yet, and it was held for no block.
pub proof fn law_opened_carry_is_the_candidate(
    c: CarryCandidate,
    s: CarrySize,
    sim: CarrySim,
    current_block: u64,
    opened_ts: u64,
)
    ensures
        ({
            let pos = opened(c, s, sim, current_block, opened_ts);
            &&& pos.asset == c.asset
            &&& pos.supply_proto == c.supply_proto && pos.borrow_proto == c.borrow_proto
            &&& pos.leverage == s.leverage
            &&& pos.health_factor == sim.post_hf
            &&& held_blocks(pos, current_block) == 0 && pos.opened_block == current_block
            &&& pos.opened_ts == opened_ts
            &&& pos.pnl_usd.zero() && !pos.pnl_usd.negative()
            &&& pos.debt_amount_wei@ == s.notional@
            &&& s.notional@ < countable() ==> pos.notional_usd.units() == s.notional@ * pow2(1074)
            &&& c.borrow_apy.below(c.supply_apy) && amount(c.borrow_apy) && amount(c.supply_apy)
                ==> !pos.net_apy.negative() && pos.net_apy.at_most(c.supply_apy)
        }),
{
    lemma_units_zero(0);
    if s.notional@ < countable() {
        lemma_integer_is_exact(s.notional@);
    }
    if c.borrow_apy.below(c.supply_apy) && amount(c.borrow_apy) && amount(c.supply_apy) {
        law_difference_shrinks(c.supply_apy, c.borrow_apy);
    }
}

/// A carry that was opened can be closed again, with its live debt unknown as well, unless the
/// lending pool is the zero address.
pub proof fn law_opened_carry_can_be_closed(
    kind: CarryAsset,
    addresses: Addresses,
    cfg: Config,
    open: Seq<Address>,
    rates: Map<Address, RateSnapshot>,
    c: CarryCandidate,
    s: CarrySize,
    sim: CarrySim,
    current_block: u64,
    opened_ts: u64,
)
    requires
        screened(kind, addresses, cfg, open, rates) == Screening::Pass(c),
        told_address(addresses.aave_v3_pool_proxy@) matches Some(pool) ==> !all_zero(pool@),
        0 < s.notional@ <= u128::MAX,
    ensures
        close_fault(opened(c, s, sim, current_block, opened_ts)) is None,
        close_fault(to_close(opened(c, s, sim, current_block, opened_ts), None)) is None,
        to_close(opened(c, s, sim, current_block, opened_ts), None).debt_amount_wei@ >= s.notional@,
{
    lemma_u256_value(buffered(s.notional@));
}

/// The debt that a carry is opened with is what its loops borrow in total, and as much is supplied.
pub proof fn law_debt_is_what_is_borrowed(
    c: CarryCandidate,
    s: CarrySize,
    sim: CarrySim,
    current_block: u64,
    opened_ts: u64,
)
    requires
        s.sound(),
    ensures
        opened(c, s, sim, current_block, opened_ts).debt_amount_wei@ == total(
            loop_amounts(s.notional@, loop_count(s.leverage)),
        ),
{
    law_loops_use_the_loan(s.notional@, s.leverage);
}

/// Counts a carry that was opened, and takes it in.
pub fn complete_open(
    monitor: &mut HealthFactorMonitor,
    m: &mut Metrics,
    c: &CarryCandidate,
    s: &CarrySize,
    sim: &CarrySim,
    current_block: u64,
    opened_ts: u64,
)
    requires
        old(monitor).well_formed(),
        s.notional@ <= u128::MAX,
    ensures
        final(monitor).well_formed(),
        final(monitor)@ == old(monitor)@.insert(
            c.asset,
            opened(*c, *s, *sim, current_block, opened_ts),
        ),
        final(monitor).pool() == old(monitor).pool(),
        final(m)@ == after_trade(after_open(old(m)@), "rate_arb_open"@, sim.profit_usd),
{
    let pos = RateArbPosition {
        asset: c.asset,
        supply_proto: c.supply_proto,
        borrow_proto: c.borrow_proto,
        notional_usd: from_u128(s.notional.as_u128()),
        leverage: s.leverage,
        net_apy: c.supply_apy.sub(c.borrow_apy),
        health_factor: sim.post_hf,
        opened_block: current_block,
        opened_ts,
        pnl_usd: Double { bits: 0 },
        debt_amount_wei: s.notional,
    };
    monitor.register_position(pos);
    record_position_open(m, "rate_arb");
    record_trade(m, "rate_arb_open", sim.profit_usd);
}

/// How far the opening of a carry has come.
pub enum OpenStep {
    /// The lender of the asset is to be asked what it holds.
    Measuring { c: CarryCandidate },
    /// The carry is to be simulated.
    Simulating { c: CarryCandidate, s: CarrySize },
    /// The lenders of the asset are to be asked what they hold.
    Lending { c: CarryCandidate, s: CarrySize, sim: CarrySim },
    /// The transaction is to be signed and sent.
    Signing { c: CarryCandidate, s: CarrySize, sim: CarrySim, request: SignRequest },
    /// The carry was opened; it and all other carries are to be saved.
    Saving { positions: Vec<RateArbPosition> },
    /// The carry was opened, and all carries were handed to the store.
    Opened,
    /// The transaction could not be signed, so it was not sent.
    Unsent,
    /// No carry is opened.
    Skipped { reason: SkipReason },
    /// The search ends.
    Failed { error: CarryError },
}

impl CarrySize {
    /// Whether the size is one that a carry can be opened with.
    pub open spec fn sound(self) -> bool {
        loop_count(self.leverage) > 0 && self.notional@ <= u128::MAX
    }
}

impl OpenStep {
    /// Whether the size, once there is one, is one that a carry can be opened with.
    pub open spec fn well_formed(self) -> bool {
        match self {
            OpenStep::Simulating { s, .. } => s.sound(),
            OpenStep::Lending { s, .. } => s.sound(),
            OpenStep::Signing { s, .. } => s.sound(),
            _ => true,
        }
    }

    /// Looks at an asset.
    pub fn start(
        kind: CarryAsset,
        addresses: &Addresses,
        cfg: &Config,
        open: &Vec<Address>,
        feed: &RateFeed,
    ) -> (r: OpenStep)
        ensures
            r.well_formed(),
            r == match screened(kind, *addresses, *cfg, open@, feed@) {
                Screening::Fail(error) => OpenStep::Failed { error },
                Screening::Skip(reason) => OpenStep::Skipped { reason },
                Screening::Pass(c) => OpenStep::Measuring { c },
            },
    {
        match screen(kind, addresses, cfg, open, feed) {
            Screening::Fail(error) => OpenStep::Failed { error },
            Screening::Skip(reason) => OpenStep::Skipped { reason },
            Screening::Pass(c) => OpenStep::Measuring { c },
        }
    }

    /// Takes what the lender holds, nothing where that is not told, and sizes the carry.
    pub fn measured(
        self,
        cfg: &Config,
        depth: Option<U256>,
        token_units: Double,
        btc_price: Double,
        liq_thresh: Double,
    ) -> (r: OpenStep)
        requires
            self.well_formed(),
            depth matches Some(d) ==> d@ * 40 < limit(),
        ensures
            r.well_formed(),
            match self {
                OpenStep::Measuring { c } => {
                    let held = match depth {
                        Some(d) => d@,
                        None => 0,
                    };
                    match size_fault(c, *cfg, held, token_units, btc_price) {
                        Some(reason) => r == (OpenStep::Skipped { reason }),
                        None => {
                            &&& r matches OpenStep::Simulating { c: k, s }
                            &&& k == c
                            &&& s.notional@ == sized_notional(held, c.kind.most(*cfg))
                            &&& s.leverage == chosen_leverage(
                                cfg.rate_arb_base_leverage,
                                c.spread_bps,
                                liq_thresh,
                            )
                        },
                    }
                },
                _ => r == self,
            },
    {
        match self {
            OpenStep::Measuring { c } => {
                let held: U256 = match depth {
                    Some(d) => d,
                    None => U256::zero(),
                };
                match size(&c, cfg, held, token_units, btc_price, liq_thresh) {
                    Ok(s) => OpenStep::Simulating { c, s },
                    Err(reason) => OpenStep::Skipped { reason },
                }
            },
            other => other,
        }
    }

    /// Takes what the simulation foresees.
    pub fn simulated(self, sim: CarrySim) -> (r: OpenStep)
        requires
            self.well_formed(),
        ensures
            r.well_formed(),
            r == match self {
                OpenStep::Simulating { c, s } => match sim_fault(sim) {
                    Some(reason) => OpenStep::Skipped { reason },
                    None => OpenStep::Lending { c, s, sim },
                },
                _ => self,
            },
    {
        match self {
            OpenStep::Simulating { c, s } => match judge_sim(&sim) {
                Some(reason) => OpenStep::Skipped { reason },
                None => OpenStep::Lending { c, s, sim },
            },
            other => other,
        }
    }

    /// The token whose lenders are to be asked what they hold: the one that is borrowed.
    pub fn borrowed(&self) -> (r: Option<Address>)
        ensures
            r == match *self {
                OpenStep::Measuring { c } => Some(c.asset),
                OpenStep::Lending { c, .. } => Some(c.asset),
                _ => None,
            },
    {
        match self {
            OpenStep::Measuring { c } => Some(c.asset),
            OpenStep::Lending { c, .. } => Some(c.asset),
            _ => None,
        }
    }

    /// Takes what the lenders hold, and makes the transaction.
    pub fn lent(self, pipeline: &mut SubmissionPipeline, flash: &FlashLoanRouter, held: &Balances) -> (r: OpenStep)
        requires
            self.well_formed(),
            self is Lending ==> shares_fit(*held),
        ensures
            r.well_formed(),
            match self {
                OpenStep::Lending { c, s, sim } => {
                    &&& r matches OpenStep::Signing { c: c1, s: s1, sim: sim1, request }
                    &&& (c1, s1, sim1) == (c, s, sim)
                    &&& request.asks(
                        open_plan(
                            *flash,
                            provider_for(s.notional@, *held),
                            c.asset@,
                            s.notional@,
                            s.leverage,
                            c.supply_proto@,
                            c.borrow_proto@,
                        ).calldata(),
                        sim.gas_estimate,
                        ONE,
                        old(pipeline).next(),
                    )
                    &&& final(pipeline).next() == next_nonce(old(pipeline).next())
                    &&& final(pipeline).same_endpoints(*old(pipeline))
                },
                _ => r == self && *final(pipeline) == *old(pipeline),
            },
    {
        match self {
            OpenStep::Lending { c, s, sim } => {
                let provider: FlashProvider = flash.select_provider(s.notional, held);
                let request: SignRequest = open_request(
                    pipeline,
                    flash,
                    provider,
                    &c,
                    &s,
                    sim.gas_estimate,
                );
                OpenStep::Signing { c, s, sim, request }
            },
            other => other,
        }
    }

    /// Takes whether the transaction was signed and sent: one that was is counted, the carry is
    /// taken in, and all carries are to be saved at once; one that was not leaves no trace.
    pub fn sent(
        self,
        went_out: bool,
        monitor: &mut HealthFactorMonitor,
        m: &mut Metrics,
        current_block: u64,
        opened_ts: u64,
    ) -> (r: OpenStep)
        requires
            self.well_formed(),
            old(monitor).well_formed(),
        ensures
            r.well_formed(),
            final(monitor).well_formed(),
            final(monitor).pool() == old(monitor).pool(),
            match self {
                OpenStep::Signing { c, s, sim, .. } => if went_out {
                    &&& r matches OpenStep::Saving { positions }
                    &&& lists(positions@, final(monitor)@)
                    &&& final(monitor)@ == old(monitor)@.insert(
                        c.asset,
                        opened(c, s, sim, current_block, opened_ts),
                    )
                    &&& final(m)@ == after_trade(
                        after_open(after_attempt(old(m)@, true)),
                        "rate_arb_open"@,
                        sim.profit_usd,
                    )
                } else {
                    &&& r == OpenStep::Unsent
                    &&& final(monitor)@ == old(monitor)@
                    &&& final(m)@ == after_attempt(old(m)@, false)
                },
                _ => r == self && final(monitor)@ == old(monitor)@ && *final(m) == *old(m),
            },
    {
        match self {
            OpenStep::Signing { c, s, sim, .. } => {
                record_attempt(m, went_out);
                if !went_out {
                    return OpenStep::Unsent;
                }
                complete_open(monitor, m, &c, &s, &sim, current_block, opened_ts);
                OpenStep::Saving { positions: monitor.get_rate_arb_positions() }
            },
            other => other,
        }
    }

    /// Goes on once all carries were handed to the store.
    pub fn saved(self) -> (r: OpenStep)
        requires
            self.well_formed(),
        ensures
            r.well_formed(),
            r == match self {
                OpenStep::Saving { .. } => OpenStep::Opened,
                _ => self,
            },
    {
        match self {
            OpenStep::Saving { .. } => OpenStep::Opened,
            other => other,
        }
    }
}

} // verus!
