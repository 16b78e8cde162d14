//! What lending protocols pay and ask, and the best of both for each asset.

use crate::double::arithmetic::{distance, from_u128, nearest_to_integer};
use crate::double::chain::{law_one_is_neutral, law_sum_commutes, law_zero_absorbs, lemma_positive};
use crate::double::constants::{ETHER, GREATEST, ONE, RAY, TEN_THOUSAND, TWO};
use crate::double::exact::{
    law_constants, law_difference_falls, law_less_itself, law_less_nothing, law_nothing_is_shared,
    law_own_share, law_quotient_grows, law_whole_difference, law_whole_product, lemma_determined,
};
use crate::double::growth::{
    amount, law_conversion_is_monotone, law_difference_is_monotone, law_difference_shrinks,
    law_product_commutes, law_product_is_monotone, law_product_shrinks, law_quotient_falls,
    law_quotient_shrinks, law_share_is_at_most_one, law_sum_grows, law_sum_is_monotone, lemma_ether,
    lemma_integer_is_amount, lemma_integer_is_exact, lemma_product_of_amounts,
    lemma_rounding_is_monotone, lemma_small_sum, lemma_units_ordered,
};
use crate::double::order::{lemma_one, lemma_words};
use crate::double::rounding::nearest_magnitude;
use crate::double::{lemma_units_zero, magnitude_units, Double, FRACTIONS};
use crate::shared::abi::room::group_room;
use crate::shared::abi::{
    abi_encoding, address_token, call_data, encode_call, function_selector, selector, token_values, AbiValue,
};
use crate::shared::address::{
    no_address, parse_address, parsed_address, same_address, zero_address, Address,
};
use crate::shared::addresses::Addresses;
use crate::shared::flash_loan::depths::CallRequest;
use crate::shared::text::{all_zeros, decode_hex, hex_bytes};
use crate::u256::{big_endian, lemma_big_endian_bound, u128_at};
use vstd::arithmetic::power2::{lemma2_to64_rest, lemma_pow2_adds, pow2};
use vstd::prelude::*;
use vstd::string::*;

verus! {

/// The double 0.8: the use of a market from which its rate rises steeply.
pub const KINK: u64 = 0x3fe9_9999_9999_999a;

/// The double 0.1: the slope of a rate below the kink.
pub const LOW_SLOPE: u64 = 0x3fb9_9999_9999_999a;

/// The double 0.08: the rate at the kink.
pub const KINK_RATE: u64 = 0x3fb4_7ae1_47ae_147b;

/// The double 1.5: the slope of a rate above the kink.
pub const HIGH_SLOPE: u64 = 0x3ff8_0000_0000_0000;

/// The best rates of an asset, and the protocols that offer them.
#[derive(Clone, Copy, Debug)]
pub struct RateSnapshot {
    pub asset: Address,
    pub supply_apy: Double,
    pub borrow_apy: Double,
    pub supply_proto: Address,
    pub borrow_proto: Address,
}

/// The rates that a map holds.
pub uninterp spec fn rates_of(m: dashmap::DashMap<Address, RateSnapshot>) -> Map<Address, RateSnapshot>;

/// Calls `dashmap::DashMap::new`: a map that holds nothing.
#[verifier::external_body]
fn new_rates() -> (r: dashmap::DashMap<Address, RateSnapshot>)
    ensures
        rates_of(r) == (Map::<Address, RateSnapshot>::empty()),
{
    dashmap::DashMap::new()
}

/// Calls `dashmap::DashMap::insert`: sets the value of one key.
#[verifier::external_body]
fn insert_rate(m: &mut dashmap::DashMap<Address, RateSnapshot>, key: Address, value: RateSnapshot)
    ensures
        rates_of(*final(m)) == rates_of(*old(m)).insert(key, value),
{
    m.insert(key, value);
}

/// Calls `dashmap::DashMap::get`: the value of a key, if it is there.
#[verifier::external_body]
fn rate_at(m: &dashmap::DashMap<Address, RateSnapshot>, key: Address) -> (r: Option<RateSnapshot>)
    ensures
        r is Some <==> rates_of(*m).dom().contains(key),
        r matches Some(s) ==> s == rates_of(*m)[key],
{
    m.get(&key).map(|e| *e.value())
}

/// Calls `dashmap::DashMap::iter`: the keys, each of them once. In which order they come is left
/// open.
#[verifier::external_body]
fn rate_keys(m: &dashmap::DashMap<Address, RateSnapshot>) -> (r: Vec<Address>)
    ensures
        (forall|i: int| 0 <= i < r@.len() ==> rates_of(*m).dom().contains(#[trigger] r@[i])),
        (forall|i: int, j: int| 0 <= i < j < r@.len() ==> #[trigger] r@[i] != #[trigger] r@[j]),
        (forall|k: Address| #[trigger] rates_of(*m).dom().contains(k) ==> r@.contains(k)),
{
    m.iter().map(|e| *e.key()).collect()
}

/// What is wrong with an answer about rates.
#[derive(Clone, Copy, Debug, PartialEq, Eq, Structural)]
pub enum RateError {
    /// The reply has only this many bytes.
    ShortReply(usize),
    /// Nothing is supplied to the market.
    ZeroSupply,
}

/// What a protocol pays and asks.
#[derive(Clone, Copy, Debug, PartialEq, Eq, Structural)]
pub struct Rates {
    pub supply: Double,
    pub borrow: Double,
}

/// What stands for a protocol whose rates are not known: it pays nothing and asks more than any
/// other.
pub open spec fn unknown_rates() -> Rates {
    Rates { supply: Double { bits: 0 }, borrow: Double { bits: GREATEST } }
}

/// The calldata that asks a lending pool for the state of an asset.
pub open spec fn reserve_data(asset: Seq<u8>) -> Seq<u8> {
    call_data("getReserveData(address)"@, seq![AbiValue::Address(asset)])
}

/// A lending pool is asked by the selector of its question and the asset.
pub proof fn law_question_holds_the_asset(asset: Seq<u8>)
    ensures
        reserve_data(asset) == selector("getReserveData(address)"@) + abi_encoding(
            seq![AbiValue::Address(asset)],
        ),
{
}

/// The call that asks a lending pool for the state of an asset.
pub fn reserve_call(pool: Address, asset: Address) -> (r: CallRequest)
    ensures
        r.to == pool,
        r.data@ == reserve_data(asset@),
{
    let tokens: Vec<ethers::abi::Token> = vec![address_token(asset)];
    proof {
        broadcast use group_room;

        assert(token_values(tokens@) =~= seq![AbiValue::Address(asset@)]);
    }
    CallRequest { to: pool, data: encode_call("getReserveData(address)", &tokens) }
}

/// A rate that a lending pool tells in units of 10 to the power -27, in sixteen bytes from `at`.
pub open spec fn ray_at(reply: Seq<u8>, at: int) -> Double {
    nearest_to_integer(big_endian(reply.subrange(at, at + 16))).over(Double { bits: RAY })
}

/// The rates in the state of an asset: the lower halves of its second and third word.
pub fn read_aave_rates(reply: &[u8]) -> (r: Result<Rates, RateError>)
    ensures
        r is Ok <==> reply@.len() >= 96,
        r matches Ok(rates) ==> rates == (Rates {
            supply: ray_at(reply@, 48),
            borrow: ray_at(reply@, 80),
        }),
        r matches Err(e) ==> e == RateError::ShortReply(reply@.len() as usize),
{
    if reply.len() < 96 {
        return Err(RateError::ShortReply(reply.len()));
    }
    let ray: Double = Double { bits: RAY };
    let supply: Double = from_u128(u128_at(reply, 48)).div(ray);
    let borrow: Double = from_u128(u128_at(reply, 80)).div(ray);
    Ok(Rates { supply, borrow })
}

/// A rate that is told is read from sixteen bytes alone, the lower half of a word; nothing is
/// read as no rate, and a greater integer as no lower rate.
pub proof fn law_told_rates_grow(reply: Seq<u8>, at: int, other: Seq<u8>, there: int)
    requires
        0 <= at && at + 16 <= reply.len(),
        0 <= there && there + 16 <= other.len(),
        big_endian(reply.subrange(at, at + 16)) <= big_endian(other.subrange(there, there + 16)),
    ensures
        ray_at(reply, at).at_most(ray_at(other, there)),
        big_endian(reply.subrange(at, at + 16)) == 0 ==> ray_at(reply, at).zero(),
        big_endian(reply.subrange(at, at + 16)) == big_endian(other.subrange(there, there + 16))
            ==> ray_at(reply, at) == ray_at(other, there),
{
    let (n, k) = (big_endian(reply.subrange(at, at + 16)), big_endian(other.subrange(there, there + 16)));
    lemma_sixteen_bytes(reply.subrange(at, at + 16));
    lemma_sixteen_bytes(other.subrange(there, there + 16));
    lemma_integer_is_amount(n);
    lemma_integer_is_amount(k);
    law_conversion_is_monotone(n, k);
    law_quotient_grows(nearest_to_integer(n), nearest_to_integer(k), Double { bits: RAY });
    if n == 0 {
        lemma_integer_is_exact(0);
        lemma_one();
        law_nothing_is_shared(nearest_to_integer(0), Double { bits: RAY });
    }
}

/// Sixteen bytes hold an integer of 128 bits.
proof fn lemma_sixteen_bytes(bytes: Seq<u8>)
    requires
        bytes.len() == 16,
    ensures
        big_endian(bytes) <= u128::MAX,
{
    lemma_big_endian_bound(bytes);
    assert(vstd::arithmetic::power::pow(256, 16) == 0x1_0000_0000_0000_0000_0000_0000_0000_0000) by {
        reveal_with_fuel(vstd::arithmetic::power::pow, 17);
    }
}

/// The share of a market that is borrowed, one at most.
pub open spec fn utilization(borrowed: nat, supplied: nat) -> Double {
    nearest_to_integer(borrowed).over(nearest_to_integer(supplied)).lesser(Double { bits: ONE })
}

/// What a market asks at a given use: little below the kink, steeply more above it.
pub open spec fn curve(used: Double) -> Double {
    if used.below(Double { bits: KINK }) {
        used.times(Double { bits: LOW_SLOPE })
    } else {
        (Double { bits: KINK_RATE }).plus(
            used.minus(Double { bits: KINK }).times(Double { bits: HIGH_SLOPE }),
        )
    }
}

/// The rates of a market: what borrowers pay goes to suppliers, less the fee.
pub open spec fn market_rates(supplied: nat, borrowed: nat, fee: nat) -> Rates {
    let used = utilization(borrowed, supplied);
    let kept = (Double { bits: ONE }).minus(nearest_to_integer(fee).over(Double { bits: ETHER }));
    Rates { supply: curve(used).times(used).times(kept), borrow: curve(used) }
}

/// More use of a market does not lower what it asks.
pub proof fn law_curve_grows(used: Double, more: Double)
    requires
        amount(used),
        amount(more),
        used.at_most(more),
        more.at_most(Double { bits: ONE }),
    ensures
        curve(used).at_most(curve(more)),
        used.zero() ==> curve(used).zero(),
        !used.below(Double { bits: KINK }) ==> (Double { bits: KINK_RATE }).at_most(curve(used)),
        used.below(Double { bits: KINK }) ==> curve(used).at_most(Double { bits: KINK_RATE }),
{
    let (kink, low, high) = (Double { bits: KINK }, Double { bits: LOW_SLOPE }, Double { bits: HIGH_SLOPE });
    let rate = Double { bits: KINK_RATE };
    lemma_curve(used);
    lemma_curve(more);
    lemma_words(KINK, ONE);
    lemma_words(LOW_SLOPE, ONE);
    lemma_words(ONE, HIGH_SLOPE);
    if used.below(kink) {
        law_product_commutes(low, used);
        law_product_commutes(low, more);
        lemma_below_kink(used);
        if more.below(kink) {
            law_product_is_monotone(low, used, more);
        }
    } else {
        law_difference_shrinks(used, kink);
        law_difference_is_monotone(used, more, kink, kink);
        let (x, y) = (used.minus(kink), more.minus(kink));
        law_difference_shrinks(more, kink);
        law_product_shrinks(high, x);
        law_product_shrinks(high, y);
        law_product_is_monotone(high, x, y);
        law_product_commutes(high, x);
        law_product_commutes(high, y);
        law_sum_is_monotone(x.times(high), y.times(high), rate);
        law_sum_commutes(rate, x.times(high));
        law_sum_commutes(rate, y.times(high));
        law_sum_grows(rate, x.times(high));
    }
    if !more.below(kink) {
        law_difference_shrinks(more, kink);
        let y = more.minus(kink);
        law_product_shrinks(high, y);
        law_product_commutes(high, y);
        law_sum_grows(rate, y.times(high));
    }
    if used.zero() {
        lemma_units_zero(KINK as nat);
        law_zero_absorbs(used, low);
    }
}

/// Below the kink a market asks no more than at it.
proof fn lemma_below_kink(used: Double)
    requires
        amount(used),
        used.below(Double { bits: KINK }),
    ensures
        used.times(Double { bits: LOW_SLOPE }).at_most(Double { bits: KINK_RATE }),
{
    reveal(Double::times);
    lemma_one();
    let before = (KINK - 1) as nat;
    let p = pow2(1074);
    if used.magnitude() > before {
        lemma_units_ordered(KINK as nat, used.magnitude());
    }
    lemma_units_ordered(used.magnitude(), before);
    assert(before / (FRACTIONS as nat) == 1022 && before % (FRACTIONS as nat) == 0x9_9999_9999_9999);
    assert(LOW_SLOPE as nat / (FRACTIONS as nat) == 1019 && LOW_SLOPE as nat % (FRACTIONS as nat)
        == 0x9_9999_9999_999a);
    assert(KINK_RATE as nat / (FRACTIONS as nat) == 1019 && KINK_RATE as nat % (FRACTIONS as nat)
        == 0x4_7ae1_47ae_147b);
    let (u, v) = (distance(used.units()), magnitude_units(LOW_SLOPE as nat));
    let (a, b, c, d) = (pow2(1021), pow2(1018), pow2(53), pow2(2039));
    lemma_pow2_adds(1021, 1018);
    lemma_pow2_adds(53, 2039);
    lemma_pow2_adds(1018, 1074);
    lemma2_to64_rest();
    assert(u * v <= (0x19_9999_9999_9999 * a) * (0x19_9999_9999_999a * b)) by (nonlinear_arith)
        requires
            u <= 0x19_9999_9999_9999 * a,
            v == 0x19_9999_9999_999a * b,
    ;
    assert((0x19_9999_9999_9999 * a) * (0x19_9999_9999_999a * b) == (0x19_9999_9999_9999
        * 0x19_9999_9999_999a) * (a * b)) by (nonlinear_arith);
    assert((0x19_9999_9999_9999 * 0x19_9999_9999_999a) * d <= (0x14_7ae1_47ae_147b
        * 0x20_0000_0000_0000) * d) by (nonlinear_arith);
    assert((0x14_7ae1_47ae_147b * 0x20_0000_0000_0000) * d == 0x14_7ae1_47ae_147b * (c * d))
        by (nonlinear_arith)
        requires
            c == 0x20_0000_0000_0000,
    ;
    assert(0x14_7ae1_47ae_147b * (b * p) == (0x14_7ae1_47ae_147b * b) * p) by (nonlinear_arith);
    lemma_rounding_is_monotone(u * v, p, KINK_RATE as nat);
    lemma_units_ordered(nearest_magnitude(u * v, p), KINK_RATE as nat);
}

/// More that is borrowed from a market, or less that is supplied to it, does not lower what it
/// asks; a market of which nothing is borrowed asks nothing and pays nothing.
pub proof fn law_borrowing_raises_rates(supplied: nat, borrowed: nat, less: nat, more: nat, fee: nat)
    requires
        0 < less <= supplied <= u128::MAX,
        borrowed <= more <= u128::MAX,
        fee <= 1_000_000_000_000_000_000,
    ensures
        market_rates(supplied, borrowed, fee).borrow.at_most(market_rates(less, more, fee).borrow),
        utilization(borrowed, supplied).at_most(utilization(more, less)),
        utilization(more, less).at_most(Double { bits: ONE }),
        supplied <= borrowed ==> utilization(borrowed, supplied) == (Double { bits: ONE }),
        borrowed == 0 ==> {
            &&& market_rates(supplied, borrowed, fee).borrow.zero()
            &&& market_rates(supplied, borrowed, fee).supply.zero()
        },
{
    let one = Double { bits: ONE };
    lemma_words(ONE, ETHER);
    let (b, m) = (nearest_to_integer(borrowed), nearest_to_integer(more));
    let (s, l) = (nearest_to_integer(supplied), nearest_to_integer(less));
    lemma_integer_is_amount(borrowed);
    lemma_integer_is_amount(more);
    lemma_integer_is_amount(supplied);
    lemma_integer_is_amount(less);
    law_conversion_is_monotone(borrowed, more);
    law_conversion_is_monotone(less, supplied);
    law_conversion_is_monotone(1, less);
    lemma_integer_is_exact(1);
    lemma_one();
    lemma_positive(l);
    lemma_positive(s);
    law_quotient_falls(b, l, s);
    law_quotient_grows(b, m, l);
    law_quotient_shrinks(b, s);
    law_quotient_shrinks(m, l);
    let (u, v) = (utilization(borrowed, supplied), utilization(more, less));
    law_curve_grows(u, v);
    lemma_curve(u);
    if supplied <= borrowed {
        law_conversion_is_monotone(supplied, borrowed);
        law_quotient_grows(s, b, s);
        law_own_share(s);
        lemma_determined(u, one);
    }
    if borrowed == 0 {
        lemma_integer_is_exact(0);
        law_nothing_is_shared(b, s);
        assert(u.zero() && amount(u));
        law_zero_absorbs(curve(u), u);
        let share = nearest_to_integer(fee).over(Double { bits: ETHER });
        lemma_integer_is_amount(fee);
        law_conversion_is_monotone(fee, 1_000_000_000_000_000_000);
        lemma_ether();
        law_share_is_at_most_one(nearest_to_integer(fee), Double { bits: ETHER });
        law_quotient_shrinks(nearest_to_integer(fee), Double { bits: ETHER });
        law_difference_shrinks(one, share);
        law_zero_absorbs(curve(u).times(u), one.minus(share));
    }
}

/// The fee of a market lowers what it pays, and not what it asks; the whole leaves nothing.
pub proof fn law_fee_goes_off_the_supply(supplied: nat, borrowed: nat, fee: nat, higher: nat)
    requires
        0 < supplied <= u128::MAX,
        borrowed <= u128::MAX,
        fee <= higher <= 1_000_000_000_000_000_000,
    ensures
        market_rates(supplied, borrowed, fee).borrow == market_rates(supplied, borrowed, higher).borrow,
        market_rates(supplied, borrowed, higher).supply.at_most(
            market_rates(supplied, borrowed, fee).supply,
        ),
        fee == 0 ==> market_rates(supplied, borrowed, fee).supply == market_rates(
            supplied,
            borrowed,
            fee,
        ).borrow.times(utilization(borrowed, supplied)),
        fee == 1_000_000_000_000_000_000 ==> market_rates(supplied, borrowed, fee).supply.zero(),
{
    let one = Double { bits: ONE };
    let ether = Double { bits: ETHER };
    lemma_words(ONE, ETHER);
    let (b, s) = (nearest_to_integer(borrowed), nearest_to_integer(supplied));
    lemma_integer_is_amount(borrowed);
    lemma_integer_is_amount(supplied);
    lemma_integer_is_exact(1);
    lemma_one();
    law_conversion_is_monotone(1, supplied);
    law_quotient_shrinks(b, s);
    let used = utilization(borrowed, supplied);
    assert(amount(used) && used.at_most(one));
    lemma_curve(used);
    law_product_shrinks(curve(used), used);
    let paid = curve(used).times(used);
    let (f, h) = (nearest_to_integer(fee), nearest_to_integer(higher));
    lemma_integer_is_amount(fee);
    lemma_integer_is_amount(higher);
    law_conversion_is_monotone(fee, higher);
    law_conversion_is_monotone(higher, 1_000_000_000_000_000_000);
    lemma_ether();
    law_share_is_at_most_one(f, ether);
    law_share_is_at_most_one(h, ether);
    law_quotient_shrinks(f, ether);
    law_quotient_shrinks(h, ether);
    law_quotient_grows(f, h, ether);
    let (x, y) = (f.over(ether), h.over(ether));
    law_difference_shrinks(one, x);
    law_difference_shrinks(one, y);
    law_difference_falls(one, x, y);
    law_product_is_monotone(paid, one.minus(y), one.minus(x));
    if fee == 0 {
        lemma_integer_is_exact(0);
        law_nothing_is_shared(f, ether);
        law_less_nothing(one, x);
        law_one_is_neutral(paid);
    }
    if fee == 1_000_000_000_000_000_000 {
        law_own_share(ether);
        law_less_itself(one);
        law_zero_absorbs(paid, one.minus(x));
    }
}

/// The rates that follow from what is supplied to a market and borrowed from it, and from its
/// fee in units of 10 to the power -18.
pub fn rates_of_market(supplied: u128, borrowed: u128, fee: u128) -> (r: Rates)
    ensures
        r == market_rates(supplied as nat, borrowed as nat, fee as nat),
{
    let one: Double = Double { bits: ONE };
    let kink: Double = Double { bits: KINK };
    let fee_share: Double = from_u128(fee).div(Double { bits: ETHER });
    let used: Double = from_u128(borrowed).div(from_u128(supplied)).min(one);
    let borrow: Double = if used.is_below(kink) {
        used.mul(Double { bits: LOW_SLOPE })
    } else {
        let steep: Double = used.sub(kink).mul(Double { bits: HIGH_SLOPE });
        Double { bits: KINK_RATE }.add(steep)
    };
    let supply: Double = borrow.mul(used).mul(one.sub(fee_share));
    Rates { supply, borrow }
}

/// What a market asks is an amount.
proof fn lemma_curve(used: Double)
    requires
        amount(used),
        used.at_most(Double { bits: ONE }),
    ensures
        amount(curve(used)),
{
    lemma_words(LOW_SLOPE, ONE);
    lemma_words(ONE, HIGH_SLOPE);
    if used.below(Double { bits: KINK }) {
        law_product_shrinks(used, Double { bits: LOW_SLOPE });
    } else {
        let gap = used.minus(Double { bits: KINK });
        let steep = Double { bits: HIGH_SLOPE };
        law_difference_shrinks(used, Double { bits: KINK });
        law_product_shrinks(steep, gap);
        law_product_commutes(steep, gap);
        lemma_words(HIGH_SLOPE, TWO);
        lemma_words(KINK_RATE, ONE);
        lemma_small_sum(Double { bits: KINK_RATE }, gap.times(steep));
    }
}

/// What suppliers get is never more than what borrowers pay, while the fee of the market is at
/// most the whole.
pub proof fn law_suppliers_get_no_more(supplied: nat, borrowed: nat, fee: nat)
    requires
        0 < supplied <= u128::MAX,
        borrowed <= u128::MAX,
        fee <= 1_000_000_000_000_000_000,
    ensures
        market_rates(supplied, borrowed, fee).supply.at_most(
            market_rates(supplied, borrowed, fee).borrow,
        ),
        (Double { bits: 0 }).at_most(market_rates(supplied, borrowed, fee).supply),
{
    let one = Double { bits: ONE };
    lemma_words(ONE, ETHER);
    let (b, s) = (nearest_to_integer(borrowed), nearest_to_integer(supplied));
    lemma_integer_is_amount(borrowed);
    lemma_integer_is_amount(supplied);
    lemma_integer_is_exact(1);
    lemma_one();
    law_conversion_is_monotone(1, supplied);
    law_quotient_shrinks(b, s);
    let used = utilization(borrowed, supplied);
    assert(amount(used) && used.at_most(one));
    lemma_curve(used);
    let share = nearest_to_integer(fee).over(Double { bits: ETHER });
    lemma_integer_is_amount(fee);
    law_conversion_is_monotone(fee, 1_000_000_000_000_000_000);
    lemma_ether();
    law_share_is_at_most_one(nearest_to_integer(fee), Double { bits: ETHER });
    law_quotient_shrinks(nearest_to_integer(fee), Double { bits: ETHER });
    law_difference_shrinks(one, share);
    let kept = one.minus(share);
    let rate = curve(used);
    law_product_shrinks(rate, used);
    law_product_shrinks(rate.times(used), kept);
    lemma_units_zero(0);
}

/// What is wrong with the state of a market.
pub open spec fn market_fault(reply: Seq<u8>) -> Option<RateError> {
    if reply.len() < 96 {
        Some(RateError::ShortReply(reply.len() as usize))
    } else if big_endian(reply.subrange(0, 16)) == 0 {
        Some(RateError::ZeroSupply)
    } else {
        None
    }
}

/// The rates in the state of a market: the upper halves of its first two words are what is
/// supplied and borrowed, the lower half of the third one is the fee.
pub open spec fn told_market_rates(reply: Seq<u8>) -> Rates {
    market_rates(
        big_endian(reply.subrange(0, 16)),
        big_endian(reply.subrange(32, 48)),
        big_endian(reply.subrange(80, 96)),
    )
}

/// The rates in the state of a market.
pub fn read_morpho_rates(reply: &[u8]) -> (r: Result<Rates, RateError>)
    ensures
        r is Ok <==> market_fault(reply@) is None,
        r matches Ok(rates) ==> rates == told_market_rates(reply@),
        r matches Err(e) ==> market_fault(reply@) == Some(e),
{
    if reply.len() < 96 {
        return Err(RateError::ShortReply(reply.len()));
    }
    let supplied: u128 = u128_at(reply, 0);
    let borrowed: u128 = u128_at(reply, 32);
    let fee: u128 = u128_at(reply, 80);
    if supplied == 0 {
        return Err(RateError::ZeroSupply);
    }
    Ok(rates_of_market(supplied, borrowed, fee))
}

/// A market tells what is supplied in the first sixteen bytes of its first word, what is borrowed
/// in those of the second one, and its fee in the last sixteen bytes of the third one; nothing
/// else of the reply counts.
pub proof fn law_state_of_a_market(reply: Seq<u8>, other: Seq<u8>)
    requires
        reply.len() >= 96,
        other.len() >= 96,
        forall|i: int|
            0 <= i < 16 || 32 <= i < 48 || 80 <= i < 96 ==> #[trigger] reply[i] == other[i],
    ensures
        told_market_rates(reply) == told_market_rates(other),
        market_fault(reply) == market_fault(other),
{
    assert(reply.subrange(0, 16) =~= other.subrange(0, 16));
    assert(reply.subrange(32, 48) =~= other.subrange(32, 48));
    assert(reply.subrange(80, 96) =~= other.subrange(80, 96));
}

/// A state of a market can be read if and only if it has three words and something is supplied.
pub proof fn law_faults_of_a_market(reply: Seq<u8>)
    ensures
        reply.len() < 96 ==> market_fault(reply) is Some,
        reply.len() >= 96 && (forall|i: int| 0 <= i < 16 ==> reply[i] == 0) ==> market_fault(reply)
            == Some(RateError::ZeroSupply),
        market_fault(reply) == Some(RateError::ZeroSupply) ==> reply.len() >= 96,
        reply.len() >= 96 && market_fault(reply) is Some ==> forall|i: int|
            0 <= i < 16 ==> reply[i] == 0,
{
    if reply.len() >= 96 {
        lemma_nothing_in_bytes(reply.subrange(0, 16));
        assert forall|i: int| 0 <= i < 16 && market_fault(reply) is Some implies reply[i] == 0 by {
            assert(reply.subrange(0, 16)[i] == reply[i]);
        }
    }
}

/// Bytes hold the integer zero if and only if all of them are zero.
proof fn lemma_nothing_in_bytes(bytes: Seq<u8>)
    ensures
        big_endian(bytes) == 0 <==> forall|i: int| 0 <= i < bytes.len() ==> bytes[i] == 0,
    decreases bytes.len(),
{
    if bytes.len() > 0 {
        let rest = bytes.drop_last();
        lemma_nothing_in_bytes(rest);
        if big_endian(bytes) == 0 {
            assert forall|i: int| 0 <= i < bytes.len() implies bytes[i] == 0 by {
                if i < bytes.len() - 1 {
                    assert(rest[i] == bytes[i]);
                }
            }
        } else if big_endian(rest) != 0 {
            let i = choose|i: int| 0 <= i < rest.len() && rest[i] != 0;
            assert(bytes[i] == rest[i]);
        } else {
            assert(bytes[bytes.len() - 1] != 0);
        }
    }
}

/// Whether a text stands for the address of an asset.
pub open spec fn names(text: Seq<char>, asset: Seq<u8>) -> bool {
    parsed_address(text) == Some(asset)
}

/// The market of a watched asset, as it is written down; no other asset has one.
pub open spec fn market_text(addresses: Addresses, asset: Seq<u8>) -> Option<Seq<char>> {
    if names(addresses.usdc@, asset) {
        Some(addresses.morpho_market_usdc_weth@)
    } else if names(addresses.weth@, asset) {
        Some(addresses.morpho_market_weth_usdc@)
    } else if names(addresses.cbeth@, asset) {
        Some(addresses.morpho_market_cbeth_usdc@)
    } else if names(addresses.cbbtc@, asset) {
        Some(addresses.morpho_market_cbbtc_usdc@)
    } else if names(addresses.wsteth@, asset) {
        Some(addresses.morpho_market_wsteth_usdc@)
    } else {
        None
    }
}

/// Whether a market is not known yet: its digits are all zero.
pub open spec fn placeholder(text: Seq<char>) -> bool {
    forall|i: int| 0 <= i < text.len() ==> text[i] == '0'
}

/// The identifier of the market of an asset, where it is known.
pub open spec fn market_id(addresses: Addresses, asset: Seq<u8>) -> Option<Seq<u8>> {
    match market_text(addresses, asset) {
        None => None,
        Some(text) => if placeholder(text) {
            None
        } else {
            match hex_bytes(text) {
                None => None,
                Some(bytes) => if bytes.len() == 32 {
                    Some(bytes)
                } else {
                    None
                },
            }
        },
    }
}

/// Whether a text stands for the address of an asset.
fn is_named(text: &str, asset: &Address) -> (r: bool)
    ensures
        r == names(text@, asset@),
{
    match parse_address(text) {
        Some(a) => same_address(&a, asset),
        None => false,
    }
}

/// The identifier of the market of an asset, where it is known.
pub fn derive_market_id(addresses: &Addresses, asset: Address) -> (r: Option<Vec<u8>>)
    ensures
        r is Some <==> market_id(*addresses, asset@) is Some,
        r matches Some(id) ==> Some(id@) == market_id(*addresses, asset@),
{
    let id: &str = if is_named(addresses.usdc.as_str(), &asset) {
        addresses.morpho_market_usdc_weth.as_str()
    } else if is_named(addresses.weth.as_str(), &asset) {
        addresses.morpho_market_weth_usdc.as_str()
    } else if is_named(addresses.cbeth.as_str(), &asset) {
        addresses.morpho_market_cbeth_usdc.as_str()
    } else if is_named(addresses.cbbtc.as_str(), &asset) {
        addresses.morpho_market_cbbtc_usdc.as_str()
    } else if is_named(addresses.wsteth.as_str(), &asset) {
        addresses.morpho_market_wsteth_usdc.as_str()
    } else {
        return None;
    };
    if all_zeros(id) {
        return None;
    }
    match decode_hex(id) {
        Some(bytes) => if bytes.len() == 32 {
            Some(bytes)
        } else {
            None
        },
        None => None,
    }
}

/// The calldata that asks for the state of a market.
pub open spec fn market_data(id: Seq<u8>) -> Seq<u8> {
    selector("market(bytes32)"@) + id
}

/// The assets that are watched, as they are written down.
pub open spec fn watched_texts(addresses: Addresses) -> Seq<Seq<char>> {
    seq![
        addresses.usdc@,
        addresses.weth@,
        addresses.cbeth@,
        addresses.wsteth@,
        addresses.cbbtc@,
    ]
}

/// An asset that is not watched has no market.
pub proof fn law_only_watched_assets_have_markets(addresses: Addresses, asset: Seq<u8>)
    requires
        forall|i: int| 0 <= i < 5 ==> parsed_address(#[trigger] watched_texts(addresses)[i]) != Some(asset),
    ensures
        market_id(addresses, asset) is None,
{
    let texts = watched_texts(addresses);
    assert(texts[0] == addresses.usdc@ && texts[1] == addresses.weth@ && texts[2] == addresses.cbeth@
        && texts[3] == addresses.wsteth@ && texts[4] == addresses.cbbtc@);
}

/// Whether the five watched assets have addresses that can be read and that all differ.
pub open spec fn assets_differ(addresses: Addresses) -> bool {
    let (a, b, c, d, e) = (
        parsed_address(addresses.usdc@),
        parsed_address(addresses.weth@),
        parsed_address(addresses.cbeth@),
        parsed_address(addresses.cbbtc@),
        parsed_address(addresses.wsteth@),
    );
    &&& a is Some && b is Some && c is Some && d is Some && e is Some
    &&& a != b && a != c && a != d && a != e
    &&& b != c && b != d && b != e
    &&& c != d && c != e
    &&& d != e
}

/// Whether a text is an identifier that is known: the digits of thirty-two bytes, not all zero.
pub open spec fn known_market(text: Seq<char>, bytes: Seq<u8>) -> bool {
    &&& hex_bytes(text) == Some(bytes) && bytes.len() == 32
    &&& exists|i: int| 0 <= i < text.len() && #[trigger] text[i] != '0'
}

/// For each of the five watched assets the market is the one that is written under that asset's
/// own name, whatever is written under the other names.
pub proof fn law_each_asset_has_its_own_market(addresses: Addresses, id: Seq<u8>)
    requires
        assets_differ(addresses),
    ensures
        known_market(addresses.morpho_market_usdc_weth@, id) ==> market_id(
            addresses,
            parsed_address(addresses.usdc@)->0,
        ) == Some(id),
        known_market(addresses.morpho_market_weth_usdc@, id) ==> market_id(
            addresses,
            parsed_address(addresses.weth@)->0,
        ) == Some(id),
        known_market(addresses.morpho_market_cbeth_usdc@, id) ==> market_id(
            addresses,
            parsed_address(addresses.cbeth@)->0,
        ) == Some(id),
        known_market(addresses.morpho_market_cbbtc_usdc@, id) ==> market_id(
            addresses,
            parsed_address(addresses.cbbtc@)->0,
        ) == Some(id),
        known_market(addresses.morpho_market_wsteth_usdc@, id) ==> market_id(
            addresses,
            parsed_address(addresses.wsteth@)->0,
        ) == Some(id),
{
}

/// A market that is asked is known under the name of an asset: no identifier is made up, and the
/// identifier of an asset tells the digits that are written under its own name.
pub proof fn law_no_market_is_made_up(addresses: Addresses, id: Seq<u8>)
    requires
        assets_differ(addresses),
    ensures
        market_id(addresses, parsed_address(addresses.usdc@)->0) == Some(id) ==> known_market(
            addresses.morpho_market_usdc_weth@,
            id,
        ),
        market_id(addresses, parsed_address(addresses.weth@)->0) == Some(id) ==> known_market(
            addresses.morpho_market_weth_usdc@,
            id,
        ),
        market_id(addresses, parsed_address(addresses.cbeth@)->0) == Some(id) ==> known_market(
            addresses.morpho_market_cbeth_usdc@,
            id,
        ),
        market_id(addresses, parsed_address(addresses.cbbtc@)->0) == Some(id) ==> known_market(
            addresses.morpho_market_cbbtc_usdc@,
            id,
        ),
        market_id(addresses, parsed_address(addresses.wsteth@)->0) == Some(id) ==> known_market(
            addresses.morpho_market_wsteth_usdc@,
            id,
        ),
{
}

/// A market is asked by the selector of its question and the thirty-two bytes of its identifier.
pub proof fn law_question_holds_the_market(id: Seq<u8>)
    requires
        id.len() == 32,
        selector("market(bytes32)"@).len() == 4,
    ensures
        market_data(id).len() == 36,
        market_data(id).take(4) == selector("market(bytes32)"@),
        market_data(id).skip(4) == id,
{
    assert(market_data(id).take(4) =~= selector("market(bytes32)"@));
    assert(market_data(id).skip(4) =~= id);
}

/// The assets that are watched, or the place of the first one that cannot be read.
pub fn watched_assets(addresses: &Addresses) -> (r: Result<Vec<Address>, usize>)
    ensures
        r is Ok <==> forall|i: int|
            0 <= i < 5 ==> parsed_address(#[trigger] watched_texts(*addresses)[i]) is Some,
        r matches Ok(list) ==> list@.len() == 5 && forall|i: int|
            0 <= i < 5 ==> Some((#[trigger] list@[i])@) == parsed_address(watched_texts(*addresses)[i]),
        r matches Err(at) ==> at < 5 && parsed_address(watched_texts(*addresses)[at as int]) is None
            && forall|i: int|
            0 <= i < at ==> parsed_address(#[trigger] watched_texts(*addresses)[i]) is Some,
{
    let texts: Vec<&str> = vec![
        addresses.usdc.as_str(),
        addresses.weth.as_str(),
        addresses.cbeth.as_str(),
        addresses.wsteth.as_str(),
        addresses.cbbtc.as_str(),
    ];
    let ghost all = watched_texts(*addresses);
    let mut list: Vec<Address> = Vec::new();
    let mut i: usize = 0;
    while i < 5
        invariant
            i <= 5,
            all == watched_texts(*addresses),
            texts@.len() == 5,
            forall|j: int| 0 <= j < 5 ==> #[trigger] texts@[j]@ == all[j],
            list@.len() == i,
            forall|j: int| 0 <= j < i ==> Some((#[trigger] list@[j])@) == parsed_address(all[j]),
            forall|j: int| 0 <= j < i ==> parsed_address(#[trigger] all[j]) is Some,
        decreases 5 - i,
    {
        match parse_address(texts[i]) {
            Some(a) => list.push(a),
            None => {
                assert(parsed_address(all[i as int]) is None);
                return Err(i);
            },
        }
        i = i + 1;
    }
    Ok(list)
}

/// The best rates of an asset among two protocols: the one that pays more and the one that asks
/// less, and the lending pool where they are equal.
pub open spec fn best_rates(
    asset: Address,
    aave_pool: Address,
    morpho: Address,
    aave: Rates,
    market: Rates,
) -> RateSnapshot {
    RateSnapshot {
        asset,
        supply_apy: if aave.supply.below(market.supply) {
            market.supply
        } else {
            aave.supply
        },
        borrow_apy: if market.borrow.below(aave.borrow) {
            market.borrow
        } else {
            aave.borrow
        },
        supply_proto: if aave.supply.below(market.supply) {
            morpho
        } else {
            aave_pool
        },
        borrow_proto: if market.borrow.below(aave.borrow) {
            morpho
        } else {
            aave_pool
        },
    }
}

/// The best rates of an asset among two protocols.
pub fn choose_rates(asset: Address, aave_pool: Address, morpho: Address, aave: Rates, market: Rates) -> (r:
    RateSnapshot)
    ensures
        r == best_rates(asset, aave_pool, morpho, aave, market),
{
    let (supply_apy, supply_proto) = if aave.supply.is_below(market.supply) {
        (market.supply, morpho)
    } else {
        (aave.supply, aave_pool)
    };
    let (borrow_apy, borrow_proto) = if market.borrow.is_below(aave.borrow) {
        (market.borrow, morpho)
    } else {
        (aave.borrow, aave_pool)
    };
    RateSnapshot { asset, supply_apy, borrow_apy, supply_proto, borrow_proto }
}

/// Neither protocol pays more than the best rate for suppliers, and neither asks less than the
/// best rate for borrowers; each best rate is that of the protocol it is noted with.
pub proof fn law_best_rates(asset: Address, aave_pool: Address, morpho: Address, aave: Rates, market: Rates)
    requires
        !aave.supply.nan(),
        !aave.borrow.nan(),
        !market.supply.nan(),
        !market.borrow.nan(),
    ensures
        ({
            let best = best_rates(asset, aave_pool, morpho, aave, market);
            &&& aave.supply.at_most(best.supply_apy) && market.supply.at_most(best.supply_apy)
            &&& best.borrow_apy.at_most(aave.borrow) && best.borrow_apy.at_most(market.borrow)
            &&& aave_pool != morpho ==> {
                &&& best.supply_apy == if best.supply_proto == morpho {
                    market.supply
                } else {
                    aave.supply
                }
                &&& best.borrow_apy == if best.borrow_proto == morpho {
                    market.borrow
                } else {
                    aave.borrow
                }
            }
        }),
{
}

/// What is noted is about the asset that was asked for; each rate is that of one protocol, and
/// where both offer the same, that of the lending pool. Where the market is better on both sides,
/// both rates are its own.
pub proof fn law_ties_go_to_the_pool(asset: Address, aave_pool: Address, morpho: Address, aave: Rates, market: Rates)
    ensures
        ({
            let best = best_rates(asset, aave_pool, morpho, aave, market);
            &&& best.asset == asset
            &&& market.supply.at_most(aave.supply) ==> best.supply_proto == aave_pool
                && best.supply_apy == aave.supply
            &&& aave.borrow.at_most(market.borrow) ==> best.borrow_proto == aave_pool
                && best.borrow_apy == aave.borrow
            &&& aave.supply.below(market.supply) ==> best.supply_proto == morpho && best.supply_apy
                == market.supply
            &&& market.borrow.below(aave.borrow) ==> best.borrow_proto == morpho && best.borrow_apy
                == market.borrow
        }),
{
}

/// A protocol that does not answer is never preferred to one that does.
pub proof fn law_silence_is_never_best(asset: Address, aave_pool: Address, morpho: Address, rates: Rates)
    requires
        amount(rates.supply),
        amount(rates.borrow),
    ensures
        ({
            let best = best_rates(asset, aave_pool, morpho, rates, unknown_rates());
            best.supply_apy == rates.supply && best.borrow_apy == rates.borrow && best.supply_proto
                == aave_pool && best.borrow_proto == aave_pool
        }),
        ({
            let best = best_rates(asset, aave_pool, morpho, unknown_rates(), rates);
            best.supply_apy.units() == rates.supply.units() && best.borrow_apy.units()
                == rates.borrow.units()
        }),
        rates.supply.units() > 0 ==> best_rates(asset, aave_pool, morpho, unknown_rates(), rates).supply_proto
            == morpho,
{
    lemma_units_zero(0);
    lemma_units_ordered(rates.borrow.magnitude(), GREATEST as nat);
    lemma_units_ordered(0, rates.supply.magnitude());
}

/// The best rates that are known, by asset.
pub struct RateFeed {
    rates: dashmap::DashMap<Address, RateSnapshot>,
    morpho: Address,
}

impl View for RateFeed {
    type V = Map<Address, RateSnapshot>;

    closed spec fn view(&self) -> Map<Address, RateSnapshot> {
        rates_of(self.rates)
    }
}

/// The rates that are noted for an asset; both zero where none are.
pub open spec fn noted_rates(m: Map<Address, RateSnapshot>, asset: Address) -> (Double, Double) {
    if m.dom().contains(asset) {
        (m[asset].supply_apy, m[asset].borrow_apy)
    } else {
        (Double { bits: 0 }, Double { bits: 0 })
    }
}

/// The protocols that are noted for an asset; both zero where none are.
pub open spec fn noted_protocols(m: Map<Address, RateSnapshot>, asset: Address) -> (Address, Address) {
    if m.dom().contains(asset) {
        (m[asset].supply_proto, m[asset].borrow_proto)
    } else {
        (no_address(), no_address())
    }
}

/// How much more an asset earns than it costs, in basis points.
pub open spec fn noted_spread(m: Map<Address, RateSnapshot>, asset: Address) -> Double {
    noted_rates(m, asset).0.minus(noted_rates(m, asset).1).times(Double { bits: TEN_THOUSAND })
}

/// An asset that earns as much as it costs has no spread, one that earns more has none below
/// zero, and one of which nothing is known has none; the rates of other assets do not count.
pub proof fn law_spread_is_what_is_left(m: Map<Address, RateSnapshot>, asset: Address, other: RateSnapshot)
    requires
        m.dom().contains(asset) ==> amount(m[asset].supply_apy) && amount(m[asset].borrow_apy),
    ensures
        !m.dom().contains(asset) ==> noted_spread(m, asset).zero(),
        m.dom().contains(asset) && m[asset].supply_apy == m[asset].borrow_apy ==> noted_spread(
            m,
            asset,
        ).zero(),
        m.dom().contains(asset) && m[asset].borrow_apy.at_most(m[asset].supply_apy)
            ==> !noted_spread(m, asset).negative() && !noted_spread(m, asset).nan(),
        other.asset != asset ==> noted_spread(m.insert(other.asset, other), asset) == noted_spread(
            m,
            asset,
        ),
{
    let bps = Double { bits: TEN_THOUSAND };
    let (s, b) = noted_rates(m, asset);
    lemma_units_zero(0);
    if s == b {
        law_less_itself(s);
        law_zero_absorbs(s.minus(b), bps);
    }
    if b.at_most(s) {
        law_difference_shrinks(s, b);
        lemma_product_of_amounts(s.minus(b), bps);
    }
}

/// Each whole of a rate is ten thousand basis points.
pub proof fn law_spread_of_whole_rates(m: Map<Address, RateSnapshot>, asset: Address, earned: nat, cost: nat)
    requires
        m.dom().contains(asset),
        m[asset].supply_apy == nearest_to_integer(earned),
        m[asset].borrow_apy == nearest_to_integer(cost),
        cost <= earned <= 1_000_000_000,
    ensures
        noted_spread(m, asset) == nearest_to_integer((10_000 * (earned - cost)) as nat),
        noted_rates(m, asset) == (nearest_to_integer(earned), nearest_to_integer(cost)),
        noted_protocols(m, asset) == (m[asset].supply_proto, m[asset].borrow_proto),
{
    law_constants();
    law_whole_difference(earned, cost);
    law_whole_product((earned - cost) as nat, 10_000);
}

/// An asset that earns more, or costs less, has no narrower spread.
pub proof fn law_spread_grows(rates: RateSnapshot, better: RateSnapshot)
    requires
        amount(rates.supply_apy) && amount(rates.borrow_apy),
        amount(better.supply_apy) && amount(better.borrow_apy),
        rates.borrow_apy.at_most(rates.supply_apy),
        rates.supply_apy.at_most(better.supply_apy),
        better.borrow_apy.at_most(rates.borrow_apy),
    ensures
        noted_spread(map![rates.asset => rates], rates.asset).at_most(
            noted_spread(map![better.asset => better], better.asset),
        ),
{
    let bps = Double { bits: TEN_THOUSAND };
    let (s, b, t, c) = (rates.supply_apy, rates.borrow_apy, better.supply_apy, better.borrow_apy);
    law_difference_shrinks(s, b);
    law_difference_shrinks(t, b);
    law_difference_shrinks(t, c);
    law_difference_is_monotone(s, t, b, b);
    law_difference_falls(t, c, b);
    law_product_is_monotone(bps, s.minus(b), t.minus(c));
    law_product_commutes(bps, s.minus(b));
    law_product_commutes(bps, t.minus(c));
}

impl RateFeed {
    /// The contract of Morpho.
    pub closed spec fn market_contract(self) -> Address {
        self.morpho
    }

    /// A feed that knows no rates yet.
    pub fn new(addresses: &Addresses) -> (r: RateFeed)
        requires
            parsed_address(addresses.morpho_blue@) is Some,
        ensures
            r@ == Map::<Address, RateSnapshot>::empty(),
            Some(r.market_contract()@) == parsed_address(addresses.morpho_blue@),
    {
        let morpho: Address = match parse_address(addresses.morpho_blue.as_str()) {
            Some(a) => a,
            None => zero_address(),
        };
        RateFeed { rates: new_rates(), morpho }
    }

    /// Notes the rates of an asset.
    pub fn record(&mut self, snapshot: RateSnapshot)
        ensures
            final(self)@ == old(self)@.insert(snapshot.asset, snapshot),
            final(self).market_contract() == old(self).market_contract(),
    {
        insert_rate(&mut self.rates, snapshot.asset, snapshot);
    }

    /// The assets whose rates are known, each of them once, in no particular order.
    pub fn monitored_assets(&self) -> (r: Vec<Address>)
        ensures
            forall|i: int| 0 <= i < r@.len() ==> self@.dom().contains(#[trigger] r@[i]),
            forall|i: int, j: int| 0 <= i < j < r@.len() ==> #[trigger] r@[i] != #[trigger] r@[j],
            forall|k: Address| #[trigger] self@.dom().contains(k) ==> r@.contains(k),
    {
        rate_keys(&self.rates)
    }

    /// What an asset earns and what it costs; both zero where its rates are not known.
    pub fn get_best_spread(&self, asset: Address) -> (r: (Double, Double))
        ensures
            r == noted_rates(self@, asset),
    {
        match rate_at(&self.rates, asset) {
            Some(s) => (s.supply_apy, s.borrow_apy),
            None => (Double { bits: 0 }, Double { bits: 0 }),
        }
    }

    /// How much more an asset earns than it costs, in basis points.
    pub fn net_spread_bps(&self, asset: Address) -> (r: Double)
        ensures
            r == noted_spread(self@, asset),
    {
        let (s, b) = self.get_best_spread(asset);
        s.sub(b).mul(Double { bits: TEN_THOUSAND })
    }

    /// The protocols with the best rates of an asset; both zero where its rates are not known.
    pub fn get_best_proto_addresses(&self, asset: Address) -> (r: (Address, Address))
        ensures
            r == noted_protocols(self@, asset),
    {
        match rate_at(&self.rates, asset) {
            Some(s) => (s.supply_proto, s.borrow_proto),
            None => (zero_address(), zero_address()),
        }
    }
}

/// How far the question for the rates of an asset has come.
#[derive(Clone, Copy, Debug)]
pub enum RateQuery {
    /// The lending pool is asked.
    Aave { asset: Address },
    /// The market is asked; the lending pool has answered.
    Morpho { asset: Address, aave: Rates },
    /// Both have answered, or are taken as unknown.
    Known { snapshot: RateSnapshot },
}

/// The rates that the lending pool tells, where it tells any.
pub open spec fn aave_told(reply: Option<Seq<u8>>) -> Rates {
    match reply {
        Some(bytes) => if bytes.len() >= 96 {
            Rates { supply: ray_at(bytes, 48), borrow: ray_at(bytes, 80) }
        } else {
            unknown_rates()
        },
        None => unknown_rates(),
    }
}

/// The rates that the market tells, where it tells any.
pub open spec fn morpho_told(reply: Option<Seq<u8>>) -> Rates {
    match reply {
        Some(bytes) => if market_fault(bytes) is None {
            told_market_rates(bytes)
        } else {
            unknown_rates()
        },
        None => unknown_rates(),
    }
}

/// The bytes of a reply.
pub open spec fn reply_bytes(reply: Option<Vec<u8>>) -> Option<Seq<u8>> {
    match reply {
        Some(bytes) => Some(bytes@),
        None => None,
    }
}

impl RateQuery {
    /// What follows a reply, or the lack of one: only a market that is known is asked.
    pub open spec fn after(
        self,
        addresses: Addresses,
        aave_pool: Address,
        morpho: Address,
        reply: Option<Seq<u8>>,
    ) -> RateQuery {
        match self {
            RateQuery::Aave { asset } => if market_id(addresses, asset@) is Some {
                RateQuery::Morpho { asset, aave: aave_told(reply) }
            } else {
                RateQuery::Known {
                    snapshot: best_rates(asset, aave_pool, morpho, aave_told(reply), unknown_rates()),
                }
            },
            RateQuery::Morpho { asset, aave } => RateQuery::Known {
                snapshot: best_rates(asset, aave_pool, morpho, aave, morpho_told(reply)),
            },
            RateQuery::Known { .. } => self,
        }
    }

    /// Whether the question is one that can be put: a market is only asked where it is known.
    pub open spec fn well_formed(self, addresses: Addresses) -> bool {
        self matches RateQuery::Morpho { asset, .. } ==> market_id(addresses, asset@) is Some
    }

    /// The next call, while an answer is missing.
    pub fn request(&self, feed: &RateFeed, addresses: &Addresses, aave_pool: Address) -> (r: Option<
        CallRequest,
    >)
        requires
            self.well_formed(*addresses),
        ensures
            match self {
                RateQuery::Aave { asset } => r matches Some(call) && call.to == aave_pool
                    && call.data@ == reserve_data(asset@),
                RateQuery::Morpho { asset, .. } => r matches Some(call) && call.to
                    == feed.market_contract() && call.data@ == market_data(
                    market_id(*addresses, asset@)->0,
                ),
                RateQuery::Known { .. } => r is None,
            },
    {
        match self {
            RateQuery::Aave { asset } => Some(reserve_call(aave_pool, *asset)),
            RateQuery::Morpho { asset, .. } => {
                match derive_market_id(addresses, *asset) {
                    Some(id) => {
                        let mut id: Vec<u8> = id;
                        let mut data: Vec<u8> = function_selector("market(bytes32)");
                        data.append(&mut id);
                        Some(CallRequest { to: feed.morpho, data })
                    },
                    None => None,
                }
            },
            RateQuery::Known { .. } => None,
        }
    }

    /// Takes the reply to the last call, or the lack of one.
    pub fn step(self, feed: &RateFeed, addresses: &Addresses, aave_pool: Address, reply: &Option<Vec<u8>>) -> (r:
        RateQuery)
        ensures
            r == self.after(*addresses, aave_pool, feed.market_contract(), reply_bytes(*reply)),
            r.well_formed(*addresses),
    {
        let unknown: Rates = Rates { supply: Double { bits: 0 }, borrow: Double { bits: GREATEST } };
        match self {
            RateQuery::Aave { asset } => {
                let aave: Rates = match reply {
                    Some(bytes) => match read_aave_rates(bytes.as_slice()) {
                        Ok(rates) => rates,
                        Err(_) => unknown,
                    },
                    None => unknown,
                };
                match derive_market_id(addresses, asset) {
                    Some(_) => RateQuery::Morpho { asset, aave },
                    None => RateQuery::Known {
                        snapshot: choose_rates(asset, aave_pool, feed.morpho, aave, unknown),
                    },
                }
            },
            RateQuery::Morpho { asset, aave } => {
                let market: Rates = match reply {
                    Some(bytes) => match read_morpho_rates(bytes.as_slice()) {
                        Ok(rates) => rates,
                        Err(_) => unknown,
                    },
                    None => unknown,
                };
                RateQuery::Known { snapshot: choose_rates(asset, aave_pool, feed.morpho, aave, market) }
            },
            RateQuery::Known { snapshot } => RateQuery::Known { snapshot },
        }
    }
}

/// What the lending pool tells is read from its second and third word; a short reply, or none,
/// leaves its rates unknown. What is noted in the end is about the asset that was asked for.
pub proof fn law_replies_about_rates(
    addresses: Addresses,
    aave_pool: Address,
    morpho: Address,
    asset: Address,
    first: Option<Seq<u8>>,
    second: Option<Seq<u8>>,
)
    ensures
        first matches Some(bytes) ==> bytes.len() >= 96 ==> aave_told(first) == (Rates {
            supply: ray_at(bytes, 48),
            borrow: ray_at(bytes, 80),
        }),
        first is None || first->0.len() < 96 ==> aave_told(first).supply.zero() && aave_told(
            first,
        ).borrow == (Double { bits: GREATEST }),
        second is None || market_fault(second->0) is Some ==> morpho_told(second).supply.zero()
            && morpho_told(second).borrow == (Double { bits: GREATEST }),
        (RateQuery::Aave { asset }).after(addresses, aave_pool, morpho, first).after(
            addresses,
            aave_pool,
            morpho,
            second,
        ) matches RateQuery::Known { snapshot } && snapshot.asset == asset,
        market_id(addresses, asset@) is Some ==> (RateQuery::Aave { asset }).after(
            addresses,
            aave_pool,
            morpho,
            first,
        ) is Morpho,
        market_id(addresses, asset@) is Some && aave_told(first).supply.below(
            morpho_told(second).supply,
        ) ==> (RateQuery::Aave { asset }).after(addresses, aave_pool, morpho, first).after(
            addresses,
            aave_pool,
            morpho,
            second,
        )->snapshot.supply_apy == morpho_told(second).supply,
        market_id(addresses, asset@) is Some && aave_told(first).borrow.below(
            morpho_told(second).borrow,
        ) ==> (RateQuery::Aave { asset }).after(addresses, aave_pool, morpho, first).after(
            addresses,
            aave_pool,
            morpho,
            second,
        )->snapshot.borrow_apy == aave_told(first).borrow,
        market_id(addresses, asset@) is None ==> (RateQuery::Aave { asset }).after(
            addresses,
            aave_pool,
            morpho,
            first,
        )->snapshot.supply_proto == aave_pool || aave_told(first).supply.below(Double { bits: 0 })
            || aave_told(first).supply.nan(),
        second matches Some(bytes) ==> market_fault(bytes) is None ==> morpho_told(second)
            == told_market_rates(bytes),
{
    lemma_units_zero(0);
}

/// A market that is written down as zeros, or not at all, is never asked: its asset has the rates
/// of the lending pool alone.
pub proof fn law_placeholder_is_skipped(
    addresses: Addresses,
    aave_pool: Address,
    morpho: Address,
    asset: Address,
    reply: Option<Seq<u8>>,
)
    requires
        market_text(addresses, asset@) matches Some(text) ==> placeholder(text),
    ensures
        market_id(addresses, asset@) is None,
        (RateQuery::Aave { asset }).after(addresses, aave_pool, morpho, reply) == (RateQuery::Known {
            snapshot: best_rates(asset, aave_pool, morpho, aave_told(reply), unknown_rates()),
        }),
{
}

/// The rates of all watched assets, asked for one after the other.
pub struct RateRefresh {
    assets: Vec<Address>,
    at: usize,
    aave_pool: Address,
    query: RateQuery,
}

impl RateRefresh {
    /// The assets, in the order in which they are asked for.
    pub closed spec fn order(self) -> Seq<Address> {
        self.assets@
    }

    /// How many assets are done.
    pub closed spec fn done(self) -> int {
        self.at as int
    }

    /// The lending pool that is asked.
    pub closed spec fn pool(self) -> Address {
        self.aave_pool
    }

    /// The question that is open.
    pub closed spec fn open_query(self) -> RateQuery {
        self.query
    }

    /// Whether the open question is about the next asset.
    pub open spec fn well_formed(self, addresses: Addresses) -> bool {
        &&& 0 <= self.done() <= self.order().len()
        &&& self.open_query().well_formed(addresses)
        &&& self.done() < self.order().len() ==> match self.open_query() {
            RateQuery::Aave { asset } => asset == self.order()[self.done()],
            RateQuery::Morpho { asset, .. } => asset == self.order()[self.done()],
            RateQuery::Known { .. } => false,
        }
    }

    /// The next call, until all assets are done.
    pub fn request(&self, feed: &RateFeed, addresses: &Addresses) -> (r: Option<CallRequest>)
        requires
            self.well_formed(*addresses),
        ensures
            r is Some <==> self.done() < self.order().len(),
            r matches Some(call) ==> match self.open_query() {
                RateQuery::Aave { asset } => call.to == self.pool() && call.data@ == reserve_data(
                    asset@,
                ),
                RateQuery::Morpho { asset, .. } => call.to == feed.market_contract() && call.data@
                    == market_data(market_id(*addresses, asset@)->0),
                RateQuery::Known { .. } => false,
            },
    {
        if self.at < self.assets.len() {
            self.query.request(feed, addresses, self.aave_pool)
        } else {
            None
        }
    }

    /// Takes the reply to the last call, or the lack of one; once the rates of an asset are known,
    /// the feed notes them and the next asset follows.
    pub fn step(&mut self, feed: &mut RateFeed, addresses: &Addresses, reply: &Option<Vec<u8>>)
        requires
            old(self).well_formed(*addresses),
            old(self).done() < old(self).order().len(),
        ensures
            final(self).well_formed(*addresses),
            final(self).order() == old(self).order(),
            final(self).pool() == old(self).pool(),
            final(feed).market_contract() == old(feed).market_contract(),
            match old(self).open_query().after(
                *addresses,
                old(self).pool(),
                old(feed).market_contract(),
                reply_bytes(*reply),
            ) {
                RateQuery::Known { snapshot } => {
                    &&& snapshot.asset == old(self).order()[old(self).done()]
                    &&& final(feed)@ == old(feed)@.insert(snapshot.asset, snapshot)
                    &&& final(self).done() == old(self).done() + 1
                    &&& final(self).done() < final(self).order().len() ==> final(self).open_query()
                        == (RateQuery::Aave { asset: final(self).order()[final(self).done()] })
                },
                next => {
                    &&& final(feed)@ == old(feed)@
                    &&& final(self).done() == old(self).done()
                    &&& final(self).open_query() == next
                },
            },
    {
        let next: RateQuery = self.query.step(feed, addresses, self.aave_pool, reply);
        let n: usize = self.assets.len();
        match next {
            RateQuery::Known { snapshot } => {
                feed.record(snapshot);
                self.at = self.at + 1;
                if self.at < n {
                    self.query = RateQuery::Aave { asset: self.assets[self.at] };
                } else {
                    self.query = next;
                }
            },
            _ => {
                self.query = next;
            },
        }
    }
}

impl RateFeed {
    /// Starts to ask for the rates of all watched assets; fails with the place of the first one
    /// whose address cannot be read.
    pub fn refresh(&self, addresses: &Addresses, aave_pool: Address) -> (r: Result<RateRefresh, usize>)
        ensures
            r is Ok <==> forall|i: int|
                0 <= i < 5 ==> parsed_address(#[trigger] watched_texts(*addresses)[i]) is Some,
            r matches Ok(refresh) ==> {
                &&& refresh.well_formed(*addresses)
                &&& refresh.done() == 0
                &&& refresh.pool() == aave_pool
                &&& refresh.order().len() == 5
                &&& forall|i: int|
                    0 <= i < 5 ==> Some((#[trigger] refresh.order()[i])@) == parsed_address(
                        watched_texts(*addresses)[i],
                    )
                &&& refresh.open_query() == (RateQuery::Aave { asset: refresh.order()[0] })
            },
            r matches Err(at) ==> at < 5 && parsed_address(watched_texts(*addresses)[at as int]) is None
                && forall|i: int|
                0 <= i < at ==> parsed_address(#[trigger] watched_texts(*addresses)[i]) is Some,
    {
        match watched_assets(addresses) {
            Ok(assets) => {
                let query: RateQuery = RateQuery::Aave { asset: assets[0] };
                Ok(RateRefresh { assets, at: 0, aave_pool, query })
            },
            Err(at) => Err(at),
        }
    }
}

} // verus!
