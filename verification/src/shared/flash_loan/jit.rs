//! The calldata of the liquidity strategy: liquidity is lent to a pool for one block.

use crate::double::arithmetic::{from_u128, nearest_to_integer};
use crate::double::chain::{lemma_positive, positive};
use crate::double::constants::{ONE, Q96};
use crate::double::exact::{countable, law_difference_falls, law_nothing_is_shared, law_nothing_more};
use crate::double::growth::{
    amount, law_product_is_monotone, law_quotient_falls, law_quotient_shrinks, law_sum_grows,
    lemma_integer_is_amount, lemma_integer_is_exact, lemma_product_of_amounts,
};
use crate::double::order::{lemma_one, lemma_words};
use crate::double::{lemma_units_zero, Double};
use crate::shared::abi::room::{group_room, lemma_room_13, lemma_room_7};
use crate::shared::abi::{
    abi_encoding, address_token, bool_token, bytes_token, call_data, encode_call, encode_tokens, int_token,
    selector, token_values, tuple_token, uint_token, AbiValue,
};
use crate::shared::address::Address;
use crate::shared::addresses::Addresses;
use crate::shared::flash_loan::calldata::{
    address_bytes, encode_execute_params, integer_values, is_router_of, members, router_bytes,
    router_for, router_known, ExecutePlan, STRAT_FLASH_JIT,
};
use crate::shared::flash_loan::{FlashError, FlashLoanRouter, FlashProvider};
use crate::shared::market::DexType;
use crate::u256::{limit, U256};
use vstd::arithmetic::power2::pow2;
use vstd::prelude::*;

verus! {

/// The price of a pool, and the ends of a price range; all of them as square roots.
#[derive(Clone, Copy, Debug)]
pub struct RangePrice {
    /// The price of the pool, scaled by two to the power 96.
    pub sqrt_price_x96: U256,
    /// The lower end of the range.
    pub sqrt_lower: Double,
    /// The upper end of the range.
    pub sqrt_upper: Double,
}

impl RangePrice {
    /// The price of the pool, its whole part and its fraction converted apart.
    pub open spec fn current(self) -> Double {
        let q96 = 0x1_0000_0000_0000_0000_0000_0000nat;
        nearest_to_integer(self.sqrt_price_x96@ / q96).plus(
            nearest_to_integer(self.sqrt_price_x96@ % q96).over(Double { bits: Q96 }),
        )
    }

    /// What one unit of liquidity takes of the second token.
    pub open spec fn share1(self) -> Double {
        self.current().minus(self.sqrt_lower)
    }

    /// What one unit of liquidity takes of the first token.
    pub open spec fn share0(self) -> Double {
        let one = Double { bits: ONE };
        one.over(self.current()).minus(one.over(self.sqrt_upper))
    }

    /// Whether the price of the pool lies within the range.
    pub open spec fn within(self) -> bool {
        &&& !self.sqrt_lower.negative()
        &&& self.sqrt_lower.below(self.current())
        &&& self.current().below(self.sqrt_upper)
    }

    /// Whether liquidity over the range takes one token alone.
    pub open spec fn one_sided(self) -> bool {
        ||| self.share1().plus(self.share0()).at_most(Double { bits: 0 })
        ||| self.sqrt_upper.at_most(self.current())
        ||| self.current().at_most(self.sqrt_lower)
    }

    /// The liquidity that an amount buys.
    pub open spec fn liquidity(self, amount: nat) -> Double {
        nearest_to_integer(amount).over(self.share1().plus(self.share0()))
    }

    /// The amounts of both tokens that the range takes.
    pub open spec fn amounts(self, amount: nat, zfo: bool) -> (nat, nat) {
        if self.one_sided() {
            if zfo {
                (amount, 0)
            } else {
                (0, amount)
            }
        } else {
            (
                self.liquidity(amount).times(self.share0()).greater(Double { bits: 0 }).whole(
                    u128::MAX as nat,
                ),
                self.liquidity(amount).times(self.share1()).greater(Double { bits: 0 }).whole(
                    u128::MAX as nat,
                ),
            )
        }
    }
}

/// The amounts of both tokens that liquidity over a price range takes; together they are the amount
/// that is split, but for the rounding.
pub fn compute_jit_amounts(price: &RangePrice, amount: U256, zfo: bool) -> (r: (U256, U256))
    requires
        price.sqrt_price_x96@ / 0x1_0000_0000_0000_0000_0000_0000nat <= u128::MAX,
        amount@ <= u128::MAX,
    ensures
        (r.0@, r.1@) == price.amounts(amount@, zfo),
        r.0@ <= u128::MAX,
        r.1@ <= u128::MAX,
{
    let whole: U256 = price.sqrt_price_x96.over_q96();
    let rest: U256 = price.sqrt_price_x96.rest_q96();
    let sq_hi: Double = from_u128(whole.as_u128());
    let sq_lo: Double = from_u128(rest.as_u128()).div(Double { bits: Q96 });
    let sq_c: Double = sq_hi.add(sq_lo);
    let sq_a: Double = price.sqrt_lower;
    let sq_b: Double = price.sqrt_upper;
    let total_value: Double = from_u128(amount.as_u128());
    let one: Double = Double { bits: ONE };
    let zero: Double = Double { bits: 0 };
    let share1: Double = sq_c.sub(sq_a);
    let share0: Double = one.div(sq_c).sub(one.div(sq_b));
    let denom: Double = share1.add(share0);
    if denom.is_at_most(zero) || sq_b.is_at_most(sq_c) || sq_c.is_at_most(sq_a) {
        return if zfo {
            (amount, U256::zero())
        } else {
            (U256::zero(), amount)
        };
    }
    let liq: Double = total_value.div(denom);
    let amount1: Double = liq.mul(share1);
    let amount0: Double = liq.mul(share0);
    (
        U256::from_u128(amount0.max(zero).to_u128()),
        U256::from_u128(amount1.max(zero).to_u128()),
    )
}

/// The two halves of an amount, the second one greater by one where it is odd.
pub open spec fn halves(amount: nat) -> (nat, nat) {
    (amount / 2, (amount - amount / 2) as nat)
}

/// The amounts of both tokens: what the range takes at the pool's price, or halves where that
/// price is not known.
pub open spec fn jit_amounts(price: Option<RangePrice>, amount: nat, zfo: bool) -> (nat, nat) {
    match price {
        Some(p) => p.amounts(amount, zfo),
        None => halves(amount),
    }
}

/// The calldata that swaps an exact amount at Uniswap.
pub open spec fn swap_data(
    token_in: Seq<u8>,
    token_out: Seq<u8>,
    fee_bps: nat,
    recipient: Seq<u8>,
    amount_in: nat,
    min_out: nat,
) -> Seq<u8> {
    call_data(
        "exactInputSingle((address,address,uint24,address,uint256,uint256,uint160))"@,
        seq![
            AbiValue::Tuple(
                seq![
                    AbiValue::Address(token_in),
                    AbiValue::Address(token_out),
                    AbiValue::Uint(fee_bps * 100),
                    AbiValue::Address(recipient),
                    AbiValue::Uint(amount_in),
                    AbiValue::Uint(min_out),
                    AbiValue::Uint(0),
                ],
            ),
        ],
    )
}

/// The calldata that swaps an exact amount at Uniswap; what comes out goes to the recipient.
pub fn encode_swap_exact_input(
    token_in: Address,
    token_out: Address,
    fee_bps: u32,
    recipient: Address,
    amount_in: U256,
    min_out: U256,
) -> (r: Vec<u8>)
    requires
        fee_bps * 100 <= u32::MAX,
    ensures
        r@ == swap_data(token_in@, token_out@, fee_bps as nat, recipient@, amount_in@, min_out@),
        r@.len() <= 300,
{
    let members: Vec<ethers::abi::Token> = vec![
        address_token(token_in),
        address_token(token_out),
        uint_token(U256::from_u64((fee_bps * 100) as u64)),
        address_token(recipient),
        uint_token(amount_in),
        uint_token(min_out),
        uint_token(U256::zero()),
    ];
    let ghost values = seq![
        AbiValue::Address(token_in@),
        AbiValue::Address(token_out@),
        AbiValue::Uint(fee_bps as nat * 100),
        AbiValue::Address(recipient@),
        AbiValue::Uint(amount_in@),
        AbiValue::Uint(min_out@),
        AbiValue::Uint(0),
    ];
    assert(token_values(members@) =~= values);
    let tokens: Vec<ethers::abi::Token> = vec![tuple_token(members)];
    proof {
        broadcast use group_room;

        assert(token_values(tokens@) =~= seq![AbiValue::Tuple(values)]);
        lemma_room_7(
            values[0],
            values[1],
            values[2],
            values[3],
            values[4],
            values[5],
            values[6],
        );
    }
    encode_call(
        "exactInputSingle((address,address,uint24,address,uint256,uint256,uint160))",
        &tokens,
    )
}

/// A tick as the 64 bits of its two's complement.
pub open spec fn tick_bits(tick: int) -> nat {
    if tick >= 0 {
        tick as nat
    } else {
        (0x1_0000_0000_0000_0000 + tick) as nat
    }
}

/// A tick as the 64 bits of its two's complement.
fn tick_word(tick: i32) -> (r: u64)
    ensures
        r == tick_bits(tick as int),
{
    if tick >= 0 {
        tick as u64
    } else {
        let below: u64 = (-(tick as i64)) as u64;
        u64::MAX - below + 1
    }
}

/// A position of the liquidity strategy.
#[derive(Clone, Copy, Debug)]
pub struct JitPosition {
    pub t0: Address,
    pub t1: Address,
    pub fee: u32,
    pub tick_lower: i32,
    pub tick_upper: i32,
    pub amount: U256,
    /// Whether the swap that is served gives the first token.
    pub zfo: bool,
}

impl JitPosition {
    /// The token that is borrowed.
    pub open spec fn borrowed(self) -> Seq<u8> {
        if self.zfo {
            self.t0@
        } else {
            self.t1@
        }
    }

    /// The other token.
    pub open spec fn other(self) -> Seq<u8> {
        if self.zfo {
            self.t1@
        } else {
            self.t0@
        }
    }

    /// What the contract is told about the position, the amounts of both tokens given.
    pub open spec fn value(self, router: FlashLoanRouter, addresses: Addresses, amounts: (nat, nat)) -> AbiValue {
        AbiValue::Tuple(
            seq![
                AbiValue::Address(self.t0@),
                AbiValue::Address(self.t1@),
                AbiValue::Uint(self.fee as nat),
                AbiValue::Int(tick_bits(self.tick_lower as int)),
                AbiValue::Int(tick_bits(self.tick_upper as int)),
                AbiValue::Uint(amounts.0),
                AbiValue::Uint(amounts.1),
                AbiValue::Uint(amounts.0 * 99 / 100),
                AbiValue::Uint(amounts.1 * 99 / 100),
                AbiValue::Bool(self.zfo),
                AbiValue::Uint(self.amount@),
                AbiValue::Address(router_bytes(addresses, DexType::UniswapV3)),
                AbiValue::Bytes(
                    swap_data(
                        self.borrowed(),
                        self.other(),
                        self.fee as nat,
                        router.executor@,
                        self.amount@,
                        0,
                    ),
                ),
            ],
        )
    }

    /// What the contract is told to do for the position.
    pub open spec fn plan(
        self,
        router: FlashLoanRouter,
        addresses: Addresses,
        provider: FlashProvider,
        price: Option<RangePrice>,
        min_profit: u64,
    ) -> ExecutePlan {
        ExecutePlan {
            provider,
            tokens: seq![self.borrowed()],
            amounts: seq![self.amount@],
            strategy: STRAT_FLASH_JIT,
            data: abi_encoding(
                seq![
                    self.value(router, addresses, jit_amounts(price, self.amount@, self.zfo)),
                ],
            ),
            min_profit: min_profit as nat,
            profit_token: self.borrowed(),
        }
    }

    /// Whether the amounts of both tokens can be worked out within the machine's integers.
    pub open spec fn amounts_fit(self, price: Option<RangePrice>) -> bool {
        match price {
            Some(p) => p.sqrt_price_x96@ / 0x1_0000_0000_0000_0000_0000_0000nat <= u128::MAX
                && self.amount@ <= u128::MAX,
            None => (self.amount@ - self.amount@ / 2) * 99 < limit(),
        }
    }

    /// The encoded position.
    fn encode_position(
        &self,
        executor: Address,
        uni_router: Address,
        amount0: U256,
        amount1: U256,
        Ghost(router): Ghost<FlashLoanRouter>,
        Ghost(addresses): Ghost<Addresses>,
    ) -> (r: Vec<u8>)
        requires
            executor == router.executor,
            uni_router@ == router_bytes(addresses, DexType::UniswapV3),
            amount0@ * 99 < limit(),
            amount1@ * 99 < limit(),
            self.fee * 100 <= u32::MAX,
        ensures
            r@ == abi_encoding(seq![self.value(router, addresses, (amount0@, amount1@))]),
            r@.len() <= 1000,
    {
        let amount0_min: U256 = amount0.times(99).over(100);
        let amount1_min: U256 = amount1.times(99).over(100);
        let swap_in: Address = if self.zfo {
            self.t0
        } else {
            self.t1
        };
        let swap_out: Address = if self.zfo {
            self.t1
        } else {
            self.t0
        };
        let swap: Vec<u8> = encode_swap_exact_input(
            swap_in,
            swap_out,
            self.fee,
            executor,
            self.amount,
            U256::zero(),
        );
        let ghost swap_bytes = swap@;
        let members: Vec<ethers::abi::Token> = vec![
            address_token(self.t0),
            address_token(self.t1),
            uint_token(U256::from_u64(self.fee as u64)),
            int_token(U256::from_u64(tick_word(self.tick_lower))),
            int_token(U256::from_u64(tick_word(self.tick_upper))),
            uint_token(amount0),
            uint_token(amount1),
            uint_token(amount0_min),
            uint_token(amount1_min),
            bool_token(self.zfo),
            uint_token(self.amount),
            address_token(uni_router),
            bytes_token(swap),
        ];
        let ghost value = self.value(router, addresses, (amount0@, amount1@));
        let ghost values = value->Tuple_0;
        assert(token_values(members@) =~= values);
        let tokens: Vec<ethers::abi::Token> = vec![tuple_token(members)];
        proof {
            broadcast use group_room;

            assert(token_values(tokens@) =~= seq![value]);
            assert(values[12] == AbiValue::Bytes(swap_bytes));
            lemma_room_13(
                values[0],
                values[1],
                values[2],
                values[3],
                values[4],
                values[5],
                values[6],
                values[7],
                values[8],
                values[9],
                values[10],
                values[11],
                values[12],
            );
        }
        encode_tokens(&tokens)
    }
}

impl FlashLoanRouter {
    /// The calldata of a position of the liquidity strategy. The price of the pool is asked for
    /// beforehand; where it is not known, the amount is halved.
    pub fn build_flash_jit(
        &self,
        addresses: &Addresses,
        provider: FlashProvider,
        price: &Option<RangePrice>,
        t0: Address,
        t1: Address,
        fee: u32,
        tick_lower: i32,
        tick_upper: i32,
        amount: U256,
        min_profit: u64,
        zfo: bool,
    ) -> (r: Result<Vec<u8>, FlashError>)
        requires
            router_known(*addresses, DexType::UniswapV3) ==> {
                &&& (JitPosition { t0, t1, fee, tick_lower, tick_upper, amount, zfo }).amounts_fit(*price)
                &&& fee * 100 <= u32::MAX
            },
        ensures
            r is Ok <==> router_known(*addresses, DexType::UniswapV3),
            r matches Ok(data) ==> data@ == (JitPosition {
                t0,
                t1,
                fee,
                tick_lower,
                tick_upper,
                amount,
                zfo,
            }).plan(*self, *addresses, provider, *price, min_profit).calldata(),
            r matches Err(e) ==> e == FlashError::BadRouter(DexType::UniswapV3),
    {
        let uni_router: Address = router_for(addresses, DexType::UniswapV3)?;
        let position = JitPosition { t0, t1, fee, tick_lower, tick_upper, amount, zfo };
        let (amount0, amount1) = match price {
            Some(p) => compute_jit_amounts(p, amount, zfo),
            None => {
                let half: U256 = amount.over(2);
                (half, amount.minus(half))
            },
        };
        let data: Vec<u8> = position.encode_position(
            self.executor,
            uni_router,
            amount0,
            amount1,
            Ghost(*self),
            Ghost(*addresses),
        );
        let flash_token: Address = if zfo {
            t0
        } else {
            t1
        };
        let assets: Vec<Address> = vec![flash_token];
        let amounts: Vec<U256> = vec![amount];
        assert(address_bytes(assets@) =~= seq![position.borrowed()]);
        assert(integer_values(amounts@) =~= seq![amount@]);
        Ok(
            encode_execute_params(
                provider,
                assets,
                amounts,
                STRAT_FLASH_JIT,
                data,
                U256::from_u64(min_profit),
                flash_token,
            ),
        )
    }
}

/// A position of the liquidity strategy accepts no less than its least profit, in the borrowed
/// token, and what its swap gives goes to the contract.
pub proof fn law_position_is_gated(
    position: JitPosition,
    router: FlashLoanRouter,
    addresses: Addresses,
    provider: FlashProvider,
    price: Option<RangePrice>,
    min_profit: u64,
    amounts: (nat, nat),
)
    ensures
        position.plan(router, addresses, provider, price, min_profit).gates_profit(
            min_profit as nat,
        ),
        position.value(router, addresses, amounts)->Tuple_0[12] == AbiValue::Bytes(
            swap_data(
                position.borrowed(),
                position.other(),
                position.fee as nat,
                router.executor@,
                position.amount@,
                0,
            ),
        ),
{
}

/// The halves of an amount are the whole amount, and neither is greater than it.
pub proof fn law_halves_are_whole(amount: nat)
    ensures
        halves(amount).0 + halves(amount).1 == amount,
        halves(amount).0 <= halves(amount).1 <= halves(amount).0 + 1,
{
}

/// The least amounts that the contract accepts are at most the amounts, and less than them by a
/// hundredth at most, rounded up.
pub proof fn law_least_amounts(amount: nat)
    ensures
        amount * 99 / 100 <= amount,
        amount - amount * 99 / 100 <= (amount + 99) / 100,
{
}

/// A tick is told as 64 bits that differ from it by a multiple of two to the power 64; so
/// different ticks are told apart.
pub proof fn law_ticks_are_told_apart(tick: i32, other: i32)
    ensures
        tick_bits(tick as int) < 0x1_0000_0000_0000_0000,
        tick >= 0 ==> tick_bits(tick as int) == tick,
        tick < 0 ==> tick_bits(tick as int) - tick == 0x1_0000_0000_0000_0000,
        tick != other ==> tick_bits(tick as int) != tick_bits(other as int),
{
}

/// The contract is told both tokens of the pool, its fee, the range, the amounts of both tokens,
/// for each a least amount that is a hundredth lower, rounded down, the direction of the swap, the
/// amount, the router of Uniswap, and a swap of the borrowed token for the other one. It borrows
/// the amount in the token that the swap gives.
pub proof fn law_position_is_told(
    position: JitPosition,
    router: FlashLoanRouter,
    addresses: Addresses,
    provider: FlashProvider,
    price: Option<RangePrice>,
    min_profit: u64,
)
    requires
        router_known(addresses, DexType::UniswapV3),
    ensures
        ({
            let plan = position.plan(router, addresses, provider, price, min_profit);
            let amounts = jit_amounts(price, position.amount@, position.zfo);
            let told = position.value(router, addresses, amounts);
            let (given, taken) = if position.zfo {
                (position.t0@, position.t1@)
            } else {
                (position.t1@, position.t0@)
            };
            &&& plan.provider == provider
            &&& plan.strategy == 3
            &&& plan.tokens == seq![given] && plan.amounts == seq![position.amount@]
            &&& plan.min_profit == min_profit && plan.profit_token == given
            &&& plan.data == abi_encoding(seq![told])
            &&& told is Tuple && members(told).len() == 13
            &&& members(told)[0] == AbiValue::Address(position.t0@)
            &&& members(told)[1] == AbiValue::Address(position.t1@)
            &&& members(told)[2] == AbiValue::Uint(position.fee as nat)
            &&& members(told)[3] == AbiValue::Int(tick_bits(position.tick_lower as int))
            &&& members(told)[4] == AbiValue::Int(tick_bits(position.tick_upper as int))
            &&& members(told)[5] == AbiValue::Uint(amounts.0)
            &&& members(told)[6] == AbiValue::Uint(amounts.1)
            &&& members(told)[7] is Uint && 100 * members(told)[7]->Uint_0 <= 99 * amounts.0 < 100
                * members(told)[7]->Uint_0 + 100
            &&& members(told)[8] is Uint && 100 * members(told)[8]->Uint_0 <= 99 * amounts.1 < 100
                * members(told)[8]->Uint_0 + 100
            &&& members(told)[9] == AbiValue::Bool(position.zfo)
            &&& members(told)[10] == AbiValue::Uint(position.amount@)
            &&& members(told)[11] is Address && is_router_of(
                addresses,
                DexType::UniswapV3,
                members(told)[11]->Address_0,
            )
            &&& members(told)[12] == AbiValue::Bytes(
                swap_data(given, taken, position.fee as nat, router.executor@, position.amount@, 0),
            )
        }),
{
}

/// A swap at Uniswap is called with both tokens, the fee in millionths, who gets what comes out,
/// both amounts, and no limit of the price.
pub proof fn law_swap_is_told(
    token_in: Seq<u8>,
    token_out: Seq<u8>,
    fee_bps: nat,
    recipient: Seq<u8>,
    amount_in: nat,
    min_out: nat,
)
    ensures
        swap_data(token_in, token_out, fee_bps, recipient, amount_in, min_out) == selector(
            "exactInputSingle((address,address,uint24,address,uint256,uint256,uint160))"@,
        ) + abi_encoding(
            seq![
                AbiValue::Tuple(
                    seq![
                        AbiValue::Address(token_in),
                        AbiValue::Address(token_out),
                        AbiValue::Uint(100 * fee_bps),
                        AbiValue::Address(recipient),
                        AbiValue::Uint(amount_in),
                        AbiValue::Uint(min_out),
                        AbiValue::Uint(0),
                    ],
                ),
            ],
        ),
{
}

/// Where the price of the pool is not known the amount is halved. Where it is outside of the range
/// all of the amount is in the token that the swap gives.
pub proof fn law_amounts_outside_of_the_range(price: RangePrice, amount: nat, zfo: bool)
    ensures
        jit_amounts(None, amount, zfo).0 + jit_amounts(None, amount, zfo).1 == amount,
        2 * jit_amounts(None, amount, zfo).0 <= amount <= 2 * jit_amounts(None, amount, zfo).0 + 1,
        price.current().at_most(price.sqrt_lower) || price.sqrt_upper.at_most(price.current()) ==> {
            &&& zfo ==> jit_amounts(Some(price), amount, zfo) == (amount, 0nat)
            &&& !zfo ==> jit_amounts(Some(price), amount, zfo) == (0nat, amount)
        },
{
}

/// A range that reaches further down takes no less of the second token for a unit of liquidity,
/// and as much of the first one; a range that reaches further up takes no less of the
/// first one, and as much of the second one.
pub proof fn law_wider_ranges_take_more(price: RangePrice, lower: Double, upper: Double)
    requires
        amount(price.current()) && amount(price.sqrt_lower) && amount(lower),
        positive(price.sqrt_upper) && positive(upper) && positive(price.current()),
        (Double { bits: ONE }).at_most(price.current()),
        price.sqrt_lower.at_most(price.current()),
        price.current().at_most(price.sqrt_upper),
        lower.at_most(price.sqrt_lower),
        price.sqrt_upper.at_most(upper),
    ensures
        price.share1().at_most(RangePrice { sqrt_lower: lower, ..price }.share1()),
        price.share0() == (RangePrice { sqrt_lower: lower, ..price }).share0(),
        price.share0().at_most(RangePrice { sqrt_upper: upper, ..price }.share0()),
        price.share1() == (RangePrice { sqrt_upper: upper, ..price }).share1(),
{
    let one = Double { bits: ONE };
    let c = price.current();
    lemma_one();
    lemma_units_zero(c.magnitude());
    lemma_units_zero(price.sqrt_upper.magnitude());
    lemma_units_zero(upper.magnitude());
    law_difference_falls(c, lower, price.sqrt_lower);
    law_quotient_falls(one, price.sqrt_upper, upper);
    law_quotient_falls(one, c, price.sqrt_upper);
    law_quotient_shrinks(one, c);
    law_quotient_shrinks(one, price.sqrt_upper);
    law_quotient_shrinks(one, upper);
    law_difference_falls(one.over(c), one.over(upper), one.over(price.sqrt_upper));
}

/// Of the two amounts the greater one is that of the token of which a unit of liquidity takes more.
pub proof fn law_amounts_follow_the_shares(price: RangePrice, total: nat, zfo: bool)
    requires
        !price.one_sided(),
        amount(price.liquidity(total)),
        amount(price.share0()) && amount(price.share1()),
    ensures
        price.share0().at_most(price.share1()) ==> price.amounts(total, zfo).0 <= price.amounts(
            total,
            zfo,
        ).1,
        price.share1().at_most(price.share0()) ==> price.amounts(total, zfo).1 <= price.amounts(
            total,
            zfo,
        ).0,
        price.amounts(total, zfo) == price.amounts(total, !zfo),
{
    let (l, x, y) = (price.liquidity(total), price.share0(), price.share1());
    let zero = Double { bits: 0 };
    lemma_one();
    lemma_units_zero(0);
    if x.at_most(y) {
        law_product_is_monotone(l, x, y);
    }
    if y.at_most(x) {
        law_product_is_monotone(l, y, x);
    }
    let p = pow2(1074) as int;
    let (u, v) = (l.times(x).greater(zero).units(), l.times(y).greater(zero).units());
    assert(u <= v ==> u / p <= v / p) by (nonlinear_arith)
        requires
            p > 0,
    ;
    assert(v <= u ==> v / p <= u / p) by (nonlinear_arith)
        requires
            p > 0,
    ;
    assert(u > 0 ==> u / p >= 0) by (nonlinear_arith)
        requires
            p > 0,
    ;
    assert(v > 0 ==> v / p >= 0) by (nonlinear_arith)
        requires
            p > 0,
    ;
    lemma_product_of_amounts(l, x);
    lemma_product_of_amounts(l, y);
}

/// A price that is a whole number is told without rounding, and any other one is not below its
/// whole part.
pub proof fn law_whole_prices(price: RangePrice, n: nat)
    requires
        n < countable(),
        n > 0,
    ensures
        price.sqrt_price_x96@ == n * 0x1_0000_0000_0000_0000_0000_0000nat ==> price.current()
            == nearest_to_integer(n),
        price.sqrt_price_x96@ / 0x1_0000_0000_0000_0000_0000_0000nat == n ==> nearest_to_integer(
            n,
        ).at_most(price.current()),
{
    let q = Double { bits: Q96 };
    let rest = price.sqrt_price_x96@ % 0x1_0000_0000_0000_0000_0000_0000nat;
    lemma_integer_is_exact(n);
    lemma_integer_is_exact(0);
    lemma_one();
    lemma_integer_is_amount(rest);
    lemma_words(ONE, Q96);
    law_quotient_shrinks(nearest_to_integer(rest), q);
    law_sum_grows(nearest_to_integer(n), nearest_to_integer(rest).over(q));
    let p = pow2(1074);
    assert(n * p > 0) by (nonlinear_arith)
        requires
            n > 0,
            p > 0,
    ;
    lemma_positive(nearest_to_integer(n));
    if rest == 0 {
        law_nothing_is_shared(nearest_to_integer(0), q);
        law_nothing_more(nearest_to_integer(0).over(q), nearest_to_integer(n));
    }
}

} // verus!
