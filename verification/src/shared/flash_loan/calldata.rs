//! The calldata of every strategy.

use crate::shared::abi::room::{
    group_room, lemma_room_2, lemma_room_3, lemma_room_7, lemma_room_8, lemma_room_repeated, room,
    room_all,
};
use crate::shared::abi::{
    abi_encoding, address_token, array_token, bool_token, bytes_token, call_data, encode_call,
    encode_tokens, fixed_array_token, function_selector, selector, token_value, token_values, tuple_token,
    uint_token, AbiValue,
};
use crate::shared::address::{parse_address, parsed_address, Address};
use crate::shared::addresses::Addresses;
use crate::shared::flash_loan::{FlashError, FlashLoanRouter, FlashProvider};
use crate::shared::market::{BorrowPosition, DexType, LendingProtocol, PoolState};
use crate::u256::{limit, U256};
use vstd::prelude::*;

verus! {

/// The strategies, as the contract numbers them.
pub const STRAT_CROSS_DEX_ARB: u8 = 0;

pub const STRAT_TRI_ARB: u8 = 1;

pub const STRAT_LIQUIDATION: u8 = 2;

pub const STRAT_FLASH_JIT: u8 = 3;

pub const STRAT_RATE_ARB_OPEN: u8 = 4;

pub const STRAT_RATE_ARB_CLOSE: u8 = 5;

/// The signature of the contract's entry point.
pub open spec fn execute_signature() -> Seq<char> {
    "execute((uint8,address[],uint256[],uint8,bytes,uint256,address))"@
}

/// What the contract is told to do.
pub struct ExecutePlan {
    pub provider: FlashProvider,
    pub tokens: Seq<Seq<u8>>,
    pub amounts: Seq<nat>,
    pub strategy: u8,
    pub data: Seq<u8>,
    pub min_profit: nat,
    pub profit_token: Seq<u8>,
}

impl ExecutePlan {
    /// The argument of the contract's entry point.
    pub open spec fn value(self) -> AbiValue {
        AbiValue::Tuple(
            seq![
                AbiValue::Uint(self.provider.number() as nat),
                AbiValue::Array(Seq::new(self.tokens.len(), |i: int| AbiValue::Address(self.tokens[i]))),
                AbiValue::Array(Seq::new(self.amounts.len(), |i: int| AbiValue::Uint(self.amounts[i]))),
                AbiValue::Uint(self.strategy as nat),
                AbiValue::Bytes(self.data),
                AbiValue::Uint(self.min_profit),
                AbiValue::Address(self.profit_token),
            ],
        )
    }

    /// The calldata that tells the contract to carry out the plan.
    pub open spec fn calldata(self) -> Seq<u8> {
        call_data(execute_signature(), seq![self.value()])
    }
}

/// The four bytes that select the contract's entry point.
pub fn execute_selector() -> (r: Vec<u8>)
    ensures
        r@ == selector(execute_signature()),
        r@.len() == 4,
{
    function_selector(
        "execute((uint8,address[],uint256[],uint8,bytes,uint256,address))",
    )
}

/// The bytes of each of several addresses.
pub open spec fn address_bytes(addresses: Seq<Address>) -> Seq<Seq<u8>> {
    Seq::new(addresses.len(), |i: int| addresses[i]@)
}

/// The values of several integers.
pub open spec fn integer_values(integers: Seq<U256>) -> Seq<nat> {
    Seq::new(integers.len(), |i: int| integers[i]@)
}

/// The calldata that tells the contract to carry out a plan.
pub fn encode_execute_params(
    provider: FlashProvider,
    tokens: Vec<Address>,
    amounts: Vec<U256>,
    strat_type: u8,
    strat_data: Vec<u8>,
    min_profit: U256,
    profit_token: Address,
) -> (r: Vec<u8>)
    requires
        32 * tokens@.len() + 32 * amounts@.len() + strat_data@.len() + 512 <= u32::MAX,
    ensures
        r@ == (ExecutePlan {
            provider,
            tokens: address_bytes(tokens@),
            amounts: integer_values(amounts@),
            strategy: strat_type,
            data: strat_data@,
            min_profit: min_profit@,
            profit_token: profit_token@,
        }).calldata(),
{
    let ghost plan = ExecutePlan {
        provider,
        tokens: address_bytes(tokens@),
        amounts: integer_values(amounts@),
        strategy: strat_type,
        data: strat_data@,
        min_profit: min_profit@,
        profit_token: profit_token@,
    };
    let mut first: Vec<ethers::abi::Token> = Vec::new();
    let n: usize = tokens.len();
    let mut i: usize = 0;
    while i < n
        invariant
            n == tokens@.len(),
            i <= n,
            first@.len() == i,
            forall|j: int| 0 <= j < i ==> token_value(#[trigger] first@[j]) == AbiValue::Address(tokens@[j]@),
        decreases n - i,
    {
        first.push(address_token(tokens[i]));
        i = i + 1;
    }
    let mut second: Vec<ethers::abi::Token> = Vec::new();
    let m: usize = amounts.len();
    let mut k: usize = 0;
    while k < m
        invariant
            m == amounts@.len(),
            k <= m,
            second@.len() == k,
            forall|j: int| 0 <= j < k ==> token_value(#[trigger] second@[j]) == AbiValue::Uint(amounts@[j]@),
        decreases m - k,
    {
        second.push(uint_token(amounts[k]));
        k = k + 1;
    }
    let ghost list1 = Seq::new(plan.tokens.len(), |i: int| AbiValue::Address(plan.tokens[i]));
    let ghost list2 = Seq::new(plan.amounts.len(), |i: int| AbiValue::Uint(plan.amounts[i]));
    assert(token_values(first@) =~= list1);
    assert(token_values(second@) =~= list2);
    let members: Vec<ethers::abi::Token> = vec![
        uint_token(U256::from_u64(provider.as_u8() as u64)),
        array_token(first),
        array_token(second),
        uint_token(U256::from_u64(strat_type as u64)),
        bytes_token(strat_data),
        uint_token(min_profit),
        address_token(profit_token),
    ];
    let ghost values = token_values(members@);
    assert(AbiValue::Tuple(values) == plan.value()) by {
        assert(values =~= plan.value()->Tuple_0);
    }
    let params: Vec<ethers::abi::Token> = vec![tuple_token(members)];
    proof {
        assert(token_values(params@) =~= seq![plan.value()]);
        lemma_plan_room(plan);
    }
    encode_call("execute((uint8,address[],uint256[],uint8,bytes,uint256,address))", &params)
}

/// The room of a plan.
proof fn lemma_plan_room(plan: ExecutePlan)
    ensures
        room_all(seq![plan.value()]) <= 32 * plan.tokens.len() + 32 * plan.amounts.len() + plan.data.len()
            + 512,
{
    broadcast use group_room;

    let list1 = Seq::new(plan.tokens.len(), |i: int| AbiValue::Address(plan.tokens[i]));
    let list2 = Seq::new(plan.amounts.len(), |i: int| AbiValue::Uint(plan.amounts[i]));
    lemma_room_repeated(list1, 32);
    lemma_room_repeated(list2, 32);
    lemma_room_7(
        AbiValue::Uint(plan.provider.number() as nat),
        AbiValue::Array(list1),
        AbiValue::Array(list2),
        AbiValue::Uint(plan.strategy as nat),
        AbiValue::Bytes(plan.data),
        AbiValue::Uint(plan.min_profit),
        AbiValue::Address(plan.profit_token),
    );
}

/// The router of an exchange, as it is written down.
pub open spec fn router_text(addresses: Addresses, dex: DexType) -> Seq<char> {
    match dex {
        DexType::Aerodrome => addresses.aerodrome_router@,
        DexType::UniswapV3 => addresses.uniswap_v3_router@,
    }
}

/// The bytes of the address of an exchange's router; any bytes where it cannot be read.
pub open spec fn router_bytes(addresses: Addresses, dex: DexType) -> Seq<u8> {
    parsed_address(router_text(addresses, dex))->0
}

/// Whether the address of an exchange's router can be read.
pub open spec fn router_known(addresses: Addresses, dex: DexType) -> bool {
    parsed_address(router_text(addresses, dex)) is Some
}

/// The address of the router of an exchange.
pub fn router_for(addresses: &Addresses, dex: DexType) -> (r: Result<Address, FlashError>)
    ensures
        r is Ok <==> router_known(*addresses, dex),
        r matches Ok(a) ==> a@ == router_bytes(*addresses, dex),
        r matches Err(e) ==> e == FlashError::BadRouter(dex),
{
    let text: &str = match dex {
        DexType::Aerodrome => addresses.aerodrome_router.as_str(),
        DexType::UniswapV3 => addresses.uniswap_v3_router.as_str(),
    };
    match parse_address(text) {
        Some(a) => Ok(a),
        None => Err(FlashError::BadRouter(dex)),
    }
}

/// Whether a pool trades assets of equal value: such pools of Aerodrome take a very low fee, and
/// those of Uniswap are never meant for that.
pub open spec fn stable_pool(dex: DexType, fee_bps: u32) -> bool {
    dex is Aerodrome && fee_bps < 10
}

/// Whether a pool trades assets of equal value.
pub fn is_stable_pool(p: &PoolState) -> (r: bool)
    ensures
        r == stable_pool(p.dex, p.fee_bps),
{
    p.dex == DexType::Aerodrome && p.fee_bps < 10
}

/// One swap of a route; the contract fills in the amount from what it holds.
pub struct SwapStep {
    pub router: Seq<u8>,
    pub token_in: Seq<u8>,
    pub token_out: Seq<u8>,
    pub fee_ppm: nat,
    pub stable: bool,
    pub is_univ3: bool,
    pub min_out: nat,
}

impl SwapStep {
    pub open spec fn value(self) -> AbiValue {
        AbiValue::Tuple(
            seq![
                AbiValue::Address(self.router),
                AbiValue::Address(self.token_in),
                AbiValue::Address(self.token_out),
                AbiValue::Uint(self.fee_ppm),
                AbiValue::Bool(self.stable),
                AbiValue::Bool(self.is_univ3),
                AbiValue::Uint(self.min_out),
            ],
        )
    }
}

/// The room of a swap.
proof fn lemma_step_room(step: SwapStep)
    ensures
        room(step.value()) == 256,
{
    broadcast use group_room;

    lemma_room_7(
        AbiValue::Address(step.router),
        AbiValue::Address(step.token_in),
        AbiValue::Address(step.token_out),
        AbiValue::Uint(step.fee_ppm),
        AbiValue::Bool(step.stable),
        AbiValue::Bool(step.is_univ3),
        AbiValue::Uint(step.min_out),
    );
}

/// The token of one swap of a route.
pub(crate) fn swap_step_token(
    router: Address,
    token_in: Address,
    token_out: Address,
    fee_ppm: u32,
    stable: bool,
    is_univ3: bool,
    min_out: U256,
) -> (r: ethers::abi::Token)
    ensures
        token_value(r) == (SwapStep {
            router: router@,
            token_in: token_in@,
            token_out: token_out@,
            fee_ppm: fee_ppm as nat,
            stable,
            is_univ3,
            min_out: min_out@,
        }).value(),
{
    let members: Vec<ethers::abi::Token> = vec![
        address_token(router),
        address_token(token_in),
        address_token(token_out),
        uint_token(U256::from_u64(fee_ppm as u64)),
        bool_token(stable),
        bool_token(is_univ3),
        uint_token(min_out),
    ];
    assert(token_values(members@) =~= seq![
        AbiValue::Address(router@),
        AbiValue::Address(token_in@),
        AbiValue::Address(token_out@),
        AbiValue::Uint(fee_ppm as nat),
        AbiValue::Bool(stable),
        AbiValue::Bool(is_univ3),
        AbiValue::Uint(min_out@),
    ]);
    tuple_token(members)
}

/// What the last swap of a route must return: the loan and the least profit, as far as 256 bits
/// hold their sum.
pub open spec fn return_floor(amount: nat, min_profit: nat) -> nat {
    if amount + min_profit < limit() {
        amount + min_profit
    } else {
        (limit() - 1) as nat
    }
}

/// The swap that buys the second token of the cheap pool.
pub open spec fn buy_step(addresses: Addresses, buy: PoolState) -> SwapStep {
    SwapStep {
        router: router_bytes(addresses, buy.dex),
        token_in: buy.token0@,
        token_out: buy.token1@,
        fee_ppm: (buy.fee_bps * 100) as nat,
        stable: stable_pool(buy.dex, buy.fee_bps),
        is_univ3: buy.dex is UniswapV3,
        min_out: 0,
    }
}

/// The swap that sells it again at the dear pool.
pub open spec fn sell_step(
    addresses: Addresses,
    amount: nat,
    buy: PoolState,
    sell: PoolState,
    min_profit: nat,
) -> SwapStep {
    SwapStep {
        router: router_bytes(addresses, sell.dex),
        token_in: buy.token1@,
        token_out: buy.token0@,
        fee_ppm: (sell.fee_bps * 100) as nat,
        stable: stable_pool(sell.dex, sell.fee_bps),
        is_univ3: sell.dex is UniswapV3,
        min_out: return_floor(amount, min_profit),
    }
}

/// What the contract is told about an arbitrage between two pools.
pub open spec fn cross_dex_value(
    addresses: Addresses,
    amount: nat,
    buy: PoolState,
    sell: PoolState,
    min_profit: nat,
) -> AbiValue {
    AbiValue::Tuple(
        seq![
            AbiValue::Uint(amount),
            buy_step(addresses, buy).value(),
            sell_step(addresses, amount, buy, sell, min_profit).value(),
        ],
    )
}

/// What the contract is told to do for an arbitrage between two pools.
pub open spec fn cross_dex_plan(
    addresses: Addresses,
    provider: FlashProvider,
    amount: nat,
    buy: PoolState,
    sell: PoolState,
    min_profit: nat,
) -> ExecutePlan {
    ExecutePlan {
        provider,
        tokens: seq![buy.token0@],
        amounts: seq![amount],
        strategy: STRAT_CROSS_DEX_ARB,
        data: abi_encoding(seq![cross_dex_value(addresses, amount, buy, sell, min_profit)]),
        min_profit,
        profit_token: buy.token0@,
    }
}

impl FlashLoanRouter {
    /// The calldata of an arbitrage that buys at one pool and sells at another.
    pub fn build_cross_dex_arb(
        &self,
        addresses: &Addresses,
        provider: FlashProvider,
        amount: U256,
        buy: &PoolState,
        sell: &PoolState,
        min_profit: U256,
    ) -> (r: Result<Vec<u8>, FlashError>)
        requires
            buy.fee_bps * 100 <= u32::MAX,
            router_known(*addresses, buy.dex) ==> sell.fee_bps * 100 <= u32::MAX,
        ensures
            r is Ok <==> router_known(*addresses, buy.dex) && router_known(*addresses, sell.dex),
            r matches Ok(data) ==> data@ == cross_dex_plan(
                *addresses,
                provider,
                amount@,
                *buy,
                *sell,
                min_profit@,
            ).calldata(),
            r matches Err(e) ==> e == FlashError::BadRouter(
                if router_known(*addresses, buy.dex) {
                    sell.dex
                } else {
                    buy.dex
                },
            ),
    {
        let first: Address = router_for(addresses, buy.dex)?;
        let ghost step1 = buy_step(*addresses, *buy);
        let buy_token = swap_step_token(
            first,
            buy.token0,
            buy.token1,
            buy.fee_bps * 100,
            is_stable_pool(buy),
            buy.dex == DexType::UniswapV3,
            U256::zero(),
        );
        let floor: U256 = amount.saturating_add(min_profit);
        let sell_fee: u32 = sell.fee_bps * 100;
        let second: Address = router_for(addresses, sell.dex)?;
        let ghost step2 = sell_step(*addresses, amount@, *buy, *sell, min_profit@);
        let sell_token = swap_step_token(
            second,
            buy.token1,
            buy.token0,
            sell_fee,
            is_stable_pool(sell),
            sell.dex == DexType::UniswapV3,
            floor,
        );
        let members: Vec<ethers::abi::Token> = vec![uint_token(amount), buy_token, sell_token];
        let ghost values = seq![AbiValue::Uint(amount@), step1.value(), step2.value()];
        assert(token_values(members@) =~= values);
        let tokens: Vec<ethers::abi::Token> = vec![tuple_token(members)];
        proof {
            broadcast use group_room;

            assert(token_values(tokens@) =~= seq![AbiValue::Tuple(values)]);
            lemma_step_room(step1);
            lemma_step_room(step2);
            lemma_room_3(values[0], values[1], values[2]);
        }
        let data: Vec<u8> = encode_tokens(&tokens);
        let assets: Vec<Address> = vec![buy.token0];
        let amounts: Vec<U256> = vec![amount];
        assert(address_bytes(assets@) =~= seq![buy.token0@]);
        assert(integer_values(amounts@) =~= seq![amount@]);
        Ok(
            encode_execute_params(
                provider,
                assets,
                amounts,
                STRAT_CROSS_DEX_ARB,
                data,
                min_profit,
                buy.token0,
            ),
        )
    }
}

// Circular routes.

/// The exchange that a route's number stands for.
pub open spec fn numbered_dex(n: u8) -> Option<DexType> {
    if n == 0 {
        Some(DexType::Aerodrome)
    } else if n == 1 {
        Some(DexType::UniswapV3)
    } else {
        None
    }
}

/// Why a swap at the exchange of the given number cannot be made.
pub open spec fn leg_fault(addresses: Addresses, dex_type: u8) -> Option<FlashError> {
    match numbered_dex(dex_type) {
        None => Some(FlashError::UnsupportedDex(dex_type)),
        Some(dex) => if router_known(addresses, dex) {
            None
        } else {
            Some(FlashError::BadRouter(dex))
        },
    }
}

/// Why a circular route cannot be made: the fault of its first swap that has one.
pub open spec fn route_fault(addresses: Addresses, dex_types: Seq<u8>) -> Option<FlashError> {
    if leg_fault(addresses, dex_types[0]) is Some {
        leg_fault(addresses, dex_types[0])
    } else if leg_fault(addresses, dex_types[1]) is Some {
        leg_fault(addresses, dex_types[1])
    } else {
        leg_fault(addresses, dex_types[2])
    }
}

/// A circular route through three tokens.
pub struct Triangle {
    pub tokens: [Address; 3],
    pub dex_types: [u8; 3],
    pub fees_bps: [u32; 3],
    pub stables: [bool; 3],
}

impl Triangle {
    /// One swap of the route; only the last one has to return a certain amount.
    pub open spec fn step(self, addresses: Addresses, i: int, amount: nat, min_profit: nat) -> SwapStep {
        SwapStep {
            router: router_bytes(addresses, numbered_dex(self.dex_types@[i])->0),
            token_in: self.tokens@[i]@,
            token_out: self.tokens@[(i + 1) % 3]@,
            fee_ppm: (self.fees_bps@[i] * 100) as nat,
            stable: self.stables@[i],
            is_univ3: self.dex_types@[i] == 1,
            min_out: if i == 2 {
                return_floor(amount, min_profit)
            } else {
                0
            },
        }
    }

    /// What the contract is told about the route.
    pub open spec fn value(self, addresses: Addresses, amount: nat, min_profit: nat) -> AbiValue {
        AbiValue::Tuple(
            seq![
                AbiValue::Uint(amount),
                AbiValue::FixedArray(
                    seq![
                        self.step(addresses, 0, amount, min_profit).value(),
                        self.step(addresses, 1, amount, min_profit).value(),
                        self.step(addresses, 2, amount, min_profit).value(),
                    ],
                ),
            ],
        )
    }

    /// The encoded swaps of the route.
    pub open spec fn steps_data(self, addresses: Addresses, amount: nat, min_profit: nat) -> Seq<u8> {
        abi_encoding(seq![self.value(addresses, amount, min_profit)])
    }

    /// What the contract is told to do for the route.
    pub open spec fn plan(
        self,
        addresses: Addresses,
        provider: FlashProvider,
        amount: nat,
        min_profit: nat,
    ) -> ExecutePlan {
        ExecutePlan {
            provider,
            tokens: seq![self.tokens@[0]@],
            amounts: seq![amount],
            strategy: STRAT_TRI_ARB,
            data: self.steps_data(addresses, amount, min_profit),
            min_profit,
            profit_token: self.tokens@[0]@,
        }
    }

    /// Whether one fee can be scaled, where the number of its exchange is known.
    pub open spec fn fee_fits(self, i: int) -> bool {
        numbered_dex(self.dex_types@[i]) is Some ==> self.fees_bps@[i] * 100 <= u32::MAX
    }

    /// Whether the fees that are looked at before a fault ends the work can be scaled.
    pub open spec fn fees_fit(self, addresses: Addresses) -> bool {
        &&& self.fee_fits(0)
        &&& leg_fault(addresses, self.dex_types@[0]) is None ==> {
            &&& self.fee_fits(1)
            &&& leg_fault(addresses, self.dex_types@[1]) is None ==> self.fee_fits(2)
        }
    }

    /// The token of one swap of the route.
    fn leg_token(&self, addresses: &Addresses, i: usize, amount: U256, min_profit: U256) -> (r: Result<
        ethers::abi::Token,
        FlashError,
    >)
        requires
            i < 3,
            self.fee_fits(i as int),
        ensures
            r is Ok <==> leg_fault(*addresses, self.dex_types@[i as int]) is None,
            r matches Ok(t) ==> token_value(t) == self.step(
                *addresses,
                i as int,
                amount@,
                min_profit@,
            ).value(),
            r matches Err(e) ==> leg_fault(*addresses, self.dex_types@[i as int]) == Some(e),
    {
        let n: u8 = self.dex_types[i];
        let dex: DexType = if n == 0 {
            DexType::Aerodrome
        } else if n == 1 {
            DexType::UniswapV3
        } else {
            return Err(FlashError::UnsupportedDex(n));
        };
        let min_out: U256 = if i == 2 {
            amount.saturating_add(min_profit)
        } else {
            U256::zero()
        };
        let fee_ppm: u32 = self.fees_bps[i] * 100;
        let router: Address = router_for(addresses, dex)?;
        let next: usize = (i + 1) % 3;
        Ok(
            swap_step_token(
                router,
                self.tokens[i],
                self.tokens[next],
                fee_ppm,
                self.stables[i],
                dex == DexType::UniswapV3,
                min_out,
            ),
        )
    }

    /// The encoded swaps of the route.
    fn encode_steps(&self, addresses: &Addresses, amount: U256, min_profit: U256) -> (r: Result<
        Vec<u8>,
        FlashError,
    >)
        requires
            self.fees_fit(*addresses),
        ensures
            r is Ok <==> route_fault(*addresses, self.dex_types@) is None,
            r matches Ok(data) ==> data@ == self.steps_data(*addresses, amount@, min_profit@)
                && data@.len() <= 1000,
            r matches Err(e) ==> route_fault(*addresses, self.dex_types@) == Some(e),
    {
        let first = self.leg_token(addresses, 0, amount, min_profit)?;
        let second = self.leg_token(addresses, 1, amount, min_profit)?;
        let third = self.leg_token(addresses, 2, amount, min_profit)?;
        let ghost s0 = self.step(*addresses, 0, amount@, min_profit@);
        let ghost s1 = self.step(*addresses, 1, amount@, min_profit@);
        let ghost s2 = self.step(*addresses, 2, amount@, min_profit@);
        let steps: Vec<ethers::abi::Token> = vec![first, second, third];
        let ghost list = seq![s0.value(), s1.value(), s2.value()];
        assert(token_values(steps@) =~= list);
        let members: Vec<ethers::abi::Token> = vec![uint_token(amount), fixed_array_token(steps)];
        let ghost values = seq![AbiValue::Uint(amount@), AbiValue::FixedArray(list)];
        assert(token_values(members@) =~= values);
        let tokens: Vec<ethers::abi::Token> = vec![tuple_token(members)];
        proof {
            broadcast use group_room;

            assert(token_values(tokens@) =~= seq![AbiValue::Tuple(values)]);
            lemma_step_room(s0);
            lemma_step_room(s1);
            lemma_step_room(s2);
            lemma_room_3(list[0], list[1], list[2]);
            lemma_room_2(values[0], values[1]);
        }
        Ok(encode_tokens(&tokens))
    }
}

impl FlashLoanRouter {
    /// The calldata of a circular route through three tokens.
    pub fn build_tri_arb(
        &self,
        addresses: &Addresses,
        provider: FlashProvider,
        tokens: [Address; 3],
        dex_types: [u8; 3],
        fees_bps: [u32; 3],
        stables: [bool; 3],
        amount: U256,
        min_profit: U256,
    ) -> (r: Result<Vec<u8>, FlashError>)
        requires
            (Triangle { tokens, dex_types, fees_bps, stables }).fees_fit(*addresses),
        ensures
            r is Ok <==> route_fault(*addresses, dex_types@) is None,
            r matches Ok(data) ==> data@ == (Triangle { tokens, dex_types, fees_bps, stables }).plan(
                *addresses,
                provider,
                amount@,
                min_profit@,
            ).calldata(),
            r matches Err(e) ==> route_fault(*addresses, dex_types@) == Some(e),
    {
        let route = Triangle { tokens, dex_types, fees_bps, stables };
        let data: Vec<u8> = route.encode_steps(addresses, amount, min_profit)?;
        let assets: Vec<Address> = vec![tokens[0]];
        let amounts: Vec<U256> = vec![amount];
        assert(address_bytes(assets@) =~= seq![tokens@[0]@]);
        assert(integer_values(amounts@) =~= seq![amount@]);
        Ok(
            encode_execute_params(
                provider,
                assets,
                amounts,
                STRAT_TRI_ARB,
                data,
                min_profit,
                tokens[0],
            ),
        )
    }
}

// Liquidations.

/// A lending protocol's number in the contract.
pub open spec fn protocol_number(protocol: LendingProtocol) -> nat {
    match protocol {
        LendingProtocol::Morpho => 0,
        LendingProtocol::Aave => 1,
    }
}

/// What the contract is told about a liquidation.
pub open spec fn liquidation_value(addresses: Addresses, pos: BorrowPosition, swap_route: Seq<u8>) -> AbiValue {
    AbiValue::Tuple(
        seq![
            AbiValue::Uint(protocol_number(pos.protocol)),
            AbiValue::Address(pos.borrower@),
            AbiValue::Address(pos.collateral_asset@),
            AbiValue::Address(pos.debt_asset@),
            AbiValue::Uint(pos.debt_amount@),
            AbiValue::Bytes(pos.morpho_market_params@),
            AbiValue::Address(router_bytes(addresses, DexType::UniswapV3)),
            AbiValue::Bytes(swap_route),
        ],
    )
}

/// What the contract is told to do for a liquidation.
pub open spec fn liquidation_plan(
    addresses: Addresses,
    pos: BorrowPosition,
    provider: FlashProvider,
    swap_route: Seq<u8>,
    min_profit: nat,
) -> ExecutePlan {
    ExecutePlan {
        provider,
        tokens: seq![pos.debt_asset@],
        amounts: seq![pos.debt_amount@],
        strategy: STRAT_LIQUIDATION,
        data: abi_encoding(seq![liquidation_value(addresses, pos, swap_route)]),
        min_profit,
        profit_token: pos.debt_asset@,
    }
}

impl FlashLoanRouter {
    /// The calldata of a liquidation. The contract is told the least profit that it may accept.
    pub fn build_liquidation(
        &self,
        addresses: &Addresses,
        pos: &BorrowPosition,
        provider: FlashProvider,
        swap_route: &Vec<u8>,
        min_profit_wei: U256,
    ) -> (r: Result<Vec<u8>, FlashError>)
        requires
            pos.morpho_market_params@.len() + swap_route@.len() + 1024 <= u32::MAX,
        ensures
            r is Ok <==> router_known(*addresses, DexType::UniswapV3),
            r matches Ok(data) ==> data@ == liquidation_plan(
                *addresses,
                *pos,
                provider,
                swap_route@,
                min_profit_wei@,
            ).calldata(),
            r matches Err(e) ==> e == FlashError::BadRouter(DexType::UniswapV3),
    {
        let protocol_id: u64 = match pos.protocol {
            LendingProtocol::Morpho => 0,
            LendingProtocol::Aave => 1,
        };
        let uni_router: Address = router_for(addresses, DexType::UniswapV3)?;
        let params: Vec<u8> = copy_bytes(&pos.morpho_market_params);
        let route: Vec<u8> = copy_bytes(swap_route);
        let members: Vec<ethers::abi::Token> = vec![
            uint_token(U256::from_u64(protocol_id)),
            address_token(pos.borrower),
            address_token(pos.collateral_asset),
            address_token(pos.debt_asset),
            uint_token(pos.debt_amount),
            bytes_token(params),
            address_token(uni_router),
            bytes_token(route),
        ];
        let ghost value = liquidation_value(*addresses, *pos, swap_route@);
        let ghost values = value->Tuple_0;
        assert(token_values(members@) =~= values);
        let tokens: Vec<ethers::abi::Token> = vec![tuple_token(members)];
        proof {
            broadcast use group_room;

            assert(token_values(tokens@) =~= seq![value]);
            lemma_room_8(
                values[0],
                values[1],
                values[2],
                values[3],
                values[4],
                values[5],
                values[6],
                values[7],
            );
        }
        let data: Vec<u8> = encode_tokens(&tokens);
        let assets: Vec<Address> = vec![pos.debt_asset];
        let amounts: Vec<U256> = vec![pos.debt_amount];
        assert(address_bytes(assets@) =~= seq![pos.debt_asset@]);
        assert(integer_values(amounts@) =~= seq![pos.debt_amount@]);
        Ok(
            encode_execute_params(
                provider,
                assets,
                amounts,
                STRAT_LIQUIDATION,
                data,
                min_profit_wei,
                pos.debt_asset,
            ),
        )
    }
}

/// A copy of some bytes.
pub(crate) fn copy_bytes(bytes: &Vec<u8>) -> (r: Vec<u8>)
    ensures
        r@ == bytes@,
{
    let r: Vec<u8> = bytes.clone();
    assert(r@ =~= bytes@);
    r
}

impl ExecutePlan {
    /// Whether the contract borrows one token, measures its profit in that token, and accepts no
    /// less than the given profit.
    pub open spec fn gates_profit(self, min_profit: nat) -> bool {
        &&& self.tokens == seq![self.profit_token]
        &&& self.amounts.len() == 1
        &&& self.min_profit == min_profit
    }
}

/// What the last swap has to return covers the loan and the least profit, and is the greatest
/// integer where their sum is beyond 256 bits.
pub proof fn law_loan_is_returned(amount: nat, min_profit: nat)
    requires
        amount < limit(),
    ensures
        return_floor(amount, min_profit) >= amount,
        amount + min_profit < limit() ==> return_floor(amount, min_profit) == amount + min_profit,
        amount + min_profit >= limit() ==> return_floor(amount, min_profit) + 1 == limit(),
        return_floor(amount, min_profit) < limit(),
{
}

/// An arbitrage between two pools accepts no less than its least profit, in the borrowed token,
/// and its two swaps lead back to that token.
pub proof fn law_cross_dex_is_gated(
    addresses: Addresses,
    provider: FlashProvider,
    amount: nat,
    buy: PoolState,
    sell: PoolState,
    min_profit: nat,
)
    ensures
        cross_dex_plan(addresses, provider, amount, buy, sell, min_profit).gates_profit(min_profit),
        buy_step(addresses, buy).token_in == sell_step(
            addresses,
            amount,
            buy,
            sell,
            min_profit,
        ).token_out,
        buy_step(addresses, buy).token_out == sell_step(
            addresses,
            amount,
            buy,
            sell,
            min_profit,
        ).token_in,
{
}

/// A circular route accepts no less than its least profit, in the borrowed token; each swap goes
/// on with what the one before it has given, and the last one leads back.
pub proof fn law_triangle_is_gated(
    route: Triangle,
    addresses: Addresses,
    provider: FlashProvider,
    amount: nat,
    min_profit: nat,
)
    ensures
        route.plan(addresses, provider, amount, min_profit).gates_profit(min_profit),
        forall|i: int|
            0 <= i < 3 ==> (#[trigger] route.step(addresses, i, amount, min_profit)).token_out
                == route.step(addresses, (i + 1) % 3, amount, min_profit).token_in,
{
}

/// The router of an exchange, as the configuration writes it down.
pub open spec fn is_router_of(addresses: Addresses, dex: DexType, router: Seq<u8>) -> bool {
    match dex {
        DexType::Aerodrome => parsed_address(addresses.aerodrome_router@) == Some(router),
        DexType::UniswapV3 => parsed_address(addresses.uniswap_v3_router@) == Some(router),
    }
}

/// What the contract reads as the members of a tuple, or of an array.
pub open spec fn members(v: AbiValue) -> Seq<AbiValue> {
    match v {
        AbiValue::Tuple(list) => list,
        AbiValue::Array(list) => list,
        AbiValue::FixedArray(list) => list,
        _ => Seq::empty(),
    }
}

/// Whether the contract reads a swap at the given exchange with the given fee, from one token to
/// another one, that must return a certain amount: the seven members are the router, both tokens,
/// the fee in millionths, whether the pool is a stable one, whether it is one of Uniswap, and the
/// least amount.
pub open spec fn swaps_at(
    v: AbiValue,
    addresses: Addresses,
    dex: DexType,
    fee_bps: u32,
    token_in: Seq<u8>,
    token_out: Seq<u8>,
    min_out: nat,
) -> bool {
    &&& v is Tuple && members(v).len() == 7
    &&& members(v)[0] is Address && is_router_of(addresses, dex, members(v)[0]->Address_0)
    &&& members(v)[1] == AbiValue::Address(token_in)
    &&& members(v)[2] == AbiValue::Address(token_out)
    &&& members(v)[3] is Uint && members(v)[3]->Uint_0 == fee_bps * 100
    &&& members(v)[5] == AbiValue::Bool(dex == DexType::UniswapV3)
    &&& members(v)[6] == AbiValue::Uint(min_out)
}

/// In each swap of an arbitrage between two pools, the router, the fee and the mark of Uniswap
/// belong to the pool that this swap trades at. The first swap gives the borrowed token for the
/// other one, whatever it returns; the second one gives that back, and has to return the loan and
/// the least profit. The strategy is told the very amount that is borrowed.
pub proof fn law_cross_dex_trades_at_its_pools(
    addresses: Addresses,
    provider: FlashProvider,
    amount: nat,
    buy: PoolState,
    sell: PoolState,
    min_profit: nat,
)
    requires
        router_known(addresses, buy.dex),
        router_known(addresses, sell.dex),
        amount + min_profit < limit(),
    ensures
        ({
            let plan = cross_dex_plan(addresses, provider, amount, buy, sell, min_profit);
            let told = cross_dex_value(addresses, amount, buy, sell, min_profit);
            &&& plan.provider == provider
            &&& plan.strategy == 0
            &&& plan.tokens == seq![buy.token0@] && plan.profit_token == buy.token0@
            &&& plan.amounts == seq![amount] && plan.min_profit == min_profit
            &&& plan.data == abi_encoding(seq![told])
            &&& told is Tuple && members(told).len() == 3
            &&& members(told)[0] == AbiValue::Uint(amount)
            &&& swaps_at(
                members(told)[1],
                addresses,
                buy.dex,
                buy.fee_bps,
                buy.token0@,
                buy.token1@,
                0,
            )
            &&& swaps_at(
                members(told)[2],
                addresses,
                sell.dex,
                sell.fee_bps,
                buy.token1@,
                buy.token0@,
                amount + min_profit,
            )
            &&& members(members(told)[1])[4] == AbiValue::Bool(
                buy.dex == DexType::Aerodrome && buy.fee_bps <= 9,
            )
            &&& members(members(told)[2])[4] == AbiValue::Bool(
                sell.dex == DexType::Aerodrome && sell.fee_bps <= 9,
            )
        }),
{
}

/// Pools are marked as stable by their fee alone, and only at Aerodrome: a higher fee never makes
/// a pool a stable one, and no pool of Uniswap is one.
pub proof fn law_stable_pools_are_cheap(dex: DexType, fee_bps: u32, higher: u32)
    requires
        fee_bps <= higher,
    ensures
        !stable_pool(DexType::UniswapV3, fee_bps),
        stable_pool(dex, higher) ==> stable_pool(dex, fee_bps),
        stable_pool(DexType::Aerodrome, fee_bps) <==> fee_bps <= 9,
{
}

/// The numbers of the exchanges: zero is Aerodrome, one is Uniswap, and there are no others.
pub proof fn law_numbers_of_exchanges(n: u8, m: u8)
    ensures
        numbered_dex(0) == Some(DexType::Aerodrome),
        numbered_dex(1) == Some(DexType::UniswapV3),
        n > 1 ==> numbered_dex(n) is None,
        numbered_dex(n) is Some && numbered_dex(n) == numbered_dex(m) ==> n == m,
{
}

/// In each swap of a circular route, the router and the mark of Uniswap belong to the exchange of
/// this swap, and the fee and the mark of a stable pool are its own. Each swap gives its own token
/// for the next one; the third one leads back, and has to return the loan and the least profit.
pub proof fn law_triangle_trades_at_its_pools(
    route: Triangle,
    addresses: Addresses,
    provider: FlashProvider,
    amount: nat,
    min_profit: nat,
    first: DexType,
    second: DexType,
    third: DexType,
)
    requires
        route_fault(addresses, route.dex_types@) is None,
        numbered_dex(route.dex_types@[0]) == Some(first),
        numbered_dex(route.dex_types@[1]) == Some(second),
        numbered_dex(route.dex_types@[2]) == Some(third),
        amount + min_profit < limit(),
    ensures
        ({
            let plan = route.plan(addresses, provider, amount, min_profit);
            let told = route.value(addresses, amount, min_profit);
            let swaps = members(told)[1];
            let (fees, tokens) = (route.fees_bps@, route.tokens@);
            &&& plan.provider == provider
            &&& plan.strategy == 1
            &&& plan.tokens == seq![tokens[0]@] && plan.profit_token == tokens[0]@
            &&& plan.amounts == seq![amount] && plan.min_profit == min_profit
            &&& plan.data == abi_encoding(seq![told])
            &&& told is Tuple && members(told).len() == 2
            &&& members(told)[0] == AbiValue::Uint(amount)
            &&& swaps is FixedArray && members(swaps).len() == 3
            &&& swaps_at(members(swaps)[0], addresses, first, fees[0], tokens[0]@, tokens[1]@, 0)
            &&& swaps_at(members(swaps)[1], addresses, second, fees[1], tokens[1]@, tokens[2]@, 0)
            &&& swaps_at(
                members(swaps)[2],
                addresses,
                third,
                fees[2],
                tokens[2]@,
                tokens[0]@,
                amount + min_profit,
            )
            &&& members(members(swaps)[0])[4] == AbiValue::Bool(route.stables@[0])
            &&& members(members(swaps)[1])[4] == AbiValue::Bool(route.stables@[1])
            &&& members(members(swaps)[2])[4] == AbiValue::Bool(route.stables@[2])
        }),
{
}

/// A route fails exactly where one of its exchanges is not known, or has no router whose address
/// can be read; the error names an exchange of the route.
pub proof fn law_route_faults(addresses: Addresses, dex_types: Seq<u8>)
    requires
        dex_types.len() == 3,
    ensures
        route_fault(addresses, dex_types) is None <==> forall|i: int|
            0 <= i < 3 ==> {
                ||| #[trigger] dex_types[i] == 0 && parsed_address(addresses.aerodrome_router@) is Some
                ||| dex_types[i] == 1 && parsed_address(addresses.uniswap_v3_router@) is Some
            },
        route_fault(addresses, dex_types) matches Some(e) ==> {
            ||| e == FlashError::BadRouter(DexType::Aerodrome) && dex_types.contains(0)
                && parsed_address(addresses.aerodrome_router@) is None
            ||| e == FlashError::BadRouter(DexType::UniswapV3) && dex_types.contains(1)
                && parsed_address(addresses.uniswap_v3_router@) is None
            ||| e matches FlashError::UnsupportedDex(n) && n > 1 && dex_types.contains(n)
        },
{
    let (a, b, c) = (dex_types[0], dex_types[1], dex_types[2]);
    assert(dex_types.contains(a) && dex_types.contains(b) && dex_types.contains(c));
}

/// The debt that the contract is told to repay is the borrower's whole debt, whatever its size,
/// and the very amount that is borrowed, in the token of the debt; the borrower, the protocol, the
/// collateral, the market and the route are those that were given.
pub proof fn law_liquidation_repays_the_debt(
    addresses: Addresses,
    pos: BorrowPosition,
    provider: FlashProvider,
    swap_route: Seq<u8>,
    min_profit: nat,
)
    requires
        router_known(addresses, DexType::UniswapV3),
    ensures
        ({
            let plan = liquidation_plan(addresses, pos, provider, swap_route, min_profit);
            let told = liquidation_value(addresses, pos, swap_route);
            &&& plan.provider == provider
            &&& plan.strategy == 2
            &&& plan.tokens == seq![pos.debt_asset@] && plan.amounts == seq![pos.debt_amount@]
            &&& plan.data == abi_encoding(seq![told])
            &&& told is Tuple && members(told).len() == 8
            &&& members(told)[0] == AbiValue::Uint(
                if pos.protocol == LendingProtocol::Aave {
                    1
                } else {
                    0
                },
            )
            &&& members(told)[1] == AbiValue::Address(pos.borrower@)
            &&& members(told)[2] == AbiValue::Address(pos.collateral_asset@)
            &&& members(told)[3] == AbiValue::Address(plan.tokens[0])
            &&& members(told)[4] == AbiValue::Uint(plan.amounts[0])
            &&& plan.amounts[0] == pos.debt_amount.w0 + pos.debt_amount.w1 * 0x1_0000_0000_0000_0000
                + pos.debt_amount.w2 * 0x1_0000_0000_0000_0000_0000_0000_0000_0000 + pos.debt_amount.w3
                * 0x1_0000_0000_0000_0000_0000_0000_0000_0000_0000_0000_0000_0000
            &&& members(told)[5] == AbiValue::Bytes(pos.morpho_market_params@)
            &&& members(told)[6] is Address && is_router_of(
                addresses,
                DexType::UniswapV3,
                members(told)[6]->Address_0,
            )
            &&& members(told)[7] == AbiValue::Bytes(swap_route)
        }),
{
}

/// Liquidations of positions that differ in the borrower, in an asset, in the debt or in the
/// protocol are told apart.
pub proof fn law_liquidations_differ(
    addresses: Addresses,
    pos: BorrowPosition,
    other: BorrowPosition,
    swap_route: Seq<u8>,
)
    requires
        pos.borrower@ != other.borrower@ || pos.collateral_asset@ != other.collateral_asset@
            || pos.debt_asset@ != other.debt_asset@ || pos.debt_amount@ != other.debt_amount@
            || pos.protocol != other.protocol || pos.morpho_market_params@
            != other.morpho_market_params@,
    ensures
        liquidation_value(addresses, pos, swap_route) != liquidation_value(
            addresses,
            other,
            swap_route,
        ),
{
    let v = members(liquidation_value(addresses, pos, swap_route));
    let w = members(liquidation_value(addresses, other, swap_route));
    assert(v[0] == AbiValue::Uint(protocol_number(pos.protocol)));
    assert(v[1] == AbiValue::Address(pos.borrower@) && w[1] == AbiValue::Address(other.borrower@));
    assert(v[2] == AbiValue::Address(pos.collateral_asset@));
    assert(w[2] == AbiValue::Address(other.collateral_asset@));
    assert(v[3] == AbiValue::Address(pos.debt_asset@) && w[3] == AbiValue::Address(other.debt_asset@));
    assert(v[4] == AbiValue::Uint(pos.debt_amount@) && w[4] == AbiValue::Uint(other.debt_amount@));
    assert(v[5] == AbiValue::Bytes(pos.morpho_market_params@));
    assert(w[5] == AbiValue::Bytes(other.morpho_market_params@));
    assert(w[0] == AbiValue::Uint(protocol_number(other.protocol)));
}

/// The contract reads a plan as seven members: the number of the lender, the borrowed tokens, as
/// many amounts, the strategy, its data, the least profit, and the token it is measured in.
pub proof fn law_plan_is_told_in_order(plan: ExecutePlan)
    ensures
        ({
            let told = plan.value();
            &&& plan.calldata() == selector(
                "execute((uint8,address[],uint256[],uint8,bytes,uint256,address))"@,
            ) + abi_encoding(seq![told])
            &&& told is Tuple && members(told).len() == 7
            &&& members(told)[0] == AbiValue::Uint(
                match plan.provider {
                    FlashProvider::Balancer => 0,
                    FlashProvider::Morpho => 1,
                    FlashProvider::Aave => 2,
                },
            )
            &&& members(told)[1] is Array && members(members(told)[1]).len() == plan.tokens.len()
            &&& forall|i: int|
                0 <= i < plan.tokens.len() ==> #[trigger] members(members(told)[1])[i]
                    == AbiValue::Address(plan.tokens[i])
            &&& members(told)[2] is Array && members(members(told)[2]).len() == plan.amounts.len()
            &&& forall|i: int|
                0 <= i < plan.amounts.len() ==> #[trigger] members(members(told)[2])[i]
                    == AbiValue::Uint(plan.amounts[i])
            &&& members(told)[3] == AbiValue::Uint(plan.strategy as nat)
            &&& members(told)[4] == AbiValue::Bytes(plan.data)
            &&& members(told)[5] == AbiValue::Uint(plan.min_profit)
            &&& members(told)[6] == AbiValue::Address(plan.profit_token)
        }),
{
}

/// A liquidation accepts no less than its least profit, in the token of the debt.
pub proof fn law_liquidation_is_gated(
    addresses: Addresses,
    pos: BorrowPosition,
    provider: FlashProvider,
    swap_route: Seq<u8>,
    min_profit: nat,
)
    ensures
        liquidation_plan(addresses, pos, provider, swap_route, min_profit).gates_profit(min_profit),
        liquidation_plan(addresses, pos, provider, swap_route, min_profit).profit_token
            == pos.debt_asset@,
{
}

} // verus!
