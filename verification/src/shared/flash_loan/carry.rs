//! The calldata that opens and closes carries.

use crate::double::Double;
use crate::shared::abi::room::{
    group_room, lemma_room_3, lemma_room_4, lemma_room_5, lemma_room_repeated, room,
};
use crate::shared::abi::{
    abi_encoding, address_token, array_token, bytes_token, call_data, encode_call, encode_tokens,
    selector, token_value, token_values, tuple_token, uint_token, AbiValue,
};
use crate::shared::address::{all_zero, is_zero_address, Address};
use crate::shared::flash_loan::calldata::{
    address_bytes, encode_execute_params, integer_values, members, ExecutePlan, STRAT_RATE_ARB_CLOSE,
    STRAT_RATE_ARB_OPEN,
};
use crate::shared::flash_loan::{FlashError, FlashLoanRouter, FlashProvider};
use crate::strategies::rate_arb::RateArbPosition;
use crate::u256::{limit, U256};
use vstd::arithmetic::div_mod::{lemma_fundamental_div_mod, lemma_mod_bound};
use vstd::arithmetic::power2::{lemma_pow2_pos, pow2};
use vstd::prelude::*;

verus! {

/// The calldata that supplies an asset on behalf of an account.
pub open spec fn supply_data(asset: Seq<u8>, amount: nat, account: Seq<u8>) -> Seq<u8> {
    call_data(
        "supply(address,uint256,address,uint16)"@,
        seq![
            AbiValue::Address(asset),
            AbiValue::Uint(amount),
            AbiValue::Address(account),
            AbiValue::Uint(0),
        ],
    )
}

/// The calldata that borrows an asset at the variable rate on behalf of an account.
pub open spec fn borrow_data(asset: Seq<u8>, amount: nat, account: Seq<u8>) -> Seq<u8> {
    call_data(
        "borrow(address,uint256,uint256,uint16,address)"@,
        seq![
            AbiValue::Address(asset),
            AbiValue::Uint(amount),
            AbiValue::Uint(2),
            AbiValue::Uint(0),
            AbiValue::Address(account),
        ],
    )
}

/// The calldata that repays the whole debt of an account at the variable rate.
pub open spec fn repay_data(asset: Seq<u8>, account: Seq<u8>) -> Seq<u8> {
    call_data(
        "repay(address,uint256,uint256,address)"@,
        seq![
            AbiValue::Address(asset),
            AbiValue::Uint((limit() - 1) as nat),
            AbiValue::Uint(2),
            AbiValue::Address(account),
        ],
    )
}

/// The calldata that withdraws all that was supplied, to an account.
pub open spec fn withdraw_data(asset: Seq<u8>, account: Seq<u8>) -> Seq<u8> {
    call_data(
        "withdraw(address,uint256,address)"@,
        seq![AbiValue::Address(asset), AbiValue::Uint((limit() - 1) as nat), AbiValue::Address(account)],
    )
}

fn supply_calldata(asset: Address, amount: U256, account: Address) -> (r: Vec<u8>)
    ensures
        r@ == supply_data(asset@, amount@, account@),
        r@.len() <= 132,
{
    let tokens: Vec<ethers::abi::Token> = vec![
        address_token(asset),
        uint_token(amount),
        address_token(account),
        uint_token(U256::zero()),
    ];
    let ghost values = seq![
        AbiValue::Address(asset@),
        AbiValue::Uint(amount@),
        AbiValue::Address(account@),
        AbiValue::Uint(0),
    ];
    proof {
        broadcast use group_room;

        assert(token_values(tokens@) =~= values);
        lemma_room_4(values[0], values[1], values[2], values[3]);
    }
    encode_call("supply(address,uint256,address,uint16)", &tokens)
}

fn borrow_calldata(asset: Address, amount: U256, account: Address) -> (r: Vec<u8>)
    ensures
        r@ == borrow_data(asset@, amount@, account@),
        r@.len() <= 164,
{
    let tokens: Vec<ethers::abi::Token> = vec![
        address_token(asset),
        uint_token(amount),
        uint_token(U256::from_u64(2)),
        uint_token(U256::zero()),
        address_token(account),
    ];
    let ghost values = seq![
        AbiValue::Address(asset@),
        AbiValue::Uint(amount@),
        AbiValue::Uint(2),
        AbiValue::Uint(0),
        AbiValue::Address(account@),
    ];
    proof {
        broadcast use group_room;

        assert(token_values(tokens@) =~= values);
        lemma_room_5(values[0], values[1], values[2], values[3], values[4]);
    }
    encode_call("borrow(address,uint256,uint256,uint16,address)", &tokens)
}

fn repay_calldata(asset: Address, account: Address) -> (r: Vec<u8>)
    ensures
        r@ == repay_data(asset@, account@),
        r@.len() <= 132,
{
    let tokens: Vec<ethers::abi::Token> = vec![
        address_token(asset),
        uint_token(U256::max_value()),
        uint_token(U256::from_u64(2)),
        address_token(account),
    ];
    let ghost values = seq![
        AbiValue::Address(asset@),
        AbiValue::Uint((limit() - 1) as nat),
        AbiValue::Uint(2),
        AbiValue::Address(account@),
    ];
    proof {
        broadcast use group_room;

        assert(token_values(tokens@) =~= values);
        lemma_room_4(values[0], values[1], values[2], values[3]);
    }
    encode_call("repay(address,uint256,uint256,address)", &tokens)
}

fn withdraw_calldata(asset: Address, account: Address) -> (r: Vec<u8>)
    ensures
        r@ == withdraw_data(asset@, account@),
        r@.len() <= 100,
{
    let tokens: Vec<ethers::abi::Token> = vec![
        address_token(asset),
        uint_token(U256::max_value()),
        address_token(account),
    ];
    let ghost values = seq![
        AbiValue::Address(asset@),
        AbiValue::Uint((limit() - 1) as nat),
        AbiValue::Address(account@),
    ];
    proof {
        broadcast use group_room;

        assert(token_values(tokens@) =~= values);
        lemma_room_3(values[0], values[1], values[2]);
    }
    encode_call("withdraw(address,uint256,address)", &tokens)
}

/// The same call a number of times.
pub open spec fn repeated(data: Seq<u8>, times: nat) -> AbiValue {
    AbiValue::Array(Seq::new(times, |i: int| AbiValue::Bytes(data)))
}

/// The room of a repeated call.
proof fn lemma_repeated_room(data: Seq<u8>, times: nat)
    requires
        times > 0 ==> data.len() <= 164,
        times <= 255,
    ensures
        room(repeated(data, times)) <= 70000,
{
    broadcast use group_room;

    let list = Seq::new(times, |i: int| AbiValue::Bytes(data));
    lemma_room_repeated(list, 260);
}

/// How often a carry is looped: its leverage, rounded up.
pub open spec fn loop_count(leverage: Double) -> nat {
    leverage.whole_up(255)
}

/// What one of several loops supplies and borrows: an equal part of the loan, and in the last loop
/// all that is left of it.
pub open spec fn loop_amount(notional: nat, loops: nat, i: int) -> nat {
    let step = notional / loops;
    if i + 1 < loops {
        step
    } else {
        (notional - (loops - 1) * step) as nat
    }
}

/// What each of several loops supplies and borrows.
pub open spec fn loop_amounts(notional: nat, loops: nat) -> Seq<nat> {
    Seq::new(loops, |i: int| loop_amount(notional, loops, i))
}

/// The sum of some amounts.
pub open spec fn total(amounts: Seq<nat>) -> nat
    decreases amounts.len(),
{
    if amounts.len() == 0 {
        0
    } else {
        total(amounts.drop_last()) + amounts.last()
    }
}

/// The calls that supply the given amounts, one after the other.
pub open spec fn supply_calls(asset: Seq<u8>, amounts: Seq<nat>, account: Seq<u8>) -> AbiValue {
    AbiValue::Array(
        Seq::new(
            amounts.len(),
            |i: int| AbiValue::Bytes(supply_data(asset, amounts[i], account)),
        ),
    )
}

/// The calls that borrow the given amounts, one after the other.
pub open spec fn borrow_calls(asset: Seq<u8>, amounts: Seq<nat>, account: Seq<u8>) -> AbiValue {
    AbiValue::Array(
        Seq::new(
            amounts.len(),
            |i: int| AbiValue::Bytes(borrow_data(asset, amounts[i], account)),
        ),
    )
}

/// What the contract is told about a carry that it opens.
pub open spec fn open_value(
    router: FlashLoanRouter,
    asset: Seq<u8>,
    notional: nat,
    leverage: Double,
    supply_proto: Seq<u8>,
    borrow_proto: Seq<u8>,
) -> AbiValue {
    let loops = loop_count(leverage);
    let amounts = loop_amounts(notional, loops);
    AbiValue::Tuple(
        seq![
            AbiValue::Address(supply_proto),
            AbiValue::Address(borrow_proto),
            AbiValue::Uint(loops),
            supply_calls(asset, amounts, router.executor@),
            borrow_calls(asset, amounts, router.executor@),
        ],
    )
}

/// What the contract is told about a carry that it closes.
pub open spec fn close_value(router: FlashLoanRouter, pos: RateArbPosition) -> AbiValue {
    AbiValue::Tuple(
        seq![
            AbiValue::Address(pos.supply_proto@),
            AbiValue::Address(pos.borrow_proto@),
            repeated(repay_data(pos.asset@, router.executor@), 1),
            repeated(withdraw_data(pos.asset@, router.executor@), 1),
        ],
    )
}

/// What the contract is told to do to open a carry.
pub open spec fn open_plan(
    router: FlashLoanRouter,
    provider: FlashProvider,
    asset: Seq<u8>,
    notional: nat,
    leverage: Double,
    supply_proto: Seq<u8>,
    borrow_proto: Seq<u8>,
) -> ExecutePlan {
    ExecutePlan {
        provider,
        tokens: seq![asset],
        amounts: seq![notional],
        strategy: STRAT_RATE_ARB_OPEN,
        data: abi_encoding(
            seq![open_value(router, asset, notional, leverage, supply_proto, borrow_proto)],
        ),
        min_profit: 0,
        profit_token: asset,
    }
}

/// What the contract is told to do to close a carry: it repays at the protocol that lent and
/// withdraws from the one that was lent to.
pub open spec fn close_plan(router: FlashLoanRouter, pos: RateArbPosition) -> ExecutePlan {
    ExecutePlan {
        provider: FlashProvider::Aave,
        tokens: seq![pos.asset@],
        amounts: seq![pos.debt_amount_wei@],
        strategy: STRAT_RATE_ARB_CLOSE,
        data: abi_encoding(seq![close_value(router, pos)]),
        min_profit: 0,
        profit_token: pos.asset@,
    }
}

/// Why a carry cannot be closed.
pub open spec fn close_fault(pos: RateArbPosition) -> Option<FlashError> {
    if all_zero(pos.supply_proto@) || all_zero(pos.borrow_proto@) {
        Some(FlashError::ZeroProtocol)
    } else if pos.debt_amount_wei@ == 0 {
        Some(FlashError::ZeroDebt)
    } else {
        None
    }
}

/// The token of a call that is made once.
fn single_call(data: Vec<u8>) -> (r: ethers::abi::Token)
    ensures
        token_value(r) == repeated(data@, 1),
{
    let ghost bytes = data@;
    let calls: Vec<ethers::abi::Token> = vec![bytes_token(data)];
    assert(token_values(calls@) =~= Seq::new(1, |i: int| AbiValue::Bytes(bytes)));
    array_token(calls)
}

impl FlashLoanRouter {
    /// The tokens of the calls that supply and borrow in each loop.
    fn loop_tokens(&self, asset: Address, notional: U256, loops: u8) -> (r: (
        ethers::abi::Token,
        ethers::abi::Token,
    ))
        requires
            loops > 0,
        ensures
            ({
                let amounts = loop_amounts(notional@, loops as nat);
                &&& token_value(r.0) == supply_calls(asset@, amounts, self.executor@)
                &&& token_value(r.1) == borrow_calls(asset@, amounts, self.executor@)
            }),
            room(token_value(r.0)) <= 70000,
            room(token_value(r.1)) <= 70000,
    {
        let mut supplies: Vec<ethers::abi::Token> = Vec::new();
        let mut borrows: Vec<ethers::abi::Token> = Vec::new();
        let step: U256 = notional.over(loops as u64);
        let ghost amounts = loop_amounts(notional@, loops as nat);
        let ghost account = self.executor@;
        let mut left: U256 = notional;
        let mut i: u8 = 0;
        proof {
            lemma_left(notional@, loops as nat, 0);
        }
        while i < loops
            invariant
                i <= loops,
                loops > 0,
                step@ == notional@ / loops as nat,
                i < loops ==> left@ == notional@ - i * step@,
                amounts == loop_amounts(notional@, loops as nat),
                account == self.executor@,
                supplies@.len() == i,
                borrows@.len() == i,
                forall|j: int|
                    0 <= j < i ==> token_value(#[trigger] supplies@[j]) == AbiValue::Bytes(
                        supply_data(asset@, amounts[j], account),
                    ) && room(token_value(supplies@[j])) <= 260,
                forall|j: int|
                    0 <= j < i ==> token_value(#[trigger] borrows@[j]) == AbiValue::Bytes(
                        borrow_data(asset@, amounts[j], account),
                    ) && room(token_value(borrows@[j])) <= 260,
            decreases loops - i,
        {
            broadcast use group_room;

            proof {
                lemma_left(notional@, loops as nat, i as int);
                assert((i + 1) * step@ == i * step@ + step@) by (nonlinear_arith);
            }
            let amount: U256 = if i < loops - 1 {
                step
            } else {
                left
            };
            assert(amount@ == amounts[i as int]);
            supplies.push(bytes_token(supply_calldata(asset, amount, self.executor)));
            borrows.push(bytes_token(borrow_calldata(asset, amount, self.executor)));
            left = left.minus(amount);
            i = i + 1;
        }
        proof {
            let (s, b) = (token_values(supplies@), token_values(borrows@));
            assert(AbiValue::Array(s) == supply_calls(asset@, amounts, account)) by {
                assert(s =~= Seq::new(
                    amounts.len(),
                    |i: int| AbiValue::Bytes(supply_data(asset@, amounts[i], account)),
                ));
            }
            assert(AbiValue::Array(b) == borrow_calls(asset@, amounts, account)) by {
                assert(b =~= Seq::new(
                    amounts.len(),
                    |i: int| AbiValue::Bytes(borrow_data(asset@, amounts[i], account)),
                ));
            }
            lemma_room_repeated(s, 260);
            lemma_room_repeated(b, 260);
        }
        (array_token(supplies), array_token(borrows))
    }

    /// The calldata that opens a carry: in each loop an equal part of the loan is supplied to one
    /// protocol and borrowed from the other, in the last one all that is left.
    pub fn build_rate_arb_open(
        &self,
        provider: FlashProvider,
        asset: Address,
        notional: U256,
        leverage: Double,
        supply_proto: Address,
        borrow_proto: Address,
    ) -> (r: Vec<u8>)
        requires
            loop_count(leverage) > 0,
        ensures
            r@ == open_plan(
                *self,
                provider,
                asset@,
                notional@,
                leverage,
                supply_proto@,
                borrow_proto@,
            ).calldata(),
    {
        let loops: u8 = leverage.ceil_to_u8();
        let (supplies, borrows) = self.loop_tokens(asset, notional, loops);
        let ghost loop_parts = loop_amounts(notional@, loops as nat);
        let members: Vec<ethers::abi::Token> = vec![
            address_token(supply_proto),
            address_token(borrow_proto),
            uint_token(U256::from_u64(loops as u64)),
            supplies,
            borrows,
        ];
        let ghost values = seq![
            AbiValue::Address(supply_proto@),
            AbiValue::Address(borrow_proto@),
            AbiValue::Uint(loops as nat),
            supply_calls(asset@, loop_parts, self.executor@),
            borrow_calls(asset@, loop_parts, self.executor@),
        ];
        assert(token_values(members@) =~= values);
        let tokens: Vec<ethers::abi::Token> = vec![tuple_token(members)];
        proof {
            broadcast use group_room;

            assert(token_values(tokens@) =~= seq![AbiValue::Tuple(values)]);
            lemma_room_5(values[0], values[1], values[2], values[3], values[4]);
        }
        let data: Vec<u8> = encode_tokens(&tokens);
        let assets: Vec<Address> = vec![asset];
        let amounts: Vec<U256> = vec![notional];
        assert(address_bytes(assets@) =~= seq![asset@]);
        assert(integer_values(amounts@) =~= seq![notional@]);
        encode_execute_params(
            provider,
            assets,
            amounts,
            STRAT_RATE_ARB_OPEN,
            data,
            U256::zero(),
            asset,
        )
    }

    /// The calldata that closes a carry with a loan of its debt.
    pub fn build_rate_arb_close(&self, pos: &RateArbPosition) -> (r: Result<Vec<u8>, FlashError>)
        ensures
            r is Ok <==> close_fault(*pos) is None,
            r matches Ok(data) ==> data@ == close_plan(*self, *pos).calldata(),
            r matches Err(e) ==> close_fault(*pos) == Some(e),
    {
        if is_zero_address(&pos.supply_proto) || is_zero_address(&pos.borrow_proto) {
            return Err(FlashError::ZeroProtocol);
        }
        if pos.debt_amount_wei.is_zero() {
            return Err(FlashError::ZeroDebt);
        }
        let repay: Vec<u8> = repay_calldata(pos.asset, self.executor);
        let withdraw: Vec<u8> = withdraw_calldata(pos.asset, self.executor);
        let ghost b1 = repay@;
        let ghost b2 = withdraw@;
        let members: Vec<ethers::abi::Token> = vec![
            address_token(pos.supply_proto),
            address_token(pos.borrow_proto),
            single_call(repay),
            single_call(withdraw),
        ];
        let ghost values = seq![
            AbiValue::Address(pos.supply_proto@),
            AbiValue::Address(pos.borrow_proto@),
            repeated(b1, 1),
            repeated(b2, 1),
        ];
        assert(token_values(members@) =~= values);
        let tokens: Vec<ethers::abi::Token> = vec![tuple_token(members)];
        proof {
            broadcast use group_room;

            assert(token_values(tokens@) =~= seq![AbiValue::Tuple(values)]);
            lemma_repeated_room(b1, 1);
            lemma_repeated_room(b2, 1);
            lemma_room_4(values[0], values[1], values[2], values[3]);
        }
        let data: Vec<u8> = encode_tokens(&tokens);
        let assets: Vec<Address> = vec![pos.asset];
        let amounts: Vec<U256> = vec![pos.debt_amount_wei];
        assert(address_bytes(assets@) =~= seq![pos.asset@]);
        assert(integer_values(amounts@) =~= seq![pos.debt_amount_wei@]);
        Ok(
            encode_execute_params(
                FlashProvider::Aave,
                assets,
                amounts,
                STRAT_RATE_ARB_CLOSE,
                data,
                U256::zero(),
                pos.asset,
            ),
        )
    }
}

/// What is left of a loan before a loop covers the part that the loop uses.
proof fn lemma_left(notional: nat, loops: nat, i: int)
    requires
        0 <= i < loops,
    ensures
        (i + 1) * (notional / loops) <= notional,
        0 <= i * (notional / loops) <= notional,
{
    let step = notional / loops;
    lemma_fundamental_div_mod(notional as int, loops as int);
    lemma_mod_bound(notional as int, loops as int);
    assert(0 <= i * step <= (i + 1) * step <= loops * step) by (nonlinear_arith)
        requires
            0 <= i < loops,
            step >= 0,
    ;
}

/// A carry is looped as often as its leverage, rounded up: no more often than needed, and often
/// enough, up to 255 times. Values are counted in units, of which one has two to the power 1074.
pub proof fn law_loops_cover_the_leverage(leverage: Double)
    requires
        !leverage.nan(),
        0 < leverage.units() <= 255 * pow2(1074),
    ensures
        0 < loop_count(leverage) <= 255,
        leverage.units() <= loop_count(leverage) * pow2(1074),
        (loop_count(leverage) - 1) * pow2(1074) < leverage.units(),
{
    lemma_pow2_pos(1074);
    let (u, p) = (leverage.units(), pow2(1074) as int);
    let up = (u + p - 1) / p;
    lemma_fundamental_div_mod(u + p - 1, p);
    lemma_mod_bound(u + p - 1, p);
    assert(p * up == up * p) by (nonlinear_arith);
    assert((up - 1) * p == up * p - p) by (nonlinear_arith);
    assert(up > 0) by (nonlinear_arith)
        requires
            up * p > 0,
            p > 0,
    ;
    assert(up <= 255) by (nonlinear_arith)
        requires
            (up - 1) * p < u,
            u <= 255 * p,
            p > 0,
    ;
}

/// To open a carry the contract borrows the notional in the asset, and measures its profit in it;
/// it supplies to one protocol and borrows from the other, once for each loop, the same amount in
/// both, in the name of the contract.
pub proof fn law_open_plan_loops(
    router: FlashLoanRouter,
    provider: FlashProvider,
    asset: Seq<u8>,
    notional: nat,
    leverage: Double,
    supply_proto: Seq<u8>,
    borrow_proto: Seq<u8>,
)
    ensures
        ({
            let plan = open_plan(
                router,
                provider,
                asset,
                notional,
                leverage,
                supply_proto,
                borrow_proto,
            );
            let told = open_value(router, asset, notional, leverage, supply_proto, borrow_proto);
            let loops = loop_count(leverage);
            let amounts = loop_amounts(notional, loops);
            &&& plan.provider == provider
            &&& plan.strategy == 4
            &&& plan.tokens == seq![asset] && plan.amounts == seq![notional]
            &&& plan.min_profit == 0 && plan.profit_token == asset
            &&& plan.data == abi_encoding(seq![told])
            &&& told is Tuple && members(told).len() == 5
            &&& members(told)[0] == AbiValue::Address(supply_proto)
            &&& members(told)[1] == AbiValue::Address(borrow_proto)
            &&& members(told)[2] == AbiValue::Uint(loops)
            &&& members(told)[3] is Array && members(members(told)[3]).len() == loops
            &&& members(told)[4] is Array && members(members(told)[4]).len() == loops
            &&& forall|i: int|
                0 <= i < loops ==> #[trigger] members(members(told)[3])[i] == AbiValue::Bytes(
                    supply_data(asset, amounts[i], router.executor@),
                )
            &&& forall|i: int|
                0 <= i < loops ==> #[trigger] members(members(told)[4])[i] == AbiValue::Bytes(
                    borrow_data(asset, amounts[i], router.executor@),
                )
        }),
{
}

/// The calls of a lending pool: their signatures, and their arguments in order. Debts are at the
/// variable rate, which is number two; all of a debt, and all that was supplied, is the greatest
/// integer.
pub proof fn law_calls_of_the_lending_pool(asset: Seq<u8>, amount: nat, account: Seq<u8>)
    ensures
        supply_data(asset, amount, account) == selector("supply(address,uint256,address,uint16)"@)
            + abi_encoding(
            seq![
                AbiValue::Address(asset),
                AbiValue::Uint(amount),
                AbiValue::Address(account),
                AbiValue::Uint(0),
            ],
        ),
        borrow_data(asset, amount, account) == selector(
            "borrow(address,uint256,uint256,uint16,address)"@,
        ) + abi_encoding(
            seq![
                AbiValue::Address(asset),
                AbiValue::Uint(amount),
                AbiValue::Uint(2),
                AbiValue::Uint(0),
                AbiValue::Address(account),
            ],
        ),
        repay_data(asset, account) == selector("repay(address,uint256,uint256,address)"@)
            + abi_encoding(
            seq![
                AbiValue::Address(asset),
                AbiValue::Uint((limit() - 1) as nat),
                AbiValue::Uint(2),
                AbiValue::Address(account),
            ],
        ),
        withdraw_data(asset, account) == selector("withdraw(address,uint256,address)"@)
            + abi_encoding(
            seq![
                AbiValue::Address(asset),
                AbiValue::Uint((limit() - 1) as nat),
                AbiValue::Address(account),
            ],
        ),
{
}

/// To close a carry the contract borrows the debt of the carry in its asset from Aave; it repays
/// all of the debt and withdraws all that was supplied, each with one call, in the name of the
/// contract, at the protocols of the carry.
pub proof fn law_close_plan_repays_all(router: FlashLoanRouter, pos: RateArbPosition)
    ensures
        ({
            let plan = close_plan(router, pos);
            let told = close_value(router, pos);
            &&& plan.provider is Aave
            &&& plan.strategy == 5
            &&& plan.tokens == seq![pos.asset@] && plan.amounts == seq![pos.debt_amount_wei@]
            &&& plan.min_profit == 0 && plan.profit_token == pos.asset@
            &&& plan.data == abi_encoding(seq![told])
            &&& told is Tuple && members(told).len() == 4
            &&& members(told)[0] == AbiValue::Address(pos.supply_proto@)
            &&& members(told)[1] == AbiValue::Address(pos.borrow_proto@)
            &&& members(told)[2] == AbiValue::Array(
                seq![AbiValue::Bytes(repay_data(pos.asset@, router.executor@))],
            )
            &&& members(told)[3] == AbiValue::Array(
                seq![AbiValue::Bytes(withdraw_data(pos.asset@, router.executor@))],
            )
        }),
{
    let told = close_value(router, pos);
    assert(members(told)[2]->Array_0 =~= seq![
        AbiValue::Bytes(repay_data(pos.asset@, router.executor@)),
    ]);
    assert(members(told)[3]->Array_0 =~= seq![
        AbiValue::Bytes(withdraw_data(pos.asset@, router.executor@)),
    ]);
}

/// A carry cannot be closed if and only if one of its protocols is the zero address or it has no
/// debt.
pub proof fn law_carries_that_cannot_be_closed(pos: RateArbPosition)
    ensures
        close_fault(pos) is None <==> {
            &&& exists|i: int| 0 <= i < 20 && #[trigger] pos.supply_proto@[i] != 0
            &&& exists|i: int| 0 <= i < 20 && #[trigger] pos.borrow_proto@[i] != 0
            &&& pos.debt_amount_wei@ > 0
        },
        close_fault(pos) matches Some(e) ==> e == FlashError::ZeroDebt || e
            == FlashError::ZeroProtocol,
        close_fault(pos) == Some(FlashError::ZeroDebt) ==> pos.debt_amount_wei@ == 0,
{
    assert(pos.supply_proto@.len() == 20 && pos.borrow_proto@.len() == 20);
}

/// The sum of the first loops.
proof fn lemma_first_loops(notional: nat, loops: nat, n: nat)
    requires
        n < loops,
    ensures
        total(loop_amounts(notional, loops).take(n as int)) == n * (notional / loops),
    decreases n,
{
    let all = loop_amounts(notional, loops);
    let step = notional / loops;
    assert(0 * step == 0);
    if n > 0 {
        lemma_first_loops(notional, loops, (n - 1) as nat);
        assert(all.take(n as int).drop_last() =~= all.take(n - 1));
        assert((n - 1) * step + step == n * step) by (nonlinear_arith);
    }
}

/// The loops of a carry use the loan up: what they supply in total is the notional, and so is what
/// they borrow. Each loop but the last one uses an equal part.
pub proof fn law_loops_use_the_loan(notional: nat, leverage: Double)
    requires
        loop_count(leverage) > 0,
    ensures
        ({
            let loops = loop_count(leverage);
            let amounts = loop_amounts(notional, loops);
            &&& amounts.len() == loops
            &&& total(amounts) == notional
            &&& forall|i: int|
                0 <= i < loops - 1 ==> #[trigger] amounts[i] == notional / loops
        }),
{
    let loops = loop_count(leverage);
    let amounts = loop_amounts(notional, loops);
    lemma_first_loops(notional, loops, (loops - 1) as nat);
    lemma_left(notional, loops, loops - 1);
    assert(amounts.drop_last() =~= amounts.take(loops - 1));
}

} // verus!
