//! What the lenders hold: the calls that ask for it, and their replies.

use crate::shared::abi::room::{group_room, lemma_room_2, lemma_room_3, room};
use crate::shared::abi::{
    abi_encoding, address_token, array_token, bool_token, bytes_token, call_data, decode_tuple_array, encode_call,
    into_array, into_bool, into_bytes, into_tuple, selector, token_value, token_values, tuple_array_decoding,
    tuple_token, AbiLeaf, AbiValue,
};
use crate::shared::address::Address;
use crate::shared::flash_loan::FlashLoanRouter;
use crate::u256::{big_endian, U256};
use vstd::prelude::*;

verus! {

/// A call of a contract that changes nothing.
pub struct CallRequest {
    pub to: Address,
    pub data: Vec<u8>,
}

/// The calldata that asks a token for the balance of an account.
pub open spec fn balance_data(account: Seq<u8>) -> Seq<u8> {
    call_data("balanceOf(address)"@, seq![AbiValue::Address(account)])
}

/// The calldata that asks a token for the balance of an account.
pub(crate) fn balance_calldata(account: Address) -> (r: Vec<u8>)
    ensures
        r@ == balance_data(account@),
        r@.len() <= 36,
{
    let tokens: Vec<ethers::abi::Token> = vec![address_token(account)];
    proof {
        broadcast use group_room;

        assert(token_values(tokens@) =~= seq![AbiValue::Address(account@)]);
    }
    encode_call("balanceOf(address)", &tokens)
}

/// The call that asks a token for the balance of an account.
pub fn balance_of(token: Address, account: Address) -> (r: CallRequest)
    ensures
        r.to == token,
        r.data@ == balance_data(account@),
{
    CallRequest { to: token, data: balance_calldata(account) }
}

/// The balance that a reply holds.
pub fn read_balance(reply: &[u8]) -> (r: U256)
    requires
        reply@.len() <= 32,
    ensures
        r@ == big_endian(reply@),
{
    U256::from_big_endian(reply)
}

/// One call of a batch; it may fail without failing the batch.
pub open spec fn batched_call(target: Seq<u8>, data: Seq<u8>) -> AbiValue {
    AbiValue::Tuple(seq![AbiValue::Address(target), AbiValue::Bool(true), AbiValue::Bytes(data)])
}

/// One call of a batch; it may fail without failing the batch.
pub(crate) fn encode_mc3_call(target: Address, data: Vec<u8>) -> (r: ethers::abi::Token)
    ensures
        token_value(r) == batched_call(target@, data@),
{
    let ghost bytes = data@;
    let members: Vec<ethers::abi::Token> = vec![address_token(target), bool_token(true), bytes_token(data)];
    assert(token_values(members@) =~= seq![
        AbiValue::Address(target@),
        AbiValue::Bool(true),
        AbiValue::Bytes(bytes),
    ]);
    tuple_token(members)
}

/// The balance that the reply at place `idx` of a batch holds, where that call succeeded.
pub open spec fn mc3_value(decoded: Option<Seq<AbiValue>>, idx: int) -> Option<nat> {
    match decoded {
        None => None,
        Some(values) => if values.len() > 0 && values[0] is Array {
            mc3_member(values[0]->Array_0, idx)
        } else {
            None
        },
    }
}

/// The balance that the reply at place `idx` of a list of replies holds.
pub open spec fn mc3_member(results: Seq<AbiValue>, idx: int) -> Option<nat> {
    if 0 <= idx < results.len() && results[idx] is Tuple {
        let fields = results[idx]->Tuple_0;
        if fields.len() >= 2 && fields[0] == AbiValue::Bool(true) && fields[1] is Bytes
            && fields[1]->Bytes_0.len() >= 32 {
            Some(big_endian(fields[1]->Bytes_0.take(32)))
        } else {
            None
        }
    } else {
        None
    }
}

/// The balance that the reply at place `idx` of a decoded batch holds, where that call succeeded.
pub fn batch_value(decoded: Option<Vec<ethers::abi::Token>>, idx: usize) -> (r: Option<U256>)
    ensures
        r is Some <==> mc3_value(
            match decoded {
                Some(t) => Some(token_values(t@)),
                None => None,
            },
            idx as int,
        ) is Some,
        r matches Some(n) ==> mc3_value(
            match decoded {
                Some(t) => Some(token_values(t@)),
                None => None,
            },
            idx as int,
        ) == Some(n@),
{
    let mut tokens: Vec<ethers::abi::Token> = match decoded {
        Some(t) => t,
        None => return None,
    };
    if tokens.len() == 0 {
        return None;
    }
    let ghost values = token_values(tokens@);
    let first: ethers::abi::Token = tokens.remove(0);
    assert(token_value(first) == values[0]);
    let mut results: Vec<ethers::abi::Token> = match into_array(first) {
        Some(t) => t,
        None => return None,
    };
    if idx >= results.len() {
        return None;
    }
    let ghost members = token_values(results@);
    let chosen: ethers::abi::Token = results.remove(idx);
    assert(token_value(chosen) == members[idx as int]);
    let mut fields: Vec<ethers::abi::Token> = match into_tuple(chosen) {
        Some(t) => t,
        None => return None,
    };
    if fields.len() < 2 {
        return None;
    }
    let ghost parts = token_values(fields@);
    let data: ethers::abi::Token = fields.remove(1);
    let success: ethers::abi::Token = fields.remove(0);
    assert(token_value(data) == parts[1] && token_value(success) == parts[0]);
    match into_bool(success) {
        Some(true) => {},
        _ => return None,
    }
    match into_bytes(data) {
        Some(bytes) => {
            if bytes.len() >= 32 {
                let head: &[u8] = vstd::slice::slice_subrange(bytes.as_slice(), 0, 32);
                assert(head@ =~= bytes@.take(32));
                Some(U256::from_big_endian(head))
            } else {
                None
            }
        },
        None => None,
    }
}

/// The members of a reply of a batch: whether the call succeeded, and what it returned.
pub open spec fn reply_members() -> Seq<AbiLeaf> {
    seq![AbiLeaf::Bool, AbiLeaf::Bytes]
}

/// The balance that the reply at place `idx` of a batch holds, where that call succeeded.
pub fn parse_mc3_uint256(data: &[u8], idx: usize) -> (r: Option<U256>)
    ensures
        r is Some <==> mc3_value(tuple_array_decoding(reply_members(), data@), idx as int) is Some,
        r matches Some(n) ==> mc3_value(tuple_array_decoding(reply_members(), data@), idx as int)
            == Some(n@),
{
    let members: Vec<AbiLeaf> = vec![AbiLeaf::Bool, AbiLeaf::Bytes];
    assert(members@ =~= reply_members());
    batch_value(decode_tuple_array(&members, data), idx)
}

/// How far the question for the providers' balances of an asset has come.
pub enum DepthQuery {
    /// Both balances are asked for in one batch.
    Batched { asset: Address },
    /// The batch has failed; the balance of Balancer is asked for.
    Balancer { asset: Address },
    /// The batch has failed; the balance of Morpho is asked for.
    Morpho { asset: Address, balancer: U256 },
    /// Both balances are known, or taken as zero.
    Known { balancer: U256, morpho: U256 },
}

/// The calldata that asks for the balances of both providers at once.
pub open spec fn depth_data(router: FlashLoanRouter, asset: Seq<u8>) -> Seq<u8> {
    call_data(
        "aggregate3((address,bool,bytes)[])"@,
        seq![
            AbiValue::Array(
                seq![
                    batched_call(asset, balance_data(router.balancer@)),
                    batched_call(asset, balance_data(router.morpho@)),
                ],
            ),
        ],
    )
}

impl DepthQuery {
    /// The contract that is called next.
    pub open spec fn target(self, router: FlashLoanRouter) -> Option<Address> {
        match self {
            DepthQuery::Batched { .. } => Some(router.multicall),
            DepthQuery::Balancer { asset } => Some(asset),
            DepthQuery::Morpho { asset, .. } => Some(asset),
            DepthQuery::Known { .. } => None,
        }
    }

    /// The calldata of the next call.
    pub open spec fn data(self, router: FlashLoanRouter) -> Seq<u8> {
        match self {
            DepthQuery::Batched { asset } => depth_data(router, asset@),
            DepthQuery::Balancer { .. } => balance_data(router.balancer@),
            DepthQuery::Morpho { .. } => balance_data(router.morpho@),
            DepthQuery::Known { .. } => Seq::empty(),
        }
    }

    /// The next call, while a balance is not known.
    pub fn request(&self, router: &FlashLoanRouter) -> (r: Option<CallRequest>)
        ensures
            r is Some <==> !(self is Known),
            r matches Some(call) ==> {
                &&& Some(call.to) == self.target(*router)
                &&& call.data@ == self.data(*router)
            },
    {
        match self {
            DepthQuery::Batched { asset } => {
                let first: Vec<u8> = balance_calldata(router.balancer);
                let second: Vec<u8> = balance_calldata(router.morpho);
                let ghost (b1, b2) = (first@, second@);
                let calls: Vec<ethers::abi::Token> = vec![
                    encode_mc3_call(*asset, first),
                    encode_mc3_call(*asset, second),
                ];
                let ghost values = seq![batched_call(asset@, b1), batched_call(asset@, b2)];
                assert(token_values(calls@) =~= values);
                let tokens: Vec<ethers::abi::Token> = vec![array_token(calls)];
                proof {
                    broadcast use group_room;

                    assert(token_values(tokens@) =~= seq![AbiValue::Array(values)]);
                    lemma_batched_room(asset@, b1);
                    lemma_batched_room(asset@, b2);
                    lemma_room_2(values[0], values[1]);
                }
                let data: Vec<u8> = encode_call("aggregate3((address,bool,bytes)[])", &tokens);
                Some(CallRequest { to: router.multicall, data })
            },
            DepthQuery::Balancer { asset } => Some(balance_of(*asset, router.balancer)),
            DepthQuery::Morpho { asset, .. } => Some(balance_of(*asset, router.morpho)),
            DepthQuery::Known { .. } => None,
        }
    }

    /// The balance in a reply, zero where there is none.
    pub open spec fn plain_balance(reply: Option<Seq<u8>>) -> nat {
        match reply {
            Some(bytes) => big_endian(bytes),
            None => 0,
        }
    }

    /// The balance at a place of the reply to the batch, zero where there is none.
    pub open spec fn batch_balance(reply: Seq<u8>, idx: int) -> nat {
        match mc3_value(tuple_array_decoding(reply_members(), reply), idx) {
            Some(n) => n,
            None => 0,
        }
    }

    /// Takes the reply to the last call, or the lack of one: a balance that is not told counts as
    /// zero, and a batch that fails is replaced by single calls.
    pub fn step(self, reply: Option<Vec<u8>>) -> (r: DepthQuery)
        requires
            (self is Balancer || self is Morpho) && reply is Some ==> reply->0@.len() <= 32,
        ensures
            match self {
                DepthQuery::Batched { asset } => match reply {
                    Some(bytes) => r matches DepthQuery::Known { balancer, morpho }
                        && balancer@ == DepthQuery::batch_balance(bytes@, 0)
                        && morpho@ == DepthQuery::batch_balance(bytes@, 1),
                    None => r == DepthQuery::Balancer { asset },
                },
                DepthQuery::Balancer { asset } => r matches DepthQuery::Morpho { asset: a, balancer }
                    && a == asset && balancer@ == DepthQuery::plain_balance(
                    match reply {
                        Some(bytes) => Some(bytes@),
                        None => None,
                    },
                ),
                DepthQuery::Morpho { balancer: b, .. } => r matches DepthQuery::Known {
                    balancer,
                    morpho,
                } && balancer == b && morpho@ == DepthQuery::plain_balance(
                    match reply {
                        Some(bytes) => Some(bytes@),
                        None => None,
                    },
                ),
                DepthQuery::Known { .. } => r == self,
            },
            !(self is Known) ==> r.ahead() < self.ahead(),
    {
        match self {
            DepthQuery::Batched { asset } => match reply {
                Some(bytes) => {
                    let balancer: U256 = match parse_mc3_uint256(bytes.as_slice(), 0) {
                        Some(n) => n,
                        None => U256::zero(),
                    };
                    let morpho: U256 = match parse_mc3_uint256(bytes.as_slice(), 1) {
                        Some(n) => n,
                        None => U256::zero(),
                    };
                    DepthQuery::Known { balancer, morpho }
                },
                None => DepthQuery::Balancer { asset },
            },
            DepthQuery::Balancer { asset } => {
                let balancer: U256 = match reply {
                    Some(bytes) => read_balance(bytes.as_slice()),
                    None => U256::zero(),
                };
                DepthQuery::Morpho { asset, balancer }
            },
            DepthQuery::Morpho { balancer, .. } => {
                let morpho: U256 = match reply {
                    Some(bytes) => read_balance(bytes.as_slice()),
                    None => U256::zero(),
                };
                DepthQuery::Known { balancer, morpho }
            },
            DepthQuery::Known { balancer, morpho } => DepthQuery::Known { balancer, morpho },
        }
    }

    /// The calls that are still ahead at most.
    pub open spec fn ahead(self) -> nat {
        match self {
            DepthQuery::Batched { .. } => 3,
            DepthQuery::Balancer { .. } => 2,
            DepthQuery::Morpho { .. } => 1,
            DepthQuery::Known { .. } => 0,
        }
    }
}

/// The room of one call of a batch.
proof fn lemma_batched_room(target: Seq<u8>, data: Seq<u8>)
    requires
        data.len() <= 36,
    ensures
        room(batched_call(target, data)) <= 300,
{
    broadcast use group_room;

    lemma_room_3(AbiValue::Address(target), AbiValue::Bool(true), AbiValue::Bytes(data));
}

/// One batch asks the token for the balance of Balancer first and for that of Morpho second; each
/// call may fail without failing the other one.
pub proof fn law_batch_asks_both_lenders(router: FlashLoanRouter, asset: Seq<u8>)
    ensures
        ({
            let ask = |account: Seq<u8>|
                AbiValue::Tuple(
                    seq![
                        AbiValue::Address(asset),
                        AbiValue::Bool(true),
                        AbiValue::Bytes(
                            selector("balanceOf(address)"@) + abi_encoding(
                                seq![AbiValue::Address(account)],
                            ),
                        ),
                    ],
                );
            depth_data(router, asset) == selector("aggregate3((address,bool,bytes)[])"@)
                + abi_encoding(
                seq![AbiValue::Array(seq![ask(router.balancer@), ask(router.morpho@)])],
            )
        }),
{
}

/// Where the batch fails the token is asked twice: for the balance of Balancer, then for that of
/// Morpho.
pub proof fn law_single_questions(router: FlashLoanRouter, asset: Address, held: U256)
    ensures
        (DepthQuery::Batched { asset }).target(router) == Some(router.multicall),
        (DepthQuery::Balancer { asset }).target(router) == Some(asset),
        (DepthQuery::Balancer { asset }).data(router) == balance_data(router.balancer@),
        (DepthQuery::Morpho { asset, balancer: held }).target(router) == Some(asset),
        (DepthQuery::Morpho { asset, balancer: held }).data(router) == balance_data(router.morpho@),
{
}

/// A balance is told at a place of a batch if and only if the reply at that place is a success of
/// thirty-two bytes or more, of which the first thirty-two are the balance.
pub proof fn law_balances_in_a_batch(results: Seq<AbiValue>, idx: int, bytes: Seq<u8>, success: bool)
    requires
        0 <= idx < results.len(),
        results[idx] == AbiValue::Tuple(seq![AbiValue::Bool(success), AbiValue::Bytes(bytes)]),
    ensures
        ({
            let told = mc3_value(Some(seq![AbiValue::Array(results)]), idx);
            &&& told is Some <==> success && bytes.len() >= 32
            &&& told matches Some(n) ==> n == big_endian(bytes.subrange(0, 32))
        }),
        mc3_value(Some(seq![AbiValue::Array(results)]), results.len() as int) is None,
        mc3_value(None, idx) is None,
{
    let fields = seq![AbiValue::Bool(success), AbiValue::Bytes(bytes)];
    assert(fields[0] == AbiValue::Bool(success) && fields[1] == AbiValue::Bytes(bytes));
    assert(seq![AbiValue::Array(results)][0] == AbiValue::Array(results));
    if bytes.len() >= 32 {
        assert(bytes.take(32) =~= bytes.subrange(0, 32));
    }
}

/// A balance that is told is taken as it is, and one that is not told counts as zero.
pub proof fn law_silence_counts_as_nothing(reply: Seq<u8>, idx: int)
    ensures
        DepthQuery::plain_balance(None) == 0,
        DepthQuery::plain_balance(Some(reply)) == big_endian(reply),
        mc3_value(tuple_array_decoding(reply_members(), reply), idx) is None
            ==> DepthQuery::batch_balance(reply, idx) == 0,
        mc3_value(tuple_array_decoding(reply_members(), reply), idx) matches Some(n)
            ==> DepthQuery::batch_balance(reply, idx) == n,
        reply_members().len() == 2 && reply_members()[0] is Bool && reply_members()[1] is Bytes,
{
}

} // verus!
