//! Contract calls: selectors and the encoding of their arguments.

use crate::shared::abi::room::room_all;
use crate::shared::address::{Address, Digest};
use crate::u256::U256;
use vstd::prelude::*;
use vstd::utf8::encode_utf8;

pub mod room;

verus! {

/// What a token of a contract call stands for.
pub enum AbiValue {
    Address(Seq<u8>),
    Uint(nat),
    Int(nat),
    Bool(bool),
    Bytes(Seq<u8>),
    FixedBytes(Seq<u8>),
    Text(Seq<char>),
    Array(Seq<AbiValue>),
    FixedArray(Seq<AbiValue>),
    Tuple(Seq<AbiValue>),
}

/// A token of the outside crate, carried through without a look inside.
#[verifier::external_type_specification]
#[verifier::external_body]
pub struct ExToken(ethers::abi::Token);

/// What a token holds.
pub uninterp spec fn token_value(token: ethers::abi::Token) -> AbiValue;

/// What each of several tokens holds.
pub open spec fn token_values(tokens: Seq<ethers::abi::Token>) -> Seq<AbiValue> {
    Seq::new(tokens.len(), |i: int| token_value(tokens[i]))
}

/// The encoding of a list of arguments.
pub uninterp spec fn abi_encoding(values: Seq<AbiValue>) -> Seq<u8>;

/// The Keccak-256 digest of some bytes.
pub uninterp spec fn keccak256_digest(data: Seq<u8>) -> Seq<u8>;

/// The four bytes that select the function of the given signature.
pub open spec fn selector(signature: Seq<char>) -> Seq<u8> {
    keccak256_digest(encode_utf8(signature)).take(4)
}

/// The calldata that calls the function of the given signature with the given arguments.
pub open spec fn call_data(signature: Seq<char>, values: Seq<AbiValue>) -> Seq<u8> {
    selector(signature) + abi_encoding(values)
}

/// Builds `ethers::abi::Token::Address`.
#[verifier::external_body]
pub(crate) fn address_token(a: Address) -> (r: ethers::abi::Token)
    ensures
        token_value(r) == AbiValue::Address(a@),
{
    ethers::abi::Token::Address(ethers::types::H160(a))
}

/// Builds `ethers::abi::Token::Uint`.
#[verifier::external_body]
pub(crate) fn uint_token(n: U256) -> (r: ethers::abi::Token)
    ensures
        token_value(r) == AbiValue::Uint(n@),
{
    ethers::abi::Token::Uint(ethers::types::U256([n.w0, n.w1, n.w2, n.w3]))
}

/// Builds `ethers::abi::Token::Int` from the 256 bits of the integer.
#[verifier::external_body]
pub(crate) fn int_token(n: U256) -> (r: ethers::abi::Token)
    ensures
        token_value(r) == AbiValue::Int(n@),
{
    ethers::abi::Token::Int(ethers::types::U256([n.w0, n.w1, n.w2, n.w3]))
}

/// Builds `ethers::abi::Token::Bool`.
#[verifier::external_body]
pub(crate) fn bool_token(b: bool) -> (r: ethers::abi::Token)
    ensures
        token_value(r) == AbiValue::Bool(b),
{
    ethers::abi::Token::Bool(b)
}

/// Builds `ethers::abi::Token::Bytes`.
#[verifier::external_body]
pub(crate) fn bytes_token(bytes: Vec<u8>) -> (r: ethers::abi::Token)
    ensures
        token_value(r) == AbiValue::Bytes(bytes@),
{
    ethers::abi::Token::Bytes(bytes)
}

/// Builds `ethers::abi::Token::Array`.
#[verifier::external_body]
pub(crate) fn array_token(tokens: Vec<ethers::abi::Token>) -> (r: ethers::abi::Token)
    ensures
        token_value(r) == AbiValue::Array(token_values(tokens@)),
{
    ethers::abi::Token::Array(tokens)
}

/// Builds `ethers::abi::Token::FixedArray`.
#[verifier::external_body]
pub(crate) fn fixed_array_token(tokens: Vec<ethers::abi::Token>) -> (r: ethers::abi::Token)
    ensures
        token_value(r) == AbiValue::FixedArray(token_values(tokens@)),
{
    ethers::abi::Token::FixedArray(tokens)
}

/// Builds `ethers::abi::Token::Tuple`.
#[verifier::external_body]
pub(crate) fn tuple_token(tokens: Vec<ethers::abi::Token>) -> (r: ethers::abi::Token)
    ensures
        token_value(r) == AbiValue::Tuple(token_values(tokens@)),
{
    ethers::abi::Token::Tuple(tokens)
}

/// Calls `ethers::abi::encode`, whose result depends on what the tokens hold and on nothing else.
/// Its lengths and offsets are 32-bit integers, so the room that the tokens take is bounded; the
/// encoding takes no more than that room.
#[verifier::external_body]
pub(crate) fn encode_tokens(tokens: &Vec<ethers::abi::Token>) -> (r: Vec<u8>)
    requires
        room_all(token_values(tokens@)) <= u32::MAX,
    ensures
        r@ == abi_encoding(token_values(tokens@)),
        r@.len() <= room_all(token_values(tokens@)),
{
    ethers::abi::encode(tokens)
}

/// Calls `ethers::utils::keccak256`: the Keccak-256 digest of the bytes.
#[verifier::external_body]
pub(crate) fn keccak256(data: &[u8]) -> (r: Digest)
    ensures
        r@ == keccak256_digest(data@),
{
    ethers::utils::keccak256(data)
}

/// The four bytes that select the function of the given signature.
pub fn function_selector(signature: &str) -> (r: Vec<u8>)
    ensures
        r@ == selector(signature@),
        r@.len() == 4,
{
    let digest: Digest = keccak256(signature.as_bytes());
    let r: Vec<u8> = vec![digest[0], digest[1], digest[2], digest[3]];
    assert(r@ =~= digest@.take(4));
    r
}

/// The calldata that calls the function of the given signature with the given arguments.
pub(crate) fn encode_call(signature: &str, tokens: &Vec<ethers::abi::Token>) -> (r: Vec<u8>)
    requires
        room_all(token_values(tokens@)) <= u32::MAX,
    ensures
        r@ == call_data(signature@, token_values(tokens@)),
        r@.len() <= 4 + room_all(token_values(tokens@)),
{
    let mut r: Vec<u8> = function_selector(signature);
    let mut arguments: Vec<u8> = encode_tokens(tokens);
    r.append(&mut arguments);
    r
}

/// The types of the members of a tuple that is decoded.
#[derive(Clone, Copy, Debug, PartialEq, Eq, Structural)]
pub enum AbiLeaf {
    Bool,
    Bytes,
}

/// What decoding some bytes as one array of tuples with the given members gives: the values, or
/// nothing where the bytes are no such encoding.
pub uninterp spec fn tuple_array_decoding(members: Seq<AbiLeaf>, data: Seq<u8>) -> Option<Seq<AbiValue>>;

/// Calls `ethers::abi::decode` with one parameter type, an array of tuples with the given
/// members. The result depends on the members and the bytes and on nothing else.
#[verifier::external_body]
pub(crate) fn decode_tuple_array(members: &Vec<AbiLeaf>, data: &[u8]) -> (r: Option<Vec<ethers::abi::Token>>)
    requires
        members@.len() > 0,
    ensures
        r is Some <==> tuple_array_decoding(members@, data@) is Some,
        r matches Some(t) ==> Some(token_values(t@)) == tuple_array_decoding(members@, data@),
{
    let leaves = members.iter().map(|m| match m {
        AbiLeaf::Bool => ethers::abi::ParamType::Bool,
        AbiLeaf::Bytes => ethers::abi::ParamType::Bytes,
    });
    let tuple = ethers::abi::ParamType::Tuple(leaves.collect());
    ethers::abi::decode(&[ethers::abi::ParamType::Array(Box::new(tuple))], data).ok()
}

/// Calls `ethers::abi::Token::into_array`: the members of a dynamic array, and nothing for any
/// other token.
#[verifier::external_body]
pub(crate) fn into_array(token: ethers::abi::Token) -> (r: Option<Vec<ethers::abi::Token>>)
    ensures
        r is Some <==> token_value(token) is Array,
        r matches Some(t) ==> token_value(token) == AbiValue::Array(token_values(t@)),
{
    token.into_array()
}

/// Calls `ethers::abi::Token::into_tuple`: the members of a tuple, and nothing for any other
/// token.
#[verifier::external_body]
pub(crate) fn into_tuple(token: ethers::abi::Token) -> (r: Option<Vec<ethers::abi::Token>>)
    ensures
        r is Some <==> token_value(token) is Tuple,
        r matches Some(t) ==> token_value(token) == AbiValue::Tuple(token_values(t@)),
{
    token.into_tuple()
}

/// Calls `ethers::abi::Token::into_bool`: the value of a boolean token, and nothing for any other
/// token.
#[verifier::external_body]
pub(crate) fn into_bool(token: ethers::abi::Token) -> (r: Option<bool>)
    ensures
        r is Some <==> token_value(token) is Bool,
        r matches Some(b) ==> token_value(token) == AbiValue::Bool(b),
{
    token.into_bool()
}

/// Calls `ethers::abi::Token::into_bytes`: the bytes of a token that holds bytes of unknown
/// number, and nothing for any other token.
#[verifier::external_body]
pub(crate) fn into_bytes(token: ethers::abi::Token) -> (r: Option<Vec<u8>>)
    ensures
        r is Some <==> token_value(token) is Bytes,
        r matches Some(b) ==> token_value(token) == AbiValue::Bytes(b@),
{
    token.into_bytes()
}

} // verus!
