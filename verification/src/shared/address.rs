//! Addresses of the chain.

use crate::shared::text::{
    digit_value, encode_hex, hex_bytes, hex_text, law_hex_round_trip,
};
use vstd::prelude::*;
use vstd::string::*;

verus! {

/// An address: twenty bytes.
pub type Address = [u8; 20];

/// A hash: thirty-two bytes.
pub type Digest = [u8; 32];

/// Whether a character is one of the blanks that may stand between the digits of an address.
pub open spec fn blank(c: char) -> bool {
    c == ' ' || c == '\t' || c == '\r' || c == '\n'
}

/// The bytes of the address that a text stands for: forty hexadecimal digits of either case,
/// behind an optional `0x`, with blanks anywhere behind it.
pub open spec fn parsed_address(text: Seq<char>) -> Option<Seq<u8>> {
    let body = if text.len() >= 2 && text[0] == '0' && text[1] == 'x' {
        text.skip(2)
    } else {
        text
    };
    match hex_bytes(body.filter(|c: char| !blank(c))) {
        Some(bytes) => if bytes.len() == 20 {
            Some(bytes)
        } else {
            None
        },
        None => None,
    }
}

/// Whether every byte is zero.
pub open spec fn all_zero(bytes: Seq<u8>) -> bool {
    forall|i: int| 0 <= i < bytes.len() ==> bytes[i] == 0
}

/// The text of an address: `0x` and forty lower-case hexadecimal digits.
pub open spec fn address_text(bytes: Seq<u8>) -> Seq<char> {
    seq!['0', 'x'] + hex_text(bytes)
}

/// Calls `ethers::types::Address::from_str`: the address that a text stands for, and nothing
/// where the text, without `0x` in front and without blanks, is not forty hexadecimal digits.
#[verifier::external_body]
pub(crate) fn parse_address(text: &str) -> (r: Option<Address>)
    ensures
        r is Some <==> parsed_address(text@) is Some,
        r matches Some(a) ==> Some(a@) == parsed_address(text@),
{
    text.parse::<ethers::types::Address>().ok().map(|a| a.0)
}

/// The address of the given bytes.
pub open spec fn address_from(bytes: Seq<u8>) -> Address {
    choose|a: Address| a@ == bytes
}

/// The address of twenty zeros.
pub open spec fn no_address() -> Address {
    address_from(Seq::new(20, |i: int| 0u8))
}

/// The address that a text stands for.
pub open spec fn told_address(text: Seq<char>) -> Option<Address> {
    match parsed_address(text) {
        Some(bytes) => Some(address_from(bytes)),
        None => None,
    }
}

/// An address is the one of its bytes.
pub proof fn lemma_address_from(a: Address)
    ensures
        address_from(a@) == a,
{
    lemma_same_bytes(address_from(a@), a);
}

/// The address that a text stands for.
pub fn read_address(text: &str) -> (r: Option<Address>)
    ensures
        r == told_address(text@),
        r is Some <==> parsed_address(text@) is Some,
        r matches Some(a) ==> Some(a@) == parsed_address(text@),
{
    let r: Option<Address> = parse_address(text);
    proof {
        if r is Some {
            lemma_address_from(r->0);
        }
    }
    r
}

/// The address of twenty zeros.
pub fn zero_address() -> (r: Address)
    ensures
        r == no_address(),
        all_zero(r@),
{
    let r: Address = [0u8; 20];
    proof {
        assert(r@ =~= Seq::new(20, |i: int| 0u8));
        lemma_address_from(r);
    }
    r
}

/// The address that a text stands for, or the one of twenty zeros.
pub open spec fn address_or_zero(text: Seq<char>) -> Address {
    match told_address(text) {
        Some(a) => a,
        None => no_address(),
    }
}

/// The address that a text stands for, or the one of twenty zeros.
pub fn read_address_or_zero(text: &str) -> (r: Address)
    ensures
        r == address_or_zero(text@),
{
    match read_address(text) {
        Some(a) => a,
        None => zero_address(),
    }
}

/// Whether every byte of an address is zero.
pub fn is_zero_address(a: &Address) -> (r: bool)
    ensures
        r == all_zero(a@),
{
    let mut i: usize = 0;
    while i < 20
        invariant
            i <= 20,
            forall|j: int| 0 <= j < i ==> a@[j] == 0,
        decreases 20 - i,
    {
        if a[i] != 0 {
            assert(a@[i as int] != 0);
            return false;
        }
        i = i + 1;
    }
    true
}

/// Whether two addresses are equal.
pub fn same_address(a: &Address, b: &Address) -> (r: bool)
    ensures
        r == (a == b),
        r == (a@ == b@),
{
    let mut i: usize = 0;
    while i < 20
        invariant
            i <= 20,
            forall|j: int| 0 <= j < i ==> a@[j] == b@[j],
        decreases 20 - i,
    {
        if a[i] != b[i] {
            assert(a@[i as int] != b@[i as int]);
            return false;
        }
        i = i + 1;
    }
    assert(a@ =~= b@);
    assert(*a =~= *b);
    true
}

/// Equal bytes are equal addresses.
pub proof fn lemma_same_bytes(a: Address, b: Address)
    ensures
        a == b <==> a@ == b@,
{
    if a@ == b@ {
        assert forall|i: int| 0 <= i < 20 implies a[i] == b[i] by {
            assert(a@[i] == b@[i]);
        }
        assert(a =~= b);
    }
}

/// The text of an address: `0x` and forty lower-case hexadecimal digits.
pub fn write_address(a: &Address) -> (r: String)
    ensures
        r@ == address_text(a@),
{
    let mut s: String = String::from_str("0x");
    proof {
        reveal_strlit("0x");
        assert("0x"@ =~= seq!['0', 'x']);
    }
    let digits: String = encode_hex(a.as_slice());
    s.append(digits.as_str());
    s
}

/// The address in the last twenty of the thirty-two bytes that start at `at`.
pub fn address_at(bytes: &[u8], at: usize) -> (r: Address)
    requires
        at + 32 <= bytes@.len(),
    ensures
        r@ == bytes@.subrange(at + 12, at + 32),
{
    let mut a: Address = [0u8; 20];
    let n: usize = bytes.len();
    let mut i: usize = 0;
    while i < 20
        invariant
            i <= 20,
            n == bytes@.len(),
            at + 32 <= n,
            forall|j: int| 0 <= j < i ==> a@[j] == bytes@[at + 12 + j],
        decreases 20 - i,
    {
        a[i] = bytes[at + 12 + i];
        i = i + 1;
    }
    assert(a@ =~= bytes@.subrange(at + 12, at + 32));
    a
}

/// Nothing is blank among hexadecimal digits.
proof fn lemma_no_blanks(text: Seq<char>)
    requires
        forall|i: int| 0 <= i < text.len() ==> digit_value(#[trigger] text[i]) is Some,
    ensures
        text.filter(|c: char| !blank(c)) == text,
    decreases text.len(),
{
    reveal(Seq::filter);
    let keep = |c: char| !blank(c);
    if text.len() > 0 {
        assert(digit_value(text[text.len() - 1]) is Some);
        assert forall|i: int| 0 <= i < text.drop_last().len() implies digit_value(
            #[trigger] text.drop_last()[i],
        ) is Some by {
            assert(digit_value(text[i]) is Some);
        }
        lemma_no_blanks(text.drop_last());
        assert(text.drop_last().push(text.last()) =~= text);
        assert(keep(text.last()));
    }
}

/// The text of an address is read back as that address.
pub proof fn law_address_round_trip(a: Address)
    ensures
        parsed_address(address_text(a@)) == Some(a@),
{
    let text = address_text(a@);
    law_hex_round_trip(a@);
    assert(text.skip(2) =~= hex_text(a@));
    assert forall|i: int| 0 <= i < hex_text(a@).len() implies digit_value(
        #[trigger] hex_text(a@)[i],
    ) is Some by {}
    lemma_no_blanks(hex_text(a@));
}

} // verus!
