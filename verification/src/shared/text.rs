//! Text: hexadecimal and decimal numerals, and search.

use vstd::arithmetic::div_mod::{lemma_div_decreases, lemma_fundamental_div_mod, lemma_mod_bound};
use vstd::prelude::*;
use vstd::string::*;

verus! {

/// The digit that stands for a value below sixteen.
pub open spec fn digit(v: nat) -> char {
    if v < 10 {
        ('0' as nat + v) as char
    } else {
        ('a' as nat + v - 10) as char
    }
}

/// The value of a hexadecimal digit, of either case.
pub open spec fn digit_value(c: char) -> Option<nat> {
    if '0' <= c && c <= '9' {
        Some((c as nat - '0' as nat) as nat)
    } else if 'a' <= c && c <= 'f' {
        Some((c as nat - 'a' as nat + 10) as nat)
    } else if 'A' <= c && c <= 'F' {
        Some((c as nat - 'A' as nat + 10) as nat)
    } else {
        None
    }
}

/// Bytes as pairs of hexadecimal digits, the upper half of a byte first.
pub open spec fn hex_text(bytes: Seq<u8>) -> Seq<char> {
    Seq::new(
        2 * bytes.len(),
        |i: int|
            digit(
                (if i % 2 == 0 {
                    bytes[i / 2] / 16
                } else {
                    bytes[i / 2] % 16
                }) as nat,
            ),
    )
}

/// The bytes that pairs of hexadecimal digits stand for, where the text holds nothing else.
pub open spec fn hex_bytes(text: Seq<char>) -> Option<Seq<u8>> {
    if text.len() % 2 == 0 && forall|i: int|
        0 <= i < text.len() ==> digit_value(#[trigger] text[i]) is Some {
        Some(
            Seq::new(
                text.len() / 2,
                |i: int|
                    (digit_value(text[2 * i])->0 * 16 + digit_value(text[2 * i + 1])->0) as u8,
            ),
        )
    } else {
        None
    }
}

/// The numeral of `n` in the given base, without leading zeros.
pub open spec fn numeral(n: nat, base: nat) -> Seq<char>
    decreases n,
{
    if n < base || base < 2 {
        seq![digit(n)]
    } else {
        proof {
            lemma_div_decreases(n as int, base as int);
        }
        numeral(n / base, base).push(digit(n % base))
    }
}

/// Digits keep their values.
proof fn lemma_digit(v: nat)
    requires
        v < 16,
    ensures
        digit_value(digit(v)) == Some(v),
{
}

/// Bytes survive their way through hexadecimal text.
pub proof fn law_hex_round_trip(bytes: Seq<u8>)
    ensures
        hex_bytes(hex_text(bytes)) == Some(bytes),
{
    let text = hex_text(bytes);
    assert forall|i: int| 0 <= i < text.len() implies digit_value(#[trigger] text[i]) is Some by {
        lemma_digit((bytes[i / 2] / 16) as nat);
        lemma_digit((bytes[i / 2] % 16) as nat);
    }
    let back = hex_bytes(text)->0;
    assert forall|i: int| 0 <= i < bytes.len() implies #[trigger] back[i] == bytes[i] by {
        lemma_digit((bytes[i] / 16) as nat);
        lemma_digit((bytes[i] % 16) as nat);
        assert((2 * i) / 2 == i && (2 * i) % 2 == 0);
        assert((2 * i + 1) / 2 == i && (2 * i + 1) % 2 == 1);
    }
    assert(back =~= bytes);
}

/// Calls `hex::encode`: the bytes as pairs of lower-case hexadecimal digits.
#[verifier::external_body]
pub(crate) fn encode_hex(bytes: &[u8]) -> (r: String)
    ensures
        r@ == hex_text(bytes@),
{
    hex::encode(bytes)
}

/// Calls `hex::decode`: the bytes that the digits stand for, of either case, and nothing where
/// their number is odd or something else is among them.
#[verifier::external_body]
pub(crate) fn decode_hex(text: &str) -> (r: Option<Vec<u8>>)
    ensures
        r is Some <==> hex_bytes(text@) is Some,
        r matches Some(bytes) ==> Some(bytes@) == hex_bytes(text@),
{
    hex::decode(text).ok()
}

/// The digit that stands for a value below sixteen, as text.
fn digit_text(v: u64) -> (r: &'static str)
    requires
        v < 16,
    ensures
        r@ == seq![digit(v as nat)],
{
    proof {
        reveal_strlit("0");
        reveal_strlit("1");
        reveal_strlit("2");
        reveal_strlit("3");
        reveal_strlit("4");
        reveal_strlit("5");
        reveal_strlit("6");
        reveal_strlit("7");
        reveal_strlit("8");
        reveal_strlit("9");
        reveal_strlit("a");
        reveal_strlit("b");
        reveal_strlit("c");
        reveal_strlit("d");
        reveal_strlit("e");
        reveal_strlit("f");
    }
    match v {
        0 => "0",
        1 => "1",
        2 => "2",
        3 => "3",
        4 => "4",
        5 => "5",
        6 => "6",
        7 => "7",
        8 => "8",
        9 => "9",
        10 => "a",
        11 => "b",
        12 => "c",
        13 => "d",
        14 => "e",
        _ => "f",
    }
}

/// The numeral of `n` in the given base, without leading zeros.
pub fn write_numeral(n: u64, base: u64) -> (r: String)
    requires
        2 <= base <= 16,
    ensures
        r@ == numeral(n as nat, base as nat),
    decreases n,
{
    if n < base {
        String::from_str(digit_text(n))
    } else {
        proof {
            lemma_div_decreases(n as int, base as int);
        }
        let mut s: String = write_numeral(n / base, base);
        s.append(digit_text(n % base));
        assert(s@ =~= numeral(n as nat, base as nat));
        s
    }
}

/// Whether the text holds nothing but zeros.
pub fn all_zeros(text: &str) -> (r: bool)
    ensures
        r == forall|i: int| 0 <= i < text@.len() ==> text@[i] == '0',
{
    let n: usize = text.unicode_len();
    let mut i: usize = 0;
    while i < n
        invariant
            n == text@.len(),
            i <= n,
            forall|j: int| 0 <= j < i ==> text@[j] == '0',
        decreases n - i,
    {
        if text.get_char(i) != '0' {
            return false;
        }
        i = i + 1;
    }
    true
}

/// The value of a numeral in the given base.
pub open spec fn numeral_value(text: Seq<char>, base: nat) -> nat
    decreases text.len(),
{
    if text.len() == 0 {
        0
    } else {
        numeral_value(text.drop_last(), base) * base + digit_value(text.last())->0
    }
}

/// A numeral has the value of its number; it has no leading zero but for zero itself.
pub proof fn law_numeral_round_trip(n: nat, base: nat)
    requires
        2 <= base <= 16,
    ensures
        numeral_value(numeral(n, base), base) == n,
        numeral(n, base).len() > 0,
        n > 0 ==> numeral(n, base)[0] != '0',
        forall|i: int| 0 <= i < numeral(n, base).len() ==> digit_value(numeral(n, base)[i]) is Some,
    decreases n,
{
    let text = numeral(n, base);
    if n < base {
        lemma_digit(n);
        assert(text.drop_last() =~= Seq::<char>::empty());
        assert(numeral_value(text.drop_last(), base) == 0);
        assert(0 * base == 0);
    } else {
        lemma_div_decreases(n as int, base as int);
        lemma_fundamental_div_mod(n as int, base as int);
        lemma_mod_bound(n as int, base as int);
        assert(n / base > 0) by (nonlinear_arith)
            requires
                n >= base,
                base > 0,
        ;
        law_numeral_round_trip(n / base, base);
        lemma_digit(n % base);
        assert(text.drop_last() =~= numeral(n / base, base));
        assert((n / base) * base == base * (n / base)) by (nonlinear_arith);
        assert forall|i: int| 0 <= i < text.len() implies digit_value(text[i]) is Some by {
            if i < text.len() - 1 {
                assert(text[i] == numeral(n / base, base)[i]);
            }
        }
    }
}

} // verus!
