//! How many bytes the encoding of values takes at most.

use crate::shared::abi::AbiValue;
use vstd::prelude::*;
use vstd::utf8::encode_utf8;

verus! {

/// A number of bytes that is enough for the encoding of one value as an argument.
pub open spec fn room(value: AbiValue) -> nat
    decreases value,
{
    match value {
        AbiValue::Address(_) | AbiValue::Uint(_) | AbiValue::Int(_) | AbiValue::Bool(_) => 32,
        AbiValue::Bytes(bytes) | AbiValue::FixedBytes(bytes) => 96 + bytes.len(),
        AbiValue::Text(text) => 96 + encode_utf8(text).len(),
        AbiValue::Array(values) => 64 + room_all(values),
        AbiValue::FixedArray(values) | AbiValue::Tuple(values) => 32 + room_all(values),
    }
}

/// A number of bytes that is enough for the encoding of a list of arguments.
pub open spec fn room_all(values: Seq<AbiValue>) -> nat
    decreases values,
{
    if values.len() == 0 {
        0
    } else {
        room_all(values.drop_last()) + room(values.last())
    }
}

/// The room of a longer list.
pub broadcast proof fn lemma_room_push(values: Seq<AbiValue>, value: AbiValue)
    ensures
        #[trigger] room_all(values.push(value)) == room_all(values) + room(value),
{
    assert(values.push(value).drop_last() =~= values);
}

/// The room of an empty list.
pub broadcast proof fn lemma_room_none()
    ensures
        #[trigger] room_all(Seq::empty()) == 0,
{
}

/// The room of values of one word.
pub broadcast proof fn lemma_room_word(value: AbiValue)
    requires
        value is Address || value is Uint || value is Int || value is Bool,
    ensures
        #[trigger] room(value) == 32,
{
}

/// The room of bytes.
pub broadcast proof fn lemma_room_bytes(bytes: Seq<u8>)
    ensures
        #[trigger] room(AbiValue::Bytes(bytes)) == 96 + bytes.len(),
{
}

/// The room of an array.
pub broadcast proof fn lemma_room_array(values: Seq<AbiValue>)
    ensures
        #[trigger] room(AbiValue::Array(values)) == 64 + room_all(values),
{
}

/// The room of an array whose length is part of its type.
pub broadcast proof fn lemma_room_fixed_array(values: Seq<AbiValue>)
    ensures
        #[trigger] room(AbiValue::FixedArray(values)) == 32 + room_all(values),
{
}

/// The room of a tuple.
pub broadcast proof fn lemma_room_tuple(values: Seq<AbiValue>)
    ensures
        #[trigger] room(AbiValue::Tuple(values)) == 32 + room_all(values),
{
}

/// How much room values take.
pub broadcast group group_room {
    lemma_room_none,
    lemma_room_push,
    lemma_room_word,
    lemma_room_bytes,
    lemma_room_array,
    lemma_room_fixed_array,
    lemma_room_tuple,
}

/// The room of a list of equal values.
pub proof fn lemma_room_repeated(values: Seq<AbiValue>, each: nat)
    requires
        forall|i: int| 0 <= i < values.len() ==> room(#[trigger] values[i]) <= each,
    ensures
        room_all(values) <= values.len() * each,
    decreases values.len(),
{
    if values.len() > 0 {
        let rest = values.drop_last();
        assert forall|i: int| 0 <= i < rest.len() implies room(#[trigger] rest[i]) <= each by {
            assert(rest[i] == values[i]);
        }
        lemma_room_repeated(rest, each);
        assert(room(values[values.len() - 1]) <= each);
        assert((values.len() - 1) * each + each == values.len() * each) by (nonlinear_arith);
    }
}

/// The room of two lists in a row.
pub proof fn lemma_room_concat(x: Seq<AbiValue>, y: Seq<AbiValue>)
    ensures
        room_all(x + y) == room_all(x) + room_all(y),
    decreases y.len(),
{
    if y.len() == 0 {
        assert(x + y =~= x);
    } else {
        lemma_room_concat(x, y.drop_last());
        assert((x + y).drop_last() =~= x + y.drop_last());
    }
}

/// The room of 2 values.
pub proof fn lemma_room_2(a: AbiValue, b: AbiValue)
    ensures
        room_all(seq![a, b]) == room(a) + room(b),
{
    lemma_room_push(Seq::empty(), a);
    lemma_room_push(Seq::empty(), b);
    lemma_room_concat(seq![a], seq![b]);
    assert(seq![a] + seq![b] =~= seq![a, b]);
}

/// The room of 3 values.
pub proof fn lemma_room_3(a: AbiValue, b: AbiValue, c: AbiValue)
    ensures
        room_all(seq![a, b, c]) == room(a) + room(b) + room(c),
{
    lemma_room_2(a, b);
    lemma_room_push(Seq::empty(), c);
    lemma_room_concat(seq![a, b], seq![c]);
    assert(seq![a, b] + seq![c] =~= seq![a, b, c]);
}

/// The room of 4 values.
pub proof fn lemma_room_4(a: AbiValue, b: AbiValue, c: AbiValue, d: AbiValue)
    ensures
        room_all(seq![a, b, c, d]) == room(a) + room(b) + room(c) + room(d),
{
    lemma_room_2(a, b);
    lemma_room_2(c, d);
    lemma_room_concat(seq![a, b], seq![c, d]);
    assert(seq![a, b] + seq![c, d] =~= seq![a, b, c, d]);
}

/// The room of 5 values.
pub proof fn lemma_room_5(a: AbiValue, b: AbiValue, c: AbiValue, d: AbiValue, e: AbiValue)
    ensures
        room_all(seq![a, b, c, d, e]) == room(a) + room(b) + room(c) + room(d) + room(e),
{
    lemma_room_3(a, b, c);
    lemma_room_2(d, e);
    lemma_room_concat(seq![a, b, c], seq![d, e]);
    assert(seq![a, b, c] + seq![d, e] =~= seq![a, b, c, d, e]);
}

/// The room of 7 values.
pub proof fn lemma_room_7(a: AbiValue, b: AbiValue, c: AbiValue, d: AbiValue, e: AbiValue, f: AbiValue, g: AbiValue)
    ensures
        room_all(seq![a, b, c, d, e, f, g]) == room(a) + room(b) + room(c) + room(d) + room(e) + room(f) + room(g),
{
    lemma_room_4(a, b, c, d);
    lemma_room_3(e, f, g);
    lemma_room_concat(seq![a, b, c, d], seq![e, f, g]);
    assert(seq![a, b, c, d] + seq![e, f, g] =~= seq![a, b, c, d, e, f, g]);
}

/// The room of 8 values.
pub proof fn lemma_room_8(a: AbiValue, b: AbiValue, c: AbiValue, d: AbiValue, e: AbiValue, f: AbiValue, g: AbiValue, h: AbiValue)
    ensures
        room_all(seq![a, b, c, d, e, f, g, h]) == room(a) + room(b) + room(c) + room(d) + room(e) + room(f) + room(g) + room(h),
{
    lemma_room_4(a, b, c, d);
    lemma_room_4(e, f, g, h);
    lemma_room_concat(seq![a, b, c, d], seq![e, f, g, h]);
    assert(seq![a, b, c, d] + seq![e, f, g, h] =~= seq![a, b, c, d, e, f, g, h]);
}

/// The room of 13 values.
pub proof fn lemma_room_13(a: AbiValue, b: AbiValue, c: AbiValue, d: AbiValue, e: AbiValue, f: AbiValue, g: AbiValue, h: AbiValue, i: AbiValue, j: AbiValue, k: AbiValue, l: AbiValue, m: AbiValue)
    ensures
        room_all(seq![a, b, c, d, e, f, g, h, i, j, k, l, m]) == room(a) + room(b) + room(c) + room(d) + room(e) + room(f) + room(g) + room(h) + room(i) + room(j) + room(k) + room(l) + room(m),
{
    lemma_room_8(a, b, c, d, e, f, g, h);
    lemma_room_5(i, j, k, l, m);
    lemma_room_concat(seq![a, b, c, d, e, f, g, h], seq![i, j, k, l, m]);
    assert(seq![a, b, c, d, e, f, g, h] + seq![i, j, k, l, m] =~= seq![a, b, c, d, e, f, g, h, i, j, k, l, m]);
}

} // verus!
