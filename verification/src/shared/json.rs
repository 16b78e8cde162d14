//! JSON values, as the remote procedure calls carry them.

use crate::shared::text::numeral;
use vstd::prelude::*;

verus! {

/// What a JSON value stands for. A scalar that is no text stands for itself, as it is written.
pub enum JsonValue {
    Scalar(Seq<char>),
    Text(Seq<char>),
    List(Seq<JsonValue>),
    Object(Map<Seq<char>, JsonValue>),
}

/// A JSON value of the outside crate.
#[verifier::external_type_specification]
#[verifier::external_body]
pub struct ExValue(serde_json::Value);

/// A JSON object of the outside crate.
#[verifier::external_type_specification]
#[verifier::external_body]
#[verifier::reject_recursive_types(K)]
#[verifier::reject_recursive_types(V)]
pub struct ExJsonMap<K, V>(serde_json::Map<K, V>);

/// A serialization error of the outside crate.
#[verifier::external_type_specification]
#[verifier::external_body]
pub struct ExJsonError(serde_json::Error);

/// What a JSON value holds.
pub uninterp spec fn json_value(value: serde_json::Value) -> JsonValue;

/// What the members of a JSON object hold.
pub uninterp spec fn json_members(map: serde_json::Map<String, serde_json::Value>) -> Map<
    Seq<char>,
    JsonValue,
>;

/// What each of several JSON values holds.
pub open spec fn json_values(values: Seq<serde_json::Value>) -> Seq<JsonValue> {
    Seq::new(values.len(), |i: int| json_value(values[i]))
}

/// The text of a JSON value, in bytes.
pub uninterp spec fn json_text(value: JsonValue) -> Seq<u8>;

/// The JSON value that some bytes are the text of, or nothing where they are no such text.
pub uninterp spec fn json_parse(bytes: Seq<u8>) -> Option<JsonValue>;

/// Builds `serde_json::Value::String`.
#[verifier::external_body]
pub(crate) fn json_string(text: String) -> (r: serde_json::Value)
    ensures
        json_value(r) == JsonValue::Text(text@),
{
    serde_json::Value::String(text)
}

/// Calls `serde_json::Value::from` on an unsigned integer, whose text is its decimal numeral.
#[verifier::external_body]
pub(crate) fn json_number(n: u64) -> (r: serde_json::Value)
    ensures
        json_value(r) == JsonValue::Scalar(numeral(n as nat, 10)),
{
    serde_json::Value::from(n)
}

/// Builds `serde_json::Value::Array`.
#[verifier::external_body]
pub(crate) fn json_list(values: Vec<serde_json::Value>) -> (r: serde_json::Value)
    ensures
        json_value(r) == JsonValue::List(json_values(values@)),
{
    serde_json::Value::Array(values)
}

/// Builds `serde_json::Value::Object`.
#[verifier::external_body]
pub(crate) fn json_object(map: serde_json::Map<String, serde_json::Value>) -> (r: serde_json::Value)
    ensures
        json_value(r) == JsonValue::Object(json_members(map)),
{
    serde_json::Value::Object(map)
}

/// Calls `serde_json::Map::new`: an object without members.
#[verifier::external_body]
pub(crate) fn json_map() -> (r: serde_json::Map<String, serde_json::Value>)
    ensures
        json_members(r) == (Map::<Seq<char>, JsonValue>::empty()),
{
    serde_json::Map::new()
}

/// Calls `serde_json::Map::insert`: sets one member of an object.
#[verifier::external_body]
pub(crate) fn json_set(
    map: &mut serde_json::Map<String, serde_json::Value>,
    key: String,
    value: serde_json::Value,
)
    ensures
        json_members(*final(map)) == json_members(*old(map)).insert(key@, json_value(value)),
{
    map.insert(key, value);
}

/// Calls `serde_json::to_vec` on a JSON value, which never fails: the names of its members are
/// texts, and nothing in it refuses to be written. The bytes depend on what the value holds and
/// on nothing else.
#[verifier::external_body]
pub(crate) fn json_bytes(value: &serde_json::Value) -> (r: Result<Vec<u8>, serde_json::Error>)
    ensures
        r is Ok,
        r matches Ok(bytes) ==> bytes@ == json_text(json_value(*value)),
{
    serde_json::to_vec(value)
}

/// Calls `serde_json::from_slice`: the value that the bytes are the text of, or nothing where they
/// are no such text. The result depends on the bytes and on nothing else.
#[verifier::external_body]
pub(crate) fn parse_json(bytes: &[u8]) -> (r: Option<serde_json::Value>)
    ensures
        r is Some <==> json_parse(bytes@) is Some,
        r matches Some(v) ==> Some(json_value(v)) == json_parse(bytes@),
{
    serde_json::from_slice(bytes).ok()
}

/// Calls `serde_json::Value::get` with a text: whether an object has a member of that name. No
/// other value has members.
#[verifier::external_body]
pub(crate) fn has_member(value: &serde_json::Value, key: &str) -> (r: bool)
    ensures
        r == (json_value(*value) matches JsonValue::Object(m) && m.dom().contains(key@)),
{
    value.get(key).is_some()
}

} // verus!
