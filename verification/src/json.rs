//! Reading JSON text.

use serde_json::Value;
use vstd::prelude::*;

verus! {

/// What a JSON value is.
pub enum Json {
    Null,
    Bool(bool),
    /// A whole number that was written as one.
    Int(int),
    /// Any other number.
    Fraction,
    Str(Seq<char>),
    Array(Seq<Json>),
    Object(Map<Seq<char>, Json>),
}

/// The values of `serde_json`.
#[verifier::external_type_specification]
#[verifier::external_body]
pub struct ExValue(serde_json::Value);

/// The errors of `serde_json`.
#[verifier::external_type_specification]
#[verifier::external_body]
pub struct ExError(serde_json::Error);

/// What a value of `serde_json` holds.
pub uninterp spec fn json_of(v: Value) -> Json;

/// What `serde_json::from_slice` reads from these bytes; `None` where they are no JSON text that it
/// accepts.
pub uninterp spec fn parsed(bytes: Seq<u8>) -> Option<Json>;

/// What some values hold.
pub open spec fn jsons(list: Seq<Value>) -> Seq<Json> {
    list.map_values(|v: Value| json_of(v))
}

/// What some values hold.
pub open spec fn ref_jsons(list: Seq<&Value>) -> Seq<Json> {
    list.map_values(|v: &Value| json_of(*v))
}

/// The member of an object under a key; null where there is none, or no object.
pub open spec fn member_of(j: Json, key: Seq<char>) -> Json {
    match j {
        Json::Object(m) => if m.contains_key(key) {
            m[key]
        } else {
            Json::Null
        },
        _ => Json::Null,
    }
}

/// Do the items hold every value of the map, and nothing else?
pub open spec fn lists_values(items: Seq<Json>, m: Map<Seq<char>, Json>) -> bool {
    &&& forall|i: int|
        0 <= i < items.len() ==> exists|k: Seq<char>|
            m.contains_key(k) && #[trigger] m[k] == #[trigger] items[i]
    &&& forall|k: Seq<char>| #[trigger] m.contains_key(k) ==> items.contains(m[k])
}

/// Calls `serde_json::from_slice` for a `serde_json::Value`. The claim: whether the bytes are read,
/// and what is read, depends on the bytes alone.
#[verifier::external_body]
pub(crate) fn parse(bytes: &[u8]) -> (r: Result<Value, serde_json::Error>)
    ensures
        r is Ok <==> parsed(bytes@) is Some,
        r matches Ok(v) ==> parsed(bytes@) == Some(json_of(v)),
{
    serde_json::from_slice(bytes)
}

/// `Value::as_array` gives the items of an array, in order, and nothing for any other value.
pub assume_specification[ Value::as_array ](v: &Value) -> (r: Option<&Vec<Value>>)
    ensures
        match json_of(*v) {
            Json::Array(items) => r matches Some(a) && jsons(a@) == items,
            _ => r is None,
        },
;

/// `Value::as_bool` gives a truth value, and nothing for any other value.
pub assume_specification[ Value::as_bool ](v: &Value) -> (r: Option<bool>)
    ensures
        match json_of(*v) {
            Json::Bool(b) => r == Some(b),
            _ => r is None,
        },
;

/// `Value::as_str` gives the text of a string, and nothing for any other value.
pub assume_specification[ Value::as_str ](v: &Value) -> (r: Option<&str>)
    ensures
        match json_of(*v) {
            Json::Str(s) => r matches Some(t) && t@ == s,
            _ => r is None,
        },
;

/// `Value::as_i64` gives a whole number that fits in 64 signed bits, and nothing for any other
/// value.
pub assume_specification[ Value::as_i64 ](v: &Value) -> (r: Option<i64>)
    ensures
        match json_of(*v) {
            Json::Int(n) => if i64::MIN <= n <= i64::MAX {
                r == Some(n as i64)
            } else {
                r is None
            },
            _ => r is None,
        },
;

/// `Value::as_u64` gives a whole number that fits in 64 unsigned bits, and nothing for any other
/// value.
pub assume_specification[ Value::as_u64 ](v: &Value) -> (r: Option<u64>)
    ensures
        match json_of(*v) {
            Json::Int(n) => if 0 <= n <= u64::MAX {
                r == Some(n as u64)
            } else {
                r is None
            },
            _ => r is None,
        },
;

/// Indexes a value by a key, with the `Index` implementation of `Value`. The claim: it gives the
/// member under that key, and null where there is none.
#[verifier::external_body]
pub(crate) fn member<'a>(v: &'a Value, key: &str) -> (r: &'a Value)
    ensures
        json_of(*r) == member_of(json_of(*v), key@),
{
    &v[key]
}

/// Calls `Value::as_object` and `Map::values`. The claim: the result holds every member of an
/// object, and there is none for any other value. The order is left open.
#[verifier::external_body]
pub(crate) fn object_values(v: &Value) -> (r: Option<Vec<&Value>>)
    ensures
        match json_of(*v) {
            Json::Object(m) => r matches Some(list) && lists_values(ref_jsons(list@), m),
            _ => r is None,
        },
{
    v.as_object().map(|o| o.values().collect())
}

/// A member of an object is what the object holds under its name. What it does not hold is null, and
/// so is every member of what is no object.
pub proof fn members_are_found_by_name(m: Map<Seq<char>, Json>, key: Seq<char>, other: Json)
    ensures
        m.contains_key(key) ==> member_of(Json::Object(m), key) == m[key],
        !m.contains_key(key) ==> member_of(Json::Object(m), key) is Null,
        !(other is Object) ==> member_of(other, key) is Null,
{
}

} // verus!
