//! The data handed to the template engine, as JSON values.
use crate::value::keys_increasing;
use vstd::prelude::*;

verus! {

/// What a JSON value holds.
pub enum JsonTree {
    Null,
    Bool(bool),
    Int(i64),
    /// A number beyond `i64`, with the value of the given YAML number: a
    /// finite double, or an integer above `i64::MAX`.
    Float(serde_yaml::Number),
    Str(Seq<char>),
    Array(Seq<JsonTree>),
    /// The members in increasing key order.
    Object(Seq<(Seq<char>, JsonTree)>),
}

/// The contents of a JSON value.
pub uninterp spec fn json_tree(v: serde_json::Value) -> JsonTree;

/// Relies on `serde_json::Value::Null`.
#[verifier::external_body]
pub(crate) fn json_null() -> (r: serde_json::Value)
    ensures
        json_tree(r) == JsonTree::Null,
{
    serde_json::Value::Null
}

/// Relies on `serde_json::Value::Bool`.
#[verifier::external_body]
pub(crate) fn json_bool(b: bool) -> (r: serde_json::Value)
    ensures
        json_tree(r) == JsonTree::Bool(b),
{
    serde_json::Value::Bool(b)
}

/// Relies on `serde_json::Value`'s `From<i64>`: an integer number.
#[verifier::external_body]
pub(crate) fn json_int(i: i64) -> (r: serde_json::Value)
    ensures
        json_tree(r) == JsonTree::Int(i),
{
    serde_json::Value::from(i)
}

/// Whether a YAML number is neither infinite nor NaN
/// (`serde_yaml::Number::is_finite`).
pub uninterp spec fn number_is_finite(n: serde_yaml::Number) -> bool;

/// The value of a YAML number as an `i64`, where it has one
/// (`serde_yaml::Number::as_i64`).
pub uninterp spec fn number_as_i64(n: serde_yaml::Number) -> Option<i64>;

/// The JSON form of a YAML number: `null` where it is not finite, an
/// integer where it fits `i64`, else a number of the same value.
pub open spec fn json_of_number(n: serde_yaml::Number) -> JsonTree {
    if !number_is_finite(n) {
        JsonTree::Null
    } else {
        match number_as_i64(n) {
            Some(i) => JsonTree::Int(i),
            None => JsonTree::Float(n),
        }
    }
}

/// Relies on `serde_json::to_value` of a `serde_yaml::Number`, which
/// serializes as `i64`, `u64` or `f64`; serde_json makes a non-finite `f64`
/// `Null`.
#[verifier::external_body]
pub(crate) fn json_number(n: &serde_yaml::Number) -> (r: serde_json::Value)
    ensures
        !number_is_finite(*n) ==> json_tree(r) == JsonTree::Null,
        number_is_finite(*n) && number_as_i64(*n) is Some ==> json_tree(r) == JsonTree::Int(number_as_i64(*n)->0),
        number_is_finite(*n) && number_as_i64(*n) is None ==> json_tree(r) == JsonTree::Float(*n),
{
    serde_json::to_value(n).unwrap_or(serde_json::Value::Null)
}

/// Relies on `serde_json::Value::String`.
#[verifier::external_body]
pub(crate) fn json_string(s: String) -> (r: serde_json::Value)
    ensures
        json_tree(r) == JsonTree::Str(s@),
{
    serde_json::Value::String(s)
}

/// Relies on `serde_json::Value::Array`: the elements in order.
#[verifier::external_body]
pub(crate) fn json_array(items: Vec<serde_json::Value>) -> (r: serde_json::Value)
    ensures
        json_tree(r) is Array,
        json_tree(r)->Array_0.len() == items@.len(),
        forall|k: int| 0 <= k < items@.len() ==> json_tree(#[trigger] items@[k]) == json_tree(r)->Array_0[k],
{
    serde_json::Value::Array(items)
}

/// Relies on `serde_json::Value::Object` built from its members by
/// `serde_json::Map`'s `FromIterator`; the map keeps its keys in increasing
/// order, so members given in that order stay in it.
#[verifier::external_body]
pub(crate) fn json_object(members: Vec<(String, serde_json::Value)>) -> (r: serde_json::Value)
    requires
        keys_increasing(members@),
    ensures
        json_tree(r) is Object,
        json_tree(r)->Object_0.len() == members@.len(),
        forall|k: int|
            0 <= k < members@.len() ==> (#[trigger] json_tree(r)->Object_0[k]) == (
                members@[k].0@,
                json_tree(members@[k].1),
            ),
{
    serde_json::Value::Object(members.into_iter().collect())
}

} // verus!
