//! JSON documents as serde_json holds them, and what the library knows of
//! them: a mathematical model of a document, and the few operations that
//! read a text, print a value, and take a value apart one level at a time.

use crate::dictionary::{assoc_map, distinct_keys};
use serde_json::{Number, Value};
use vstd::prelude::*;

verus! {

/// `serde_json::Value`, of which nothing is seen but through the
/// operations below.
#[verifier::external_type_specification]
#[verifier::external_body]
pub struct ExValue(serde_json::Value);

/// `serde_json::Number`, of which nothing is seen but through the
/// operations below.
#[verifier::external_type_specification]
#[verifier::external_body]
pub struct ExNumber(serde_json::Number);

/// A JSON number: an integer between the least `i64` and the greatest
/// `u64`, or else a finite double, given by its IEEE 754 bits.
pub ghost enum NumberModel {
    Integer(int),
    Binary64(u64),
}

/// A JSON document.
pub ghost enum JsonModel {
    Null,
    Bool(bool),
    Number(NumberModel),
    Text(Seq<char>),
    Array(Seq<JsonModel>),
    Object(Map<Seq<char>, JsonModel>),
}

/// The number that a `serde_json::Number` holds.
pub uninterp spec fn number_view(number: Number) -> NumberModel;

/// The document that a `serde_json::Value` holds.
pub uninterp spec fn json_view(value: Value) -> JsonModel;

/// The document that `serde_json::from_str` reads from a text, if it reads
/// one.
pub uninterp spec fn json_parse(text: Seq<char>) -> Option<JsonModel>;

/// The text that `serde_json::to_string` prints for a document.
pub uninterp spec fn json_print(document: JsonModel) -> Seq<char>;

/// One level of a JSON value: its kind, with what it holds directly.
#[derive(Debug, PartialEq)]
pub enum JsonNode {
    Null,
    Bool(bool),
    Number(Number),
    Text(String),
    Array(Vec<Value>),
    Object(Vec<(String, Value)>),
}

/// The members of an object, each name taken by its view and each value by
/// the document it holds.
pub open spec fn members_of(entries: Seq<(String, Value)>) -> Seq<(Seq<char>, JsonModel)> {
    entries.map_values(|e: (String, Value)| (e.0@, json_view(e.1)))
}

impl JsonNode {
    /// The document that the node stands for.
    pub open spec fn model(self) -> JsonModel {
        match self {
            JsonNode::Null => JsonModel::Null,
            JsonNode::Bool(b) => JsonModel::Bool(b),
            JsonNode::Number(n) => JsonModel::Number(number_view(n)),
            JsonNode::Text(s) => JsonModel::Text(s@),
            JsonNode::Array(items) => JsonModel::Array(
                items@.map_values(|v: Value| json_view(v)),
            ),
            JsonNode::Object(entries) => JsonModel::Object(assoc_map(members_of(entries@))),
        }
    }

    /// No name occurs twice among the members of an object.
    pub open spec fn well_formed(self) -> bool {
        self matches JsonNode::Object(entries) ==> distinct_keys(members_of(entries@))
    }
}

/// Calls `serde_json::from_str` for a `Value`. The claim: whether a
/// document is read, and which, depends on the text alone.
#[verifier::external_body]
pub(crate) fn value_of_text(text: &str) -> (r: Option<Value>)
    ensures
        match r {
            Some(value) => json_parse(text@) == Some(json_view(value)),
            None => json_parse(text@) is None,
        },
{
    serde_json::from_str::<Value>(text).ok()
}

/// Calls `serde_json::to_string` on a `Value`. The claim: printing a value
/// does not fail, and the text depends on the document alone.
#[verifier::external_body]
pub(crate) fn text_of_value(value: &Value) -> (r: Option<String>)
    ensures
        match r {
            Some(text) => text@ == json_print(json_view(*value)),
            None => false,
        },
{
    serde_json::to_string(value).ok()
}

/// Tells the variants of `serde_json::Value` apart. The claim: the node
/// stands for the document that the value holds, and the members of an
/// object come with distinct names.
#[verifier::external_body]
pub(crate) fn node_of_value(value: &Value) -> (r: JsonNode)
    ensures
        r.model() == json_view(*value),
        r.well_formed(),
{
    match value {
        Value::Null => JsonNode::Null,
        Value::Bool(b) => JsonNode::Bool(*b),
        Value::Number(n) => JsonNode::Number(n.clone()),
        Value::String(s) => JsonNode::Text(s.clone()),
        Value::Array(items) => JsonNode::Array(items.clone()),
        Value::Object(members) => JsonNode::Object(members.clone().into_iter().collect()),
    }
}

/// Builds the variant of `serde_json::Value` that a node names. The claim:
/// the value holds the document that the node stands for.
#[verifier::external_body]
pub(crate) fn value_of_node(node: JsonNode) -> (r: Value)
    requires
        node.well_formed(),
    ensures
        json_view(r) == node.model(),
{
    match node {
        JsonNode::Null => Value::Null,
        JsonNode::Bool(b) => Value::Bool(b),
        JsonNode::Number(n) => Value::Number(n),
        JsonNode::Text(s) => Value::String(s),
        JsonNode::Array(items) => Value::Array(items),
        JsonNode::Object(entries) => Value::Object(entries.into_iter().collect()),
    }
}

/// Calls `Number::as_i64`. The claim: it gives the integer that the number
/// holds, where it holds one that fits.
#[verifier::external_body]
pub(crate) fn integer_of_number(number: &Number) -> (r: Option<i64>)
    ensures
        r == match number_view(*number) {
            NumberModel::Integer(i) => if i64::MIN <= i <= i64::MAX {
                Some(i as i64)
            } else {
                None
            },
            NumberModel::Binary64(_) => None,
        },
{
    number.as_i64()
}

/// `Number::clone`. The claim: the copy holds the number that the one it
/// was made from holds.
pub assume_specification[ <serde_json::Number as Clone>::clone ](number: &Number) -> (r: Number)
    ensures
        number_view(r) == number_view(*number),
;

/// Calls `Number::from` on an `i64`. The claim: the number holds that
/// integer.
#[verifier::external_body]
pub(crate) fn number_of_integer(i: i64) -> (r: Number)
    ensures
        number_view(r) == NumberModel::Integer(i as int),
{
    Number::from(i)
}

} // verus!
