//! Parsing of JSON text into the library's model. The parse itself is done
//! by `serde_json` behind two trusted wrappers; everything downstream works
//! on the `Json` tree those wrappers hand back.

use vstd::prelude::*;

verus! {

use crate::json::{Json, JsonV, arrays_bounded};

#[verifier::external_type_specification]
#[verifier::external_body]
pub struct ExValue(serde_json::Value);

/// What a `serde_json` tree holds, as this library's JSON model: the name
/// of the conversion that `from_value` performs.
pub uninterp spec fn value_model(v: serde_json::Value) -> JsonV;

/// What parsing a text yields: `None` on malformed JSON, else the model of
/// the parsed tree.
pub uninterp spec fn parse_of(s: Seq<char>) -> Option<JsonV>;

/// Relies on `serde_json::from_str::<serde_json::Value>`: it parses the
/// text and nothing else, deterministically, returning `Err` exactly on
/// malformed JSON; `parse_of` names its outcome and `value_model` the
/// model of a parsed tree.
#[verifier::external_body]
fn parse_value(s: &str) -> (r: Option<serde_json::Value>)
    ensures
        match r {
            Some(v) => parse_of(s@) == Some(value_model(v)),
            None => parse_of(s@) is None,
        },
{
    serde_json::from_str::<serde_json::Value>(s).ok()
}

/// Relies on the variants of `serde_json::Value` and on
/// `serde_json::Number::as_i64`: each variant is read off into the matching
/// constructor of this library's model, integral numbers as `Int`, any
/// other number as its decimal text. The closures only re-enter this same
/// conversion. Every vector built here respects `Vec`'s documented size
/// bound, so the result's arrays and objects are bounded.
#[verifier::external_body]
fn from_value(v: &serde_json::Value) -> (r: Json)
    ensures
        r@ == value_model(*v),
        arrays_bounded(r@),
{
    match v {
        serde_json::Value::Null => Json::Null,
        serde_json::Value::Bool(b) => Json::Bool(*b),
        serde_json::Value::Number(n) => match n.as_i64() {
            Some(i) => Json::Int(i),
            None => Json::Num(n.to_string()),
        },
        serde_json::Value::String(s) => Json::Str(s.clone()),
        serde_json::Value::Array(a) => Json::Arr(a.iter().map(|e| from_value(e)).collect()),
        serde_json::Value::Object(m) => Json::Obj(m.iter().map(|(k, e)| (k.clone(), from_value(e))).collect()),
    }
}

/// Parses JSON text into the library's model: `None` exactly on malformed
/// JSON, else the parsed tree, whose arrays and objects are bounded.
pub fn parse_json(s: &str) -> (r: Option<Json>)
    ensures
        match r {
            Some(j) => parse_of(s@) == Some(j@) && arrays_bounded(j@),
            None => parse_of(s@) is None,
        },
{
    match parse_value(s) {
        Some(v) => Some(from_value(&v)),
        None => None,
    }
}

} // verus!
