//! Trusted shim over serde_json: parses a buffer into the library's own
//! JSON tree.

use vstd::prelude::*;
use crate::jsonval::Jval;

verus! {

#[verifier::external_type_specification]
#[verifier::external_body]
pub struct ExValue(serde_json::Value);

/// What parsing a buffer as one JSON document yields: a function of the
/// bytes alone (`None` for anything that is not valid JSON).
pub uninterp spec fn json_doc(b: Seq<u8>) -> Option<Jval>;

/// Relies on `serde_json::Value`'s variants: moves serde_json's tree into
/// the library's own, variant by variant; integral numbers keep their
/// value, other numbers their text.
#[verifier::external_body]
fn jval_of_value(v: serde_json::Value) -> Jval {
    match v {
        serde_json::Value::Null => Jval::Null,
        serde_json::Value::Bool(b) => Jval::Bool(b),
        serde_json::Value::Number(n) => match n.as_i64() {
            Some(i) => Jval::Int(i),
            None => Jval::Num(n.to_string()),
        },
        serde_json::Value::String(s) => Jval::Str(s),
        serde_json::Value::Array(a) => Jval::Arr(a.into_iter().map(jval_of_value).collect()),
        serde_json::Value::Object(o) => Jval::Obj(
            o.into_iter().map(|(k, v2)| (k, jval_of_value(v2))).collect(),
        ),
    }
}

/// Relies on `serde_json::from_slice::<serde_json::Value>`: parses the
/// buffer as one JSON document, deterministically in the bytes alone;
/// the body converts the result through [`jval_of_value`].
#[verifier::external_body]
pub fn parse_json(b: &[u8]) -> (r: Option<Jval>)
    ensures
        r == json_doc(b@),
{
    match serde_json::from_slice::<serde_json::Value>(b) {
        Ok(v) => Some(jval_of_value(v)),
        Err(_) => None,
    }
}

} // verus!
