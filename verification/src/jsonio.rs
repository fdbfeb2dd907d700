//! The trusted JSON boundary of ingestion.
//!
//! Provider responses arrive as JSON text and are parsed by `serde_json`.
//! The single trusted step carries the parsed value over to the library's
//! own JSON model ([`crate::json::JsonValue`], a tree of plain values) and
//! names its result: parsing is a function of the text alone, so a decode's
//! contract downstream can be exact over `json_of(text)`.

use vstd::prelude::*;
use crate::json::JsonValue;

verus! {

#[verifier::external_type_specification]
#[verifier::external_body]
pub struct ExValue(serde_json::Value);

/// What JSON text parses to, carried over to the library's JSON model:
/// `None` exactly for invalid JSON.  The result depends on the text alone —
/// `serde_json` parses deterministically and keeps object entries in key
/// order — which is what entitles the parse to a name.
pub uninterp spec fn json_of(s: Seq<char>) -> Option<JsonValue>;

/// Relies on serde_json::Value's own accessors: carries a parsed value over
/// to the library's JSON model, variant by variant.  A number representable
/// as `u64` keeps its value (`Value::as_u64`); any other number becomes
/// `OtherNumber`; object entries keep the parser's key order.
#[verifier::external_body]
fn convert_value(v: serde_json::Value) -> JsonValue {
    match v {
        serde_json::Value::Null => JsonValue::Null,
        serde_json::Value::Bool(b) => JsonValue::Bool(b),
        serde_json::Value::Number(n) => match n.as_u64() {
            Some(u) => JsonValue::Num(u),
            None => JsonValue::OtherNumber,
        },
        serde_json::Value::String(s) => JsonValue::Str(s),
        serde_json::Value::Array(a) => JsonValue::Arr(a.into_iter().map(convert_value).collect()),
        serde_json::Value::Object(o) => JsonValue::Obj(
            o.into_iter().map(|(k, val)| (k, convert_value(val))).collect(),
        ),
    }
}

/// Relies on serde_json::from_str: parses JSON text into the library's JSON
/// model, returning `None` exactly when the text is not valid JSON; the
/// outcome is a function of the text alone.
#[verifier::external_body]
pub fn parse_json(s: &str) -> (r: Option<JsonValue>)
    ensures
        r == json_of(s@),
{
    serde_json::from_str::<serde_json::Value>(s).ok().map(convert_value)
}

} // verus!
