//! The boundary to `serde_json`: parsing JSON text into [`JsonValue`] and
//! rendering documents back to pretty-printed text.
//!
//! Everything `serde_json` itself guarantees is stated here as contracts on
//! small trusted wrappers; the rest of the crate is verified against those
//! contracts alone.

use vstd::prelude::*;

use crate::value::{canonical, depth_of, JsonVal, JsonValue};

verus! {

#[verifier::external_type_specification]
#[verifier::external_body]
pub struct ExValue(serde_json::Value);

/// The JSON value that a `serde_json::Value` holds, as this crate models it:
/// numbers representable as `i64` become `Int`, remaining `u64` numbers
/// `UInt`, other numbers `Num` (payload dropped), objects a key-sorted pair
/// sequence.
pub uninterp spec fn value_model(v: serde_json::Value) -> JsonVal;

/// What a text parses to: `None` when it is not valid JSON, otherwise the
/// one value it denotes.
pub uninterp spec fn json_of(s: Seq<char>) -> Option<JsonVal>;

/// The pretty-printed text of a canonical document.
pub uninterp spec fn rendered(v: JsonVal) -> Seq<char>;

/// Relies on `serde_json::from_str::<Value>`: a text is either rejected or
/// denotes exactly one value, the same on every run; objects come out with
/// unique, sorted keys.
#[verifier::external_body]
fn parse_value(s: &str) -> (r: Result<serde_json::Value, String>)
    ensures
        r matches Ok(v) ==> json_of(s@) == Some(value_model(v)),
        r is Err ==> json_of(s@) is None,
{
    serde_json::from_str::<serde_json::Value>(s).map_err(|e| format!("{e}"))
}

/// Relies on `serde_json::Value`'s variants and on `Number::as_i64` /
/// `as_u64`: each variant maps to one constructor of [`JsonValue`], numbers
/// classified exactly as [`value_model`] states.
#[verifier::external_body]
fn from_value(v: serde_json::Value) -> (r: JsonValue)
    ensures
        r@ == value_model(v),
{
    match v {
        serde_json::Value::Null => JsonValue::Null,
        serde_json::Value::Bool(b) => JsonValue::Bool(b),
        serde_json::Value::Number(n) => match (n.as_i64(), n.as_u64()) {
            (Some(i), _) => JsonValue::Int(i),
            (_, Some(u)) => JsonValue::UInt(u),
            _ => JsonValue::Num,
        },
        serde_json::Value::String(s) => JsonValue::Str(s),
        serde_json::Value::Array(es) => JsonValue::Arr(es.into_iter().map(from_value).collect()),
        serde_json::Value::Object(m) => JsonValue::Obj(
            m.into_iter().map(|(k, w)| (k, from_value(w))).collect(),
        ),
    }
}

/// Relies on `serde_json::Value`'s constructors and `Number::from`: each
/// constructor of a canonical [`JsonValue`] maps to the value with the same
/// model.  The `Num` arm is unreachable: `canonical` excludes it.
#[verifier::external_body]
fn to_value(v: &JsonValue) -> (r: serde_json::Value)
    requires
        canonical(v@),
    ensures
        value_model(r) == v@,
{
    match v {
        JsonValue::Null => serde_json::Value::Null,
        JsonValue::Bool(b) => serde_json::Value::Bool(*b),
        JsonValue::Int(i) => serde_json::Value::Number(serde_json::Number::from(*i)),
        JsonValue::UInt(u) => serde_json::Value::Number(serde_json::Number::from(*u)),
        JsonValue::Num => serde_json::Value::Null,
        JsonValue::Str(s) => serde_json::Value::String(s.clone()),
        JsonValue::Arr(es) => serde_json::Value::Array(es.iter().map(to_value).collect()),
        JsonValue::Obj(ps) => serde_json::Value::Object(
            ps.iter().map(|(k, w)| (k.clone(), to_value(w))).collect(),
        ),
    }
}

/// Relies on `serde_json::to_string_pretty` on a `Value`: serializing a
/// `Value` cannot fail (its `Serialize` impl never errs and its map keys are
/// strings), the output is a function of the value's contents alone, and for
/// documents within `from_str`'s recursion limit of 128 nesting levels,
/// parsing the output back recovers a value with the same contents.
/// Canonical input keeps the claims meaningful: no dropped number payloads,
/// keys already unique and sorted as a parse would return them.
#[verifier::external_body]
fn render_pretty(w: &serde_json::Value) -> (r: Result<String, String>)
    requires
        canonical(value_model(*w)),
    ensures
        r is Ok,
        r matches Ok(t) ==> t@ == rendered(value_model(*w)),
        r matches Ok(t) ==> (depth_of(value_model(*w)) <= 127 ==> json_of(t@) == Some(
            value_model(*w),
        )),
{
    serde_json::to_string_pretty(w).map_err(|e| format!("{e}"))
}

/// Parses one JSON text, or reports the parser's diagnostic.
pub fn parse_json(s: &str) -> (r: Result<JsonValue, String>)
    ensures
        r matches Ok(v) ==> json_of(s@) == Some(v@),
        r is Err ==> json_of(s@) is None,
{
    match parse_value(s) {
        Ok(w) => Ok(from_value(w)),
        Err(e) => Err(e),
    }
}

/// Renders a canonical document as pretty-printed JSON text.  Rendering
/// always succeeds; the output parses back to the same document whenever the
/// document stays within the parser's nesting limit.
pub(crate) fn render_doc(v: &JsonValue) -> (r: Result<String, String>)
    requires
        canonical(v@),
    ensures
        r is Ok,
        r matches Ok(t) ==> t@ == rendered(v@),
        r matches Ok(t) ==> (depth_of(v@) <= 127 ==> json_of(t@) == Some(v@)),
{
    let w = to_value(v);
    render_pretty(&w)
}

} // verus!
