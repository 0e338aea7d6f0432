//! Parsing of JSON text and pretty serialization, delegated to serde_json.
//!
//! These are the only trusted items of the crate: their contracts name what
//! the outside calls return, and everything else is proved against them.

use vstd::prelude::*;

use serde_json::Value as SerdeValue;

use crate::value::{wf_model, ValueModel};

verus! {

#[verifier::external_type_specification]
#[verifier::external_body]
pub struct ExJsonValue(SerdeValue);

/// The tree that parsing a text yields, when the text is well-formed JSON
/// (and `None` when it is not).
pub uninterp spec fn parsed_doc(s: Seq<char>) -> Option<ValueModel>;

/// Relies on serde_json::from_str: whether a text parses, and the tree it
/// yields, depend on the text alone.  A failure carries the parser's
/// message.  Numbers that do not fit `i64` are read as 0.  The parsed
/// tree is well formed: serde_json's map keeps one entry per key.
#[verifier::external_body]
pub(crate) fn parse_value(s: &str) -> (r: Result<crate::value::Value, String>)
    ensures
        match r {
            Ok(v) => parsed_doc(s@) == Some(v@) && wf_model(v@),
            Err(_) => parsed_doc(s@) is None,
        },
{
    match serde_json::from_str::<serde_json::Value>(s) {
        Ok(j) => Ok(value_from_json(&j)),
        Err(e) => Err(e.to_string()),
    }
}

/// Converts a parsed serde_json tree into the library's own tree, one node
/// for one node; it only serves the body of `parse_value` above.
#[verifier::external_body]
fn value_from_json(j: &serde_json::Value) -> crate::value::Value {
    match j {
        serde_json::Value::Null => crate::value::Value::Null,
        serde_json::Value::Bool(b) => crate::value::Value::Bool(*b),
        serde_json::Value::Number(n) => crate::value::Value::Number(n.as_i64().unwrap_or(0)),
        serde_json::Value::String(s) => crate::value::Value::Text(s.clone()),
        serde_json::Value::Array(a) => crate::value::Value::Array(
            a.iter().map(value_from_json).collect(),
        ),
        serde_json::Value::Object(o) => crate::value::Value::Object(
            o.iter().map(|(k, v)| (k.clone(), value_from_json(v))).collect(),
        ),
    }
}

/// The pretty-printed JSON text of a tree.  Object entries are printed in
/// sorted key order, as serde_json's map stores them.
pub uninterp spec fn pretty_text(v: ValueModel) -> Seq<char>;

/// Relies on serde_json::to_string_pretty: the text depends on the tree
/// alone.  A serialization failure degrades to the empty string; for these
/// trees (string keys, plain numbers) the serializer does not fail.
#[verifier::external_body]
pub(crate) fn to_pretty_string(v: &crate::value::Value) -> (r: String)
    ensures
        r@ == pretty_text(v@),
{
    serde_json::to_string_pretty(&json_from_value(v)).unwrap_or_default()
}

/// Converts the library's tree into a serde_json tree, one node for one
/// node; it only serves the body of `to_pretty_string` above.
#[verifier::external_body]
fn json_from_value(v: &crate::value::Value) -> serde_json::Value {
    match v {
        crate::value::Value::Null => serde_json::Value::Null,
        crate::value::Value::Bool(b) => serde_json::Value::Bool(*b),
        crate::value::Value::Number(n) => serde_json::Value::Number(serde_json::Number::from(*n)),
        crate::value::Value::Text(s) => serde_json::Value::String(s.clone()),
        crate::value::Value::Array(a) => serde_json::Value::Array(
            a.iter().map(json_from_value).collect(),
        ),
        crate::value::Value::Object(m) => serde_json::Value::Object(
            m.iter().map(|(k, v)| (k.clone(), json_from_value(v))).collect(),
        ),
    }
}

} // verus!
