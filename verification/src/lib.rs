//! Structural comparison of tree-shaped documents (null, booleans, numbers,
//! strings, arrays, objects) and rendering of the resulting change list.
//!
//! The differ walks two value trees in lock-step and emits an ordered list of
//! change records; arrays can be reconciled positionally or by greedy
//! order-insensitive content matching.  The formatter renders a change list
//! as verbose lines, a compact report, or a structured JSON document.

use vstd::prelude::*;

pub mod codec;
pub mod diff;
pub mod formatter;
pub mod text;
pub mod value;

pub use diff::{Diff, DiffType, JsonDiff};
pub use formatter::DiffFormatter;
pub use value::Value;

use crate::codec::parsed_doc;
use crate::diff::diff_of;

verus! {

/// Parses two JSON texts and compares the resulting trees under the
/// default position-preserving policy.  A text that does not parse yields
/// the parser's message, and no partial comparison is attempted.
pub fn compare_json(json1: &str, json2: &str) -> (r: Result<Vec<Diff>, String>)
    ensures
        match r {
            Ok(ds) => parsed_doc(json1@) is Some && parsed_doc(json2@) is Some && ds.deep_view()
                == diff_of(parsed_doc(json1@).unwrap(), parsed_doc(json2@).unwrap(), false),
            Err(_) => parsed_doc(json1@) is None || parsed_doc(json2@) is None,
        },
{
    let v1 = match crate::codec::parse_value(json1) {
        Ok(v) => v,
        Err(e) => {
            return Err(e);
        },
    };
    let v2 = match crate::codec::parse_value(json2) {
        Ok(v) => v,
        Err(e) => {
            return Err(e);
        },
    };
    let differ = JsonDiff::new();
    Ok(differ.diff(&v1, &v2))
}

/// Compares two trees under the default position-preserving policy.
pub fn compare_values(v1: &Value, v2: &Value) -> (r: Vec<Diff>)
    ensures
        r.deep_view() == diff_of(v1@, v2@, false),
{
    let differ = JsonDiff::new();
    differ.diff(v1, v2)
}

} // verus!
