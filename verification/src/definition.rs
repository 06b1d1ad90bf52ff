//! Content definitions: the semi-structured values that callers supply as
//! JSON text to describe the contents of an interaction part.

use vstd::prelude::*;

use crate::strutil::str_eq;

verus! {

/// The shape of a parsed content definition, as the resolution logic reads
/// it: a plain string; an object, given both as its members (each value
/// rendered back to JSON text) and as the document text it was parsed from;
/// or any other JSON value.
#[derive(Clone, Debug)]
pub enum DefShape {
    Text(String),
    Object { entries: Vec<(String, String)>, raw: String },
    Other,
}

/// Mathematical model of a `DefShape`.
pub enum DefModel {
    Text(Seq<char>),
    Object { entries: Seq<(Seq<char>, Seq<char>)>, raw: Seq<char> },
    Other,
}

impl View for DefShape {
    type V = DefModel;

    open spec fn view(&self) -> DefModel {
        match self {
            DefShape::Text(s) => DefModel::Text(s@),
            DefShape::Object { entries, raw } => DefModel::Object {
                entries: entries.deep_view(),
                raw: raw@,
            },
            DefShape::Other => DefModel::Other,
        }
    }
}

/// The shape that JSON text parses to, or `None` when the text is not valid
/// JSON. The mapping depends on the text alone; it is given a name here, and
/// `parse_definition` is the only way to obtain it.
pub uninterp spec fn def_shape_of(text: Seq<char>) -> Option<DefModel>;

/// Parses JSON text into the shape the resolution logic works on. Returns
/// `None` exactly when the text is not valid JSON.
///
/// Relies on `serde_json::from_str` for parsing, and on `serde_json`'s
/// rendering of each object member's value back to JSON text; both depend
/// only on the input text.
#[verifier::external_body]
pub fn parse_definition(text: &str) -> (r: Option<DefShape>)
    ensures
        r is Some <==> def_shape_of(text@) is Some,
        r matches Some(d) ==> def_shape_of(text@) == Some(d@),
        r matches Some(d) ==> (d@ matches DefModel::Object { raw, .. } ==> raw == text@),
{
    match serde_json::from_str::<serde_json::Value>(text) {
        Ok(serde_json::Value::String(s)) => Some(DefShape::Text(s)),
        Ok(serde_json::Value::Object(members)) => Some(
            DefShape::Object {
                entries: members.into_iter().map(|(k, v)| (k, v.to_string())).collect(),
                raw: text.to_string(),
            },
        ),
        Ok(_) => Some(DefShape::Other),
        Err(_) => None,
    }
}

/// Whether an object definition has a member named `key`.
pub open spec fn has_key(entries: Seq<(Seq<char>, Seq<char>)>, key: Seq<char>) -> bool {
    exists|i: int| 0 <= i < entries.len() && (#[trigger] entries[i]).0 == key
}

/// Executable lookup for `has_key`.
pub fn object_has_key(entries: &Vec<(String, String)>, key: &str) -> (r: bool)
    ensures
        r == has_key(entries.deep_view(), key@),
{
    let ghost model = entries.deep_view();
    let n = entries.len();
    let mut i: usize = 0;
    while i < n
        invariant
            i <= n,
            n == entries.len(),
            model == entries.deep_view(),
            forall|k: int| 0 <= k < i ==> (#[trigger] model[k]).0 != key@,
        decreases n - i,
    {
        if str_eq(entries[i].0.as_str(), key) {
            proof {
                assert(model[i as int].0 == key@);
            }
            return true;
        }
        i += 1;
    }
    false
}

} // verus!
