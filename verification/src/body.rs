//! Bodies of interaction parts, and the core decoding convention for
//! structured content definitions.

use vstd::prelude::*;

verus! {

/// The body of a request or response part: absent, explicitly empty or null,
/// or present as bytes with an optional content type.
#[derive(Clone, Debug, PartialEq)]
pub enum BodyValue {
    Missing,
    Empty,
    Null,
    Present { bytes: Vec<u8>, content_type: Option<String> },
}

/// Mathematical model of a `BodyValue`.
pub enum BodyModel {
    Missing,
    Empty,
    Null,
    Present { bytes: Seq<u8>, content_type: Option<Seq<char>> },
}

impl View for BodyValue {
    type V = BodyModel;

    open spec fn view(&self) -> BodyModel {
        match self {
            BodyValue::Missing => BodyModel::Missing,
            BodyValue::Empty => BodyModel::Empty,
            BodyValue::Null => BodyModel::Null,
            BodyValue::Present { bytes, content_type } => BodyModel::Present {
                bytes: bytes@,
                content_type: content_type.deep_view(),
            },
        }
    }
}

/// The body that the core decoding convention produces for the attribute
/// named `key` of the JSON document `doc`. The convention's output depends on
/// the document text and the key alone; it is given a name here rather than a
/// definition, and `decode_structured_body` is the only way to obtain it.
pub uninterp spec fn decoded_attr_of(doc: Seq<char>, key: Seq<char>) -> BodyModel;

/// Decodes the attribute named `key` of the JSON document `text` into a body,
/// following the core decoding convention.
///
/// Relies on `pact_models::json_utils::body_from_json` with no header map,
/// which reads the attribute and renders it as body bytes (string attributes
/// verbatim or base64-decoded by detected content type, anything else as JSON
/// text, a missing attribute as a missing body); the document is first
/// re-parsed with `serde_json::from_str`. Both calls depend only on their
/// arguments.
#[verifier::external_body]
pub fn decode_structured_body(text: &str, key: &str) -> (r: BodyValue)
    ensures
        r@ == decoded_attr_of(text@, key@),
{
    let json: serde_json::Value = serde_json::from_str(text).unwrap_or(serde_json::Value::Null);
    match pact_models::json_utils::body_from_json(&json, key, &None) {
        pact_models::bodies::OptionalBody::Missing => BodyValue::Missing,
        pact_models::bodies::OptionalBody::Empty => BodyValue::Empty,
        pact_models::bodies::OptionalBody::Null => BodyValue::Null,
        pact_models::bodies::OptionalBody::Present(b, ct, _) => BodyValue::Present {
            bytes: b.to_vec(),
            content_type: ct.map(|c| c.to_string()),
        },
    }
}

} // verus!
