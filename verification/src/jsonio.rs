//! JSON authoring input: a JSON document is transcoded, structure for
//! structure, into the self-describing binary form, then decoded into
//! the typed assertion. Authoring tools can therefore supply JSON while
//! the signed artifact stores the binary form.
//!
//! The transcode of a JSON *text* depends on the characters alone, so
//! its outcome carries a name, [`binary_of_json_text`], and
//! [`Actions::from_json_str`] has an exact contract over that name. A
//! structured [`JsonValue`] is opaque here; [`Actions::from_json_value`]
//! renders it to text and goes the same way.

use vstd::prelude::*;
use serde_json::Value as JsonValue;
use crate::actions::{Actions, wf_actions};
use crate::codec::actions_from;
use crate::cbor::spec_decode;
use crate::Error;

verus! {

#[verifier::external_type_specification]
#[verifier::external_body]
pub struct ExJsonValue(JsonValue);

/// The binary form a JSON text transcodes to, when it is a well-formed
/// document: a function of the characters alone, rendered identically
/// in every process.
pub uninterp spec fn binary_of_json_text(s: Seq<char>) -> Option<Seq<u8>>;

/// Relies on `serde_json::Deserializer::from_str`,
/// `serde_transcode::transcode` and `serde_cbor::Serializer`: transcodes
/// a JSON text field by structure into binary map/array form. The
/// outcome depends on the text alone, which the name records.
#[verifier::external_body]
fn transcode_json_text(json: &str) -> (r: Result<Vec<u8>, Error>)
    ensures
        match r {
            Ok(b) => binary_of_json_text(json@) == Some(b@),
            Err(e) => e == Error::Json && binary_of_json_text(json@) is None,
        },
{
    let mut from = serde_json::Deserializer::from_str(json);
    let buf: Vec<u8> = Vec::new();
    let mut to = serde_cbor::Serializer::new(buf);
    match serde_transcode::transcode(&mut from, &mut to) {
        Ok(()) => Ok(to.into_inner()),
        Err(_) => Err(Error::Json),
    }
}

/// Relies on the `Display` rendering of `serde_json::Value`: the
/// document as JSON text.
#[verifier::external_body]
fn json_value_to_text(json: &JsonValue) -> (r: String)
{
    json.to_string()
}

impl Actions {
    /// Creates an [`Actions`] assertion from a JSON text: the document
    /// is transcoded into the binary form and decoded by
    /// [`Actions::from_bytes`], so arbitrary nested custom parameters
    /// and custom action labels are carried through. Succeeds exactly
    /// when the text transcodes and the resulting bytes are one whole
    /// structured value that some well-formed assertion reads from.
    pub fn from_json_str(json: &str) -> (r: Result<Actions, Error>)
        ensures
            match r {
                Ok(x) => wf_actions(x) && (binary_of_json_text(json@) matches Some(b)
                    && spec_decode(b) matches Some(p) && p.1 == b.len() && actions_from(p.0, x)),
                Err(e) => (e == Error::Json && binary_of_json_text(json@) is None) || (e
                    == Error::Decode && (binary_of_json_text(json@) matches Some(b) && !(
                spec_decode(b) matches Some(p) && p.1 == b.len() && (exists|x: Actions|
                    wf_actions(x) && actions_from(p.0, x))))),
            },
    {
        let bytes = match transcode_json_text(json) {
            Ok(b) => b,
            Err(e) => {
                return Err(e);
            },
        };
        Actions::from_bytes(&bytes)
    }

    /// Creates an [`Actions`] assertion from a compatible JSON value,
    /// by rendering it to text and reading that with
    /// [`Actions::from_json_str`]. The structured document is opaque
    /// here, so this says only that whatever comes back is well-formed;
    /// the exact contract lives on `from_json_str`.
    pub fn from_json_value(json: &JsonValue) -> (r: Result<Actions, Error>)
        ensures
            r matches Ok(x) ==> wf_actions(x),
    {
        let text = json_value_to_text(json);
        Actions::from_json_str(text.as_str())
    }
}

} // verus!
