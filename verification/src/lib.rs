//! Content-provenance manifest core: assertion labels, the typed Actions
//! assertion with a deterministic binary encoding, claim assembly, signing,
//! and a verification engine that reports structured validation statuses.

pub mod strutil;
pub mod labels;
pub mod value;
pub mod cbor;
pub mod actions;
pub mod c2pa_action;
pub mod codec;
pub mod assertion;
pub mod claim;
pub mod verify;
pub mod jsonio;
pub mod resource_store;

use vstd::prelude::*;

verus! {

/// Errors surfaced by the library.
///
/// `Schema` covers malformed or missing required fields found at build time;
/// `Decode` covers bytes that do not parse as the expected binary form;
/// `Json` covers failures while transcoding a JSON document;
/// `OutOfBounds` covers an index past the end of a list;
/// `Signer` covers a failure reported by a caller-supplied signer.
#[derive(Debug, PartialEq, Eq, Structural)]
pub enum Error {
    Schema,
    Decode,
    Json,
    OutOfBounds,
    Signer,
}

} // verus!
