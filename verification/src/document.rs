//! JSON documents and edit scripts, as `serde_json` and `json_patch` hold them.
//!
//! The library carries both through without looking inside. What the two
//! crates compute is known here by name only: each name stands for the
//! outcome of one of their functions on given arguments.

use vstd::prelude::*;
use crate::error::ChainError;

verus! {

/// `serde_json::Value`: a parsed JSON document.
#[verifier::external_type_specification]
#[verifier::external_body]
pub struct ExDocument(serde_json::Value);

/// `serde_json::Error`: why a text was not accepted as JSON, or a document
/// not written as text.
#[verifier::external_type_specification]
#[verifier::external_body]
pub struct ExJsonError(serde_json::Error);

/// `json_patch::Patch`: an ordered list of edit operations.
#[verifier::external_type_specification]
#[verifier::external_body]
pub struct ExEditScript(json_patch::Patch);

/// `json_patch::PatchError`: why an edit operation could not be applied.
#[verifier::external_type_specification]
#[verifier::external_body]
pub struct ExEditError(json_patch::PatchError);

/// What `serde_json::from_slice` makes of `text`: the document, or the reason
/// why `text` is not one JSON value.
pub uninterp spec fn json_parsed(text: Seq<u8>) -> Result<serde_json::Value, serde_json::Error>;

/// The edit script that `json_patch::diff` computes from `left` to `right`.
pub uninterp spec fn json_diff(left: serde_json::Value, right: serde_json::Value) -> json_patch::Patch;

/// What `json_patch::patch_unsafe` makes of `doc` under `ops`: the edited
/// document where every operation applies, else the failure of the first
/// operation that does not.
pub uninterp spec fn json_patched(doc: serde_json::Value, ops: json_patch::Patch) -> Result<
    serde_json::Value,
    json_patch::PatchError,
>;

/// The text that `serde_json::to_string` writes for `doc`.
pub uninterp spec fn json_text(doc: serde_json::Value) -> Result<Seq<char>, serde_json::Error>;

/// The text that `serde_json::to_string_pretty` writes for `doc`.
pub uninterp spec fn json_text_indented(doc: serde_json::Value) -> Result<
    Seq<char>,
    serde_json::Error,
>;

/// Calls `serde_json::from_slice` for a `serde_json::Value`. Trusted: the
/// outcome depends on the bytes alone.
#[verifier::external_body]
pub(crate) fn parse(text: &[u8]) -> (r: Result<serde_json::Value, serde_json::Error>)
    ensures
        r == json_parsed(text@),
{
    serde_json::from_slice(text)
}

/// `json_patch::diff`. Trusted: the script depends on the two documents
/// alone. Nothing is claimed of what the script does to `left`.
pub assume_specification[ json_patch::diff ](
    left: &serde_json::Value,
    right: &serde_json::Value,
) -> (ops: json_patch::Patch)
    ensures
        ops == json_diff(*left, *right),
;

/// `json_patch::patch_unsafe`, which applies the operations in order and
/// stops at the first that fails, without undoing the earlier ones. Trusted:
/// the outcome depends on the document and the script alone; on success the
/// document is the edited one. Nothing is claimed of the document after a
/// failure.
pub assume_specification[ json_patch::patch_unsafe ](
    doc: &mut serde_json::Value,
    patch: &json_patch::Patch,
) -> (r: Result<(), json_patch::PatchError>)
    ensures
        match json_patched(*old(doc), *patch) {
            Ok(edited) => r is Ok && *final(doc) == edited,
            Err(failure) => r == Err::<(), json_patch::PatchError>(failure),
        },
;

/// Calls `serde_json::to_string`. Trusted: the text depends on the document
/// alone.
#[verifier::external_body]
fn to_text(doc: &serde_json::Value) -> (r: Result<String, serde_json::Error>)
    ensures
        match json_text(*doc) {
            Ok(text) => r is Ok && r->Ok_0@ == text,
            Err(cause) => r is Err && r->Err_0 == cause,
        },
{
    serde_json::to_string(doc)
}

/// Calls `serde_json::to_string_pretty`. Trusted: the text depends on the
/// document alone.
#[verifier::external_body]
fn to_text_indented(doc: &serde_json::Value) -> (r: Result<String, serde_json::Error>)
    ensures
        match json_text_indented(*doc) {
            Ok(text) => r is Ok && r->Ok_0@ == text,
            Err(cause) => r is Err && r->Err_0 == cause,
        },
{
    serde_json::to_string_pretty(doc)
}

/// The text of `doc` as it is written out: indented or on one line.
pub open spec fn rendered(doc: serde_json::Value, indent: bool) -> Result<Seq<char>, serde_json::Error> {
    if indent {
        json_text_indented(doc)
    } else {
        json_text(doc)
    }
}

/// Writes `doc` as JSON text, indented on request.
pub fn render(doc: &serde_json::Value, indent: bool) -> (r: Result<String, ChainError>)
    ensures
        match rendered(*doc, indent) {
            Ok(text) => r is Ok && r->Ok_0@ == text,
            Err(cause) => r is Err && r->Err_0 == (ChainError::Render { cause }),
        },
{
    let written = if indent {
        to_text_indented(doc)
    } else {
        to_text(doc)
    };
    match written {
        Ok(text) => Ok(text),
        Err(cause) => Err(ChainError::Render { cause }),
    }
}

} // verus!
