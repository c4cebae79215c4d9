//! What can go wrong while a chain is extended or followed.

use vstd::prelude::*;

verus! {

/// Which of the two documents of an update an error is about. Where there is
/// only one document, it is the left one.
#[derive(Debug, Clone, Copy, PartialEq, Eq)]
pub enum Side {
    Left,
    Right,
}

/// Why an operation of this library gave up.
#[derive(Debug)]
pub enum ChainError {
    /// The stored bytes of a document could not be unwrapped.
    Unreadable { side: Side, reason: niffler::Error },
    /// The content of a document is not JSON.
    Parse { side: Side, cause: serde_json::Error },
    /// No unbroken run of records leads from `start` to the latest address.
    ChainBroken { start: String },
    /// The edit script of the record at position `step` of the resolved path
    /// did not apply.
    PatchApply { step: usize, failure: json_patch::PatchError },
    /// The document could not be written as text.
    Render { cause: serde_json::Error },
}

/// An error as contracts see it.
pub enum ChainErrorView {
    Unreadable { side: Side, reason: niffler::Error },
    Parse { side: Side, cause: serde_json::Error },
    ChainBroken { start: Seq<char> },
    PatchApply { step: int, failure: json_patch::PatchError },
    Render { cause: serde_json::Error },
}

impl View for ChainError {
    type V = ChainErrorView;

    open spec fn view(&self) -> ChainErrorView {
        match *self {
            ChainError::Unreadable { side, reason } => ChainErrorView::Unreadable { side, reason },
            ChainError::Parse { side, cause } => ChainErrorView::Parse { side, cause },
            ChainError::ChainBroken { start } => ChainErrorView::ChainBroken { start: start@ },
            ChainError::PatchApply { step, failure } => ChainErrorView::PatchApply {
                step: step as int,
                failure,
            },
            ChainError::Render { cause } => ChainErrorView::Render { cause },
        }
    }
}

} // verus!
