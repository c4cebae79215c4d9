//! Patch chains for large JSON documents.
//!
//! A chain records, newest first, the edit scripts that lead from one
//! snapshot of a document to the next. A client that holds an older snapshot
//! finds the records between its own content address and the latest one and
//! replays them.

pub mod address;
pub mod chain;
pub mod document;
pub mod error;
pub mod laws;
pub mod replay;
pub mod resolve;
pub mod update;

pub use address::hash;
pub use chain::{PatchRecord, PatchSet};
pub use error::{ChainError, Side};
pub use update::{apply, patchy, Applied, StartAddress};
