//! The two operations on stored documents: recording a new version in a
//! chain, and bringing an old version up to date.

use vstd::prelude::*;
use crate::address::{blake2b_hex, content, content_of, digest_hex, is_address, is_plain};
use crate::chain::{views, ChainView, PatchRecord, PatchSet, RecordView};
use crate::document::{json_diff, json_parsed, parse};
use crate::error::{ChainError, ChainErrorView, Side};
use crate::replay::{replay, replayed};
use crate::resolve::{path_to_latest, resolve};

verus! {

/// A document as it is read from its stored bytes: its content address and
/// its parsed form.
pub struct Snapshot {
    pub address: String,
    pub document: serde_json::Value,
}

/// What reading the stored bytes `raw` gives: the address of the content and
/// the document, or the first thing that goes wrong, for the document on
/// `side`.
pub open spec fn snapshot_of(raw: Seq<u8>, side: Side) -> Result<
    (Seq<char>, serde_json::Value),
    ChainErrorView,
> {
    match content_of(raw) {
        Err(reason) => Err(ChainErrorView::Unreadable { side, reason }),
        Ok(content) => match json_parsed(content) {
            Err(cause) => Err(ChainErrorView::Parse { side, cause }),
            Ok(document) => Ok((blake2b_hex(content), document)),
        },
    }
}

/// Takes the content out of the stored bytes, parses it and computes its
/// address.
pub fn read_snapshot(raw: &[u8], side: Side) -> (r: Result<Snapshot, ChainError>)
    ensures
        match snapshot_of(raw@, side) {
            Ok((address, document)) => r is Ok && r->Ok_0.address@ == address
                && r->Ok_0.document == document,
            Err(e) => r is Err && r->Err_0@ == e,
        },
        r is Ok ==> is_address(r->Ok_0.address@),
        is_plain(raw@) ==> match json_parsed(raw@) {
            Ok(document) => r is Ok && r->Ok_0.address@ == blake2b_hex(raw@) && r->Ok_0.document
                == document,
            Err(cause) => r is Err && r->Err_0@ == (ChainErrorView::Parse { side, cause }),
        },
{
    let content = content(raw, side)?;
    let document = match parse(content.as_slice()) {
        Ok(document) => document,
        Err(cause) => {
            return Err(ChainError::Parse { side, cause });
        },
    };
    Ok(Snapshot { address: digest_hex(content.as_slice()), document })
}

/// The record of the step from the document stored as `left` to the one
/// stored as `right`, or the first thing that goes wrong in reading them.
pub open spec fn transition(left: Seq<u8>, right: Seq<u8>) -> Result<RecordView, ChainErrorView> {
    match snapshot_of(left, Side::Left) {
        Err(e) => Err(e),
        Ok((from, old_doc)) => match snapshot_of(right, Side::Right) {
            Err(e) => Err(e),
            Ok((to, new_doc)) => Ok(RecordView { from, to, ops: json_diff(old_doc, new_doc) }),
        },
    }
}

/// The record of the step from one snapshot to another: their addresses and
/// the script computed from the older document to the newer.
pub open spec fn step_between(older: Snapshot, newer: Snapshot) -> RecordView {
    RecordView {
        from: older.address@,
        to: newer.address@,
        ops: json_diff(older.document, newer.document),
    }
}

/// Records in `pset` the step from `older` to `newer`. Returns whether the
/// chain has changed; it has not where the address of `newer` is the latest
/// already.
pub fn record_transition(older: Snapshot, newer: Snapshot, pset: &mut PatchSet) -> (changed: bool)
    ensures
        final(pset)@ == old(pset)@.inserted(step_between(older, newer)),
        changed == (newer.address@ != old(pset)@.latest),
        !changed ==> *final(pset) == *old(pset),
        changed ==> final(pset)@.head_is_latest(),
{
    let ops = json_patch::diff(&older.document, &newer.document);
    pset.insert(PatchRecord { from: older.address, to: newer.address, ops })
}

/// Records in `pset` the step from the document stored as `left` to the one
/// stored as `right`: the difference between the two, under their content
/// addresses. Returns whether the chain has changed; it has not where the
/// address of `right` is the latest already, nor where a document cannot be
/// read.
pub fn patchy(left: &[u8], right: &[u8], pset: &mut PatchSet) -> (r: Result<bool, ChainError>)
    ensures
        match transition(left@, right@) {
            Ok(record) => {
                &&& r == Ok::<bool, ChainError>(record.to != old(pset)@.latest)
                &&& final(pset)@ == old(pset)@.inserted(record)
            },
            Err(e) => r is Err && r->Err_0@ == e,
        },
        !(r matches Ok(true)) ==> *final(pset) == *old(pset),
        r matches Ok(true) ==> final(pset)@.head_is_latest(),
{
    let older = read_snapshot(left, Side::Left)?;
    let newer = read_snapshot(right, Side::Right)?;
    Ok(record_transition(older, newer, pset))
}

/// Where the walk through the chain starts.
#[derive(Debug)]
pub enum StartAddress {
    /// At the content address of the document itself.
    FromContent,
    /// At this address, whatever the document's bytes hash to: for a
    /// document that is itself the result of earlier patching.
    Imputed(String),
}

impl StartAddress {
    /// The address at which the walk starts for a document whose content
    /// address is `computed`.
    pub open spec fn or_computed(self, computed: Seq<char>) -> Seq<char> {
        match self {
            StartAddress::FromContent => computed,
            StartAddress::Imputed(address) => address@,
        }
    }

    /// The address at which the walk starts for a document whose content
    /// address is `computed`: an imputed address takes its place.
    pub fn address(self, computed: String) -> (start: String)
        ensures
            start@ == self.or_computed(computed@),
    {
        match self {
            StartAddress::FromContent => computed,
            StartAddress::Imputed(address) => address,
        }
    }
}

/// A document brought up to date, and the records that were replayed on it,
/// oldest first. No records: the document was current already.
pub struct Applied<'a> {
    pub document: serde_json::Value,
    pub path: Vec<&'a PatchRecord>,
}

/// The records from `start` to the latest address of `chain` and the
/// document that their replay makes of `document`, or why there is none.
pub open spec fn brought_up_to_date(
    document: serde_json::Value,
    chain: ChainView,
    start: Seq<char>,
) -> Result<(serde_json::Value, Seq<RecordView>), ChainErrorView> {
    match path_to_latest(chain, start) {
        None => Err(ChainErrorView::ChainBroken { start }),
        Some(path) => match replayed(document, path) {
            Ok(edited) => Ok((edited, path)),
            Err(e) => Err(e),
        },
    }
}

/// Resolves the chain from `start` and replays the records found on
/// `document`.
pub fn bring_up_to_date<'a>(document: serde_json::Value, pset: &'a PatchSet, start: &String) -> (r:
    Result<Applied<'a>, ChainError>)
    ensures
        match brought_up_to_date(document, pset@, start@) {
            Ok((edited, path)) => r is Ok && r->Ok_0.document == edited && views(r->Ok_0.path@)
                == path,
            Err(e) => r is Err && r->Err_0@ == e,
        },
        start@ == pset@.latest ==> r is Ok && r->Ok_0.document == document && r->Ok_0.path@.len()
            == 0,
{
    let path = resolve(pset, start)?;
    let edited = replay(document, path.as_slice())?;
    Ok(Applied { document: edited, path })
}

/// What `apply` makes of the stored bytes `left`.
pub open spec fn applied(left: Seq<u8>, chain: ChainView, start: StartAddress) -> Result<
    (serde_json::Value, Seq<RecordView>),
    ChainErrorView,
> {
    match snapshot_of(left, Side::Left) {
        Err(e) => Err(e),
        Ok((address, document)) => brought_up_to_date(document, chain, start.or_computed(address)),
    }
}

/// Brings the document stored as `left` to the latest version that `pset`
/// knows, starting from the document's own content address or from the one
/// given in its place.
pub fn apply<'a>(left: &[u8], pset: &'a PatchSet, start: StartAddress) -> (r: Result<
    Applied<'a>,
    ChainError,
>)
    ensures
        match applied(left@, pset@, start) {
            Ok((edited, path)) => r is Ok && r->Ok_0.document == edited && views(r->Ok_0.path@)
                == path,
            Err(e) => r is Err && r->Err_0@ == e,
        },
{
    let snapshot = read_snapshot(left, Side::Left)?;
    let start = start.address(snapshot.address);
    bring_up_to_date(snapshot.document, pset, &start)
}

} // verus!
