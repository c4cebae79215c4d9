//! The chain and its records.

use vstd::prelude::*;

verus! {

/// One step of the history: `ops` turns the snapshot whose address is `from`
/// into the snapshot whose address is `to`.
#[derive(Debug, PartialEq)]
pub struct PatchRecord {
    pub from: String,
    pub to: String,
    pub ops: json_patch::Patch,
}

/// A record as contracts see it.
pub struct RecordView {
    pub from: Seq<char>,
    pub to: Seq<char>,
    pub ops: json_patch::Patch,
}

impl View for PatchRecord {
    type V = RecordView;

    open spec fn view(&self) -> RecordView {
        RecordView { from: self.from@, to: self.to@, ops: self.ops }
    }
}

/// Borrowed records as contracts see them.
pub open spec fn views(records: Seq<&PatchRecord>) -> Seq<RecordView> {
    records.map_values(|p: &PatchRecord| p@)
}

/// The history of one document: its records, newest first, and the address
/// of the newest snapshot.
#[derive(Debug, PartialEq)]
pub struct PatchSet {
    pub url: String,
    pub latest: String,
    pub patches: Vec<PatchRecord>,
}

/// A chain as contracts see it.
pub struct ChainView {
    pub url: Seq<char>,
    pub latest: Seq<char>,
    pub patches: Seq<RecordView>,
}

impl View for PatchSet {
    type V = ChainView;

    open spec fn view(&self) -> ChainView {
        ChainView {
            url: self.url@,
            latest: self.latest@,
            patches: self.patches@.map_values(|p: PatchRecord| p@),
        }
    }
}

impl ChainView {
    /// The newest record, if there is one, leads to the latest address.
    pub open spec fn head_is_latest(self) -> bool {
        self.patches.len() > 0 ==> self.patches[0].to == self.latest
    }

    /// Whether some record leads from `from` to `to`.
    pub open spec fn has_edge(self, from: Seq<char>, to: Seq<char>) -> bool {
        exists|i: int|
            0 <= i < self.patches.len() && (#[trigger] self.patches[i]).from == from
                && self.patches[i].to == to
    }

    /// No two records lead from the same address to the same address.
    pub open spec fn edges_distinct(self) -> bool {
        forall|i: int, j: int|
            0 <= i < j < self.patches.len() ==> !((#[trigger] self.patches[i]).from == (
            #[trigger] self.patches[j]).from && self.patches[i].to == self.patches[j].to)
    }

    /// A chain as it is meant to be kept.
    pub open spec fn well_formed(self) -> bool {
        self.head_is_latest() && self.edges_distinct()
    }

    /// The chain once `record` has been offered to it: unchanged where the
    /// record leads to the address that is the latest already, else with the
    /// record in front and its target as the latest address.
    pub open spec fn inserted(self, record: RecordView) -> ChainView {
        if record.to == self.latest {
            self
        } else {
            ChainView {
                url: self.url,
                latest: record.to,
                patches: seq![record] + self.patches,
            }
        }
    }
}

impl PatchSet {
    /// Records a new transition as the newest one. A transition to the
    /// address that is the latest already is not recorded again. Returns
    /// whether the chain has changed.
    pub fn insert(&mut self, record: PatchRecord) -> (changed: bool)
        ensures
            final(self)@ == old(self)@.inserted(record@),
            changed == (record@.to != old(self)@.latest),
            !changed ==> *final(self) == *old(self),
            changed ==> final(self)@.head_is_latest(),
    {
        if record.to == self.latest {
            return false;
        }
        let ghost before = self@;
        self.latest = record.to.clone();
        self.patches.insert(0, record);
        assert(self@.patches == seq![record@] + before.patches);
        true
    }
}

} // verus!
