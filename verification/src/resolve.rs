//! Finding the records that lead from a snapshot to the latest one.

use vstd::prelude::*;
use crate::chain::{views, ChainView, PatchRecord, PatchSet, RecordView};
use crate::error::{ChainError, ChainErrorView};

verus! {

/// The links that a sweep over `patches` (newest first) collects while it
/// looks for a record that leads to `target`: a record whose `to` is not the
/// target is passed over; one that starts at `start` ends the sweep; any
/// other moves the target to its `from`. `None` where the records run out
/// before `start` is reached.
pub open spec fn sweep(patches: Seq<RecordView>, target: Seq<char>, start: Seq<char>) -> Option<
    Seq<RecordView>,
>
    decreases patches.len(),
{
    if patches.len() == 0 {
        None
    } else if patches[0].to != target {
        sweep(patches.drop_first(), target, start)
    } else if patches[0].from == start {
        Some(seq![patches[0]])
    } else {
        match sweep(patches.drop_first(), patches[0].from, start) {
            Some(rest) => Some(seq![patches[0]] + rest),
            None => None,
        }
    }
}

/// The records that bring the snapshot at `start` to the latest one, oldest
/// first: none where `start` is the latest address already, else the links
/// of the sweep in reverse. `None` where the chain does not reach `start`.
pub open spec fn path_to_latest(chain: ChainView, start: Seq<char>) -> Option<Seq<RecordView>> {
    if start == chain.latest {
        Some(Seq::empty())
    } else {
        match sweep(chain.patches, chain.latest, start) {
            Some(links) => Some(links.reverse()),
            None => None,
        }
    }
}

/// What the sweep yields once `links` are collected and the rest of the
/// records yields `rest`.
spec fn joined(links: Seq<RecordView>, rest: Option<Seq<RecordView>>) -> Option<Seq<RecordView>> {
    match rest {
        Some(more) => Some(links + more),
        None => None,
    }
}

/// Finds the records that lead from `start` to the chain's latest address, in
/// the order in which they are to be applied.
pub fn resolve<'a>(chain: &'a PatchSet, start: &String) -> (r: Result<
    Vec<&'a PatchRecord>,
    ChainError,
>)
    ensures
        match path_to_latest(chain@, start@) {
            Some(path) => r is Ok && views(r->Ok_0@) == path && r->Ok_0@.len() == path.len(),
            None => r is Err && r->Err_0@ == (ChainErrorView::ChainBroken { start: start@ }),
        },
        r is Ok ==> forall|i: int|
            0 <= i < r->Ok_0@.len() ==> chain.patches@.contains(*#[trigger] r->Ok_0@[i]),
{
    if *start == chain.latest {
        return Ok(Vec::new());
    }
    let ghost all = chain@.patches;
    let mut target: Option<&String> = Some(&chain.latest);
    let mut links: Vec<&PatchRecord> = Vec::new();
    let n: usize = chain.patches.len();
    let mut i: usize = 0;
    proof {
        assert(all.skip(0) == all);
        let whole = sweep(all, chain.latest@, start@);
        if whole is Some {
            assert(views(links@) + whole->Some_0 == whole->Some_0);
        }
    }
    while i < n
        invariant
            i <= n,
            n == chain.patches@.len(),
            all == chain@.patches,
            forall|j: int| 0 <= j < links@.len() ==> chain.patches@.contains(*#[trigger] links@[j]),
            sweep(all, chain.latest@, start@) == joined(
                views(links@),
                match target {
                    Some(t) => sweep(all.skip(i as int), t@, start@),
                    None => Some(Seq::empty()),
                },
            ),
        decreases n - i,
    {
        let p: &PatchRecord = &chain.patches[i];
        proof {
            assert(chain.patches@[i as int] == *p);
            assert(all.skip(i as int)[0] == p@);
            assert(all.skip(i as int).drop_first() == all.skip(i + 1));
        }
        match target {
            Some(t) => {
                if p.to == *t {
                    let ghost before = views(links@);
                    links.push(p);
                    assert(views(links@) == before + seq![p@]);
                    if p.from == *start {
                        target = None;
                    } else {
                        target = Some(&p.from);
                        assert(forall|rest: Seq<RecordView>|
                            before + (seq![p@] + rest) == (before + seq![p@]) + rest);
                    }
                }
            },
            None => {},
        }
        i += 1;
    }
    if target.is_some() {
        return Err(ChainError::ChainBroken { start: start.clone() });
    }
    let mut path: Vec<&PatchRecord> = Vec::new();
    let mut k: usize = links.len();
    while k > 0
        invariant
            k <= links@.len(),
            path@.len() == links@.len() - k,
            forall|j: int| 0 <= j < path@.len() ==> path@[j] == links@[links@.len() - 1 - j],
            forall|j: int| 0 <= j < links@.len() ==> chain.patches@.contains(*#[trigger] links@[j]),
        decreases k,
    {
        k -= 1;
        path.push(links[k]);
    }
    assert(views(path@) == views(links@).reverse());
    Ok(path)
}

} // verus!
