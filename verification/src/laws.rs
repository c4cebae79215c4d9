//! What holds of addresses, insertion and resolution taken together.

use vstd::prelude::*;
use crate::address::{address_of, blake2b_hex, content_of};
use crate::chain::{ChainView, RecordView};
use crate::document::{json_diff, json_patched};
use crate::error::{ChainErrorView, Side};
use crate::replay::replayed;
use crate::resolve::{path_to_latest, sweep};
use crate::update::{applied, snapshot_of, transition, StartAddress};

verus! {

/// The address of a snapshot is that of its content: two stored forms with
/// the same content, under whatever compression, have the same address.
pub proof fn lemma_address_ignores_wrapper(one: Seq<u8>, other: Seq<u8>)
    requires
        content_of(one) is Ok,
        content_of(one) == content_of(other),
    ensures
        address_of(one) is Ok,
        address_of(one) == address_of(other),
{
}

/// Content of fewer than five bytes has an address, and a stored form that
/// unwraps to it has the same one.
pub proof fn lemma_short_content_has_address(content: Seq<u8>, wrapped: Seq<u8>)
    requires
        content.len() < 5,
        content_of(wrapped) == Ok::<Seq<u8>, niffler::Error>(content),
    ensures
        address_of(content) == Ok::<Seq<char>, ChainErrorView>(blake2b_hex(content)),
        address_of(wrapped) == address_of(content),
{
}

/// Offering a chain a second transition to the address that the first one
/// led to changes nothing.
pub proof fn lemma_insert_idempotent(chain: ChainView, first: RecordView, second: RecordView)
    requires
        second.to == first.to,
    ensures
        chain.inserted(first).latest == first.to,
        chain.inserted(first).inserted(second) == chain.inserted(first),
{
}

/// Insertion keeps a chain well formed, where the chain does not hold a
/// record between the same two addresses already.
pub proof fn lemma_insert_keeps_well_formed(chain: ChainView, record: RecordView)
    requires
        chain.well_formed(),
        !chain.has_edge(record.from, record.to),
    ensures
        chain.inserted(record).well_formed(),
{
    let after = chain.inserted(record);
    if record.to != chain.latest {
        assert forall|i: int, j: int| 0 <= i < j < after.patches.len() implies !((
        #[trigger] after.patches[i]).from == (#[trigger] after.patches[j]).from
            && after.patches[i].to == after.patches[j].to) by {
            assert(after.patches[j] == chain.patches[j - 1]);
            if i > 0 {
                assert(after.patches[i] == chain.patches[i - 1]);
            }
        }
    }
}

/// A record whose target is neither the address sought nor the origin of any
/// record does not change what the sweep collects, wherever it stands.
proof fn lemma_sweep_skips(
    patches: Seq<RecordView>,
    target: Seq<char>,
    start: Seq<char>,
    k: int,
    extra: RecordView,
)
    requires
        0 <= k <= patches.len(),
        extra.to != target,
        forall|j: int| 0 <= j < patches.len() ==> (#[trigger] patches[j]).from != extra.to,
    ensures
        sweep(patches.insert(k, extra), target, start) == sweep(patches, target, start),
    decreases k,
{
    let with_extra = patches.insert(k, extra);
    if k == 0 {
        assert(with_extra.drop_first() == patches);
    } else {
        let rest = patches.drop_first();
        assert(with_extra.drop_first() == rest.insert(k - 1, extra));
        assert(with_extra[0] == patches[0]);
        assert forall|j: int| 0 <= j < rest.len() implies (#[trigger] rest[j]).from
            != extra.to by {
            assert(rest[j] == patches[j + 1]);
        }
        if patches[0].to != target {
            lemma_sweep_skips(rest, target, start, k - 1, extra);
        } else if patches[0].from != start {
            lemma_sweep_skips(rest, patches[0].from, start, k - 1, extra);
        }
    }
}

/// A record that leads to an address which no part of the chain asks for is
/// passed over: with it or without it, at whatever position, resolution
/// gives the same answer.
pub proof fn lemma_unrelated_record_skipped(
    chain: ChainView,
    start: Seq<char>,
    k: int,
    extra: RecordView,
)
    requires
        0 <= k <= chain.patches.len(),
        extra.to != chain.latest,
        forall|j: int| 0 <= j < chain.patches.len() ==> (#[trigger] chain.patches[j]).from
            != extra.to,
    ensures
        path_to_latest(
            ChainView { url: chain.url, latest: chain.latest, patches: chain.patches.insert(k, extra) },
            start,
        ) == path_to_latest(chain, start),
{
    lemma_sweep_skips(chain.patches, chain.latest, start, k, extra);
}

/// Each record leads to the origin of the one stored before it.
pub open spec fn linked(patches: Seq<RecordView>) -> bool {
    forall|i: int| 0 < i < patches.len() ==> (#[trigger] patches[i]).to == patches[i - 1].from
}

/// On linked records of which the first leads to `target`, the sweep
/// collects everything up to the first record that starts at `start`.
proof fn lemma_sweep_linked(patches: Seq<RecordView>, target: Seq<char>, start: Seq<char>, k: int)
    requires
        0 <= k < patches.len(),
        linked(patches),
        patches[0].to == target,
        patches[k].from == start,
        forall|j: int| 0 <= j < k ==> (#[trigger] patches[j]).from != start,
    ensures
        sweep(patches, target, start) == Some(patches.take(k + 1)),
    decreases k,
{
    if k == 0 {
        assert(patches.take(1) == seq![patches[0]]);
    } else {
        let rest = patches.drop_first();
        assert(rest[0] == patches[1]);
        assert forall|i: int| 0 < i < rest.len() implies (#[trigger] rest[i]).to == rest[i
            - 1].from by {
            assert(rest[i] == patches[i + 1]);
            assert(rest[i - 1] == patches[i]);
        }
        assert forall|j: int| 0 <= j < k - 1 implies (#[trigger] rest[j]).from != start by {
            assert(rest[j] == patches[j + 1]);
        }
        assert(rest[k - 1] == patches[k]);
        lemma_sweep_linked(rest, patches[0].from, start, k - 1);
        assert(seq![patches[0]] + rest.take(k) == patches.take(k + 1));
    }
}

/// In an unbroken chain, resolving from the origin of a record yields that
/// record and all the newer ones, oldest first.
pub proof fn lemma_unbroken_chain_resolves(chain: ChainView, k: int)
    requires
        0 <= k < chain.patches.len(),
        chain.head_is_latest(),
        linked(chain.patches),
        chain.patches[k].from != chain.latest,
        forall|j: int| 0 <= j < k ==> (#[trigger] chain.patches[j]).from != chain.patches[k].from,
    ensures
        path_to_latest(chain, chain.patches[k].from) == Some(chain.patches.take(k + 1).reverse()),
{
    lemma_sweep_linked(chain.patches, chain.latest, chain.patches[k].from, k);
}

/// The sweep finds nothing where no record starts at `start`.
proof fn lemma_sweep_absent(patches: Seq<RecordView>, target: Seq<char>, start: Seq<char>)
    requires
        forall|j: int| 0 <= j < patches.len() ==> (#[trigger] patches[j]).from != start,
    ensures
        sweep(patches, target, start) is None,
    decreases patches.len(),
{
    if patches.len() > 0 {
        let rest = patches.drop_first();
        assert forall|j: int| 0 <= j < rest.len() implies (#[trigger] rest[j]).from != start by {
            assert(rest[j] == patches[j + 1]);
        }
        lemma_sweep_absent(rest, target, start);
        lemma_sweep_absent(rest, patches[0].from, start);
    }
}

/// The latest address resolves to no records at all; an address that is
/// neither the latest nor the origin of any record does not resolve.
pub proof fn lemma_current_and_absent(chain: ChainView, start: Seq<char>)
    ensures
        path_to_latest(chain, chain.latest) == Some(Seq::<RecordView>::empty()),
        start != chain.latest && (forall|j: int|
            0 <= j < chain.patches.len() ==> (#[trigger] chain.patches[j]).from != start)
            ==> path_to_latest(chain, start) is None,
{
    if start != chain.latest && (forall|j: int|
        0 <= j < chain.patches.len() ==> (#[trigger] chain.patches[j]).from != start) {
        lemma_sweep_absent(chain.patches, chain.latest, start);
    }
}

/// A chain of three steps, from `a` over `b` and `c` to `d`, stored newest
/// first: from `b` it resolves to the steps to `c` and to `d`, in that order;
/// from `d` to nothing; from an address that it does not know, not at all.
pub proof fn lemma_three_steps(
    url: Seq<char>,
    a: Seq<char>,
    b: Seq<char>,
    c: Seq<char>,
    d: Seq<char>,
    x: Seq<char>,
    ab: json_patch::Patch,
    bc: json_patch::Patch,
    cd: json_patch::Patch,
)
    requires
        a != b && a != c && a != d && b != c && b != d && c != d,
        x != a && x != b && x != c && x != d,
    ensures
        ({
            let chain = ChainView {
                url,
                latest: d,
                patches: seq![
                    RecordView { from: c, to: d, ops: cd },
                    RecordView { from: b, to: c, ops: bc },
                    RecordView { from: a, to: b, ops: ab },
                ],
            };
            &&& path_to_latest(chain, b) == Some(
                seq![RecordView { from: b, to: c, ops: bc }, RecordView { from: c, to: d, ops: cd }],
            )
            &&& path_to_latest(chain, d) == Some(Seq::<RecordView>::empty())
            &&& path_to_latest(chain, x) is None
        }),
{
    let chain = ChainView {
        url,
        latest: d,
        patches: seq![
            RecordView { from: c, to: d, ops: cd },
            RecordView { from: b, to: c, ops: bc },
            RecordView { from: a, to: b, ops: ab },
        ],
    };
    lemma_unbroken_chain_resolves(chain, 1);
    assert(chain.patches.take(2).reverse() == seq![
        RecordView { from: b, to: c, ops: bc },
        RecordView { from: c, to: d, ops: cd },
    ]);
    lemma_current_and_absent(chain, x);
}

/// A transition that a chain has just taken in resolves, from its origin, to
/// that one record.
pub proof fn lemma_inserted_resolves(chain: ChainView, record: RecordView)
    requires
        record.to != chain.latest,
        record.from != record.to,
    ensures
        path_to_latest(chain.inserted(record), record.from) == Some(seq![record]),
{
    let after = chain.inserted(record);
    assert(after.patches[0] == record);
    assert(seq![record].reverse() == seq![record]);
}

/// What the sweep collects is an unbroken run of records of the chain: the
/// first leads to `target`, each later one leads to the origin of the one
/// before it, the last starts at `start`, and none before the last does.
proof fn lemma_sweep_is_unbroken(patches: Seq<RecordView>, target: Seq<char>, start: Seq<char>)
    requires
        sweep(patches, target, start) is Some,
    ensures
        ({
            let links = sweep(patches, target, start)->Some_0;
            &&& links.len() > 0
            &&& links[0].to == target
            &&& links.last().from == start
            &&& forall|i: int| 0 < i < links.len() ==> (#[trigger] links[i]).to == links[i - 1].from
            &&& forall|i: int| 0 <= i < links.len() - 1 ==> (#[trigger] links[i]).from != start
            &&& forall|i: int| 0 <= i < links.len() ==> patches.contains(#[trigger] links[i])
        }),
    decreases patches.len(),
{
    let links = sweep(patches, target, start)->Some_0;
    let rest = patches.drop_first();
    assert(patches.len() > 0);
    assert(forall|r: RecordView| rest.contains(r) ==> patches.contains(r)) by {
        assert forall|r: RecordView| rest.contains(r) implies patches.contains(r) by {
            let j = choose|j: int| 0 <= j < rest.len() && rest[j] == r;
            assert(patches[j + 1] == r);
        }
    }
    if patches[0].to != target {
        lemma_sweep_is_unbroken(rest, target, start);
    } else if patches[0].from == start {
        assert(patches.contains(patches[0]));
    } else {
        lemma_sweep_is_unbroken(rest, patches[0].from, start);
        let more = sweep(rest, patches[0].from, start)->Some_0;
        assert(links == seq![patches[0]] + more);
        assert(patches.contains(patches[0]));
        assert forall|i: int| 0 < i < links.len() implies (#[trigger] links[i]).to == links[i
            - 1].from by {
            assert(links[i] == more[i - 1]);
            if i > 1 {
                assert(links[i - 1] == more[i - 2]);
            }
        }
        assert forall|i: int| 0 <= i < links.len() - 1 implies (#[trigger] links[i]).from
            != start by {
            if i > 0 {
                assert(links[i] == more[i - 1]);
            }
        }
        assert forall|i: int| 0 <= i < links.len() implies patches.contains(
            #[trigger] links[i],
        ) by {
            if i > 0 {
                assert(links[i] == more[i - 1]);
            }
        }
    }
}

/// A resolved path is an unbroken run of records of the chain, from `start`
/// to the latest address: it begins at `start`, each record begins where the
/// one before it ended, the last ends at the latest address, and no record
/// after the first begins at `start`.
pub proof fn lemma_path_is_unbroken(chain: ChainView, start: Seq<char>)
    requires
        path_to_latest(chain, start) is Some,
    ensures
        ({
            let path = path_to_latest(chain, start)->Some_0;
            &&& path.len() == 0 <==> start == chain.latest
            &&& path.len() > 0 ==> path[0].from == start && path.last().to == chain.latest
            &&& forall|i: int| 0 < i < path.len() ==> (#[trigger] path[i]).from == path[i - 1].to
            &&& forall|i: int| 0 < i < path.len() ==> (#[trigger] path[i]).from != start
            &&& forall|i: int| 0 <= i < path.len() ==> chain.patches.contains(#[trigger] path[i])
        }),
{
    if start != chain.latest {
        lemma_sweep_is_unbroken(chain.patches, chain.latest, start);
        let links = sweep(chain.patches, chain.latest, start)->Some_0;
        let path = links.reverse();
        let n = links.len() as int;
        assert forall|i: int| 0 < i < path.len() implies (#[trigger] path[i]).from == path[i
            - 1].to by {
            assert(path[i] == links[n - 1 - i]);
            assert(path[i - 1] == links[n - i]);
        }
        assert forall|i: int| 0 < i < path.len() implies (#[trigger] path[i]).from != start by {
            assert(path[i] == links[n - 1 - i]);
        }
        assert forall|i: int| 0 <= i < path.len() implies chain.patches.contains(
            #[trigger] path[i],
        ) by {
            assert(path[i] == links[n - 1 - i]);
        }
    }
}

/// No two records lead to the same address.
pub open spec fn targets_distinct(patches: Seq<RecordView>) -> bool {
    forall|i: int, j: int|
        0 <= i < j < patches.len() ==> (#[trigger] patches[i]).to != (#[trigger] patches[j]).to
}

/// The record at position `at[i + 1]` leads to the origin of the one at
/// position `at[i]`.
pub open spec fn leads_on(patches: Seq<RecordView>, at: Seq<int>, i: int) -> bool {
    patches[at[i + 1]].to == patches[at[i]].from
}

/// The records at the positions `at`, taken in stored order, form an unbroken
/// run from `start` to `target`: the first leads to `target`, each later one
/// leads to the origin of the one before it, and the last starts at `start`.
pub open spec fn is_run(
    patches: Seq<RecordView>,
    at: Seq<int>,
    target: Seq<char>,
    start: Seq<char>,
) -> bool {
    &&& at.len() > 0
    &&& forall|i: int| 0 <= i < at.len() ==> 0 <= #[trigger] at[i] < patches.len()
    &&& forall|i: int, j: int| 0 <= i < j < at.len() ==> #[trigger] at[i] < #[trigger] at[j]
    &&& patches[at[0]].to == target
    &&& forall|i: int| 0 <= i < at.len() - 1 ==> #[trigger] leads_on(patches, at, i)
    &&& patches[at.last()].from == start
}

/// The positions `at` from the one numbered `skip` on, counted in the
/// records behind the first.
spec fn behind_first(at: Seq<int>, skip: int) -> Seq<int> {
    Seq::new((at.len() - skip) as nat, |i: int| at[i + skip] - 1)
}

/// A run that does not use the first record is a run of the records behind
/// it.
proof fn lemma_run_without_first(
    patches: Seq<RecordView>,
    at: Seq<int>,
    target: Seq<char>,
    start: Seq<char>,
)
    requires
        is_run(patches, at, target, start),
        at[0] > 0,
    ensures
        is_run(patches.drop_first(), behind_first(at, 0), target, start),
{
    let rest = patches.drop_first();
    let moved = behind_first(at, 0);
    assert forall|i: int| 0 <= i < moved.len() implies 0 <= #[trigger] moved[i] < rest.len() by {
        assert(0 <= at[i] < patches.len());
        if i > 0 {
            assert(at[0] < at[i]);
        }
    }
    assert forall|i: int, j: int| 0 <= i < j < moved.len() implies #[trigger] moved[i]
        < #[trigger] moved[j] by {
        assert(at[i] < at[j]);
    }
    assert forall|i: int| 0 <= i < moved.len() - 1 implies #[trigger] leads_on(
        rest,
        moved,
        i,
    ) by {
        assert(leads_on(patches, at, i));
        assert(0 <= moved[i] < rest.len());
        assert(0 <= moved[i + 1] < rest.len());
    }
    assert(0 <= moved[0] < rest.len());
    assert(0 <= moved[moved.len() - 1] < rest.len());
}

/// A run of more than one record that begins with the first record goes on,
/// behind it, as a run to the origin of the first.
proof fn lemma_run_after_first(
    patches: Seq<RecordView>,
    at: Seq<int>,
    target: Seq<char>,
    start: Seq<char>,
)
    requires
        is_run(patches, at, target, start),
        at[0] == 0,
        at.len() > 1,
    ensures
        is_run(patches.drop_first(), behind_first(at, 1), patches[0].from, start),
{
    let rest = patches.drop_first();
    let moved = behind_first(at, 1);
    assert forall|i: int| 0 <= i < moved.len() implies 0 <= #[trigger] moved[i] < rest.len() by {
        assert(0 <= at[i + 1] < patches.len());
        assert(at[0] < at[i + 1]);
    }
    assert forall|i: int, j: int| 0 <= i < j < moved.len() implies #[trigger] moved[i]
        < #[trigger] moved[j] by {
        assert(at[i + 1] < at[j + 1]);
    }
    assert forall|i: int| 0 <= i < moved.len() - 1 implies #[trigger] leads_on(
        rest,
        moved,
        i,
    ) by {
        assert(leads_on(patches, at, i + 1));
        assert(0 <= moved[i] < rest.len());
        assert(0 <= moved[i + 1] < rest.len());
    }
    assert(leads_on(patches, at, 0));
    assert(0 <= moved[0] < rest.len());
    assert(0 <= moved[moved.len() - 1] < rest.len());
    assert(moved[moved.len() - 1] == at[at.len() - 1] - 1);
}

/// Where no two records lead to the same address, the sweep finds a run if
/// there is one.
proof fn lemma_sweep_finds_run(
    patches: Seq<RecordView>,
    at: Seq<int>,
    target: Seq<char>,
    start: Seq<char>,
)
    requires
        targets_distinct(patches),
        is_run(patches, at, target, start),
    ensures
        sweep(patches, target, start) is Some,
    decreases patches.len(),
{
    let rest = patches.drop_first();
    assert(0 <= at[0] < patches.len());
    assert(targets_distinct(rest)) by {
        assert forall|i: int, j: int| 0 <= i < j < rest.len() implies (#[trigger] rest[i]).to != (
        #[trigger] rest[j]).to by {
            assert(rest[i] == patches[i + 1]);
            assert(rest[j] == patches[j + 1]);
        }
    }
    if patches[0].to != target {
        lemma_run_without_first(patches, at, target, start);
        lemma_sweep_finds_run(rest, behind_first(at, 0), target, start);
    } else if patches[0].from != start {
        if at[0] != 0 {
            assert(patches[0].to != patches[at[0]].to);
        }
        lemma_run_after_first(patches, at, target, start);
        lemma_sweep_finds_run(rest, behind_first(at, 1), patches[0].from, start);
    }
}

/// In a chain where no two records lead to the same address, resolution
/// succeeds wherever some unbroken run of records, in stored order, leads
/// from `start` to the latest address.
pub proof fn lemma_run_is_found(chain: ChainView, start: Seq<char>, at: Seq<int>)
    requires
        targets_distinct(chain.patches),
        is_run(chain.patches, at, chain.latest, start),
    ensures
        path_to_latest(chain, start) is Some,
{
    lemma_sweep_finds_run(chain.patches, at, chain.latest, start);
}

/// Round trip. Let the step from the document stored as `left` to the one
/// stored as `right` be recorded in a chain whose latest address was another.
/// Then bringing `left` up to date against that chain yields the document of
/// `right`, by a replay of that one record where the two addresses differ.
/// This is said of documents for which the computed script does turn the one
/// into the other, and which differ in their addresses if they differ at
/// all.
pub proof fn lemma_round_trip(chain: ChainView, left: Seq<u8>, right: Seq<u8>)
    requires
        transition(left, right) is Ok,
        transition(left, right)->Ok_0.to != chain.latest,
        json_patched(
            snapshot_of(left, Side::Left)->Ok_0.1,
            json_diff(snapshot_of(left, Side::Left)->Ok_0.1, snapshot_of(right, Side::Right)->Ok_0.1),
        ) == Ok::<serde_json::Value, json_patch::PatchError>(
            snapshot_of(right, Side::Right)->Ok_0.1,
        ),
        transition(left, right)->Ok_0.from == transition(left, right)->Ok_0.to ==> snapshot_of(
            left,
            Side::Left,
        )->Ok_0.1 == snapshot_of(right, Side::Right)->Ok_0.1,
    ensures
        ({
            let record = transition(left, right)->Ok_0;
            let outcome = applied(left, chain.inserted(record), StartAddress::FromContent);
            &&& outcome is Ok
            &&& outcome->Ok_0.0 == snapshot_of(right, Side::Right)->Ok_0.1
            &&& outcome->Ok_0.1 == if record.from == record.to {
                Seq::<RecordView>::empty()
            } else {
                seq![record]
            }
        }),
{
    let record = transition(left, right)->Ok_0;
    let old_doc = snapshot_of(left, Side::Left)->Ok_0.1;
    if record.from != record.to {
        lemma_inserted_resolves(chain, record);
        let path = seq![record];
        assert(path.drop_last() == Seq::<RecordView>::empty());
        assert(path.last() == record);
        assert(replayed(old_doc, path.drop_last()) == Ok::<serde_json::Value, ChainErrorView>(
            old_doc,
        ));
    }
}

} // verus!
