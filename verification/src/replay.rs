//! Replaying resolved records on a document.

use vstd::prelude::*;
use crate::chain::{views, PatchRecord, RecordView};
use crate::document::json_patched;
use crate::error::{ChainError, ChainErrorView};

verus! {

/// The document that results when the scripts of `path` are applied to `doc`
/// one after the other, first to last. Where one does not apply, the outcome
/// is the failure of the first such record, with its position in `path`.
pub open spec fn replayed(doc: serde_json::Value, path: Seq<RecordView>) -> Result<
    serde_json::Value,
    ChainErrorView,
>
    decreases path.len(),
{
    if path.len() == 0 {
        Ok(doc)
    } else {
        match replayed(doc, path.drop_last()) {
            Ok(before) => match json_patched(before, path.last().ops) {
                Ok(after) => Ok(after),
                Err(failure) => Err(ChainErrorView::PatchApply { step: path.len() - 1, failure }),
            },
            Err(e) => Err(e),
        }
    }
}

/// Applies the scripts of `path` to `doc` in order and returns the edited
/// document. Stops at the first script that does not apply; the document is
/// then given up, so nothing is undone. (`json_patch::patch` would undo, and
/// can panic while it does: a value moved into the place of its own parent
/// cannot be moved back.)
pub fn replay(doc: serde_json::Value, path: &[&PatchRecord]) -> (r: Result<
    serde_json::Value,
    ChainError,
>)
    ensures
        match replayed(doc, views(path@)) {
            Ok(edited) => r == Ok::<serde_json::Value, ChainError>(edited),
            Err(e) => r is Err && r->Err_0@ == e,
        },
{
    let ghost all = views(path@);
    let mut current = doc;
    let n: usize = path.len();
    let mut i: usize = 0;
    assert(all.take(0) == Seq::<RecordView>::empty());
    while i < n
        invariant
            i <= n,
            n == path@.len(),
            all == views(path@),
            replayed(doc, all.take(i as int)) == Ok::<serde_json::Value, ChainErrorView>(current),
        decreases n - i,
    {
        proof {
            assert(all.take(i + 1).drop_last() == all.take(i as int));
            assert(all.take(i + 1).last() == path@[i as int]@);
        }
        match json_patch::patch_unsafe(&mut current, &path[i].ops) {
            Ok(()) => {},
            Err(failure) => {
                proof {
                    lemma_failure_stays(doc, all, i as int + 1);
                }
                return Err(ChainError::PatchApply { step: i, failure });
            },
        }
        i += 1;
    }
    assert(all.take(n as int) == all);
    Ok(current)
}

/// Once a prefix of the path has failed, the whole path fails in the same
/// way.
proof fn lemma_failure_stays(doc: serde_json::Value, path: Seq<RecordView>, k: int)
    requires
        0 <= k <= path.len(),
        replayed(doc, path.take(k)) is Err,
    ensures
        replayed(doc, path) == replayed(doc, path.take(k)),
    decreases path.len() - k,
{
    if k < path.len() {
        assert(path.take(k + 1).drop_last() == path.take(k));
        lemma_failure_stays(doc, path, k + 1);
    } else {
        assert(path.take(k) == path);
    }
}

} // verus!
