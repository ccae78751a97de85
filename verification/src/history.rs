//! The rule that ties a document to its log: the node store is the fold of
//! every change, committed and pending, over the empty store.

use crate::change::{lemma_apply_wf, ChangeView};
use crate::error::Error;
use crate::node_store::NodeStoreView;
use crate::revision::RevisionView;
use vstd::prelude::*;

verus! {

/// The store that `changes` fold to when they are applied in order to
/// `store`, or the error of the first change that does not apply.
pub open spec fn replay(changes: Seq<ChangeView>, store: NodeStoreView) -> Result<
    NodeStoreView,
    Error,
>
    decreases changes.len(),
{
    if changes.len() == 0 {
        Ok(store)
    } else {
        match replay(changes.drop_last(), store) {
            Err(e) => Err(e),
            Ok(mid) => changes.last().apply(mid),
        }
    }
}

/// The store that is left when `changes` are applied in order to `store`
/// and the work stops at the first change that does not apply: what the
/// changes before that one fold to.
pub open spec fn replay_while_ok(changes: Seq<ChangeView>, store: NodeStoreView) -> NodeStoreView
    decreases changes.len(),
{
    if changes.len() == 0 {
        store
    } else {
        match replay(changes.drop_last(), store) {
            Err(_) => replay_while_ok(changes.drop_last(), store),
            Ok(mid) => match changes.last().apply(mid) {
                Ok(after) => after,
                Err(_) => mid,
            },
        }
    }
}

/// How a run of `changes` over the store `before` ended: with the outcome
/// of the replay, and with the store that the changes before the first
/// failure fold to.
pub open spec fn replayed(
    changes: Seq<ChangeView>,
    before: NodeStoreView,
    after: NodeStoreView,
    outcome: Result<(), Error>,
) -> bool {
    &&& after == replay_while_ok(changes, before)
    &&& match replay(changes, before) {
        Ok(store) => outcome is Ok && after == store,
        Err(e) => outcome == Err::<(), Error>(e),
    }
}

/// Replay is deterministic. Two runs of the same changes over the same
/// store end in the same way and leave the same store: the same nodes in
/// the same order, with the same parents, children and attributes, and the
/// same tables of names.
pub proof fn lemma_replay_deterministic(
    changes: Seq<ChangeView>,
    before: NodeStoreView,
    first: NodeStoreView,
    first_outcome: Result<(), Error>,
    second: NodeStoreView,
    second_outcome: Result<(), Error>,
)
    requires
        replayed(changes, before, first, first_outcome),
        replayed(changes, before, second, second_outcome),
    ensures
        first == second,
        first_outcome == second_outcome,
{
    match (first_outcome, second_outcome) {
        (Ok(a), Ok(b)) => {
            assert(a == b);
        },
        _ => {},
    }
}

/// Where the changes before the last one replay and the last one fails,
/// any longer list leaves the same store behind.
pub proof fn lemma_replay_stops(a: Seq<ChangeView>, b: Seq<ChangeView>, store: NodeStoreView)
    requires
        a.len() > 0,
        replay(a.drop_last(), store) is Ok,
        replay(a, store) is Err,
    ensures
        replay_while_ok(a + b, store) == replay(a.drop_last(), store)->Ok_0,
        replay(a + b, store) == replay(a, store),
    decreases b.len(),
{
    lemma_replay_concat(a, b, store);
    if b.len() == 0 {
        assert(a + b =~= a);
    } else {
        assert((a + b).drop_last() =~= a + b.drop_last());
        lemma_replay_stops(a, b.drop_last(), store);
        lemma_replay_concat(a, b.drop_last(), store);
    }
}

/// Where all changes replay, the store that is left is what they fold to.
pub proof fn lemma_replay_while_ok(changes: Seq<ChangeView>, store: NodeStoreView)
    requires
        replay(changes, store) is Ok,
    ensures
        replay_while_ok(changes, store) == replay(changes, store)->Ok_0,
{
}

/// The changes of the revisions, in the order of the log.
pub open spec fn committed_changes(revisions: Seq<RevisionView>) -> Seq<ChangeView>
    decreases revisions.len(),
{
    if revisions.len() == 0 {
        Seq::empty()
    } else {
        committed_changes(revisions.drop_last()) + revisions.last().changes
    }
}

/// Replaying two lists one after the other is replaying their concatenation.
pub proof fn lemma_replay_concat(a: Seq<ChangeView>, b: Seq<ChangeView>, store: NodeStoreView)
    ensures
        replay(a + b, store) == match replay(a, store) {
            Err(e) => Err(e),
            Ok(mid) => replay(b, mid),
        },
    decreases b.len(),
{
    if b.len() == 0 {
        assert(a + b =~= a);
    } else {
        assert((a + b).drop_last() =~= a + b.drop_last());
        assert((a + b).last() == b.last());
        lemma_replay_concat(a, b.drop_last(), store);
    }
}

/// Replaying one more change is applying it to what the others fold to.
pub proof fn lemma_replay_push(changes: Seq<ChangeView>, change: ChangeView, store: NodeStoreView)
    ensures
        replay(changes.push(change), store) == match replay(changes, store) {
            Err(e) => Err(e),
            Ok(mid) => change.apply(mid),
        },
{
    assert(changes.push(change).drop_last() =~= changes);
}

/// A list that replays has only prefixes that replay.
pub proof fn lemma_replay_prefix(a: Seq<ChangeView>, b: Seq<ChangeView>, store: NodeStoreView)
    requires
        replay(a + b, store) is Ok,
    ensures
        replay(a, store) is Ok,
{
    lemma_replay_concat(a, b, store);
}

/// Replaying over a valid store gives a valid store.
pub proof fn lemma_replay_wf(changes: Seq<ChangeView>, store: NodeStoreView)
    requires
        store.wf(),
    ensures
        replay(changes, store) matches Ok(after) ==> after.wf(),
    decreases changes.len(),
{
    if changes.len() > 0 {
        lemma_replay_wf(changes.drop_last(), store);
        if let Ok(mid) = replay(changes.drop_last(), store) {
            lemma_apply_wf(changes.last(), mid);
        }
    }
}

/// The empty store is valid.
pub proof fn lemma_empty_wf()
    ensures
        NodeStoreView::empty().wf(),
{
}

/// Committing moves a revision's changes from the pending end of the log to
/// the committed end and leaves the log as it is.
pub proof fn lemma_committed_push(revisions: Seq<RevisionView>, revision: RevisionView)
    ensures
        committed_changes(revisions.push(revision)) == committed_changes(revisions)
            + revision.changes,
{
    assert(revisions.push(revision).drop_last() =~= revisions);
}

} // verus!
