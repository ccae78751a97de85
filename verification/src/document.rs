//! The document: a live session over a repository. It holds the committed
//! history, the node store that the history folds to, the revision that is
//! being built, and the changes that were undone and can be redone.

use crate::change::{lemma_combine_applies, Change, ChangeView};
use crate::error::Error;
use crate::history::{
    committed_changes, lemma_committed_push, lemma_empty_wf, lemma_replay_concat,
    lemma_replay_prefix, lemma_replay_push, lemma_replay_stops, lemma_replay_while_ok,
    lemma_replay_wf, replay, replayed,
};
use crate::node_id::{NodeId, NodeIdGenerator};
use crate::node_store::{NodeStore, NodeStoreView};
use crate::repository::Repository;
use crate::revision::{Revision, RevisionView};
use vstd::prelude::*;

verus! {

/// What a document is.
pub struct DocumentView {
    /// The committed revisions, oldest first.
    pub repository: Seq<RevisionView>,
    /// The current state of the tree.
    pub nodes: NodeStoreView,
    /// The revision that is being built.
    pub pending: RevisionView,
    /// The changes that were undone, the one undone last at the end.
    pub undone: Seq<ChangeView>,
    /// The index of the node identifier that is handed out next.
    pub next_index: u64,
}

/// The pending changes once `change` has been recorded: it takes the place
/// of the last pending change where the two combine, and is appended
/// otherwise.
pub open spec fn merged(pending: Seq<ChangeView>, change: ChangeView) -> Seq<ChangeView> {
    if pending.len() > 0 && change.combine(pending.last()) is Some {
        pending.drop_last().push(change.combine(pending.last())->Some_0)
    } else {
        pending.push(change)
    }
}

impl DocumentView {
    /// Every change that is in effect: the committed ones, then the
    /// pending ones.
    pub open spec fn history(self) -> Seq<ChangeView> {
        committed_changes(self.repository) + self.pending.changes
    }

    /// The changes in effect followed by those that can be redone, in the
    /// order in which they were made.
    pub open spec fn timeline(self) -> Seq<ChangeView> {
        self.history() + self.undone.reverse()
    }

    /// The store that the changes in effect fold to.
    pub open spec fn rebuilt(self) -> NodeStoreView {
        replay(self.history(), NodeStoreView::empty())->Ok_0
    }

    /// The validity of a document: the node store is what the changes in
    /// effect fold to, and the changes that can be redone still apply after
    /// them.
    pub open spec fn wf(self) -> bool {
        &&& replay(self.history(), NodeStoreView::empty()) == Ok::<_, Error>(self.nodes)
        &&& replay(self.timeline(), NodeStoreView::empty()) is Ok
    }

    /// The document with nothing left to redo.
    pub open spec fn without_redo(self) -> DocumentView {
        DocumentView { undone: Seq::empty(), ..self }
    }

    /// A new edit. Where `change` applies to the node store, it is recorded
    /// as pending and nothing can be redone any more; where it does not, the
    /// error is the result.
    pub open spec fn add_and_apply_change(self, change: ChangeView) -> Result<DocumentView, Error> {
        match change.apply(self.nodes) {
            Err(e) => Err(e),
            Ok(nodes) => Ok(
                DocumentView {
                    nodes,
                    pending: self.pending.with_changes(merged(self.pending.changes, change)),
                    undone: Seq::empty(),
                    ..self
                },
            ),
        }
    }

    /// The pending revision becomes the last committed one, and `next` is
    /// the revision that is built from now on.
    pub open spec fn commit_changes(self, next: RevisionView) -> DocumentView {
        DocumentView { repository: self.repository.push(self.pending), pending: next, ..self }
    }

    /// With nothing pending, the last committed revision becomes the pending
    /// one again. Otherwise nothing happens.
    pub open spec fn uncommit_changes(self) -> DocumentView {
        if self.pending.changes.len() == 0 && self.repository.len() > 0 {
            DocumentView {
                repository: self.repository.drop_last(),
                pending: self.repository.last(),
                ..self
            }
        } else {
            self
        }
    }

    /// The last change in effect is taken back: it moves from the pending
    /// revision, which is the last committed one where nothing was pending,
    /// to the changes that can be redone, and the node store is what the
    /// remaining changes fold to.
    pub open spec fn undo(self) -> DocumentView {
        let d = if self.pending.changes.len() == 0 {
            self.uncommit_changes()
        } else {
            self
        };
        if d.pending.changes.len() > 0 {
            let e = DocumentView {
                pending: d.pending.with_changes(d.pending.changes.drop_last()),
                undone: d.undone.push(d.pending.changes.last()),
                ..d
            };
            DocumentView { nodes: e.rebuilt(), ..e }
        } else {
            d
        }
    }

    /// The change that was undone last is in effect again, as the last
    /// pending change.
    pub open spec fn redo(self) -> DocumentView {
        if self.undone.len() > 0 {
            let e = DocumentView {
                pending: self.pending.with_changes(self.pending.changes.push(self.undone.last())),
                undone: self.undone.drop_last(),
                ..self
            };
            DocumentView { nodes: e.rebuilt(), ..e }
        } else {
            self
        }
    }

    /// `undo`, `n` times.
    pub open spec fn undo_times(self, n: nat) -> DocumentView
        decreases n,
    {
        if n == 0 {
            self
        } else {
            self.undo_times((n - 1) as nat).undo()
        }
    }

    /// `redo`, `n` times.
    pub open spec fn redo_times(self, n: nat) -> DocumentView
        decreases n,
    {
        if n == 0 {
            self
        } else {
            self.redo_times((n - 1) as nat).redo()
        }
    }
}

/// Giving up what could be redone leaves a valid document valid.
pub proof fn lemma_without_redo_wf(d: DocumentView)
    requires
        d.wf(),
    ensures
        d.without_redo().wf(),
        d.without_redo().history() == d.history(),
{
    let after = d.without_redo();
    assert(after.undone.reverse() =~= Seq::<ChangeView>::empty());
    assert(after.timeline() =~= d.history());
}

/// A new edit leaves a valid document valid.
pub proof fn lemma_add_wf(d: DocumentView, change: ChangeView)
    requires
        d.wf(),
    ensures
        d.add_and_apply_change(change) matches Ok(after) ==> after.wf(),
{
    if let Ok(after) = d.add_and_apply_change(change) {
        let committed = committed_changes(d.repository);
        let pending = d.pending.changes;
        assert(after.undone.reverse() =~= Seq::<ChangeView>::empty());
        assert(after.timeline() =~= after.history());
        if pending.len() > 0 && change.combine(pending.last()) is Some {
            let front = committed + pending.drop_last();
            let previous = pending.last();
            assert(d.history() =~= front.push(previous));
            lemma_replay_push(front, previous, NodeStoreView::empty());
            let mid = replay(front, NodeStoreView::empty())->Ok_0;
            lemma_empty_wf();
            lemma_replay_wf(front, NodeStoreView::empty());
            lemma_combine_applies(change, previous, mid);
            assert(after.history() =~= front.push(change));
            lemma_replay_push(front, change, NodeStoreView::empty());
        } else {
            assert(after.history() =~= d.history().push(change));
            lemma_replay_push(d.history(), change, NodeStoreView::empty());
        }
    }
}

/// Committing leaves a valid document valid and its node store as it is.
pub proof fn lemma_commit_wf(d: DocumentView, next: RevisionView)
    requires
        d.wf(),
        next.changes.len() == 0,
    ensures
        d.commit_changes(next).wf(),
        d.commit_changes(next).history() == d.history(),
        d.commit_changes(next).timeline() == d.timeline(),
{
    let after = d.commit_changes(next);
    lemma_committed_push(d.repository, d.pending);
    assert(after.history() =~= d.history());
}

/// Taking the last commit back leaves a valid document valid and the
/// changes in effect as they are.
pub proof fn lemma_uncommit_wf(d: DocumentView)
    requires
        d.wf(),
    ensures
        d.uncommit_changes().wf(),
        d.uncommit_changes().history() == d.history(),
        d.uncommit_changes().timeline() == d.timeline(),
{
    let after = d.uncommit_changes();
    if d.pending.changes.len() == 0 && d.repository.len() > 0 {
        assert(after.history() =~= d.history());
    }
}

/// `undo` keeps a valid document valid. No change is lost: what was in
/// effect or could be redone before is in effect or can be redone after.
pub proof fn lemma_undo_wf(d: DocumentView)
    requires
        d.wf(),
    ensures
        d.undo().wf(),
        d.undo().timeline() == d.timeline(),
        d.undo().undone.len() <= d.undone.len() + 1,
{
    lemma_uncommit_wf(d);
    let u = if d.pending.changes.len() == 0 {
        d.uncommit_changes()
    } else {
        d
    };
    if u.pending.changes.len() > 0 {
        let after = d.undo();
        let last = u.pending.changes.last();
        assert(after.history().push(last) =~= u.history());
        assert(after.undone.reverse() =~= seq![last] + u.undone.reverse());
        assert(after.timeline() =~= u.timeline());
        lemma_replay_prefix(after.history(), after.undone.reverse(), NodeStoreView::empty());
    }
}

/// `redo` keeps a valid document valid and loses no change.
pub proof fn lemma_redo_wf(d: DocumentView)
    requires
        d.wf(),
    ensures
        d.redo().wf(),
        d.redo().timeline() == d.timeline(),
        d.redo().undone.len() == if d.undone.len() > 0 {
            d.undone.len() - 1
        } else {
            0
        },
{
    if d.undone.len() > 0 {
        let after = d.redo();
        let last = d.undone.last();
        assert(after.history() =~= d.history().push(last));
        assert(d.undone.reverse() =~= seq![last] + after.undone.reverse());
        assert(after.timeline() =~= d.timeline());
        lemma_replay_prefix(after.history(), after.undone.reverse(), NodeStoreView::empty());
    }
}

proof fn lemma_undo_times(d: DocumentView, n: nat)
    requires
        d.wf(),
    ensures
        d.undo_times(n).wf(),
        d.undo_times(n).timeline() == d.timeline(),
        d.undo_times(n).undone.len() <= d.undone.len() + n,
    decreases n,
{
    if n > 0 {
        lemma_undo_times(d, (n - 1) as nat);
        lemma_undo_wf(d.undo_times((n - 1) as nat));
    }
}

proof fn lemma_redo_times(d: DocumentView, n: nat)
    requires
        d.wf(),
    ensures
        d.redo_times(n).wf(),
        d.redo_times(n).timeline() == d.timeline(),
        d.redo_times(n).undone.len() == if d.undone.len() > n {
            d.undone.len() - n
        } else {
            0
        },
    decreases n,
{
    if n > 0 {
        lemma_redo_times(d, (n - 1) as nat);
        lemma_redo_wf(d.redo_times((n - 1) as nat));
    }
}

/// Undo and redo are inverse to each other. Take a document in which
/// nothing can be redone, as it is after any run of edits and commits. Undo
/// `n` times, however far that reaches into the history, also past its
/// beginning, and then redo `n` times: the node store is the one from
/// before the first undo.
pub proof fn lemma_undo_redo_inverse(d: DocumentView, n: nat)
    requires
        d.wf(),
        d.undone.len() == 0,
    ensures
        d.undo_times(n).redo_times(n).nodes == d.nodes,
        d.undo_times(n).redo_times(n).history() == d.history(),
        d.undo_times(n).redo_times(n).undone.len() == 0,
{
    let back = d.undo_times(n);
    lemma_undo_times(d, n);
    let forth = back.redo_times(n);
    lemma_redo_times(back, n);
    assert(forth.undone.reverse() =~= Seq::<ChangeView>::empty());
    assert(d.undone.reverse() =~= Seq::<ChangeView>::empty());
    assert(forth.timeline() =~= forth.history());
    assert(d.timeline() =~= d.history());
}

/// Two edits that combine leave one pending change. Let the first of two
/// edits in a row apply, and let the second set the same attribute of the
/// same node to a value of the same kind. Then the second applies too, the
/// number of pending changes after it is the number after the first, and
/// the last pending change carries the second value. Where nothing was
/// pending before the two, exactly the second change is pending after
/// them.
pub proof fn lemma_combine_law(d: DocumentView, first: ChangeView, second: ChangeView)
    requires
        d.wf(),
        d.add_and_apply_change(first) is Ok,
        second.combine(first) is Some,
    ensures
        d.add_and_apply_change(first)->Ok_0.add_and_apply_change(second) matches Ok(after) && {
            let between = d.add_and_apply_change(first)->Ok_0;
            &&& after.pending.changes.len() == between.pending.changes.len()
            &&& after.pending.changes.last() == second
            &&& d.pending.changes.len() == 0 ==> after.pending.changes == seq![second]
        },
{
    let between = d.add_and_apply_change(first)->Ok_0;
    lemma_add_wf(d, first);
    let pending = between.pending.changes;
    assert(pending.len() > 0 && second.combine(pending.last()) is Some) by {
        let before = d.pending.changes;
        if before.len() > 0 && first.combine(before.last()) is Some {
            assert(pending.last() == first.combine(before.last())->Some_0);
        } else {
            assert(pending.last() == first);
        }
    }
    let committed = committed_changes(between.repository);
    let front = committed + pending.drop_last();
    assert(between.history() =~= front.push(pending.last()));
    lemma_replay_push(front, pending.last(), NodeStoreView::empty());
    lemma_empty_wf();
    lemma_replay_wf(front, NodeStoreView::empty());
    let mid = replay(front, NodeStoreView::empty())->Ok_0;
    lemma_combine_applies(second, pending.last(), mid);
    let after = between.add_and_apply_change(second)->Ok_0;
    if d.pending.changes.len() == 0 {
        assert(after.pending.changes =~= seq![second]);
    }
}

/// Applies `changes` in order to `nodes` and stops at the first change that
/// does not apply. After an error the store holds what the changes before
/// the failing one made of it.
pub fn apply_all(nodes: &mut NodeStore, changes: &Vec<Change>) -> (outcome: Result<(), Error>)
    requires
        old(nodes).wf(),
    ensures
        final(nodes).wf(),
        replayed(changes.deep_view(), old(nodes)@, final(nodes)@, outcome),
{
    let ghost all = changes.deep_view();
    let mut i: usize = 0;
    while i < changes.len()
        invariant
            i <= changes@.len(),
            all == changes.deep_view(),
            nodes.wf(),
            replay(all.take(i as int), old(nodes)@) == Ok::<_, Error>(nodes@),
        decreases changes@.len() - i,
    {
        let ghost done = all.take(i + 1);
        proof {
            assert(done.drop_last() =~= all.take(i as int));
            assert(done.last() == changes[i as int]@);
        }
        match changes[i].apply(nodes) {
            Ok(()) => {},
            Err(e) => {
                proof {
                    assert(all =~= done + all.skip(i + 1));
                    lemma_replay_stops(done, all.skip(i + 1), old(nodes)@);
                }
                return Err(e);
            },
        }
        i = i + 1;
    }
    proof {
        assert(all.take(i as int) =~= all);
        lemma_replay_while_ok(all, old(nodes)@);
    }
    Ok(())
}

/// The node store that the committed history folds to.
pub fn compute_nodes(repository: &Repository) -> (res: Result<NodeStore, Error>)
    ensures
        match replay(committed_changes(repository@), NodeStoreView::empty()) {
            Ok(store) => res matches Ok(nodes) && nodes@ == store && nodes.wf(),
            Err(e) => res matches Err(f) && f == e,
        },
{
    let mut nodes = NodeStore::new();
    let ghost all = repository@;
    let mut i: usize = 0;
    proof {
        assert(all.take(0) =~= Seq::<RevisionView>::empty());
    }
    while i < repository.revisions.len()
        invariant
            i <= repository.revisions@.len(),
            all == repository@,
            nodes.wf(),
            replay(committed_changes(all.take(i as int)), NodeStoreView::empty()) == Ok::<_, Error>(
                nodes@,
            ),
        decreases repository.revisions@.len() - i,
    {
        let ghost done = committed_changes(all.take(i as int));
        let ghost step = repository.revisions[i as int]@.changes;
        proof {
            assert(all.take(i + 1).drop_last() =~= all.take(i as int));
            assert(all.take(i + 1).last() == repository.revisions[i as int]@);
            lemma_replay_concat(done, step, NodeStoreView::empty());
        }
        match apply_all(&mut nodes, &repository.revisions[i].changes) {
            Ok(()) => {},
            Err(e) => {
                proof {
                    lemma_committed_split(all, i + 1);
                    lemma_replay_concat(
                        committed_changes(all.take(i + 1)),
                        committed_changes(all.skip(i + 1)),
                        NodeStoreView::empty(),
                    );
                }
                return Err(e);
            },
        }
        i = i + 1;
    }
    proof {
        assert(all.take(i as int) =~= all);
    }
    Ok(nodes)
}

/// The changes of a log are those of its first `k` revisions followed by
/// those of the rest.
pub proof fn lemma_committed_split(revisions: Seq<RevisionView>, k: int)
    requires
        0 <= k <= revisions.len(),
    ensures
        committed_changes(revisions) == committed_changes(revisions.take(k)) + committed_changes(
            revisions.skip(k),
        ),
    decreases revisions.len() - k,
{
    if k == revisions.len() {
        assert(revisions.take(k) =~= revisions);
        assert(revisions.skip(k) =~= Seq::<RevisionView>::empty());
        assert(committed_changes(revisions) =~= committed_changes(revisions) + Seq::<
            ChangeView,
        >::empty());
    } else {
        let front = revisions.drop_last();
        let tail = revisions.skip(k);
        lemma_committed_split(front, k);
        assert(front.take(k) =~= revisions.take(k));
        assert(front.skip(k) =~= tail.drop_last());
        assert(tail.last() == revisions.last());
        assert(committed_changes(revisions) =~= committed_changes(revisions.take(k))
            + committed_changes(tail));
    }
}

/// The live session over a repository.
pub struct Document {
    /// The committed history.
    repository: Repository,
    /// The current state of the tree: a cache of what the history and the
    /// pending changes fold to.
    nodes: NodeStore,
    /// The changes that are not committed yet.
    pending_changes: Revision,
    /// The changes that were undone and can be redone.
    undo_changes: Vec<Change>,
    node_id_generator: NodeIdGenerator,
}

impl View for Document {
    type V = DocumentView;

    closed spec fn view(&self) -> DocumentView {
        DocumentView {
            repository: self.repository@,
            nodes: self.nodes@,
            pending: self.pending_changes@,
            undone: self.undo_changes.deep_view(),
            next_index: self.node_id_generator.next_index(),
        }
    }
}

impl Default for Document {
    /// The empty document.
    fn default() -> (d: Document)
        ensures
            d.wf(),
            d@.repository.len() == 0,
            d@.nodes == NodeStoreView::empty(),
            d@.pending == RevisionView::blank(d@.pending.id, d@.pending.date, d@.pending.user_name),
            d@.undone.len() == 0,
            d@.next_index == NodeId::FIRST_INDEX,
    {
        Document::empty()
    }
}

impl Document {
    /// The validity of a document: its node store is valid and is what the
    /// log folds to.
    pub closed spec fn wf(&self) -> bool {
        &&& self.nodes.wf()
        &&& self@.wf()
    }

    /// A valid document stands for a valid model.
    pub proof fn lemma_view_wf(&self)
        requires
            self.wf(),
        ensures
            self@.wf(),
            self@.nodes.wf(),
    {
        self.nodes.lemma_view_wf();
    }

    /// What holds of a document that was just opened over `repository` with
    /// `pending` as the revision that is being built.
    pub open spec fn opened(
        repository: Seq<RevisionView>,
        pending: RevisionView,
        res: Result<Document, Error>,
    ) -> bool {
        match replay(committed_changes(repository) + pending.changes, NodeStoreView::empty()) {
            Ok(store) => res matches Ok(d) && d.wf() && d@ == (DocumentView {
                repository,
                nodes: store,
                pending,
                undone: Seq::empty(),
                next_index: NodeId::FIRST_INDEX,
            }),
            Err(e) => res matches Err(f) && f == e,
        }
    }

    /// The empty document: no history, and an empty pending revision with
    /// the identity and provenance that the moment gives it. The identity
    /// is drawn at random.
    pub fn empty() -> (d: Document)
        ensures
            d.wf(),
            d@.repository.len() == 0,
            d@.nodes == NodeStoreView::empty(),
            d@.pending == RevisionView::blank(d@.pending.id, d@.pending.date, d@.pending.user_name),
            Revision::is_random_id(d@.pending.id),
            d@.undone.len() == 0,
            d@.next_index == NodeId::FIRST_INDEX,
    {
        let d = Document {
            repository: Repository::new(),
            nodes: NodeStore::new(),
            pending_changes: Revision::new(),
            undo_changes: Vec::new(),
            node_id_generator: NodeIdGenerator::new(),
        };
        proof {
            assert(d@.undone =~= Seq::<ChangeView>::empty());
            assert(d@.undone.reverse() =~= Seq::<ChangeView>::empty());
            assert(d@.history() =~= Seq::<ChangeView>::empty());
            assert(d@.timeline() =~= Seq::<ChangeView>::empty());
        }
        d
    }

    /// Opens a document over `repository`: the node store is rebuilt from
    /// the whole history. A history that does not replay is refused with the
    /// error of the change that fails. The pending revision is empty and
    /// gets its identity and provenance from the moment.
    pub fn new(repository: Repository) -> (res: Result<Document, Error>)
        ensures
            match replay(committed_changes(repository@), NodeStoreView::empty()) {
                Ok(store) => res matches Ok(d) && d.wf() && d@.repository == repository@
                    && d@.nodes == store && d@.pending == RevisionView::blank(
                    d@.pending.id,
                    d@.pending.date,
                    d@.pending.user_name,
                ) && d@.undone.len() == 0 && d@.next_index == NodeId::FIRST_INDEX,
                Err(e) => res matches Err(f) && f == e,
            },
    {
        let pending = Revision::new();
        proof {
            assert(committed_changes(repository@) + pending@.changes =~= committed_changes(
                repository@,
            ));
        }
        Document::with_pending(repository, pending)
    }

    /// Opens a document over `repository` with `pending` as the revision
    /// that is being built: the node store is rebuilt from the history and
    /// the pending changes.
    pub fn with_pending(repository: Repository, pending: Revision) -> (res: Result<Document, Error>)
        ensures
            Self::opened(repository@, pending@, res),
    {
        let ghost committed = committed_changes(repository@);
        proof {
            lemma_replay_concat(committed, pending@.changes, NodeStoreView::empty());
        }
        let mut nodes = compute_nodes(&repository)?;
        apply_all(&mut nodes, &pending.changes)?;
        let d = Document {
            repository,
            nodes,
            pending_changes: pending,
            undo_changes: Vec::new(),
            node_id_generator: NodeIdGenerator::new(),
        };
        proof {
            assert(d@.undone =~= Seq::<ChangeView>::empty());
            assert(d@.undone.reverse() =~= Seq::<ChangeView>::empty());
            assert(d@.timeline() =~= d@.history());
        }
        Ok(d)
    }

    /// Reads a document from the bytes of a container.
    pub fn read(bytes: &[u8]) -> (res: Result<Document, Error>)
        ensures
            match crate::repository::spec_read_revisions(bytes@) {
                Err(e) => res matches Err(f) && f == e,
                Ok((revisions, _)) => match replay(
                    committed_changes(revisions),
                    NodeStoreView::empty(),
                ) {
                    Ok(store) => res matches Ok(d) && d.wf() && d@.repository == revisions
                        && d@.nodes == store && d@.pending == RevisionView::blank(
                        d@.pending.id,
                        d@.pending.date,
                        d@.pending.user_name,
                    ) && d@.undone.len() == 0 && d@.next_index == NodeId::FIRST_INDEX,
                    Err(e) => res matches Err(f) && f == e,
                },
            },
    {
        let (repository, _) = Repository::read(bytes)?;
        Document::new(repository)
    }

    /// Appends the container of the committed history. Pending changes are
    /// not written.
    pub fn write(&self, w: &mut Vec<u8>)
        ensures
            final(w)@ == old(w)@ + crate::repository::encode_revisions(self@.repository),
    {
        self.repository.write(w);
    }

    /// The committed history.
    pub fn repository(&self) -> (repository: &Repository)
        ensures
            repository@ == self@.repository,
    {
        &self.repository
    }

    /// The current state of the tree.
    pub fn nodes(&self) -> (nodes: &NodeStore)
        ensures
            nodes@ == self@.nodes,
            self.wf() ==> nodes.wf(),
    {
        &self.nodes
    }

    /// The revision that is being built.
    pub fn pending_changes(&self) -> (pending: &Revision)
        ensures
            pending@ == self@.pending,
    {
        &self.pending_changes
    }

    /// The changes that can be redone, the one undone last at the end.
    pub fn undo_changes(&self) -> (undone: &Vec<Change>)
        ensures
            undone.deep_view() == self@.undone,
    {
        &self.undo_changes
    }

    /// A node identifier that this document has not handed out before.
    pub fn next_id(&mut self) -> (id: NodeId)
        ensures
            id.index == old(self)@.next_index,
            id.is_node() || old(self)@.next_index < NodeId::FIRST_INDEX,
            final(self)@ == (DocumentView {
                next_index: if old(self)@.next_index < u64::MAX {
                    (old(self)@.next_index + 1) as u64
                } else {
                    u64::MAX
                },
                ..old(self)@
            }),
            old(self).wf() ==> final(self).wf(),
    {
        self.node_id_generator.next_id()
    }

    /// The number of nodes.
    pub fn node_count(&self) -> (n: usize)
        ensures
            n == self@.nodes.nodes.len(),
    {
        self.nodes.len()
    }

    /// The top-level nodes.
    pub fn find_roots(&self) -> (roots: &Vec<NodeId>)
        requires
            self.wf(),
        ensures
            roots@ == self@.nodes.roots(),
    {
        self.nodes.find_roots()
    }

    /// Makes an edit. What was undone can no longer be redone, whatever
    /// becomes of the edit. Then `change` is applied to the node store and
    /// recorded as pending, in place of the last pending change where the
    /// two combine. A change that does not apply is refused: the node
    /// store, the pending revision and the history stay as they are.
    pub fn add_and_apply_change(&mut self, change: Change) -> (outcome: Result<(), Error>)
        requires
            old(self).wf(),
        ensures
            final(self).wf(),
            final(self)@.undone == Seq::<ChangeView>::empty(),
            match old(self)@.add_and_apply_change(change@) {
                Ok(after) => outcome is Ok && final(self)@ == after,
                Err(e) => outcome == Err::<(), Error>(e) && final(self)@ == old(
                    self,
                )@.without_redo(),
            },
    {
        proof {
            lemma_add_wf(self@, change@);
            lemma_without_redo_wf(self@);
        }
        self.undo_changes.clear();
        proof {
            assert(self@.undone =~= Seq::<ChangeView>::empty());
        }
        change.apply(&mut self.nodes)?;
        let ghost before = self.pending_changes@.changes;
        let count = self.pending_changes.changes.len();
        let combined = if count > 0 {
            change.combine_change(&self.pending_changes.changes[count - 1])
        } else {
            None
        };
        match combined {
            Some(combined) => {
                self.pending_changes.changes.pop();
                self.pending_changes.changes.push(combined);
            },
            None => {
                self.pending_changes.changes.push(change);
            },
        }
        proof {
            assert(self@.undone =~= Seq::<ChangeView>::empty());
            assert(self@.pending.changes =~= merged(before, change@));
            assert(self@.pending.uuid_of_parents == old(self)@.pending.uuid_of_parents);
            assert(self@.pending.tags == old(self)@.pending.tags);
        }
        Ok(())
    }

    /// Commits: the pending revision becomes the last revision of the
    /// history, and a new empty revision, with the identity and provenance
    /// that the moment gives it, is pending. The node store is not touched.
    pub fn commit_changes(&mut self)
        requires
            old(self).wf(),
        ensures
            final(self).wf(),
            final(self)@ == old(self)@.commit_changes(final(self)@.pending),
            final(self)@.pending == RevisionView::blank(
                final(self)@.pending.id,
                final(self)@.pending.date,
                final(self)@.pending.user_name,
            ),
    {
        self.commit_with(Revision::new());
    }

    /// Commits, with the identity and provenance of the next pending
    /// revision given.
    pub fn commit_changes_as(&mut self, id: [u8; 16], date: String, user_name: String)
        requires
            old(self).wf(),
        ensures
            final(self).wf(),
            final(self)@ == old(self)@.commit_changes(
                RevisionView::blank(id@, date@, user_name@),
            ),
    {
        self.commit_with(Revision::with_provenance(id, date, user_name));
    }

    fn commit_with(&mut self, next: Revision)
        requires
            old(self).wf(),
            next@.changes.len() == 0,
        ensures
            final(self).wf(),
            final(self)@ == old(self)@.commit_changes(next@),
    {
        proof {
            lemma_commit_wf(self@, next@);
        }
        let mut pending = next;
        core::mem::swap(&mut self.pending_changes, &mut pending);
        self.repository.add_revision(pending);
    }

    /// Rebuilds the node store from the history and the pending changes.
    fn rebuild(&mut self)
        requires
            replay(old(self)@.history(), NodeStoreView::empty()) is Ok,
        ensures
            final(self).nodes.wf(),
            final(self)@ == (DocumentView { nodes: old(self)@.rebuilt(), ..old(self)@ }),
    {
        let ghost committed = committed_changes(self.repository@);
        proof {
            lemma_replay_concat(committed, self.pending_changes@.changes, NodeStoreView::empty());
        }
        match compute_nodes(&self.repository) {
            Ok(mut nodes) => {
                match apply_all(&mut nodes, &self.pending_changes.changes) {
                    Ok(()) => {
                        self.nodes = nodes;
                    },
                    Err(_) => {
                        proof {
                            assert(false);
                        }
                    },
                }
            },
            Err(_) => {
                proof {
                    assert(false);
                }
            },
        }
    }

    /// Takes the last commit back: with nothing pending, the last revision
    /// of the history becomes the pending revision again. With pending
    /// changes or an empty history nothing happens.
    pub fn uncommit_changes(&mut self)
        requires
            old(self).wf(),
        ensures
            final(self).wf(),
            final(self)@ == old(self)@.uncommit_changes(),
    {
        proof {
            lemma_uncommit_wf(self@);
        }
        if self.pending_changes.changes.len() == 0 && self.repository.revisions.len() > 0 {
            match self.repository.revisions.pop() {
                Some(last) => {
                    self.pending_changes = last;
                    proof {
                        assert(self.repository@ =~= old(self).repository@.drop_last());
                    }
                    self.rebuild();
                },
                None => {},
            }
        }
    }

    /// Takes the last change back. With nothing pending the last commit is
    /// taken back first. The change can be redone until the next edit.
    pub fn undo(&mut self)
        requires
            old(self).wf(),
        ensures
            final(self).wf(),
            final(self)@ == old(self)@.undo(),
    {
        proof {
            lemma_undo_wf(self@);
            lemma_uncommit_wf(self@);
        }
        if self.pending_changes.changes.len() == 0 {
            self.uncommit_changes();
        }
        let ghost mid = self@;
        match self.pending_changes.changes.pop() {
            Some(change) => {
                self.undo_changes.push(change);
                proof {
                    assert(self@.undone =~= mid.undone.push(change@));
                    assert(self@.pending.changes =~= mid.pending.changes.drop_last());
                    assert(self@.pending == mid.pending.with_changes(
                        mid.pending.changes.drop_last(),
                    ));
                }
                self.rebuild();
            },
            None => {},
        }
    }

    /// Puts the change that was undone last into effect again.
    pub fn redo(&mut self)
        requires
            old(self).wf(),
        ensures
            final(self).wf(),
            final(self)@ == old(self)@.redo(),
    {
        proof {
            lemma_redo_wf(self@);
        }
        match self.undo_changes.pop() {
            Some(change) => {
                self.pending_changes.changes.push(change);
                proof {
                    assert(self@.undone =~= old(self)@.undone.drop_last());
                    assert(self@.pending.changes =~= old(self)@.pending.changes.push(change@));
                    assert(self@.pending == old(self)@.pending.with_changes(
                        old(self)@.pending.changes.push(change@),
                    ));
                }
                self.rebuild();
            },
            None => {},
        }
    }
}

} // verus!
