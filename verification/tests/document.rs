use binc::change::Change;
use binc::document::{apply_all, compute_nodes, Document};
use binc::error::Error;
use binc::node_id::NodeId;
use binc::node_store::NodeStore;
use binc::repository::Repository;
use binc::revision::Revision;

fn id(index: u64) -> NodeId {
    NodeId { index }
}

fn set(node: u64, attribute: &str, value: &str) -> Change {
    Change::SetString { node: id(node), attribute: attribute.to_string(), value: value.to_string() }
}

fn flag(node: u64, attribute: &str, value: bool) -> Change {
    Change::SetBool { node: id(node), attribute: attribute.to_string(), value }
}

fn revision(tag: u8, changes: Vec<Change>) -> Revision {
    let mut r = Revision::with_provenance([tag; 16], "date".to_string(), "user".to_string());
    r.changes = changes;
    r
}

fn script() -> Vec<Change> {
    vec![
        Change::AddNode { id: id(2) },
        Change::AddChild { parent: NodeId::root(), child: id(2), insertion_index: 0 },
        set(2, "name", "First"),
        Change::AddNode { id: id(3) },
        Change::AddChild { parent: id(2), child: id(3), insertion_index: 0 },
        flag(3, "done", true),
        Change::AddNode { id: id(4) },
        Change::AddChild { parent: id(2), child: id(4), insertion_index: 0 },
        Change::UnknownChange { change_type: 0x31, data: vec![1, 2] },
        Change::RemoveChild { parent: id(2), child: id(3) },
        Change::RemoveNode { id: id(4) },
        set(3, "name", "Third"),
    ]
}

#[test]
fn empty_document_add_node_under_root_commit_uncommit() {
    let mut doc = Document::empty();
    let n1 = doc.next_id();
    assert!(n1.is_node());
    doc.add_and_apply_change(Change::AddNode { id: n1 }).unwrap();
    doc.add_and_apply_change(Change::AddChild { parent: NodeId::root(), child: n1, insertion_index: 0 })
        .unwrap();
    assert_eq!(doc.find_roots(), &vec![n1]);
    let pending = doc.pending_changes().clone();
    let nodes = doc.nodes().nodes().clone();
    assert_eq!(pending.changes.len(), 2);
    doc.commit_changes();
    assert_eq!(doc.repository().len(), 1);
    assert_eq!(doc.repository().revisions[0], pending);
    assert!(doc.pending_changes().changes.is_empty());
    assert_eq!(doc.nodes().nodes(), &nodes);
    doc.uncommit_changes();
    assert_eq!(doc.repository().len(), 0);
    assert_eq!(doc.pending_changes(), &pending);
    assert_eq!(doc.nodes().nodes(), &nodes);
    assert_eq!(doc.find_roots(), &vec![n1]);
}

#[test]
fn next_id_does_not_repeat() {
    let mut doc = Document::empty();
    let a = doc.next_id();
    let b = doc.next_id();
    assert_eq!(a, id(2));
    assert_eq!(b, id(3));
    assert_eq!(doc.node_count(), 0);
}

#[test]
fn replay_is_deterministic() {
    let changes = script();
    let mut first = NodeStore::new();
    let mut second = NodeStore::new();
    assert_eq!(apply_all(&mut first, &changes), Ok(()));
    assert_eq!(apply_all(&mut second, &changes), Ok(()));
    assert_eq!(first.nodes(), second.nodes());
    assert_eq!(first.find_roots(), second.find_roots());
    assert_eq!(first.attribute_names().get_index("done"), second.attribute_names().get_index("done"));
    assert_eq!(first.len(), 2);
    assert_eq!(first.find_roots(), &vec![id(2), id(3)]);
}

#[test]
fn apply_all_stops_at_the_first_failure() {
    let mut store = NodeStore::new();
    let changes = vec![Change::AddNode { id: id(2) }, Change::RemoveNode { id: id(9) }, Change::AddNode { id: id(3) }];
    assert_eq!(apply_all(&mut store, &changes), Err(Error::NotFound));
    assert_eq!(store.len(), 1);
}

#[test]
fn compute_nodes_folds_the_whole_history() {
    let all = script();
    let repo = Repository {
        revisions: vec![revision(1, all[..5].to_vec()), revision(2, vec![]), revision(3, all[5..].to_vec())],
    };
    let nodes = compute_nodes(&repo).unwrap();
    let mut direct = NodeStore::new();
    apply_all(&mut direct, &all).unwrap();
    assert_eq!(nodes.nodes(), direct.nodes());
    assert_eq!(compute_nodes(&Repository::new()).unwrap().len(), 0);
}

#[test]
fn history_that_does_not_replay_is_refused() {
    let repo = Repository {
        revisions: vec![revision(1, vec![Change::AddNode { id: id(2) }]), revision(2, vec![Change::AddNode { id: id(2) }])],
    };
    assert_eq!(compute_nodes(&repo).err(), Some(Error::AlreadyExists));
    assert_eq!(Document::new(repo.clone()).err(), Some(Error::AlreadyExists));
    let mut bytes = Vec::new();
    repo.write(&mut bytes);
    assert_eq!(Document::read(&bytes).err(), Some(Error::AlreadyExists));
    let lost = Repository { revisions: vec![revision(1, vec![set(2, "a", "b")])] };
    assert_eq!(Document::new(lost).err(), Some(Error::NotFound));
}

#[test]
fn document_write_then_read_rebuilds_the_nodes() {
    let mut doc = Document::empty();
    for (i, change) in script().into_iter().enumerate() {
        doc.add_and_apply_change(change).unwrap();
        if i % 4 == 3 {
            doc.commit_changes();
        }
    }
    doc.commit_changes();
    let mut bytes = Vec::new();
    doc.write(&mut bytes);
    let back = Document::read(&bytes).unwrap();
    assert_eq!(back.repository(), doc.repository());
    assert_eq!(back.nodes().nodes(), doc.nodes().nodes());
    assert_eq!(back.find_roots(), doc.find_roots());
    assert!(back.pending_changes().changes.is_empty());
    assert!(back.undo_changes().is_empty());
    assert_eq!(Document::read(&bytes[..bytes.len() - 1]).err(), Some(Error::UnexpectedEof));
}

#[test]
fn with_pending_replays_the_pending_changes_too() {
    let all = script();
    let repo = Repository { revisions: vec![revision(1, all[..3].to_vec())] };
    let doc = Document::with_pending(repo, revision(2, all[3..6].to_vec())).unwrap();
    assert_eq!(doc.node_count(), 2);
    assert_eq!(doc.pending_changes().changes.len(), 3);
    assert_eq!(doc.find_roots(), &vec![id(2)]);
}

#[test]
fn failed_edit_changes_only_what_can_be_redone() {
    let mut doc = Document::empty();
    doc.add_and_apply_change(Change::AddNode { id: id(2) }).unwrap();
    doc.commit_changes();
    doc.add_and_apply_change(Change::AddNode { id: id(3) }).unwrap();
    doc.add_and_apply_change(set(2, "a", "x")).unwrap();
    doc.undo();
    assert_eq!(doc.undo_changes(), &vec![set(2, "a", "x")]);
    let nodes = doc.nodes().nodes().clone();
    let pending = doc.pending_changes().clone();
    let repository = doc.repository().clone();
    assert_eq!(doc.add_and_apply_change(Change::AddNode { id: id(2) }), Err(Error::AlreadyExists));
    assert!(doc.undo_changes().is_empty());
    assert_eq!(doc.nodes().nodes(), &nodes);
    assert_eq!(doc.pending_changes(), &pending);
    assert_eq!(doc.repository(), &repository);
    assert_eq!(doc.add_and_apply_change(set(9, "a", "x")), Err(Error::NotFound));
    assert_eq!(doc.nodes().nodes(), &nodes);
    assert_eq!(doc.pending_changes(), &pending);
    assert_eq!(doc.node_count(), 2);
}

#[test]
fn refused_edit_discards_the_redo_history() {
    let mut doc = Document::empty();
    doc.add_and_apply_change(Change::AddNode { id: id(2) }).unwrap();
    doc.add_and_apply_change(Change::AddNode { id: id(3) }).unwrap();
    doc.add_and_apply_change(Change::AddNode { id: id(4) }).unwrap();
    doc.undo();
    doc.undo();
    assert_eq!(doc.undo_changes().len(), 2);
    assert_eq!(doc.add_and_apply_change(Change::RemoveNode { id: id(9) }), Err(Error::NotFound));
    assert!(doc.undo_changes().is_empty());
    let nodes = doc.nodes().nodes().clone();
    let pending = doc.pending_changes().clone();
    doc.redo();
    assert_eq!(doc.nodes().nodes(), &nodes);
    assert_eq!(doc.pending_changes(), &pending);
    assert!(doc.undo_changes().is_empty());
}

#[test]
fn two_set_strings_in_a_row_leave_one_pending_change() {
    let mut doc = Document::empty();
    doc.add_and_apply_change(Change::AddNode { id: id(2) }).unwrap();
    doc.commit_changes();
    doc.add_and_apply_change(set(2, "a", "x")).unwrap();
    doc.add_and_apply_change(set(2, "a", "y")).unwrap();
    assert_eq!(doc.pending_changes().changes, vec![set(2, "a", "y")]);
    let key = doc.nodes().attribute_names().get_index("a").unwrap();
    assert_eq!(doc.nodes().get(id(2)).unwrap().get_string_attribute(key), Some(&"y".to_string()));
    doc.add_and_apply_change(flag(2, "a", true)).unwrap();
    doc.add_and_apply_change(flag(2, "a", false)).unwrap();
    doc.add_and_apply_change(flag(2, "b", false)).unwrap();
    assert_eq!(doc.pending_changes().changes, vec![set(2, "a", "y"), flag(2, "a", false), flag(2, "b", false)]);
}

#[test]
fn combining_does_not_reach_across_a_commit() {
    let mut doc = Document::empty();
    doc.add_and_apply_change(Change::AddNode { id: id(2) }).unwrap();
    doc.add_and_apply_change(set(2, "a", "x")).unwrap();
    doc.commit_changes();
    doc.add_and_apply_change(set(2, "a", "y")).unwrap();
    assert_eq!(doc.repository().revisions[0].changes.len(), 2);
    assert_eq!(doc.pending_changes().changes, vec![set(2, "a", "y")]);
}

#[test]
fn edit_clears_what_could_be_redone() {
    let mut doc = Document::empty();
    doc.add_and_apply_change(Change::AddNode { id: id(2) }).unwrap();
    doc.add_and_apply_change(Change::AddNode { id: id(3) }).unwrap();
    doc.undo();
    assert_eq!(doc.undo_changes().len(), 1);
    doc.add_and_apply_change(Change::AddNode { id: id(4) }).unwrap();
    assert!(doc.undo_changes().is_empty());
    doc.redo();
    assert_eq!(doc.node_count(), 2);
}

#[test]
fn undo_takes_back_one_change_and_redo_brings_it_back() {
    let mut doc = Document::empty();
    doc.add_and_apply_change(Change::AddNode { id: id(2) }).unwrap();
    doc.add_and_apply_change(set(2, "a", "x")).unwrap();
    doc.undo();
    assert_eq!(doc.pending_changes().changes, vec![Change::AddNode { id: id(2) }]);
    assert_eq!(doc.undo_changes(), &vec![set(2, "a", "x")]);
    assert!(doc.nodes().get(id(2)).unwrap().attributes.is_empty());
    assert_eq!(doc.nodes().attribute_names().len(), 0);
    doc.redo();
    assert_eq!(doc.pending_changes().changes.len(), 2);
    assert!(doc.undo_changes().is_empty());
    assert_eq!(doc.nodes().get(id(2)).unwrap().attributes.len(), 1);
    doc.redo();
    assert_eq!(doc.pending_changes().changes.len(), 2);
}

#[test]
fn undo_reaches_back_past_a_commit() {
    let mut doc = Document::empty();
    doc.add_and_apply_change(Change::AddNode { id: id(2) }).unwrap();
    doc.add_and_apply_change(Change::AddNode { id: id(3) }).unwrap();
    let committed = doc.pending_changes().clone();
    doc.commit_changes();
    doc.undo();
    assert_eq!(doc.repository().len(), 0);
    assert_eq!(doc.pending_changes().id, committed.id);
    assert_eq!(doc.pending_changes().changes, vec![Change::AddNode { id: id(2) }]);
    assert_eq!(doc.node_count(), 1);
}

#[test]
fn uncommit_needs_an_empty_pending_revision() {
    let mut doc = Document::empty();
    doc.uncommit_changes();
    assert_eq!(doc.repository().len(), 0);
    doc.add_and_apply_change(Change::AddNode { id: id(2) }).unwrap();
    doc.commit_changes();
    doc.add_and_apply_change(Change::AddNode { id: id(3) }).unwrap();
    doc.uncommit_changes();
    assert_eq!(doc.repository().len(), 1);
    assert_eq!(doc.pending_changes().changes, vec![Change::AddNode { id: id(3) }]);
}

#[test]
fn commit_as_sets_the_next_provenance() {
    let mut doc = Document::empty();
    doc.add_and_apply_change(Change::AddNode { id: id(2) }).unwrap();
    doc.commit_changes_as([5; 16], "d".to_string(), "u".to_string());
    assert_eq!(doc.pending_changes(), &Revision::with_provenance([5; 16], "d".to_string(), "u".to_string()));
    assert_eq!(doc.repository().len(), 1);
}

fn undo_all_then_redo_all(commit_after: &[usize]) {
    let mut doc = Document::empty();
    for (i, change) in script().into_iter().enumerate() {
        doc.add_and_apply_change(change).unwrap();
        if commit_after.contains(&i) {
            doc.commit_changes();
        }
    }
    let nodes = doc.nodes().nodes().clone();
    let roots = doc.find_roots().clone();
    let names = doc.nodes().attribute_names().len();
    let mut undos = 0;
    while doc.repository().len() > 0 || !doc.pending_changes().changes.is_empty() {
        doc.undo();
        undos += 1;
        assert!(undos < 100);
    }
    assert_eq!(doc.node_count(), 0);
    assert_eq!(doc.undo_changes().len(), script().len());
    doc.undo();
    undos += 1;
    for _ in 0..undos {
        doc.redo();
    }
    assert_eq!(doc.nodes().nodes(), &nodes);
    assert_eq!(doc.find_roots(), &roots);
    assert_eq!(doc.nodes().attribute_names().len(), names);
    assert!(doc.undo_changes().is_empty());
    assert_eq!(doc.pending_changes().changes, script());
}

#[test]
fn undo_all_then_redo_restores_the_nodes_without_commits() {
    undo_all_then_redo_all(&[]);
}

#[test]
fn undo_all_then_redo_restores_the_nodes_with_commits() {
    undo_all_then_redo_all(&[2, 3, 8]);
    undo_all_then_redo_all(&[0, 1, 2, 3, 4, 5, 6, 7, 8, 9, 10, 11]);
    undo_all_then_redo_all(&[11]);
}

#[test]
fn undo_then_redo_with_empty_revisions_in_between() {
    let mut doc = Document::empty();
    doc.add_and_apply_change(Change::AddNode { id: id(2) }).unwrap();
    doc.commit_changes();
    doc.commit_changes();
    doc.commit_changes();
    assert_eq!(doc.repository().len(), 3);
    doc.undo();
    assert_eq!(doc.repository().len(), 2);
    assert_eq!(doc.node_count(), 1);
    doc.undo();
    doc.undo();
    assert_eq!(doc.node_count(), 0);
    assert_eq!(doc.repository().len(), 0);
    for _ in 0..3 {
        doc.redo();
    }
    assert_eq!(doc.node_count(), 1);
}

#[test]
fn default_document_is_empty() {
    let doc = Document::default();
    assert_eq!(doc.node_count(), 0);
    assert_eq!(doc.repository().len(), 0);
    assert!(doc.pending_changes().changes.is_empty());
    assert!(doc.undo_changes().is_empty());
    assert!(doc.find_roots().is_empty());
}

#[test]
fn empty_document_has_a_random_pending_identity() {
    let a = Document::empty();
    let b = Document::empty();
    assert_eq!(a.pending_changes().id[6] >> 4, 4);
    assert_eq!(a.pending_changes().id[8] >> 6, 2);
    assert_ne!(a.pending_changes().id, b.pending_changes().id);
    assert!(a.pending_changes().uuid_of_parents.is_empty());
    assert!(a.pending_changes().message.is_empty());
    assert!(a.pending_changes().tags.is_empty());
}
