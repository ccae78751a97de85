use binc::application::{
    first_child, last_child, new_document, next_sibling, node_name, position, previous_sibling,
    SimpleApplication,
};
use binc::change::Change;
use binc::document::Document;
use binc::error::Error;
use binc::node_id::NodeId;

fn id(index: u64) -> NodeId {
    NodeId { index }
}

/// The tree
///
/// ```text
/// 2 "First"
///   3 "a"
///     5
///     6
///   4
/// 7
/// ```
fn tree() -> SimpleApplication {
    let mut app = SimpleApplication::new();
    app.add_child(&id(2), 0).unwrap();
    app.add_child(&id(2), 1).unwrap();
    app.add_child(&id(3), 0).unwrap();
    app.add_child(&id(3), 1).unwrap();
    app.add_child(&NodeId::root(), 0).unwrap();
    app.document
        .add_and_apply_change(Change::SetString { node: id(3), attribute: "name".to_string(), value: "a".to_string() })
        .unwrap();
    app
}

#[test]
fn new_document_has_one_named_root() {
    let doc = new_document();
    assert_eq!(doc.find_roots(), &vec![id(2)]);
    assert_eq!(doc.node_count(), 1);
    assert_eq!(
        doc.pending_changes().changes,
        vec![
            Change::AddNode { id: id(2) },
            Change::AddChild { parent: NodeId::root(), child: id(2), insertion_index: 0 },
            Change::SetString { node: id(2), attribute: "name".to_string(), value: "First".to_string() },
        ]
    );
    assert_eq!(node_name(doc.nodes(), id(2)), "First");
    assert_eq!(doc.repository().len(), 0);
}

#[test]
fn new_application_shows_everything_and_selects_nothing() {
    let app = SimpleApplication::new();
    assert_eq!(app.root, NodeId::root());
    assert_eq!(app.selected_node, NodeId::none());
    assert_eq!(app.selected_node_name, "");
    assert!(app.expanded_nodes.is_empty());
    assert!(!app.is_editing);
    assert!(app.get_selected_node().is_none());
    assert_eq!(app.document.node_count(), 1);
}

#[test]
fn node_name_is_the_name_attribute() {
    let app = tree();
    assert_eq!(node_name(app.document.nodes(), id(2)), "First");
    assert_eq!(node_name(app.document.nodes(), id(3)), "a");
    assert_eq!(node_name(app.document.nodes(), id(4)), "");
    assert_eq!(node_name(app.document.nodes(), id(99)), "");
    let mut doc = Document::empty();
    doc.add_and_apply_change(Change::AddNode { id: id(2) }).unwrap();
    doc.add_and_apply_change(Change::SetBool { node: id(2), attribute: "name".to_string(), value: true }).unwrap();
    assert_eq!(node_name(doc.nodes(), id(2)), "");
}

#[test]
fn position_is_the_first_place() {
    let list = vec![id(5), id(6), id(5)];
    assert_eq!(position(&list, id(5)), Some(0));
    assert_eq!(position(&list, id(6)), Some(1));
    assert_eq!(position(&list, id(7)), None);
    assert_eq!(position(&vec![], id(7)), None);
}

#[test]
fn siblings_follow_the_order_of_the_children() {
    let app = tree();
    let nodes = app.document.nodes();
    assert_eq!(nodes.get(id(2)).unwrap().children, vec![id(3), id(4)]);
    assert_eq!(nodes.get(id(3)).unwrap().children, vec![id(5), id(6)]);
    assert_eq!(previous_sibling(nodes, id(3)), None);
    assert_eq!(next_sibling(nodes, id(3)), Some(id(4)));
    assert_eq!(previous_sibling(nodes, id(4)), Some(id(3)));
    assert_eq!(next_sibling(nodes, id(4)), None);
    assert_eq!(next_sibling(nodes, id(5)), Some(id(6)));
    assert_eq!(previous_sibling(nodes, id(6)), Some(id(5)));
    assert_eq!(next_sibling(nodes, id(99)), None);
    assert_eq!(previous_sibling(nodes, id(99)), None);
    assert_eq!(app.get_next_sibling(id(3)), Some(id(4)));
    assert_eq!(app.get_previous_sibling(id(4)), Some(id(3)));
}

#[test]
fn top_level_nodes_are_siblings_in_the_order_of_the_roots() {
    let app = tree();
    let nodes = app.document.nodes();
    assert_eq!(nodes.find_roots(), &vec![id(2), id(7)]);
    assert_eq!(next_sibling(nodes, id(2)), Some(id(7)));
    assert_eq!(previous_sibling(nodes, id(7)), Some(id(2)));
    assert_eq!(previous_sibling(nodes, id(2)), None);
    assert_eq!(next_sibling(nodes, id(7)), None);
}

#[test]
fn first_and_last_child() {
    let app = tree();
    let nodes = app.document.nodes();
    assert_eq!(first_child(nodes, id(2)), Some(id(3)));
    assert_eq!(last_child(nodes, id(2)), Some(id(4)));
    assert_eq!(first_child(nodes, id(4)), None);
    assert_eq!(last_child(nodes, id(4)), None);
    assert_eq!(first_child(nodes, id(99)), None);
    assert_eq!(app.get_first_child(id(3)), Some(id(5)));
    assert_eq!(app.get_last_child(id(3)), Some(id(6)));
}

#[test]
fn select_node_takes_the_name() {
    let mut app = tree();
    app.select_node(id(3));
    assert_eq!(app.selected_node, id(3));
    assert_eq!(app.selected_node_name, "a");
    assert_eq!(app.get_selected_node().unwrap().id, id(3));
    app.select_node(id(4));
    assert_eq!(app.selected_node_name, "");
    app.select_node(id(2));
    assert_eq!(app.selected_node_name, "First");
    app.select_node(id(99));
    assert_eq!(app.selected_node, id(99));
    assert_eq!(app.selected_node_name, "");
    assert!(app.get_selected_node().is_none());
    app.select_node(NodeId::none());
    assert_eq!(app.selected_node_name, "");
    assert!(app.get_selected_node().is_none());
}

#[test]
fn add_child_makes_a_node_in_place() {
    let mut app = SimpleApplication::new();
    assert_eq!(app.add_child(&id(2), 0), Ok(()));
    assert_eq!(app.add_child(&id(2), 0), Ok(()));
    assert_eq!(app.document.nodes().get(id(2)).unwrap().children, vec![id(4), id(3)]);
    assert_eq!(app.add_child(&id(50), 0), Err(Error::NotFound));
    assert_eq!(app.add_child(&id(2), 9), Err(Error::InvalidData));
    assert_eq!(app.document.node_count(), 5);
    assert_eq!(app.document.nodes().get(id(5)).unwrap().parent, NodeId::none());
    assert_eq!(app.document.pending_changes().changes.len(), 3 + 2 + 2 + 1 + 1);
}

#[test]
fn remove_node_clears_the_selection_and_a_lost_root() {
    let mut app = tree();
    app.root = id(3);
    app.select_node(id(5));
    assert_eq!(app.remove_node(&id(5)), Ok(()));
    assert_eq!(app.selected_node, NodeId::none());
    assert_eq!(app.selected_node_name, "");
    assert_eq!(app.root, id(3));
    app.select_node(id(6));
    assert_eq!(app.remove_node(&id(3)), Ok(()));
    assert_eq!(app.root, NodeId::root());
    assert_eq!(app.document.nodes().get(id(6)).unwrap().parent, NodeId::none());
    app.select_node(id(6));
    assert_eq!(app.remove_node(&id(3)), Err(Error::NotFound));
    assert_eq!(app.selected_node, NodeId::none());
}

#[test]
fn commit_moves_the_pending_changes_into_the_history() {
    let mut app = tree();
    let pending = app.document.pending_changes().changes.len();
    app.commit();
    assert_eq!(app.document.repository().len(), 1);
    assert_eq!(app.document.repository().revisions[0].changes.len(), pending);
    assert!(app.document.pending_changes().changes.is_empty());
}

#[test]
fn set_document_resets_root_and_selection() {
    let mut app = tree();
    app.root = id(3);
    app.select_node(id(3));
    app.set_node_expanded(id(3), true);
    app.set_document(new_document());
    assert_eq!(app.root, NodeId::root());
    assert_eq!(app.selected_node, NodeId::none());
    assert_eq!(app.selected_node_name, "");
    assert_eq!(app.document.node_count(), 1);
    assert!(app.is_node_expanded(id(3)));
}

#[test]
fn expanding_and_folding() {
    let mut app = tree();
    assert!(!app.is_node_expanded(id(2)));
    app.set_node_expanded(id(2), true);
    app.set_node_expanded(id(2), true);
    assert!(app.is_node_expanded(id(2)));
    assert_eq!(app.expanded_nodes.len(), 1);
    app.set_node_expanded(id(2), false);
    assert!(!app.is_node_expanded(id(2)));
    app.toggle_selected_node_expanded();
    assert!(app.expanded_nodes.is_empty());
    app.select_node(id(3));
    app.toggle_selected_node_expanded();
    assert!(app.is_node_expanded(id(3)));
    app.toggle_selected_node_expanded();
    assert!(!app.is_node_expanded(id(3)));
}

#[test]
fn toggle_editing_flips_the_flag() {
    let mut app = SimpleApplication::new();
    app.toggle_editing();
    assert!(app.is_editing);
    app.toggle_editing();
    assert!(!app.is_editing);
}

#[test]
fn select_first_child_unfolds() {
    let mut app = tree();
    app.select_first_child();
    assert_eq!(app.selected_node, NodeId::none());
    assert!(app.expanded_nodes.is_empty());
    app.select_node(id(2));
    app.select_first_child();
    assert!(app.is_node_expanded(id(2)));
    assert_eq!(app.selected_node, id(3));
    assert_eq!(app.selected_node_name, "a");
    app.select_node(id(4));
    app.select_first_child();
    assert!(app.is_node_expanded(id(4)));
    assert_eq!(app.selected_node, id(4));
}

#[test]
fn select_parent_stops_at_the_top() {
    let mut app = tree();
    app.select_node(id(5));
    app.select_parent();
    assert_eq!(app.selected_node, id(3));
    app.select_parent();
    assert_eq!(app.selected_node, id(2));
    assert_eq!(app.selected_node_name, "First");
    app.select_parent();
    assert_eq!(app.selected_node, id(2));
    app.select_node(id(7));
    app.select_parent();
    assert_eq!(app.selected_node, id(7));
}

#[test]
fn select_next_walks_down_the_shown_tree() {
    let mut app = tree();
    app.select_next();
    assert_eq!(app.selected_node, NodeId::none());
    app.select_node(id(2));
    app.set_node_expanded(id(2), true);
    app.select_next();
    assert_eq!(app.selected_node, id(3));
    app.select_next();
    assert_eq!(app.selected_node, id(4));
    app.select_next();
    assert_eq!(app.selected_node, id(7));
    app.select_next();
    assert_eq!(app.selected_node, id(7));
    app.select_node(id(3));
    app.set_node_expanded(id(3), true);
    app.select_next();
    assert_eq!(app.selected_node, id(5));
    app.select_next();
    assert_eq!(app.selected_node, id(6));
    app.select_next();
    assert_eq!(app.selected_node, id(4));
    app.select_node(id(99));
    app.select_next();
    assert_eq!(app.selected_node, id(99));
}

#[test]
fn select_previous_walks_up_the_shown_tree() {
    let mut app = tree();
    app.select_node(id(4));
    app.select_previous();
    assert_eq!(app.selected_node, id(3));
    app.select_previous();
    assert_eq!(app.selected_node, id(2));
    app.select_previous();
    assert_eq!(app.selected_node, id(2));
    app.set_node_expanded(id(3), true);
    app.select_node(id(4));
    app.select_previous();
    assert_eq!(app.selected_node, id(6));
    app.select_previous();
    assert_eq!(app.selected_node, id(5));
    app.select_previous();
    assert_eq!(app.selected_node, id(3));
    app.select_node(id(7));
    app.select_previous();
    assert_eq!(app.selected_node, id(2));
    app.set_node_expanded(id(2), true);
    app.select_node(id(7));
    app.select_previous();
    assert_eq!(app.selected_node, id(4));
}

#[test]
fn refused_edits_of_the_editor_discard_the_redo_history() {
    let mut app = tree();
    app.document.undo();
    assert_eq!(app.document.undo_changes().len(), 1);
    assert_eq!(app.remove_node(&id(99)), Err(Error::NotFound));
    assert!(app.document.undo_changes().is_empty());
    app.document.undo();
    assert_eq!(app.document.undo_changes().len(), 1);
    let count = app.document.node_count();
    assert_eq!(app.add_child(&id(99), 0), Err(Error::NotFound));
    assert!(app.document.undo_changes().is_empty());
    assert_eq!(app.document.node_count(), count + 1);
}
