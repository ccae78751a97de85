use binc::error::Error;
use binc::intern::{str_equal, InternTable};
use binc::node_id::{NodeId, NodeIdGenerator};
use binc::node_store::{AttributeValue, Node, NodeStore};

fn id(index: u64) -> NodeId {
    NodeId { index }
}

fn store_with(ids: &[u64]) -> NodeStore {
    let mut store = NodeStore::new();
    for i in ids {
        store.add_node(id(*i)).unwrap();
    }
    store
}

fn children(store: &NodeStore, of: u64) -> Vec<u64> {
    store.get(id(of)).unwrap().children.iter().map(|c| c.index).collect()
}

fn parent(store: &NodeStore, of: u64) -> NodeId {
    store.get(id(of)).unwrap().parent
}

fn roots(store: &NodeStore) -> Vec<u64> {
    store.find_roots().iter().map(|c| c.index).collect()
}

/// Parent and child links agree in both directions.
fn assert_links_consistent(store: &NodeStore) {
    for node in store.nodes() {
        for (i, child) in node.children.iter().enumerate() {
            assert_eq!(store.get(*child).unwrap().parent, node.id);
            assert!(!node.children[..i].contains(child));
        }
        if node.parent.is_node() {
            let parent = store.get(node.parent).unwrap();
            assert_eq!(parent.children.iter().filter(|c| **c == node.id).count(), 1);
        }
    }
}

#[test]
fn reserved_identifiers_name_no_node() {
    assert_eq!(NodeId::none(), id(0));
    assert_eq!(NodeId::root(), id(1));
    assert!(!NodeId::none().is_node());
    assert!(!NodeId::root().is_node());
    assert!(id(2).is_node());
    assert!(id(u64::MAX).is_node());
}

#[test]
fn generator_counts_up_from_the_first_free_index() {
    let mut g = NodeIdGenerator::new();
    assert_eq!(g.next_id(), id(2));
    assert_eq!(g.next_id(), id(3));
    assert_eq!(g.next_id(), id(4));
}

#[test]
fn str_equal_compares_text() {
    assert!(str_equal("", ""));
    assert!(str_equal("abc", "abc"));
    assert!(!str_equal("abc", "abd"));
    assert!(!str_equal("abc", "ab"));
    assert!(!str_equal("é", "e"));
}

#[test]
fn intern_table_hands_out_stable_indices() {
    let mut table = InternTable::new();
    assert_eq!(table.len(), 0);
    assert_eq!(table.get_index("a"), None);
    assert_eq!(table.intern("a"), 0);
    assert_eq!(table.intern("b"), 1);
    assert_eq!(table.intern("a"), 0);
    assert_eq!(table.len(), 2);
    assert_eq!(table.get_index("b"), Some(1));
    assert_eq!(table.get_name(1), Some(&"b".to_string()));
    assert_eq!(table.get_name(2), None);
}

#[test]
fn new_store_is_empty() {
    let store = NodeStore::new();
    assert_eq!(store.len(), 0);
    assert!(store.find_roots().is_empty());
    assert!(!store.contains(id(2)));
    assert!(store.get(id(2)).is_none());
    assert_eq!(store.type_names().len(), 0);
    assert_eq!(store.attribute_names().len(), 0);
}

#[test]
fn added_node_is_detached_and_top_level() {
    let store = store_with(&[5, 2]);
    assert_eq!(store.len(), 2);
    let node = store.get(id(5)).unwrap();
    assert_eq!(node, &Node::new_with_id(id(5)));
    assert_eq!(node.parent, NodeId::none());
    assert!(node.children.is_empty());
    assert_eq!(node.type_id, None);
    assert_eq!(roots(&store), vec![5, 2]);
}

#[test]
fn add_node_refuses_reserved_and_live_identifiers() {
    let mut store = store_with(&[2]);
    assert_eq!(store.add_node(NodeId::none()), Err(Error::InvalidData));
    assert_eq!(store.add_node(NodeId::root()), Err(Error::InvalidData));
    assert_eq!(store.add_node(id(2)), Err(Error::AlreadyExists));
    assert_eq!(store.len(), 1);
}

#[test]
fn add_child_inserts_at_the_index() {
    let mut store = store_with(&[2, 3, 4, 5]);
    store.add_child(id(2), id(3), 0).unwrap();
    store.add_child(id(2), id(4), 0).unwrap();
    store.add_child(id(2), id(5), 1).unwrap();
    assert_eq!(children(&store, 2), vec![4, 5, 3]);
    assert_eq!(parent(&store, 5), id(2));
    assert_eq!(roots(&store), vec![2]);
    assert_links_consistent(&store);
}

#[test]
fn add_child_past_the_end_is_invalid_data() {
    let mut store = store_with(&[2, 3, 4]);
    store.add_child(id(2), id(3), 0).unwrap();
    assert_eq!(store.add_child(id(2), id(4), 2), Err(Error::InvalidData));
    assert_eq!(store.add_child(id(2), id(3), 1), Err(Error::InvalidData));
    assert_eq!(children(&store, 2), vec![3]);
    assert_eq!(parent(&store, 4), NodeId::none());
    store.add_child(id(2), id(4), 1).unwrap();
    assert_eq!(children(&store, 2), vec![3, 4]);
}

#[test]
fn add_child_moves_a_child_that_hung_elsewhere() {
    let mut store = store_with(&[2, 3, 4, 5]);
    store.add_child(id(2), id(4), 0).unwrap();
    store.add_child(id(2), id(5), 1).unwrap();
    store.add_child(id(3), id(4), 0).unwrap();
    assert_eq!(children(&store, 2), vec![5]);
    assert_eq!(children(&store, 3), vec![4]);
    assert_eq!(parent(&store, 4), id(3));
    store.add_child(id(3), id(5), 0).unwrap();
    store.add_child(id(3), id(4), 0).unwrap();
    assert_eq!(children(&store, 3), vec![4, 5]);
    store.add_child(id(3), id(4), 1).unwrap();
    assert_eq!(children(&store, 3), vec![5, 4]);
    assert_links_consistent(&store);
}

#[test]
fn add_child_under_the_root_makes_a_top_level_node() {
    let mut store = store_with(&[2, 3]);
    store.add_child(id(2), id(3), 0).unwrap();
    assert_eq!(roots(&store), vec![2]);
    store.add_child(NodeId::root(), id(3), 7).unwrap();
    assert_eq!(parent(&store, 3), NodeId::root());
    assert!(children(&store, 2).is_empty());
    assert_eq!(roots(&store), vec![2, 3]);
    assert_eq!(store.add_child(NodeId::root(), id(9), 0), Err(Error::NotFound));
    assert_eq!(store.add_child(NodeId::none(), id(3), 0), Err(Error::NotFound));
    assert_links_consistent(&store);
}

#[test]
fn remove_child_detaches() {
    let mut store = store_with(&[2, 3, 4]);
    store.add_child(id(2), id(3), 0).unwrap();
    store.add_child(id(2), id(4), 1).unwrap();
    store.remove_child(id(2), id(3)).unwrap();
    assert_eq!(children(&store, 2), vec![4]);
    assert_eq!(parent(&store, 3), NodeId::none());
    assert_eq!(roots(&store), vec![2, 3]);
    assert_eq!(store.remove_child(id(2), id(3)), Err(Error::NotFound));
    assert_eq!(store.remove_child(id(9), id(3)), Err(Error::NotFound));
    assert_links_consistent(&store);
}

#[test]
fn remove_child_from_the_root() {
    let mut store = store_with(&[2]);
    assert_eq!(store.remove_child(NodeId::root(), id(2)), Err(Error::NotFound));
    store.add_child(NodeId::root(), id(2), 0).unwrap();
    store.remove_child(NodeId::root(), id(2)).unwrap();
    assert_eq!(parent(&store, 2), NodeId::none());
    assert_eq!(roots(&store), vec![2]);
    assert_eq!(store.remove_child(NodeId::root(), id(3)), Err(Error::NotFound));
}

#[test]
fn remove_node_lets_go_of_every_link() {
    let mut store = store_with(&[2, 3, 4, 5]);
    store.add_child(id(2), id(3), 0).unwrap();
    store.add_child(id(3), id(4), 0).unwrap();
    store.add_child(id(3), id(5), 1).unwrap();
    store.remove_node(id(3)).unwrap();
    assert_eq!(store.len(), 3);
    assert!(!store.contains(id(3)));
    assert!(children(&store, 2).is_empty());
    assert_eq!(parent(&store, 4), NodeId::none());
    assert_eq!(parent(&store, 5), NodeId::none());
    assert_eq!(roots(&store), vec![2, 4, 5]);
    assert_eq!(store.remove_node(id(3)), Err(Error::NotFound));
    assert_links_consistent(&store);
}

#[test]
fn node_may_be_its_own_parent() {
    let mut store = store_with(&[2]);
    store.add_child(id(2), id(2), 0).unwrap();
    assert_eq!(children(&store, 2), vec![2]);
    assert_eq!(parent(&store, 2), id(2));
    assert!(roots(&store).is_empty());
    assert_links_consistent(&store);
}

#[test]
fn set_attribute_interns_the_name_once() {
    let mut store = store_with(&[2, 3]);
    store.set_string_attribute(id(2), "name", "a").unwrap();
    store.set_bool_attribute(id(3), "name", true).unwrap();
    store.set_attribute(id(3), "kind", AttributeValue::String("k".to_string())).unwrap();
    assert_eq!(store.attribute_names().len(), 2);
    assert_eq!(store.attribute_names().get_index("name"), Some(0));
    assert_eq!(store.attribute_names().get_index("kind"), Some(1));
    assert_eq!(store.get(id(2)).unwrap().get_string_attribute(0), Some(&"a".to_string()));
    assert_eq!(store.get(id(3)).unwrap().get_bool_attribute(0), Some(true));
    assert_eq!(store.set_string_attribute(id(9), "other", "x"), Err(Error::NotFound));
    assert_eq!(store.attribute_names().get_index("other"), None);
}

#[test]
fn node_attributes_replace_in_place() {
    let mut node = Node::new_with_id(id(2));
    node.set_string_attribute(3, "a".to_string());
    node.set_bool_attribute(1, true);
    node.set_bool_attribute(3, false);
    assert_eq!(node.attributes.len(), 2);
    assert_eq!(node.get_bool_attribute(3), Some(false));
    assert_eq!(node.get_string_attribute(3), None);
    assert_eq!(node.get_bool_attribute(1), Some(true));
    assert!(!node.has_child(id(3)));
}
