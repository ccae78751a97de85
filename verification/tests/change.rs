use binc::change::{Change, ChangeType};
use binc::error::Error;
use binc::node_id::NodeId;
use binc::node_store::{AttributeValue, NodeStore};

fn id(index: u64) -> NodeId {
    NodeId { index }
}

fn encoded(change: &Change) -> Vec<u8> {
    let mut w = Vec::new();
    change.encode(&mut w);
    w
}

fn every_kind() -> Vec<Change> {
    vec![
        Change::AddNode { id: id(2) },
        Change::RemoveNode { id: id(300) },
        Change::AddChild { parent: id(1), child: id(2), insertion_index: 0 },
        Change::AddChild { parent: id(7), child: id(9), insertion_index: 1 << 40 },
        Change::RemoveChild { parent: id(7), child: id(9) },
        Change::SetString { node: id(2), attribute: "name".to_string(), value: "First".to_string() },
        Change::SetString { node: id(2), attribute: "".to_string(), value: "ü€🙂".to_string() },
        Change::SetBool { node: id(2), attribute: "done".to_string(), value: true },
        Change::SetBool { node: id(2), attribute: "done".to_string(), value: false },
        Change::UnknownChange { change_type: ChangeType::SET_UINT8, data: vec![1, 2, 3] },
        Change::UnknownChange { change_type: 0x7FFFFE, data: vec![] },
        Change::UnknownChange { change_type: u64::MAX, data: vec![0xff; 200] },
    ]
}

#[test]
fn change_roundtrip_for_every_kind() {
    for change in every_kind() {
        let mut bytes = encoded(&change);
        let len = bytes.len();
        bytes.extend_from_slice(&[0xAA, 0xBB]);
        let (got, rest) = Change::read(&bytes).unwrap();
        assert_eq!(got, change);
        assert_eq!(rest, &[0xAAu8, 0xBB][..]);
        assert_eq!(encoded(&got), bytes[..len].to_vec());
    }
}

#[test]
fn change_record_is_tag_size_payload() {
    assert_eq!(encoded(&Change::AddNode { id: id(2) }), vec![0x01, 1, 2]);
    assert_eq!(encoded(&Change::RemoveNode { id: id(2) }), vec![0x08, 1, 2]);
    assert_eq!(
        encoded(&Change::AddChild { parent: id(1), child: id(2), insertion_index: 3 }),
        vec![0x11, 3, 1, 2, 3]
    );
    assert_eq!(encoded(&Change::RemoveChild { parent: id(1), child: id(2) }), vec![0x12, 2, 1, 2]);
    assert_eq!(
        encoded(&Change::SetString { node: id(2), attribute: "a".to_string(), value: "xy".to_string() }),
        vec![0x41, 6, 2, 1, b'a', 2, b'x', b'y']
    );
    assert_eq!(
        encoded(&Change::SetBool { node: id(2), attribute: "a".to_string(), value: true }),
        vec![0x40, 4, 2, 1, b'a', 1]
    );
    assert_eq!(
        encoded(&Change::UnknownChange { change_type: 0x43, data: vec![9, 8] }),
        vec![0x43, 2, 9, 8]
    );
}

#[test]
fn change_write_is_the_payload_alone() {
    let mut w = Vec::new();
    Change::SetBool { node: id(2), attribute: "a".to_string(), value: false }.write(&mut w);
    assert_eq!(w, vec![2, 1, b'a', 0]);
    let mut w = Vec::new();
    Change::UnknownChange { change_type: 5, data: vec![4, 4] }.write(&mut w);
    assert_eq!(w, vec![4, 4]);
}

#[test]
fn unknown_change_keeps_exactly_the_declared_bytes() {
    let bytes = [0x4D, 3, 10, 20, 30, 40];
    let (change, rest) = Change::read(&bytes).unwrap();
    assert_eq!(change, Change::UnknownChange { change_type: 0x4D, data: vec![10, 20, 30] });
    assert_eq!(rest, &[40u8][..]);
    assert_eq!(Change::read(&[0x4D, 3, 10, 20]).unwrap_err(), Error::UnexpectedEof);
}

#[test]
fn any_nonzero_byte_reads_as_true() {
    let (change, _) = Change::read(&[0x40, 4, 2, 1, b'a', 7]).unwrap();
    assert_eq!(change, Change::SetBool { node: id(2), attribute: "a".to_string(), value: true });
}

#[test]
fn truncated_change_is_unexpected_eof() {
    assert_eq!(Change::read(&[]).unwrap_err(), Error::UnexpectedEof);
    assert_eq!(Change::read(&[0x01]).unwrap_err(), Error::UnexpectedEof);
    assert_eq!(Change::read(&[0x01, 1]).unwrap_err(), Error::UnexpectedEof);
    assert_eq!(Change::read(&[0x41, 6, 2, 1, b'a', 2, b'x']).unwrap_err(), Error::UnexpectedEof);
    assert_eq!(Change::read(&[0x41, 4, 2, 1, 0xff, 0]).unwrap_err(), Error::InvalidData);
}

#[test]
fn change_type_is_the_tag() {
    assert_eq!(Change::AddNode { id: id(2) }.change_type(), 0x01);
    assert_eq!(Change::RemoveNode { id: id(2) }.change_type(), 0x08);
    assert_eq!(Change::AddChild { parent: id(1), child: id(2), insertion_index: 0 }.change_type(), 0x11);
    assert_eq!(Change::RemoveChild { parent: id(1), child: id(2) }.change_type(), 0x12);
    assert_eq!(
        Change::SetString { node: id(2), attribute: String::new(), value: String::new() }.change_type(),
        0x41
    );
    assert_eq!(Change::SetBool { node: id(2), attribute: String::new(), value: true }.change_type(), 0x40);
    assert_eq!(Change::UnknownChange { change_type: 77, data: vec![] }.change_type(), 77);
}

#[test]
fn combine_takes_the_later_value() {
    let x = Change::SetString { node: id(2), attribute: "a".to_string(), value: "x".to_string() };
    let y = Change::SetString { node: id(2), attribute: "a".to_string(), value: "y".to_string() };
    assert_eq!(y.combine_change(&x), Some(y.clone()));
    let t = Change::SetBool { node: id(2), attribute: "a".to_string(), value: true };
    let f = Change::SetBool { node: id(2), attribute: "a".to_string(), value: false };
    assert_eq!(f.combine_change(&t), Some(f.clone()));
}

#[test]
fn combine_needs_same_kind_node_and_attribute() {
    let x = Change::SetString { node: id(2), attribute: "a".to_string(), value: "x".to_string() };
    let other_node = Change::SetString { node: id(3), attribute: "a".to_string(), value: "y".to_string() };
    let other_attr = Change::SetString { node: id(2), attribute: "b".to_string(), value: "y".to_string() };
    let flag = Change::SetBool { node: id(2), attribute: "a".to_string(), value: true };
    assert_eq!(other_node.combine_change(&x), None);
    assert_eq!(other_attr.combine_change(&x), None);
    assert_eq!(flag.combine_change(&x), None);
    assert_eq!(x.combine_change(&flag), None);
    assert_eq!(Change::AddNode { id: id(2) }.combine_change(&Change::AddNode { id: id(2) }), None);
    let u = Change::UnknownChange { change_type: 0x41, data: vec![] };
    assert_eq!(u.combine_change(&x), None);
}

#[test]
fn apply_add_node_twice_is_already_exists() {
    let mut store = NodeStore::new();
    assert_eq!(Change::AddNode { id: id(2) }.apply(&mut store), Ok(()));
    assert_eq!(Change::AddNode { id: id(2) }.apply(&mut store), Err(Error::AlreadyExists));
    assert_eq!(store.len(), 1);
}

#[test]
fn apply_on_missing_nodes_is_not_found() {
    let mut store = NodeStore::new();
    assert_eq!(Change::RemoveNode { id: id(2) }.apply(&mut store), Err(Error::NotFound));
    assert_eq!(
        Change::AddChild { parent: id(1), child: id(2), insertion_index: 0 }.apply(&mut store),
        Err(Error::NotFound)
    );
    assert_eq!(Change::RemoveChild { parent: id(2), child: id(3) }.apply(&mut store), Err(Error::NotFound));
    assert_eq!(
        Change::SetString { node: id(2), attribute: "a".to_string(), value: "x".to_string() }.apply(&mut store),
        Err(Error::NotFound)
    );
    assert_eq!(
        Change::SetBool { node: id(2), attribute: "a".to_string(), value: true }.apply(&mut store),
        Err(Error::NotFound)
    );
    Change::AddNode { id: id(2) }.apply(&mut store).unwrap();
    assert_eq!(
        Change::AddChild { parent: id(3), child: id(2), insertion_index: 0 }.apply(&mut store),
        Err(Error::NotFound)
    );
    assert_eq!(Change::RemoveChild { parent: id(2), child: id(3) }.apply(&mut store), Err(Error::NotFound));
    assert_eq!(store.len(), 1);
    assert!(store.attribute_names().get_index("a").is_none());
}

#[test]
fn apply_unknown_change_does_nothing() {
    let mut store = NodeStore::new();
    Change::AddNode { id: id(2) }.apply(&mut store).unwrap();
    let before = store.nodes().clone();
    assert_eq!(Change::UnknownChange { change_type: 0x42, data: vec![1] }.apply(&mut store), Ok(()));
    assert_eq!(store.nodes(), &before);
}

#[test]
fn apply_sets_attributes_under_interned_names() {
    let mut store = NodeStore::new();
    Change::AddNode { id: id(2) }.apply(&mut store).unwrap();
    Change::SetString { node: id(2), attribute: "name".to_string(), value: "First".to_string() }
        .apply(&mut store)
        .unwrap();
    Change::SetBool { node: id(2), attribute: "done".to_string(), value: true }.apply(&mut store).unwrap();
    Change::SetString { node: id(2), attribute: "name".to_string(), value: "Second".to_string() }
        .apply(&mut store)
        .unwrap();
    let name = store.attribute_names().get_index("name").unwrap();
    let done = store.attribute_names().get_index("done").unwrap();
    assert_eq!((name, done), (0, 1));
    let node = store.get(id(2)).unwrap();
    assert_eq!(node.get_string_attribute(name), Some(&"Second".to_string()));
    assert_eq!(node.get_bool_attribute(done), Some(true));
    assert_eq!(node.get_bool_attribute(name), None);
    assert_eq!(node.get_string_attribute(done), None);
    assert_eq!(node.get_attribute(done), Some(&AttributeValue::Bool(true)));
    assert_eq!(node.get_attribute(5), None);
    assert_eq!(node.attributes.len(), 2);
}
