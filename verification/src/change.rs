//! Changes: the only way in which a document is edited. A change is a
//! tagged value that can be applied to a node store, written as a framed
//! record and read back, whether or not its tag is understood.

use crate::error::Error;
use crate::intern::{key_of, lemma_names_with, str_equal};
use crate::node_id::NodeId;
use crate::node_links::{
    lemma_add_child_wf, lemma_add_node_wf, lemma_remove_child_wf, lemma_remove_node_wf,
    lemma_set_attribute_wf,
};
use crate::node_store::{steps_to, AttributeValueView, NodeStore, NodeStoreView};
use crate::readwrite::{
    encode_bytes, encode_id, encode_string, encode_varint, lemma_id_roundtrip,
    lemma_string_roundtrip, lemma_varint_roundtrip, read_exact, read_id, read_string, read_u8,
    read_varint, spec_read_exact, spec_read_id, spec_read_string, spec_read_u8, spec_read_varint,
    write_all, write_id, write_string, write_u8, write_varint, yields, Decoded,
};
use vstd::prelude::*;
use vstd::utf8::encode_utf8;

verus! {

/// The tags of the change records. Only six of them are understood here; the
/// others are reserved, and a record that carries one of them is kept as it
/// is.
pub struct ChangeType;

impl ChangeType {
    pub const ADD_NODE: u64 = 0x01;

    pub const ADD_NODE_FROM_SOURCE: u64 = 0x02;

    pub const REMOVE_NODE: u64 = 0x08;

    pub const ADD_CHILD: u64 = 0x11;

    pub const REMOVE_CHILD: u64 = 0x12;

    pub const ADD_SOURCE: u64 = 0x21;

    pub const UPDATE_SOURCE: u64 = 0x22;

    pub const REMOVE_SOURCE: u64 = 0x23;

    pub const ADD_COMMENT: u64 = 0x31;

    pub const SET_BOOL: u64 = 0x40;

    pub const SET_STRING: u64 = 0x41;

    pub const SET_UUID: u64 = 0x42;

    pub const SET_UINT8: u64 = 0x43;

    pub const SET_UINT16: u64 = 0x44;

    pub const SET_UINT32: u64 = 0x45;

    pub const SET_UINT64: u64 = 0x46;

    pub const SET_INT8: u64 = 0x47;

    pub const SET_INT16: u64 = 0x48;

    pub const SET_INT32: u64 = 0x49;

    pub const SET_INT64: u64 = 0x4A;

    pub const SET_FLOAT16: u64 = 0x4B;

    pub const SET_FLOAT32: u64 = 0x4C;

    pub const SET_FLOAT64: u64 = 0x4D;

    pub const SET_FLOAT80: u64 = 0x4E;

    pub const SET_BOOL_ARRAY: u64 = 0x60;

    pub const SET_STRING_ARRAY: u64 = 0x61;

    pub const SET_UUID_ARRAY: u64 = 0x62;

    pub const SET_UINT8_ARRAY: u64 = 0x63;

    pub const SET_UINT16_ARRAY: u64 = 0x64;

    pub const SET_UINT32_ARRAY: u64 = 0x65;

    pub const SET_UINT64_ARRAY: u64 = 0x66;

    pub const SET_INT8_ARRAY: u64 = 0x67;

    pub const SET_INT16_ARRAY: u64 = 0x68;

    pub const SET_INT32_ARRAY: u64 = 0x69;

    pub const SET_INT64_ARRAY: u64 = 0x6A;

    pub const SET_FLOAT16_ARRAY: u64 = 0x6B;

    pub const SET_FLOAT32_ARRAY: u64 = 0x6C;

    pub const SET_FLOAT64_ARRAY: u64 = 0x6D;

    pub const SET_FLOAT80_ARRAY: u64 = 0x6E;

    /// True for the tags whose records are understood.
    pub open spec fn is_interpreted(tag: u64) -> bool {
        ||| tag == Self::ADD_NODE
        ||| tag == Self::REMOVE_NODE
        ||| tag == Self::ADD_CHILD
        ||| tag == Self::REMOVE_CHILD
        ||| tag == Self::SET_STRING
        ||| tag == Self::SET_BOOL
    }
}

/// One atomic edit.
#[allow(inconsistent_fields)]
#[derive(Debug, Clone, PartialEq, Eq)]
pub enum Change {
    AddNode { id: NodeId },
    RemoveNode { id: NodeId },
    AddChild { parent: NodeId, child: NodeId, insertion_index: u64 },
    RemoveChild { parent: NodeId, child: NodeId },
    SetString { node: NodeId, attribute: String, value: String },
    SetBool { node: NodeId, attribute: String, value: bool },
    /// A record whose tag is not understood, with its payload as it was read.
    UnknownChange { change_type: u64, data: Vec<u8> },
}

/// What a change is.
#[allow(inconsistent_fields)]
pub enum ChangeView {
    AddNode { id: NodeId },
    RemoveNode { id: NodeId },
    AddChild { parent: NodeId, child: NodeId, insertion_index: u64 },
    RemoveChild { parent: NodeId, child: NodeId },
    SetString { node: NodeId, attribute: Seq<char>, value: Seq<char> },
    SetBool { node: NodeId, attribute: Seq<char>, value: bool },
    UnknownChange { change_type: u64, data: Seq<u8> },
}

impl View for Change {
    type V = ChangeView;

    open spec fn view(&self) -> ChangeView {
        match self {
            Change::AddNode { id } => ChangeView::AddNode { id: *id },
            Change::RemoveNode { id } => ChangeView::RemoveNode { id: *id },
            Change::AddChild { parent, child, insertion_index } => ChangeView::AddChild {
                parent: *parent,
                child: *child,
                insertion_index: *insertion_index,
            },
            Change::RemoveChild { parent, child } => ChangeView::RemoveChild {
                parent: *parent,
                child: *child,
            },
            Change::SetString { node, attribute, value } => ChangeView::SetString {
                node: *node,
                attribute: attribute@,
                value: value@,
            },
            Change::SetBool { node, attribute, value } => ChangeView::SetBool {
                node: *node,
                attribute: attribute@,
                value: *value,
            },
            Change::UnknownChange { change_type, data } => ChangeView::UnknownChange {
                change_type: *change_type,
                data: data@,
            },
        }
    }
}

impl DeepView for Change {
    type V = ChangeView;

    open spec fn deep_view(&self) -> ChangeView {
        self@
    }
}

impl ChangeView {
    /// The tag under which the change is written.
    pub open spec fn change_type(self) -> u64 {
        match self {
            ChangeView::AddNode { .. } => ChangeType::ADD_NODE,
            ChangeView::RemoveNode { .. } => ChangeType::REMOVE_NODE,
            ChangeView::AddChild { .. } => ChangeType::ADD_CHILD,
            ChangeView::RemoveChild { .. } => ChangeType::REMOVE_CHILD,
            ChangeView::SetString { .. } => ChangeType::SET_STRING,
            ChangeView::SetBool { .. } => ChangeType::SET_BOOL,
            ChangeView::UnknownChange { change_type, .. } => change_type,
        }
    }

    /// The store after the change, or the reason why the change does not
    /// apply. A change of unknown kind leaves the store as it is.
    pub open spec fn apply(self, store: NodeStoreView) -> Result<NodeStoreView, Error> {
        match self {
            ChangeView::AddNode { id } => store.add_node(id),
            ChangeView::RemoveNode { id } => store.remove_node(id),
            ChangeView::AddChild { parent, child, insertion_index } => store.add_child(
                parent,
                child,
                insertion_index,
            ),
            ChangeView::RemoveChild { parent, child } => store.remove_child(parent, child),
            ChangeView::SetString { node, attribute, value } => store.set_attribute(
                node,
                attribute,
                AttributeValueView::String(value),
            ),
            ChangeView::SetBool { node, attribute, value } => store.set_attribute(
                node,
                attribute,
                AttributeValueView::Bool(value),
            ),
            ChangeView::UnknownChange { .. } => Ok(store),
        }
    }

    /// The change that stands for `previous` followed by this one, where the
    /// two set the same attribute of the same node to values of one kind: it
    /// is this change, whose value is the one that lasts.
    pub open spec fn combine(self, previous: ChangeView) -> Option<ChangeView> {
        match (self, previous) {
            (
                ChangeView::SetString { node, attribute, .. },
                ChangeView::SetString { node: node2, attribute: attribute2, .. },
            ) => if node == node2 && attribute == attribute2 {
                Some(self)
            } else {
                None
            },
            (
                ChangeView::SetBool { node, attribute, .. },
                ChangeView::SetBool { node: node2, attribute: attribute2, .. },
            ) => if node == node2 && attribute == attribute2 {
                Some(self)
            } else {
                None
            },
            _ => None,
        }
    }

    /// The payload of the record: the fields in order, or the bytes that
    /// were kept.
    pub open spec fn payload(self) -> Seq<u8> {
        match self {
            ChangeView::AddNode { id } => encode_id(id),
            ChangeView::RemoveNode { id } => encode_id(id),
            ChangeView::AddChild { parent, child, insertion_index } => encode_id(parent)
                + encode_id(child) + encode_varint(insertion_index as nat),
            ChangeView::RemoveChild { parent, child } => encode_id(parent) + encode_id(child),
            ChangeView::SetString { node, attribute, value } => encode_id(node) + encode_string(
                attribute,
            ) + encode_string(value),
            ChangeView::SetBool { node, attribute, value } => encode_id(node) + encode_string(
                attribute,
            ) + seq![
                if value {
                    1u8
                } else {
                    0u8
                },
            ],
            ChangeView::UnknownChange { data, .. } => data,
        }
    }

    /// The record: the tag, the length of the payload, the payload.
    pub open spec fn encode(self) -> Seq<u8> {
        encode_varint(self.change_type() as nat) + encode_bytes(self.payload())
    }

    /// True when the record can be written and read back: a change of
    /// unknown kind does not carry a tag that is understood, and every
    /// length fits the 64 bits that the format gives it.
    pub open spec fn encodable(self) -> bool {
        &&& self.payload().len() <= u64::MAX
        &&& match self {
            ChangeView::SetString { attribute, value, .. } => encode_utf8(attribute).len()
                <= u64::MAX && encode_utf8(value).len() <= u64::MAX,
            ChangeView::SetBool { attribute, .. } => encode_utf8(attribute).len() <= u64::MAX,
            ChangeView::UnknownChange { change_type, .. } => !ChangeType::is_interpreted(
                change_type,
            ),
            _ => true,
        }
    }
}

/// The fields of a record with tag `tag` at the front of `s`. For a tag that
/// is understood the declared size is not consulted; for any other tag
/// exactly `size` bytes are taken and kept.
pub open spec fn spec_read_payload(tag: u64, size: u64, s: Seq<u8>) -> Decoded<ChangeView> {
    if tag == ChangeType::ADD_NODE {
        match spec_read_id(s) {
            Err(e) => Err(e),
            Ok((id, rest)) => Ok((ChangeView::AddNode { id }, rest)),
        }
    } else if tag == ChangeType::REMOVE_NODE {
        match spec_read_id(s) {
            Err(e) => Err(e),
            Ok((id, rest)) => Ok((ChangeView::RemoveNode { id }, rest)),
        }
    } else if tag == ChangeType::SET_STRING {
        match spec_read_id(s) {
            Err(e) => Err(e),
            Ok((node, s1)) => match spec_read_string(s1) {
                Err(e) => Err(e),
                Ok((attribute, s2)) => match spec_read_string(s2) {
                    Err(e) => Err(e),
                    Ok((value, rest)) => Ok((ChangeView::SetString { node, attribute, value }, rest)),
                },
            },
        }
    } else if tag == ChangeType::SET_BOOL {
        match spec_read_id(s) {
            Err(e) => Err(e),
            Ok((node, s1)) => match spec_read_string(s1) {
                Err(e) => Err(e),
                Ok((attribute, s2)) => match spec_read_u8(s2) {
                    Err(e) => Err(e),
                    Ok((b, rest)) => Ok(
                        (ChangeView::SetBool { node, attribute, value: b != 0 }, rest),
                    ),
                },
            },
        }
    } else if tag == ChangeType::ADD_CHILD {
        match spec_read_id(s) {
            Err(e) => Err(e),
            Ok((parent, s1)) => match spec_read_id(s1) {
                Err(e) => Err(e),
                Ok((child, s2)) => match spec_read_varint(s2) {
                    Err(e) => Err(e),
                    Ok((insertion_index, rest)) => Ok(
                        (ChangeView::AddChild { parent, child, insertion_index }, rest),
                    ),
                },
            },
        }
    } else if tag == ChangeType::REMOVE_CHILD {
        match spec_read_id(s) {
            Err(e) => Err(e),
            Ok((parent, s1)) => match spec_read_id(s1) {
                Err(e) => Err(e),
                Ok((child, rest)) => Ok((ChangeView::RemoveChild { parent, child }, rest)),
            },
        }
    } else {
        match spec_read_exact(s, size as nat) {
            Err(e) => Err(e),
            Ok((data, rest)) => Ok((ChangeView::UnknownChange { change_type: tag, data }, rest)),
        }
    }
}

/// The record at the front of `s`: a tag, a declared size, the payload.
pub open spec fn spec_read_change(s: Seq<u8>) -> Decoded<ChangeView> {
    match spec_read_varint(s) {
        Err(e) => Err(e),
        Ok((tag, s1)) => match spec_read_varint(s1) {
            Err(e) => Err(e),
            Ok((size, s2)) => spec_read_payload(tag, size, s2),
        },
    }
}

/// Reading what was written gives the change back, bit for bit, and leaves
/// what followed the record. This holds of the records that are understood
/// and of those that are only carried along.
pub proof fn lemma_change_roundtrip(change: ChangeView, tail: Seq<u8>)
    requires
        change.encodable(),
    ensures
        spec_read_change(change.encode() + tail) == Ok::<_, Error>((change, tail)),
{
    let tag = change.change_type();
    let payload = change.payload();
    let size = payload.len() as u64;
    let after_tag = encode_bytes(payload) + tail;
    let after_size = payload + tail;
    assert(change.encode() + tail =~= encode_varint(tag as nat) + after_tag);
    lemma_varint_roundtrip(tag, after_tag);
    assert(after_tag =~= encode_varint(payload.len()) + after_size);
    lemma_varint_roundtrip(size, after_size);
    match change {
        ChangeView::AddNode { id } => {
            lemma_id_roundtrip(id, tail);
        },
        ChangeView::RemoveNode { id } => {
            lemma_id_roundtrip(id, tail);
        },
        ChangeView::AddChild { parent, child, insertion_index } => {
            let s1 = encode_id(child) + encode_varint(insertion_index as nat) + tail;
            let s2 = encode_varint(insertion_index as nat) + tail;
            assert(after_size =~= encode_id(parent) + s1);
            assert(s1 =~= encode_id(child) + s2);
            lemma_id_roundtrip(parent, s1);
            lemma_id_roundtrip(child, s2);
            lemma_varint_roundtrip(insertion_index, tail);
        },
        ChangeView::RemoveChild { parent, child } => {
            let s1 = encode_id(child) + tail;
            assert(after_size =~= encode_id(parent) + s1);
            lemma_id_roundtrip(parent, s1);
            lemma_id_roundtrip(child, tail);
        },
        ChangeView::SetString { node, attribute, value } => {
            let s1 = encode_string(attribute) + encode_string(value) + tail;
            let s2 = encode_string(value) + tail;
            assert(after_size =~= encode_id(node) + s1);
            assert(s1 =~= encode_string(attribute) + s2);
            lemma_id_roundtrip(node, s1);
            lemma_string_roundtrip(attribute, s2);
            lemma_string_roundtrip(value, tail);
        },
        ChangeView::SetBool { node, attribute, value } => {
            let b = if value {
                1u8
            } else {
                0u8
            };
            let s1 = encode_string(attribute) + seq![b] + tail;
            let s2 = seq![b] + tail;
            assert(after_size =~= encode_id(node) + s1);
            assert(s1 =~= encode_string(attribute) + s2);
            lemma_id_roundtrip(node, s1);
            lemma_string_roundtrip(attribute, s2);
            assert(s2.skip(1) =~= tail);
        },
        ChangeView::UnknownChange { change_type, data } => {
            assert(after_size.take(data.len() as int) =~= data);
            assert(after_size.skip(data.len() as int) =~= tail);
        },
    }
}

/// A change that applies to a valid store leaves a valid store.
pub proof fn lemma_apply_wf(change: ChangeView, store: NodeStoreView)
    requires
        store.wf(),
    ensures
        change.apply(store) matches Ok(after) ==> after.wf(),
{
    match change {
        ChangeView::AddNode { id } => lemma_add_node_wf(store, id),
        ChangeView::RemoveNode { id } => lemma_remove_node_wf(store, id),
        ChangeView::AddChild { parent, child, insertion_index } => lemma_add_child_wf(
            store,
            parent,
            child,
            insertion_index,
        ),
        ChangeView::RemoveChild { parent, child } => lemma_remove_child_wf(store, parent, child),
        ChangeView::SetString { node, attribute, value } => lemma_set_attribute_wf(
            store,
            node,
            attribute,
            AttributeValueView::String(value),
        ),
        ChangeView::SetBool { node, attribute, value } => lemma_set_attribute_wf(
            store,
            node,
            attribute,
            AttributeValueView::Bool(value),
        ),
        ChangeView::UnknownChange { .. } => {},
    }
}

/// Where two changes combine, the combined change does to a store what the
/// two do one after the other.
pub proof fn lemma_combine_applies(change: ChangeView, previous: ChangeView, store: NodeStoreView)
    requires
        store.wf(),
        change.combine(previous) is Some,
        previous.apply(store) is Ok,
    ensures
        change.combine(previous) == Some(change),
        change.apply(previous.apply(store)->Ok_0) == change.apply(store),
        change.apply(store) is Ok,
{
    let mid = previous.apply(store)->Ok_0;
    match (change, previous) {
        (
            ChangeView::SetString { node, attribute, value },
            ChangeView::SetString { value: value2, .. },
        ) => {
            lemma_set_twice(
                store,
                node,
                attribute,
                AttributeValueView::String(value2),
                AttributeValueView::String(value),
            );
        },
        (ChangeView::SetBool { node, attribute, value }, ChangeView::SetBool { value: value2, .. }) => {
            lemma_set_twice(
                store,
                node,
                attribute,
                AttributeValueView::Bool(value2),
                AttributeValueView::Bool(value),
            );
        },
        _ => {},
    }
}

/// Setting an attribute twice is setting it to the second value.
proof fn lemma_set_twice(
    store: NodeStoreView,
    node: NodeId,
    name: Seq<char>,
    first: AttributeValueView,
    second: AttributeValueView,
)
    requires
        store.wf(),
        store.set_attribute(node, name, first) is Ok,
    ensures
        store.set_attribute(node, name, second) is Ok,
        store.set_attribute(node, name, first)->Ok_0.set_attribute(node, name, second)
            == store.set_attribute(node, name, second),
{
    let mid = store.set_attribute(node, name, first)->Ok_0;
    lemma_names_with(store.attribute_names, name);
    let key = key_of(store.attribute_names, name) as usize;
    let i = store.index_of(node);
    assert(0 <= i < store.nodes.len() && store.nodes[i].id == node);
    assert(mid.nodes[i].id == node);
    assert(mid.contains(node));
    let twice = mid.set_attribute(node, name, second)->Ok_0;
    let once = store.set_attribute(node, name, second)->Ok_0;
    assert(twice.nodes =~= once.nodes) by {
        assert forall|k: int| 0 <= k < once.nodes.len() implies twice.nodes[k] == once.nodes[k] by {
            let n = store.nodes[k];
            if n.id == node {
                assert(n.attributes.insert(key, first).insert(key, second)
                    =~= n.attributes.insert(key, second));
            }
        }
    }
}

/// What `combine_change` returned, as a value of the model.
pub open spec fn option_view(c: Option<Change>) -> Option<ChangeView> {
    match c {
        Some(c) => Some(c@),
        None => None,
    }
}

impl Change {
    /// Applies the change to `nodes`. On an error the store is as it was.
    pub fn apply(&self, nodes: &mut NodeStore) -> (outcome: Result<(), Error>)
        requires
            old(nodes).wf(),
        ensures
            final(nodes).wf(),
            steps_to(old(nodes)@, final(nodes)@, outcome, self@.apply(old(nodes)@)),
    {
        match self {
            Change::AddNode { id } => nodes.add_node(*id),
            Change::RemoveNode { id } => nodes.remove_node(*id),
            Change::AddChild { parent, child, insertion_index } => nodes.add_child(
                *parent,
                *child,
                *insertion_index,
            ),
            Change::RemoveChild { parent, child } => nodes.remove_child(*parent, *child),
            Change::SetString { node, attribute, value } => nodes.set_string_attribute(
                *node,
                attribute.as_str(),
                value.as_str(),
            ),
            Change::SetBool { node, attribute, value } => nodes.set_bool_attribute(
                *node,
                attribute.as_str(),
                *value,
            ),
            Change::UnknownChange { change_type: _, data: _ } => Ok(()),
        }
    }

    /// Reads one framed record from the front of `bytes`.
    pub fn read<'a>(bytes: &'a [u8]) -> (res: Result<(Change, &'a [u8]), Error>)
        ensures
            yields(res, spec_read_change(bytes@)),
    {
        let (change_type, rest) = read_varint(bytes)?;
        let (change_size, rest) = read_varint(rest)?;
        if change_type == ChangeType::ADD_NODE {
            let (id, rest) = read_id(rest)?;
            Ok((Change::AddNode { id }, rest))
        } else if change_type == ChangeType::REMOVE_NODE {
            let (id, rest) = read_id(rest)?;
            Ok((Change::RemoveNode { id }, rest))
        } else if change_type == ChangeType::SET_STRING {
            let (node, rest) = read_id(rest)?;
            let (attribute, rest) = read_string(rest)?;
            let (value, rest) = read_string(rest)?;
            Ok((Change::SetString { node, attribute, value }, rest))
        } else if change_type == ChangeType::SET_BOOL {
            let (node, rest) = read_id(rest)?;
            let (attribute, rest) = read_string(rest)?;
            let (b, rest) = read_u8(rest)?;
            Ok((Change::SetBool { node, attribute, value: b != 0 }, rest))
        } else if change_type == ChangeType::ADD_CHILD {
            let (parent, rest) = read_id(rest)?;
            let (child, rest) = read_id(rest)?;
            let (insertion_index, rest) = read_varint(rest)?;
            Ok((Change::AddChild { parent, child, insertion_index }, rest))
        } else if change_type == ChangeType::REMOVE_CHILD {
            let (parent, rest) = read_id(rest)?;
            let (child, rest) = read_id(rest)?;
            Ok((Change::RemoveChild { parent, child }, rest))
        } else {
            if change_size > rest.len() as u64 {
                return Err(Error::UnexpectedEof);
            }
            let (data, rest) = read_exact(rest, change_size as usize)?;
            proof {
                assert(data.deep_view() =~= data@);
            }
            Ok((Change::UnknownChange { change_type, data }, rest))
        }
    }

    /// Appends the payload of the record: the fields, without tag and size.
    pub fn write(&self, w: &mut Vec<u8>)
        ensures
            final(w)@ == old(w)@ + self@.payload(),
    {
        match self {
            Change::AddNode { id } => {
                write_id(w, *id);
            },
            Change::RemoveNode { id } => {
                write_id(w, *id);
            },
            Change::AddChild { parent, child, insertion_index } => {
                write_id(w, *parent);
                write_id(w, *child);
                write_varint(w, *insertion_index);
            },
            Change::RemoveChild { parent, child } => {
                write_id(w, *parent);
                write_id(w, *child);
            },
            Change::SetString { node, attribute, value } => {
                write_id(w, *node);
                write_string(w, attribute.as_str());
                write_string(w, value.as_str());
            },
            Change::SetBool { node, attribute, value } => {
                write_id(w, *node);
                write_string(w, attribute.as_str());
                write_u8(
                    w,
                    if *value {
                        1
                    } else {
                        0
                    },
                );
            },
            Change::UnknownChange { change_type: _, data } => {
                write_all(w, data.as_slice());
            },
        }
        proof {
            assert(w@ =~= old(w)@ + self@.payload());
        }
    }

    /// Appends the framed record: the tag, the size of the payload, the
    /// payload.
    pub fn encode(&self, w: &mut Vec<u8>)
        ensures
            final(w)@ == old(w)@ + self@.encode(),
            self@.payload().len() <= u64::MAX,
    {
        write_varint(w, self.change_type());
        let mut payload: Vec<u8> = Vec::new();
        self.write(&mut payload);
        proof {
            assert(payload@ =~= self@.payload());
        }
        write_varint(w, payload.len() as u64);
        write_all(w, payload.as_slice());
        proof {
            assert(w@ =~= old(w)@ + self@.encode());
        }
    }

    /// The tag under which the change is written.
    pub fn change_type(&self) -> (tag: u64)
        ensures
            tag == self@.change_type(),
    {
        match self {
            Change::AddNode { id: _ } => ChangeType::ADD_NODE,
            Change::RemoveNode { id: _ } => ChangeType::REMOVE_NODE,
            Change::AddChild { parent: _, child: _, insertion_index: _ } => ChangeType::ADD_CHILD,
            Change::RemoveChild { parent: _, child: _ } => ChangeType::REMOVE_CHILD,
            Change::SetString { node: _, attribute: _, value: _ } => ChangeType::SET_STRING,
            Change::SetBool { node: _, attribute: _, value: _ } => ChangeType::SET_BOOL,
            Change::UnknownChange { change_type, data: _ } => *change_type,
        }
    }

    /// The change that replaces `last_change` and this one where the two
    /// coalesce: both set text, or both set a truth value, for the same
    /// attribute of the same node.
    pub fn combine_change(&self, last_change: &Change) -> (combined: Option<Change>)
        ensures
            option_view(combined) == self@.combine(last_change@),
    {
        match self {
            Change::SetString { node, attribute, value } => {
                match last_change {
                    Change::SetString { node: node2, attribute: attribute2, value: _ } => {
                        if *node == *node2 && str_equal(attribute.as_str(), attribute2.as_str()) {
                            return Some(
                                Change::SetString {
                                    node: *node,
                                    attribute: attribute.clone(),
                                    value: value.clone(),
                                },
                            );
                        }
                    },
                    _ => {},
                }
            },
            Change::SetBool { node, attribute, value } => {
                match last_change {
                    Change::SetBool { node: node2, attribute: attribute2, value: _ } => {
                        if *node == *node2 && str_equal(attribute.as_str(), attribute2.as_str()) {
                            return Some(
                                Change::SetBool {
                                    node: *node,
                                    attribute: attribute.clone(),
                                    value: *value,
                                },
                            );
                        }
                    },
                    _ => {},
                }
            },
            _ => {},
        }
        None
    }
}

} // verus!
