//! The node store: an arena of attributed nodes that form zero or more
//! rooted trees, with the tables that intern type and attribute names.
//!
//! The store is a cache. Its content is whatever the change history folds
//! to, so every operation here is a total function of the store before it.

use crate::error::Error;
use crate::intern::{key_of, lemma_names_with, names_with, InternTable};
use crate::node_id::NodeId;
use crate::node_links::{
    lemma_add_child_wf, lemma_add_node_wf, lemma_remove_child_wf, lemma_remove_node_wf,
    lemma_set_attribute_wf,
};
use vstd::prelude::*;

verus! {

broadcast use vstd::seq_lib::group_filter_ensures;

// ---------------------------------------------------------------------------
// Attribute values
// ---------------------------------------------------------------------------

/// The value of an attribute.
#[derive(Debug, Clone, PartialEq, Eq)]
pub enum AttributeValue {
    String(String),
    Bool(bool),
}

/// What an attribute value is: text or a truth value.
pub enum AttributeValueView {
    String(Seq<char>),
    Bool(bool),
}

impl View for AttributeValue {
    type V = AttributeValueView;

    open spec fn view(&self) -> AttributeValueView {
        match self {
            AttributeValue::String(text) => AttributeValueView::String(text@),
            AttributeValue::Bool(b) => AttributeValueView::Bool(*b),
        }
    }
}

/// One attribute of a node: the index of its name and its value.
#[derive(Debug, Clone, PartialEq, Eq)]
pub struct Attribute {
    pub key: usize,
    pub value: AttributeValue,
}

/// The mapping that a list of attributes stands for. A later entry for a
/// key overrides an earlier one.
pub open spec fn attributes_map(entries: Seq<Attribute>) -> Map<usize, AttributeValueView>
    decreases entries.len(),
{
    if entries.len() == 0 {
        Map::empty()
    } else {
        attributes_map(entries.drop_last()).insert(entries.last().key, entries.last().value@)
    }
}

/// No key has two entries.
pub open spec fn keys_distinct(entries: Seq<Attribute>) -> bool {
    forall|i: int, j: int|
        0 <= i < j < entries.len() ==> (#[trigger] entries[i]).key != (#[trigger] entries[j]).key
}

proof fn lemma_attribute_absent(entries: Seq<Attribute>, key: usize)
    requires
        forall|i: int| 0 <= i < entries.len() ==> (#[trigger] entries[i]).key != key,
    ensures
        !attributes_map(entries).contains_key(key),
    decreases entries.len(),
{
    if entries.len() > 0 {
        let front = entries.drop_last();
        assert forall|i: int| 0 <= i < front.len() implies (#[trigger] front[i]).key != key by {
            assert(front[i] == entries[i]);
        }
        lemma_attribute_absent(front, key);
        assert(entries.last() == entries[entries.len() - 1]);
    }
}

proof fn lemma_attribute_lookup(entries: Seq<Attribute>, i: int)
    requires
        keys_distinct(entries),
        0 <= i < entries.len(),
    ensures
        attributes_map(entries).contains_key(entries[i].key),
        attributes_map(entries)[entries[i].key] == entries[i].value@,
    decreases entries.len(),
{
    let front = entries.drop_last();
    if i < entries.len() - 1 {
        assert(front[i] == entries[i]);
        assert(entries.last() == entries[entries.len() - 1]);
        assert(keys_distinct(front)) by {
            assert forall|a: int, b: int| 0 <= a < b < front.len() implies (#[trigger] front[a]).key
                != (#[trigger] front[b]).key by {
                assert(front[a] == entries[a]);
                assert(front[b] == entries[b]);
            }
        }
        lemma_attribute_lookup(front, i);
    }
}

proof fn lemma_attribute_replace(entries: Seq<Attribute>, i: int, entry: Attribute)
    requires
        keys_distinct(entries),
        0 <= i < entries.len(),
        entry.key == entries[i].key,
    ensures
        keys_distinct(entries.update(i, entry)),
        attributes_map(entries.update(i, entry)) == attributes_map(entries).insert(
            entry.key,
            entry.value@,
        ),
    decreases entries.len(),
{
    let after = entries.update(i, entry);
    let front = entries.drop_last();
    assert(keys_distinct(after)) by {
        assert forall|a: int, b: int| 0 <= a < b < after.len() implies (#[trigger] after[a]).key != (
        #[trigger] after[b]).key by {
            assert(after[a].key == entries[a].key);
            assert(after[b].key == entries[b].key);
        }
    }
    if i == entries.len() - 1 {
        assert(after.drop_last() =~= front);
        assert(attributes_map(after) =~= attributes_map(entries).insert(entry.key, entry.value@));
    } else {
        assert(front[i] == entries[i]);
        assert(entries.last() == entries[entries.len() - 1]);
        assert(keys_distinct(front)) by {
            assert forall|a: int, b: int| 0 <= a < b < front.len() implies (#[trigger] front[a]).key
                != (#[trigger] front[b]).key by {
                assert(front[a] == entries[a]);
                assert(front[b] == entries[b]);
            }
        }
        lemma_attribute_replace(front, i, entry);
        assert(after.drop_last() =~= front.update(i, entry));
        assert(after.last() == entries.last());
        assert(attributes_map(after) =~= attributes_map(entries).insert(entry.key, entry.value@));
    }
}

// ---------------------------------------------------------------------------
// Nodes
// ---------------------------------------------------------------------------

/// An addressable element of the tree. The store owns every node; `parent`
/// and `children` only name other nodes.
#[derive(Debug, Clone, PartialEq, Eq)]
pub struct Node {
    pub id: NodeId,
    /// The node this one hangs under: a stored node, the root, or none.
    pub parent: NodeId,
    /// The nodes that hang under this one, in display order.
    pub children: Vec<NodeId>,
    /// The index of the node's type name, if it has a type.
    pub type_id: Option<usize>,
    /// The attributes, each key once.
    pub attributes: Vec<Attribute>,
}

/// What a node is: its links and its attribute mapping.
pub struct NodeView {
    pub id: NodeId,
    pub parent: NodeId,
    pub children: Seq<NodeId>,
    pub type_id: Option<usize>,
    pub attributes: Map<usize, AttributeValueView>,
}

/// The test that keeps every identifier but `id`.
pub open spec fn differs_from(id: NodeId) -> spec_fn(NodeId) -> bool {
    |c: NodeId| c != id
}

impl NodeView {
    /// A node as it is right after it was added: detached, childless,
    /// untyped, without attributes.
    pub open spec fn fresh(id: NodeId) -> NodeView {
        NodeView {
            id,
            parent: NodeId::none(),
            children: Seq::empty(),
            type_id: None,
            attributes: Map::empty(),
        }
    }

    /// True when the node hangs under no stored node.
    pub open spec fn is_top_level(self) -> bool {
        self.parent == NodeId::root() || self.parent == NodeId::none()
    }

    /// The node once `id` has left the store: it is no child of this node
    /// any more, and if it was this node's parent, the node is detached.
    pub open spec fn forget(self, id: NodeId) -> NodeView {
        NodeView {
            parent: if self.parent == id {
                NodeId::none()
            } else {
                self.parent
            },
            children: self.children.filter(differs_from(id)),
            ..self
        }
    }

    /// The node once `child` has been put under `parent` at `index`:
    /// `child` leaves every other list of children, enters that of
    /// `parent`, and names `parent` as its parent.
    pub open spec fn adopt(self, parent: NodeId, child: NodeId, index: int) -> NodeView {
        NodeView {
            parent: if self.id == child {
                parent
            } else {
                self.parent
            },
            children: if self.id == parent {
                self.children.filter(differs_from(child)).insert(index, child)
            } else {
                self.children.filter(differs_from(child))
            },
            ..self
        }
    }

    /// The node once `child` has been made a top-level node.
    pub open spec fn adopt_by_root(self, child: NodeId) -> NodeView {
        NodeView {
            parent: if self.id == child {
                NodeId::root()
            } else {
                self.parent
            },
            children: self.children.filter(differs_from(child)),
            ..self
        }
    }

    /// The node once `child` has been taken out from under `parent`.
    pub open spec fn release(self, parent: NodeId, child: NodeId) -> NodeView {
        NodeView {
            parent: if self.id == child {
                NodeId::none()
            } else {
                self.parent
            },
            children: if self.id == parent {
                self.children.filter(differs_from(child))
            } else {
                self.children
            },
            ..self
        }
    }

    /// The node once `child` has been taken out from under the root.
    pub open spec fn release_from_root(self, child: NodeId) -> NodeView {
        NodeView {
            parent: if self.id == child {
                NodeId::none()
            } else {
                self.parent
            },
            ..self
        }
    }

    /// The node once attribute `key` of node `node` has been set.
    pub open spec fn with_attribute(
        self,
        node: NodeId,
        key: usize,
        value: AttributeValueView,
    ) -> NodeView {
        if self.id == node {
            NodeView { attributes: self.attributes.insert(key, value), ..self }
        } else {
            self
        }
    }
}

impl View for Node {
    type V = NodeView;

    open spec fn view(&self) -> NodeView {
        NodeView {
            id: self.id,
            parent: self.parent,
            children: self.children@,
            type_id: self.type_id,
            attributes: attributes_map(self.attributes@),
        }
    }
}

/// The identifiers in `children` other than `id`, in their order.
fn without(children: &Vec<NodeId>, id: NodeId) -> (kept: Vec<NodeId>)
    ensures
        kept@ == children@.filter(differs_from(id)),
{
    let mut kept: Vec<NodeId> = Vec::new();
    let mut i: usize = 0;
    proof {
        assert(children@.take(0).filter(differs_from(id)) =~= Seq::<NodeId>::empty());
    }
    while i < children.len()
        invariant
            i <= children@.len(),
            kept@ == children@.take(i as int).filter(differs_from(id)),
        decreases children@.len() - i,
    {
        proof {
            assert(children@.take(i + 1) =~= children@.take(i as int).push(children@[i as int]));
            children@.take(i as int).lemma_filter_push(children@[i as int], differs_from(id));
        }
        if children[i] != id {
            kept.push(children[i]);
        }
        i = i + 1;
    }
    proof {
        assert(children@.take(i as int) =~= children@);
    }
    kept
}

impl Node {
    /// No attribute key has two entries.
    pub open spec fn wf(&self) -> bool {
        keys_distinct(self.attributes@)
    }

    /// A detached node without children, type or attributes.
    pub fn new_with_id(id: NodeId) -> (node: Node)
        ensures
            node@ == NodeView::fresh(id),
            node.wf(),
    {
        Node {
            id,
            parent: NodeId::none(),
            children: Vec::new(),
            type_id: None,
            attributes: Vec::new(),
        }
    }

    /// True when `child` is among the children.
    pub fn has_child(&self, child: NodeId) -> (found: bool)
        ensures
            found == self@.children.contains(child),
    {
        let mut i: usize = 0;
        while i < self.children.len()
            invariant
                i <= self.children@.len(),
                forall|j: int| 0 <= j < i ==> self.children@[j] != child,
            decreases self.children@.len() - i,
        {
            if self.children[i] == child {
                return true;
            }
            i = i + 1;
        }
        false
    }

    /// The value of attribute `key`, if the node has it.
    pub fn get_attribute(&self, key: usize) -> (found: Option<&AttributeValue>)
        requires
            self.wf(),
        ensures
            match found {
                Some(value) => self@.attributes.contains_key(key) && self@.attributes[key]
                    == value@,
                None => !self@.attributes.contains_key(key),
            },
    {
        let mut i: usize = 0;
        while i < self.attributes.len()
            invariant
                i <= self.attributes@.len(),
                self.wf(),
                forall|j: int| 0 <= j < i ==> (#[trigger] self.attributes@[j]).key != key,
            decreases self.attributes@.len() - i,
        {
            if self.attributes[i].key == key {
                proof {
                    lemma_attribute_lookup(self.attributes@, i as int);
                }
                return Some(&self.attributes[i].value);
            }
            i = i + 1;
        }
        proof {
            lemma_attribute_absent(self.attributes@, key);
        }
        None
    }

    /// The text of attribute `key`, if the node has it and it is text.
    pub fn get_string_attribute(&self, key: usize) -> (found: Option<&String>)
        requires
            self.wf(),
        ensures
            match found {
                Some(text) => self@.attributes.contains_key(key) && self@.attributes[key]
                    == AttributeValueView::String(text@),
                None => !(self@.attributes.contains_key(key)
                    && self@.attributes[key] is String),
            },
    {
        match self.get_attribute(key) {
            Some(AttributeValue::String(text)) => Some(text),
            _ => None,
        }
    }

    /// The truth value of attribute `key`, if the node has it and it is one.
    pub fn get_bool_attribute(&self, key: usize) -> (found: Option<bool>)
        requires
            self.wf(),
        ensures
            match found {
                Some(b) => self@.attributes.contains_key(key) && self@.attributes[key]
                    == AttributeValueView::Bool(b),
                None => !(self@.attributes.contains_key(key) && self@.attributes[key] is Bool),
            },
    {
        match self.get_attribute(key) {
            Some(AttributeValue::Bool(b)) => Some(*b),
            _ => None,
        }
    }

    /// Sets attribute `key`, replacing the value it had.
    pub fn set_attribute(&mut self, key: usize, value: AttributeValue)
        requires
            old(self).wf(),
        ensures
            final(self).wf(),
            final(self)@ == old(self)@.with_attribute(old(self).id, key, value@),
    {
        let mut i: usize = 0;
        while i < self.attributes.len()
            invariant
                i <= self.attributes@.len(),
                *self == *old(self),
                self.wf(),
                forall|j: int| 0 <= j < i ==> (#[trigger] self.attributes@[j]).key != key,
            decreases self.attributes@.len() - i,
        {
            if self.attributes[i].key == key {
                proof {
                    lemma_attribute_replace(
                        self.attributes@,
                        i as int,
                        Attribute { key, value },
                    );
                }
                self.attributes[i].value = value;
                proof {
                    assert(self.attributes@ =~= old(self).attributes@.update(
                        i as int,
                        Attribute { key, value },
                    ));
                }
                return ;
            }
            i = i + 1;
        }
        self.attributes.push(Attribute { key, value });
        proof {
            assert(self.attributes@.drop_last() =~= old(self).attributes@);
        }
    }

    /// Sets attribute `key` to text.
    pub fn set_string_attribute(&mut self, key: usize, value: String)
        requires
            old(self).wf(),
        ensures
            final(self).wf(),
            final(self)@ == old(self)@.with_attribute(
                old(self).id,
                key,
                AttributeValueView::String(value@),
            ),
    {
        self.set_attribute(key, AttributeValue::String(value));
    }

    /// Sets attribute `key` to a truth value.
    pub fn set_bool_attribute(&mut self, key: usize, value: bool)
        requires
            old(self).wf(),
        ensures
            final(self).wf(),
            final(self)@ == old(self)@.with_attribute(
                old(self).id,
                key,
                AttributeValueView::Bool(value),
            ),
    {
        self.set_attribute(key, AttributeValue::Bool(value));
    }

    fn forget(&mut self, id: NodeId)
        ensures
            final(self)@ == old(self)@.forget(id),
            final(self).attributes == old(self).attributes,
    {
        if self.parent == id {
            self.parent = NodeId::none();
        }
        self.children = without(&self.children, id);
    }

    fn drop_child(&mut self, child: NodeId)
        ensures
            final(self)@ == (NodeView {
                children: old(self)@.children.filter(differs_from(child)),
                ..old(self)@
            }),
            final(self).attributes == old(self).attributes,
    {
        self.children = without(&self.children, child);
    }
}

// ---------------------------------------------------------------------------
// The store
// ---------------------------------------------------------------------------

/// The test for nodes that hang under no stored node.
pub open spec fn top_level() -> spec_fn(NodeView) -> bool {
    |n: NodeView| n.is_top_level()
}

/// Picks the identifier of a node.
pub open spec fn id_of() -> spec_fn(NodeView) -> NodeId {
    |n: NodeView| n.id
}

/// Takes a stored node to what it is.
pub open spec fn node_view() -> spec_fn(Node) -> NodeView {
    |n: Node| n@
}

/// What a store is: its nodes in the order in which they were added, and the
/// two tables of names.
pub struct NodeStoreView {
    pub nodes: Seq<NodeView>,
    pub type_names: Seq<Seq<char>>,
    pub attribute_names: Seq<Seq<char>>,
}

impl NodeStoreView {
    /// The store without nodes and names.
    pub open spec fn empty() -> NodeStoreView {
        NodeStoreView {
            nodes: Seq::empty(),
            type_names: Seq::empty(),
            attribute_names: Seq::empty(),
        }
    }

    /// True when a node is stored under `id`.
    pub open spec fn contains(self, id: NodeId) -> bool {
        exists|i: int| 0 <= i < self.nodes.len() && (#[trigger] self.nodes[i]).id == id
    }

    /// Where the node `id` stands in the arena.
    pub open spec fn index_of(self, id: NodeId) -> int {
        choose|i: int| 0 <= i < self.nodes.len() && (#[trigger] self.nodes[i]).id == id
    }

    /// The node stored under `id`.
    pub open spec fn node(self, id: NodeId) -> NodeView
        recommends
            self.contains(id),
    {
        self.nodes[self.index_of(id)]
    }

    /// The top-level nodes: those whose parent is the root or unset, in the
    /// order in which they were added.
    pub open spec fn roots(self) -> Seq<NodeId> {
        self.nodes.filter(top_level()).map_values(id_of())
    }

    /// No two nodes share an identifier.
    pub open spec fn ids_distinct(self) -> bool {
        forall|i: int, j: int|
            0 <= i < j < self.nodes.len() ==> (#[trigger] self.nodes[i]).id != (
            #[trigger] self.nodes[j]).id
    }

    /// No node is stored under a reserved identifier.
    pub open spec fn ids_allocated(self) -> bool {
        forall|i: int| 0 <= i < self.nodes.len() ==> (#[trigger] self.nodes[i]).id.is_node()
    }

    /// True when the node `child` is stored and names `parent` as its parent.
    pub open spec fn names_parent(self, child: NodeId, parent: NodeId) -> bool {
        exists|j: int|
            0 <= j < self.nodes.len() && (#[trigger] self.nodes[j]).id == child
                && self.nodes[j].parent == parent
    }

    /// True when the node `parent` is stored and has `child` among its
    /// children.
    pub open spec fn lists_child(self, parent: NodeId, child: NodeId) -> bool {
        exists|i: int|
            0 <= i < self.nodes.len() && (#[trigger] self.nodes[i]).id == parent
                && self.nodes[i].children.contains(child)
    }

    /// Parent and child links agree: a node with parent `p` stands once
    /// among the children of `p`, and every child of `p` is stored and names
    /// `p` as its parent.
    pub open spec fn links_consistent(self) -> bool {
        &&& forall|i: int|
            0 <= i < self.nodes.len() ==> (#[trigger] self.nodes[i]).children.no_duplicates()
        &&& forall|i: int, x: NodeId|
            0 <= i < self.nodes.len() && #[trigger] self.nodes[i].children.contains(x)
                ==> self.names_parent(x, self.nodes[i].id)
        &&& forall|j: int|
            0 <= j < self.nodes.len() && (#[trigger] self.nodes[j]).parent.is_node()
                ==> self.lists_child(self.nodes[j].parent, self.nodes[j].id)
    }

    /// Every attribute key is the index of an interned name.
    pub open spec fn keys_interned(self) -> bool {
        forall|i: int, key: usize|
            0 <= i < self.nodes.len() && #[trigger] self.nodes[i].attributes.contains_key(key)
                ==> key < self.attribute_names.len()
    }

    /// The validity of a store.
    pub open spec fn wf(self) -> bool {
        &&& self.ids_distinct()
        &&& self.ids_allocated()
        &&& self.links_consistent()
        &&& self.keys_interned()
        &&& self.type_names.no_duplicates()
        &&& self.attribute_names.no_duplicates()
    }

    /// Adding a node: refused for a reserved or a live identifier; the new
    /// node comes last and is detached.
    pub open spec fn add_node(self, id: NodeId) -> Result<NodeStoreView, Error> {
        if id.is_reserved() {
            Err(Error::InvalidData)
        } else if self.contains(id) {
            Err(Error::AlreadyExists)
        } else {
            Ok(NodeStoreView { nodes: self.nodes.push(NodeView::fresh(id)), ..self })
        }
    }

    /// Removing a node: refused when it is not stored; the node leaves the
    /// arena and every other node forgets it.
    pub open spec fn remove_node(self, id: NodeId) -> Result<NodeStoreView, Error> {
        if !self.contains(id) {
            Err(Error::NotFound)
        } else {
            Ok(
                NodeStoreView {
                    nodes: self.nodes.remove(self.index_of(id)).map_values(
                        |n: NodeView| n.forget(id),
                    ),
                    ..self
                },
            )
        }
    }

    /// The children that `parent` keeps when `child` is moved.
    pub open spec fn siblings(self, parent: NodeId, child: NodeId) -> Seq<NodeId> {
        self.node(parent).children.filter(differs_from(child))
    }

    /// Putting `child` under `parent` at position `index`. Refused when
    /// `child` is not stored, when `parent` is neither the root nor stored,
    /// and when `index` lies past the end of the children that `parent` has
    /// besides `child`. Under the root the position is not used: top-level
    /// nodes stand in the order of the arena.
    pub open spec fn add_child(self, parent: NodeId, child: NodeId, index: u64) -> Result<
        NodeStoreView,
        Error,
    > {
        if !self.contains(child) {
            Err(Error::NotFound)
        } else if parent == NodeId::root() {
            Ok(
                NodeStoreView {
                    nodes: self.nodes.map_values(|n: NodeView| n.adopt_by_root(child)),
                    ..self
                },
            )
        } else if !self.contains(parent) {
            Err(Error::NotFound)
        } else if index > self.siblings(parent, child).len() {
            Err(Error::InvalidData)
        } else {
            Ok(
                NodeStoreView {
                    nodes: self.nodes.map_values(
                        |n: NodeView| n.adopt(parent, child, index as int),
                    ),
                    ..self
                },
            )
        }
    }

    /// Taking `child` out from under `parent`. Refused when `parent` is
    /// neither the root nor stored, and when `child` does not hang under it.
    pub open spec fn remove_child(self, parent: NodeId, child: NodeId) -> Result<
        NodeStoreView,
        Error,
    > {
        if parent == NodeId::root() {
            if !self.contains(child) || self.node(child).parent != NodeId::root() {
                Err(Error::NotFound)
            } else {
                Ok(
                    NodeStoreView {
                        nodes: self.nodes.map_values(|n: NodeView| n.release_from_root(child)),
                        ..self
                    },
                )
            }
        } else if !self.contains(parent) {
            Err(Error::NotFound)
        } else if !self.node(parent).children.contains(child) {
            Err(Error::NotFound)
        } else {
            Ok(
                NodeStoreView {
                    nodes: self.nodes.map_values(|n: NodeView| n.release(parent, child)),
                    ..self
                },
            )
        }
    }

    /// Setting attribute `name` of `node`. Refused when `node` is not
    /// stored; else the name is interned and the value replaces the one the
    /// node had under it.
    pub open spec fn set_attribute(
        self,
        node: NodeId,
        name: Seq<char>,
        value: AttributeValueView,
    ) -> Result<NodeStoreView, Error> {
        if !self.contains(node) {
            Err(Error::NotFound)
        } else {
            let key = key_of(self.attribute_names, name) as usize;
            Ok(
                NodeStoreView {
                    nodes: self.nodes.map_values(
                        |n: NodeView| n.with_attribute(node, key, value),
                    ),
                    attribute_names: names_with(self.attribute_names, name),
                    ..self
                },
            )
        }
    }
}

/// With distinct identifiers a node is found at one index only.
pub proof fn lemma_index_unique(store: NodeStoreView, i: int)
    requires
        store.ids_distinct(),
        0 <= i < store.nodes.len(),
    ensures
        store.contains(store.nodes[i].id),
        store.index_of(store.nodes[i].id) == i,
        store.node(store.nodes[i].id) == store.nodes[i],
{
    let id = store.nodes[i].id;
    let j = store.index_of(id);
    assert(0 <= j < store.nodes.len() && store.nodes[j].id == id);
    if j < i {
        assert(store.nodes[j].id != store.nodes[i].id);
    } else if i < j {
        assert(store.nodes[i].id != store.nodes[j].id);
    }
}

/// Which nodes are top-level depends on their identifiers and parents only.
pub proof fn lemma_roots_depend_on_links(a: Seq<NodeView>, b: Seq<NodeView>)
    requires
        a.len() == b.len(),
        forall|i: int|
            0 <= i < a.len() ==> (#[trigger] a[i]).id == b[i].id && a[i].parent == b[i].parent,
    ensures
        a.filter(top_level()).map_values(id_of()) == b.filter(top_level()).map_values(id_of()),
    decreases a.len(),
{
    if a.len() == 0 {
        assert(a.filter(top_level()) =~= Seq::<NodeView>::empty());
        assert(b.filter(top_level()) =~= Seq::<NodeView>::empty());
        assert(a.filter(top_level()).map_values(id_of()) =~= b.filter(top_level()).map_values(
            id_of(),
        ));
    } else {
        let fa = a.drop_last();
        let fb = b.drop_last();
        assert forall|i: int| 0 <= i < fa.len() implies (#[trigger] fa[i]).id == fb[i].id
            && fa[i].parent == fb[i].parent by {
            assert(fa[i] == a[i]);
            assert(fb[i] == b[i]);
        }
        lemma_roots_depend_on_links(fa, fb);
        assert(a =~= fa.push(a.last()));
        assert(b =~= fb.push(b.last()));
        fa.lemma_filter_push(a.last(), top_level());
        fb.lemma_filter_push(b.last(), top_level());
        assert(a.last() == a[a.len() - 1]);
        assert(b.last() == b[b.len() - 1]);
        if a.last().is_top_level() {
            assert(a.filter(top_level()).map_values(id_of()) =~= fa.filter(
                top_level(),
            ).map_values(id_of()).push(a.last().id));
            assert(b.filter(top_level()).map_values(id_of()) =~= fb.filter(
                top_level(),
            ).map_values(id_of()).push(b.last().id));
        }
    }
}

/// How an operation ended: with the store that the rule prescribes, or with
/// the rule's error and the store as it was.
pub open spec fn steps_to(
    before: NodeStoreView,
    after: NodeStoreView,
    outcome: Result<(), Error>,
    rule: Result<NodeStoreView, Error>,
) -> bool {
    match rule {
        Ok(store) => outcome is Ok && after == store,
        Err(e) => outcome == Err::<(), Error>(e) && after == before,
    }
}

/// The arena of nodes with its tables of names.
pub struct NodeStore {
    nodes: Vec<Node>,
    roots: Vec<NodeId>,
    type_names: InternTable,
    attribute_names: InternTable,
}

impl View for NodeStore {
    type V = NodeStoreView;

    closed spec fn view(&self) -> NodeStoreView {
        NodeStoreView {
            nodes: self.nodes@.map_values(node_view()),
            type_names: self.type_names@,
            attribute_names: self.attribute_names@,
        }
    }
}

impl NodeStore {
    /// Everything that validity asks for but the list of roots.
    closed spec fn inner_wf(&self) -> bool {
        &&& forall|i: int| 0 <= i < self.nodes@.len() ==> (#[trigger] self.nodes@[i]).wf()
        &&& self.type_names.wf()
        &&& self.attribute_names.wf()
        &&& self@.wf()
    }

    /// The validity of a store: what it stands for is valid, every node
    /// keeps each attribute once, and the list of roots is up to date.
    pub closed spec fn wf(&self) -> bool {
        &&& self.inner_wf()
        &&& self.roots@ == self@.roots()
    }

    /// A valid store stands for a valid model.
    pub proof fn lemma_view_wf(&self)
        requires
            self.wf(),
        ensures
            self@.wf(),
    {
    }

    /// The empty store.
    pub fn new() -> (store: NodeStore)
        ensures
            store.wf(),
            store@ == NodeStoreView::empty(),
    {
        let store = NodeStore {
            nodes: Vec::new(),
            roots: Vec::new(),
            type_names: InternTable::new(),
            attribute_names: InternTable::new(),
        };
        proof {
            assert(store@.nodes =~= Seq::<NodeView>::empty());
            assert(store@.nodes.filter(top_level()) =~= Seq::<NodeView>::empty());
            assert(store@.roots() =~= Seq::<NodeId>::empty());
        }
        store
    }

    /// The number of nodes.
    pub fn len(&self) -> (n: usize)
        ensures
            n == self@.nodes.len(),
    {
        self.nodes.len()
    }

    /// The nodes in the order in which they were added.
    pub fn nodes(&self) -> (nodes: &Vec<Node>)
        ensures
            nodes@.map_values(node_view()) == self@.nodes,
            self.wf() ==> forall|i: int| 0 <= i < nodes@.len() ==> (#[trigger] nodes@[i]).wf(),
    {
        &self.nodes
    }

    /// The table of type names.
    pub fn type_names(&self) -> (table: &InternTable)
        ensures
            table@ == self@.type_names,
            self.wf() ==> table.wf(),
    {
        &self.type_names
    }

    /// The table of attribute names.
    pub fn attribute_names(&self) -> (table: &InternTable)
        ensures
            table@ == self@.attribute_names,
            self.wf() ==> table.wf(),
    {
        &self.attribute_names
    }

    /// The top-level nodes.
    pub fn find_roots(&self) -> (roots: &Vec<NodeId>)
        requires
            self.wf(),
        ensures
            roots@ == self@.roots(),
    {
        &self.roots
    }

    /// The place of node `id` in the arena.
    fn find(&self, id: NodeId) -> (found: Option<usize>)
        ensures
            match found {
                Some(i) => i < self.nodes@.len() && self.nodes@[i as int].id == id
                    && self@.contains(id),
                None => !self@.contains(id),
            },
    {
        let mut i: usize = 0;
        while i < self.nodes.len()
            invariant
                i <= self.nodes@.len(),
                forall|j: int| 0 <= j < i ==> (#[trigger] self@.nodes[j]).id != id,
            decreases self.nodes@.len() - i,
        {
            if self.nodes[i].id == id {
                proof {
                    assert(self@.nodes[i as int].id == id);
                }
                return Some(i);
            }
            i = i + 1;
        }
        None
    }

    /// True when a node is stored under `id`.
    pub fn contains(&self, id: NodeId) -> (found: bool)
        ensures
            found == self@.contains(id),
    {
        self.find(id).is_some()
    }

    /// The node stored under `id`.
    pub fn get(&self, id: NodeId) -> (found: Option<&Node>)
        requires
            self.wf(),
        ensures
            match found {
                Some(node) => self@.contains(id) && node@ == self@.node(id) && node.wf(),
                None => !self@.contains(id),
            },
    {
        match self.find(id) {
            Some(i) => {
                proof {
                    lemma_index_unique(self@, i as int);
                }
                Some(&self.nodes[i])
            },
            None => None,
        }
    }

    /// Brings the list of roots up to date.
    fn refresh_roots(&mut self)
        requires
            old(self).inner_wf(),
        ensures
            final(self).wf(),
            final(self)@ == old(self)@,
    {
        let mut roots: Vec<NodeId> = Vec::new();
        let mut i: usize = 0;
        proof {
            assert(self@.nodes.take(0).filter(top_level()) =~= Seq::<NodeView>::empty());
            assert(self@.nodes.take(0).filter(top_level()).map_values(id_of()) =~= Seq::<
                NodeId,
            >::empty());
        }
        while i < self.nodes.len()
            invariant
                i <= self.nodes@.len(),
                *self == *old(self),
                roots@ == self@.nodes.take(i as int).filter(top_level()).map_values(id_of()),
            decreases self.nodes@.len() - i,
        {
            proof {
                let done = self@.nodes.take(i as int);
                let node = self@.nodes[i as int];
                assert(self@.nodes.take(i + 1) =~= done.push(node));
                done.lemma_filter_push(node, top_level());
                if node.is_top_level() {
                    assert(done.push(node).filter(top_level()).map_values(id_of())
                        =~= done.filter(top_level()).map_values(id_of()).push(node.id));
                }
            }
            if self.nodes[i].parent == NodeId::root() || self.nodes[i].parent == NodeId::none() {
                roots.push(self.nodes[i].id);
            }
            i = i + 1;
        }
        proof {
            assert(self@.nodes.take(i as int) =~= self@.nodes);
        }
        self.roots = roots;
    }

    /// Adds a detached node under `id`.
    pub fn add_node(&mut self, id: NodeId) -> (outcome: Result<(), Error>)
        requires
            old(self).wf(),
        ensures
            final(self).wf(),
            steps_to(old(self)@, final(self)@, outcome, old(self)@.add_node(id)),
    {
        if !id.is_node() {
            return Err(Error::InvalidData);
        }
        if self.find(id).is_some() {
            return Err(Error::AlreadyExists);
        }
        self.nodes.push(Node::new_with_id(id));
        proof {
            assert(self@.nodes =~= old(self)@.nodes.push(NodeView::fresh(id)));
            assert(self@.ids_distinct()) by {
                assert forall|i: int, j: int| 0 <= i < j < self@.nodes.len() implies (
                #[trigger] self@.nodes[i]).id != (#[trigger] self@.nodes[j]).id by {
                    assert(self@.nodes[i] == old(self)@.nodes[i]);
                    if j < old(self)@.nodes.len() {
                        assert(self@.nodes[j] == old(self)@.nodes[j]);
                    }
                }
            }
        }
        proof {
            lemma_add_node_wf(old(self)@, id);
        }
        self.refresh_roots();
        Ok(())
    }

    /// Removes the node `id`; every node that named it as parent or child
    /// lets go of it.
    pub fn remove_node(&mut self, id: NodeId) -> (outcome: Result<(), Error>)
        requires
            old(self).wf(),
        ensures
            final(self).wf(),
            steps_to(old(self)@, final(self)@, outcome, old(self)@.remove_node(id)),
    {
        let at = match self.find(id) {
            Some(i) => i,
            None => {
                return Err(Error::NotFound);
            },
        };
        proof {
            lemma_index_unique(self@, at as int);
        }
        self.nodes.remove(at);
        let ghost base = self.nodes@;
        proof {
            assert(base.map_values(node_view()) =~= old(self)@.nodes.remove(at as int));
        }
        let mut j: usize = 0;
        while j < self.nodes.len()
            invariant
                j <= self.nodes@.len(),
                self.nodes@.len() == base.len(),
                self.type_names == old(self).type_names,
                self.attribute_names == old(self).attribute_names,
                forall|k: int| 0 <= k < j ==> (#[trigger] self.nodes@[k])@ == base[k]@.forget(id),
                forall|k: int|
                    0 <= k < base.len() ==> (#[trigger] self.nodes@[k]).attributes
                        == base[k].attributes,
                forall|k: int| j <= k < base.len() ==> (#[trigger] self.nodes@[k]) == base[k],
            decreases self.nodes@.len() - j,
        {
            self.nodes[j].forget(id);
            j = j + 1;
        }
        proof {
            let expected = old(self)@.nodes.remove(at as int).map_values(
                |n: NodeView| n.forget(id),
            );
            assert(self@.nodes =~= expected) by {
                assert forall|k: int| 0 <= k < expected.len() implies self@.nodes[k]
                    == expected[k] by {
                    assert(self.nodes@[k]@ == base[k]@.forget(id));
                    assert(base.map_values(node_view())[k] == base[k]@);
                }
            }
            assert forall|k: int| 0 <= k < self.nodes@.len() implies (
            #[trigger] self.nodes@[k]).wf() by {
                assert(self.nodes@[k].attributes == base[k].attributes);
                if k < at {
                    assert(base[k] == old(self).nodes@[k]);
                } else {
                    assert(base[k] == old(self).nodes@[k + 1]);
                }
            }
            assert(self@.ids_distinct() && self@.ids_allocated()) by {
                assert forall|k: int| 0 <= k < self@.nodes.len() implies (
                #[trigger] self@.nodes[k]).id == old(self)@.nodes[if k < at {
                    k
                } else {
                    k + 1
                }].id by {
                    assert(self.nodes@[k]@ == base[k]@.forget(id));
                }
            }
        }
        proof {
            lemma_remove_node_wf(old(self)@, id);
        }
        self.refresh_roots();
        Ok(())
    }

    /// Puts `child` under `parent` at position `index` among its children.
    /// A child that hung elsewhere is moved.
    pub fn add_child(&mut self, parent: NodeId, child: NodeId, index: u64) -> (outcome: Result<
        (),
        Error,
    >)
        requires
            old(self).wf(),
        ensures
            final(self).wf(),
            steps_to(old(self)@, final(self)@, outcome, old(self)@.add_child(parent, child, index)),
    {
        let child_at = match self.find(child) {
            Some(i) => i,
            None => {
                return Err(Error::NotFound);
            },
        };
        let under_root = parent == NodeId::root();
        let mut parent_at: usize = 0;
        if !under_root {
            parent_at =
            match self.find(parent) {
                Some(i) => i,
                None => {
                    return Err(Error::NotFound);
                },
            };
            proof {
                lemma_index_unique(self@, parent_at as int);
            }
            let siblings = without(&self.nodes[parent_at].children, child);
            if index > siblings.len() as u64 {
                return Err(Error::InvalidData);
            }
        }
        let ghost base = self.nodes@;
        let mut j: usize = 0;
        while j < self.nodes.len()
            invariant
                j <= self.nodes@.len(),
                self.nodes@.len() == base.len(),
                self.type_names == old(self).type_names,
                self.attribute_names == old(self).attribute_names,
                forall|k: int|
                    0 <= k < j ==> (#[trigger] self.nodes@[k])@ == (NodeView {
                        children: base[k]@.children.filter(differs_from(child)),
                        ..base[k]@
                    }),
                forall|k: int|
                    0 <= k < base.len() ==> (#[trigger] self.nodes@[k]).attributes
                        == base[k].attributes,
                forall|k: int| j <= k < base.len() ==> (#[trigger] self.nodes@[k]) == base[k],
            decreases self.nodes@.len() - j,
        {
            self.nodes[j].drop_child(child);
            j = j + 1;
        }
        if !under_root {
            self.nodes[parent_at].children.insert(index as usize, child);
        }
        self.nodes[child_at].parent = parent;
        proof {
            let before = old(self)@;
            assert forall|k: int| 0 <= k < base.len() implies (#[trigger] self.nodes@[k]).wf() by {
                assert(self.nodes@[k].attributes == base[k].attributes);
                assert(base[k].wf());
            }
            assert forall|k: int| 0 <= k < base.len() implies (#[trigger] self@.nodes[k]).id
                == before.nodes[k].id by {
                assert(self.nodes@[k].id == base[k].id);
            }
            if under_root {
                let expected = before.nodes.map_values(|n: NodeView| n.adopt_by_root(child));
                assert(self@.nodes =~= expected) by {
                    assert forall|k: int| 0 <= k < expected.len() implies self@.nodes[k]
                        == expected[k] by {
                        assert(before.nodes[k] == base[k]@);
                        if k != child_at {
                            assert(before.nodes[k].id != before.nodes[child_at as int].id);
                        }
                    }
                }
            } else {
                let expected = before.nodes.map_values(
                    |n: NodeView| n.adopt(parent, child, index as int),
                );
                assert(self@.nodes =~= expected) by {
                    assert forall|k: int| 0 <= k < expected.len() implies self@.nodes[k]
                        == expected[k] by {
                        assert(before.nodes[k] == base[k]@);
                        if k != child_at {
                            assert(before.nodes[k].id != before.nodes[child_at as int].id);
                        }
                        if k != parent_at {
                            assert(before.nodes[k].id != before.nodes[parent_at as int].id);
                        }
                    }
                }
            }
        }
        proof {
            lemma_add_child_wf(old(self)@, parent, child, index);
        }
        self.refresh_roots();
        Ok(())
    }

    /// Takes `child` out from under `parent` and leaves it detached.
    pub fn remove_child(&mut self, parent: NodeId, child: NodeId) -> (outcome: Result<(), Error>)
        requires
            old(self).wf(),
        ensures
            final(self).wf(),
            steps_to(old(self)@, final(self)@, outcome, old(self)@.remove_child(parent, child)),
    {
        let ghost before = self@;
        let ghost base = self.nodes@;
        if parent == NodeId::root() {
            let child_at = match self.find(child) {
                Some(i) => i,
                None => {
                    return Err(Error::NotFound);
                },
            };
            proof {
                lemma_index_unique(self@, child_at as int);
            }
            if self.nodes[child_at].parent != NodeId::root() {
                return Err(Error::NotFound);
            }
            self.nodes[child_at].parent = NodeId::none();
            proof {
                let expected = before.nodes.map_values(|n: NodeView| n.release_from_root(child));
                assert(self@.nodes =~= expected) by {
                    assert forall|k: int| 0 <= k < expected.len() implies self@.nodes[k]
                        == expected[k] by {
                        assert(before.nodes[k] == base[k]@);
                        if k != child_at {
                            assert(before.nodes[k].id != before.nodes[child_at as int].id);
                        }
                    }
                }
            }
        } else {
            let parent_at = match self.find(parent) {
                Some(i) => i,
                None => {
                    return Err(Error::NotFound);
                },
            };
            proof {
                lemma_index_unique(self@, parent_at as int);
            }
            if !self.nodes[parent_at].has_child(child) {
                return Err(Error::NotFound);
            }
            self.nodes[parent_at].drop_child(child);
            let ghost mid = self.nodes@;
            let found = self.find(child);
            match found {
                Some(child_at) => {
                    self.nodes[child_at].parent = NodeId::none();
                },
                None => {},
            }
            proof {
                let expected = before.nodes.map_values(|n: NodeView| n.release(parent, child));
                assert(self@.nodes =~= expected) by {
                    assert forall|k: int| 0 <= k < expected.len() implies self@.nodes[k]
                        == expected[k] by {
                        assert(before.nodes[k] == base[k]@);
                        assert(mid[k].id == base[k].id);
                        if k != parent_at {
                            assert(before.nodes[k].id != before.nodes[parent_at as int].id);
                            assert(mid[k] == base[k]);
                        }
                        match found {
                            Some(child_at) => {
                                if k != child_at {
                                    assert(before.nodes[k].id != before.nodes[child_at as int].id);
                                    assert(self.nodes@[k] == mid[k]);
                                }
                            },
                            None => {
                                assert(self.nodes@[k] == mid[k]);
                                assert(mid.map_values(node_view())[k].id != child);
                            },
                        }
                    }
                }
            }
        }
        proof {
            assert forall|k: int| 0 <= k < base.len() implies (#[trigger] self.nodes@[k]).wf() by {
                assert(self.nodes@[k].attributes == base[k].attributes);
                assert(base[k].wf());
            }
            assert forall|k: int| 0 <= k < base.len() implies (#[trigger] self@.nodes[k]).id
                == before.nodes[k].id by {
                assert(self.nodes@[k].id == base[k].id);
            }
        }
        proof {
            lemma_remove_child_wf(before, parent, child);
        }
        self.refresh_roots();
        Ok(())
    }

    /// Sets attribute `name` of `node`, interning the name.
    pub fn set_attribute(&mut self, node: NodeId, name: &str, value: AttributeValue) -> (outcome:
        Result<(), Error>)
        requires
            old(self).wf(),
        ensures
            final(self).wf(),
            steps_to(
                old(self)@,
                final(self)@,
                outcome,
                old(self)@.set_attribute(node, name@, value@),
            ),
    {
        let ghost before = self@;
        let ghost base = self.nodes@;
        let at = match self.find(node) {
            Some(i) => i,
            None => {
                return Err(Error::NotFound);
            },
        };
        proof {
            lemma_names_with(self.attribute_names@, name@);
        }
        let key = self.attribute_names.intern(name);
        self.nodes[at].set_attribute(key, value);
        proof {
            let expected = before.nodes.map_values(
                |n: NodeView| n.with_attribute(node, key, value@),
            );
            assert(self@.nodes =~= expected) by {
                assert forall|k: int| 0 <= k < expected.len() implies self@.nodes[k]
                    == expected[k] by {
                    assert(before.nodes[k] == base[k]@);
                    if k != at {
                        assert(before.nodes[k].id != before.nodes[at as int].id);
                        assert(self.nodes@[k] == base[k]);
                    }
                }
            }
            assert forall|k: int| 0 <= k < base.len() implies (#[trigger] self.nodes@[k]).wf() by {
                if k != at {
                    assert(self.nodes@[k] == base[k]);
                    assert(base[k].wf());
                }
            }
            assert forall|k: int| 0 <= k < base.len() implies (#[trigger] self@.nodes[k]).id
                == before.nodes[k].id && self@.nodes[k].parent == before.nodes[k].parent by {
                assert(before.nodes[k] == base[k]@);
            }
            lemma_roots_depend_on_links(self@.nodes, before.nodes);
            lemma_set_attribute_wf(before, node, name@, value@);
        }
        Ok(())
    }

    /// Sets attribute `name` of `node` to text.
    pub fn set_string_attribute(&mut self, node: NodeId, name: &str, value: &str) -> (outcome:
        Result<(), Error>)
        requires
            old(self).wf(),
        ensures
            final(self).wf(),
            steps_to(
                old(self)@,
                final(self)@,
                outcome,
                old(self)@.set_attribute(node, name@, AttributeValueView::String(value@)),
            ),
    {
        self.set_attribute(node, name, AttributeValue::String(value.to_owned()))
    }

    /// Sets attribute `name` of `node` to a truth value.
    pub fn set_bool_attribute(&mut self, node: NodeId, name: &str, value: bool) -> (outcome:
        Result<(), Error>)
        requires
            old(self).wf(),
        ensures
            final(self).wf(),
            steps_to(
                old(self)@,
                final(self)@,
                outcome,
                old(self)@.set_attribute(node, name@, AttributeValueView::Bool(value)),
            ),
    {
        self.set_attribute(node, name, AttributeValue::Bool(value))
    }
}

} // verus!
