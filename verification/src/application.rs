//! The state of a tree editor over a document: which node is selected,
//! which nodes are unfolded, and how the selection moves through the tree.
//! Nothing here draws anything.

use crate::change::{Change, ChangeView};
use crate::document::{Document, DocumentView};
use crate::error::Error;
use crate::history::replay;
use crate::intern::position_of;
use crate::node_id::NodeId;
use crate::node_store::{Node, NodeStore, NodeStoreView};
use std::collections::HashSet;
use vstd::prelude::*;

verus! {

broadcast use vstd::std_specs::hash::group_hash_axioms;

/// The attribute under which a node carries its name.
pub open spec fn name_attribute() -> Seq<char> {
    "name"@
}

/// The name that the first node of a new document gets.
pub open spec fn first_name() -> Seq<char> {
    "First"@
}

/// The name of node `id`: the text of its attribute `name`, or nothing
/// where the node is not stored or has no such text.
pub open spec fn spec_node_name(store: NodeStoreView, id: NodeId) -> Seq<char> {
    if store.contains(id) {
        match position_of(store.attribute_names, name_attribute()) {
            Some(key) => {
                let attributes = store.node(id).attributes;
                if attributes.contains_key(key as usize) && attributes[key as usize] is String {
                    attributes[key as usize]->String_0
                } else {
                    Seq::empty()
                }
            },
            None => Seq::empty(),
        }
    } else {
        Seq::empty()
    }
}

/// True when `i` is the first place of `id` in `list`.
pub open spec fn is_first_position(list: Seq<NodeId>, id: NodeId, i: int) -> bool {
    &&& 0 <= i < list.len()
    &&& list[i] == id
    &&& forall|j: int| 0 <= j < i ==> list[j] != id
}

/// The first place of `id` in `list`, if it is there.
pub open spec fn first_position(list: Seq<NodeId>, id: NodeId) -> Option<int> {
    if list.contains(id) {
        Some(choose|i: int| is_first_position(list, id, i))
    } else {
        None
    }
}

/// An element that occurs in a list has exactly one first place.
pub proof fn lemma_first_position(list: Seq<NodeId>, id: NodeId, i: int)
    requires
        is_first_position(list, id, i),
    ensures
        first_position(list, id) == Some(i),
{
    let j = choose|j: int| is_first_position(list, id, j);
    assert(is_first_position(list, id, j));
    if j < i {
        assert(list[j] != id);
    } else if i < j {
        assert(list[i] != id);
    }
}

/// The list in which node `id` stands among its siblings: the children of
/// its parent, or the top-level nodes where its parent is no stored node.
pub open spec fn siblings_of(store: NodeStoreView, id: NodeId) -> Seq<NodeId> {
    let parent = store.node(id).parent;
    if store.contains(parent) {
        store.node(parent).children
    } else {
        store.roots()
    }
}

/// The sibling just before node `id`.
pub open spec fn spec_previous_sibling(store: NodeStoreView, id: NodeId) -> Option<NodeId> {
    if !store.contains(id) {
        None
    } else {
        let list = siblings_of(store, id);
        match first_position(list, id) {
            Some(i) => if i > 0 {
                Some(list[i - 1])
            } else {
                None
            },
            None => None,
        }
    }
}

/// The sibling just after node `id`.
pub open spec fn spec_next_sibling(store: NodeStoreView, id: NodeId) -> Option<NodeId> {
    if !store.contains(id) {
        None
    } else {
        let list = siblings_of(store, id);
        match first_position(list, id) {
            Some(i) => if i + 1 < list.len() {
                Some(list[i + 1])
            } else {
                None
            },
            None => None,
        }
    }
}

/// The first child of node `id`.
pub open spec fn spec_first_child(store: NodeStoreView, id: NodeId) -> Option<NodeId> {
    if store.contains(id) && store.node(id).children.len() > 0 {
        Some(store.node(id).children.first())
    } else {
        None
    }
}

/// The last child of node `id`.
pub open spec fn spec_last_child(store: NodeStoreView, id: NodeId) -> Option<NodeId> {
    if store.contains(id) && store.node(id).children.len() > 0 {
        Some(store.node(id).children.last())
    } else {
        None
    }
}

/// The three changes that make the first node of a new document.
pub open spec fn first_changes() -> Seq<ChangeView> {
    let id = NodeId { index: NodeId::FIRST_INDEX };
    seq![
        ChangeView::AddNode { id },
        ChangeView::AddChild { parent: NodeId::root(), child: id, insertion_index: 0 },
        ChangeView::SetString { node: id, attribute: name_attribute(), value: first_name() },
    ]
}

/// The node store of a new document: what the three changes fold to.
pub open spec fn first_nodes() -> NodeStoreView {
    replay(first_changes(), NodeStoreView::empty())->Ok_0
}

/// The name of node `id`, as text of its own.
pub fn node_name(nodes: &NodeStore, id: NodeId) -> (name: String)
    requires
        nodes.wf(),
    ensures
        name@ == spec_node_name(nodes@, id),
{
    match nodes.get(id) {
        Some(node) => match nodes.attribute_names().get_index("name") {
            Some(key) => match node.get_string_attribute(key) {
                Some(text) => text.clone(),
                None => String::new(),
            },
            None => String::new(),
        },
        None => String::new(),
    }
}

/// The first place of `id` in `list`.
pub fn position(list: &Vec<NodeId>, id: NodeId) -> (found: Option<usize>)
    ensures
        match found {
            Some(i) => i < list@.len() && first_position(list@, id) == Some(i as int),
            None => first_position(list@, id) is None,
        },
{
    let mut i: usize = 0;
    while i < list.len()
        invariant
            i <= list@.len(),
            forall|j: int| 0 <= j < i ==> list@[j] != id,
        decreases list@.len() - i,
    {
        if list[i] == id {
            proof {
                lemma_first_position(list@, id, i as int);
            }
            return Some(i);
        }
        i = i + 1;
    }
    None
}

/// The list in which node `node` stands among its siblings.
fn sibling_list<'a>(nodes: &'a NodeStore, node: &Node) -> (list: &'a Vec<NodeId>)
    requires
        nodes.wf(),
    ensures
        list@ == if nodes@.contains(node.parent) {
            nodes@.node(node.parent).children
        } else {
            nodes@.roots()
        },
{
    match nodes.get(node.parent) {
        Some(parent) => &parent.children,
        None => nodes.find_roots(),
    }
}

/// The sibling just before node `id`.
pub fn previous_sibling(nodes: &NodeStore, id: NodeId) -> (found: Option<NodeId>)
    requires
        nodes.wf(),
    ensures
        found == spec_previous_sibling(nodes@, id),
{
    match nodes.get(id) {
        Some(node) => {
            let list = sibling_list(nodes, node);
            match position(list, id) {
                Some(i) => if i > 0 {
                    Some(list[i - 1])
                } else {
                    None
                },
                None => None,
            }
        },
        None => None,
    }
}

/// The sibling just after node `id`.
pub fn next_sibling(nodes: &NodeStore, id: NodeId) -> (found: Option<NodeId>)
    requires
        nodes.wf(),
    ensures
        found == spec_next_sibling(nodes@, id),
{
    match nodes.get(id) {
        Some(node) => {
            let list = sibling_list(nodes, node);
            match position(list, id) {
                Some(i) => if i < list.len() - 1 {
                    Some(list[i + 1])
                } else {
                    None
                },
                None => None,
            }
        },
        None => None,
    }
}

/// The first child of node `id`.
pub fn first_child(nodes: &NodeStore, id: NodeId) -> (found: Option<NodeId>)
    requires
        nodes.wf(),
    ensures
        found == spec_first_child(nodes@, id),
{
    match nodes.get(id) {
        Some(node) => if node.children.len() > 0 {
            Some(node.children[0])
        } else {
            None
        },
        None => None,
    }
}

/// The last child of node `id`.
pub fn last_child(nodes: &NodeStore, id: NodeId) -> (found: Option<NodeId>)
    requires
        nodes.wf(),
    ensures
        found == spec_last_child(nodes@, id),
{
    match nodes.get(id) {
        Some(node) => if node.children.len() > 0 {
            Some(node.children[node.children.len() - 1])
        } else {
            None
        },
        None => None,
    }
}

/// A document with one top-level node, named `First`. Its three changes
/// are pending.
pub fn new_document() -> (document: Document)
    ensures
        document.wf(),
        document@.repository.len() == 0,
        document@.pending.changes == first_changes(),
        document@.nodes == first_nodes(),
        document@.undone.len() == 0,
        document@.next_index == NodeId::FIRST_INDEX + 1,
{
    let mut document = Document::empty();
    let id = document.next_id();
    let ghost changes = first_changes();
    proof {
        document.lemma_view_wf();
        assert(!document@.nodes.contains(id));
    }
    match document.add_and_apply_change(Change::AddNode { id }) {
        Ok(()) => {},
        Err(_) => {
            proof {
                assert(false);
            }
        },
    }
    proof {
        assert(document@.nodes.nodes[0].id == id);
        assert(document@.nodes.contains(id));
        assert(changes[1].combine(changes[0]) is None);
    }
    match document.add_and_apply_change(
        Change::AddChild { parent: NodeId::root(), child: id, insertion_index: 0 },
    ) {
        Ok(()) => {},
        Err(_) => {
            proof {
                assert(false);
            }
        },
    }
    proof {
        assert(document@.nodes.nodes[0].id == id);
        assert(document@.nodes.contains(id));
        assert(changes[2].combine(changes[1]) is None);
    }
    let name = "name".to_owned();
    let first = "First".to_owned();
    match document.add_and_apply_change(
        Change::SetString { node: id, attribute: name, value: first },
    ) {
        Ok(()) => {},
        Err(_) => {
            proof {
                assert(false);
            }
        },
    }
    proof {
        assert(document@.pending.changes =~= changes);
        document.lemma_view_wf();
        assert(document@.history() =~= changes);
    }
    document
}

/// The editor's state.
pub struct SimpleApplication {
    pub document: Document,
    /// The node whose subtree is shown; the root for the whole document.
    pub root: NodeId,
    /// The selected node, or none.
    pub selected_node: NodeId,
    /// The text of the name field: the name that the selected node had when
    /// it was selected.
    pub selected_node_name: String,
    /// The indices of the nodes that are unfolded.
    pub expanded_nodes: HashSet<u64>,
    pub is_editing: bool,
}

/// What the editor's state is.
pub struct ApplicationView {
    pub document: DocumentView,
    pub root: NodeId,
    pub selected_node: NodeId,
    pub selected_node_name: Seq<char>,
    pub expanded: Set<u64>,
    pub is_editing: bool,
}

impl View for SimpleApplication {
    type V = ApplicationView;

    open spec fn view(&self) -> ApplicationView {
        ApplicationView {
            document: self.document@,
            root: self.root,
            selected_node: self.selected_node,
            selected_node_name: self.selected_node_name@,
            expanded: self.expanded_nodes@,
            is_editing: self.is_editing,
        }
    }
}

impl ApplicationView {
    /// True when node `id` is unfolded.
    pub open spec fn is_expanded(self, id: NodeId) -> bool {
        self.expanded.contains(id.index)
    }

    /// The state with `id` selected and its name in the name field.
    pub open spec fn select_node(self, id: NodeId) -> ApplicationView {
        ApplicationView {
            selected_node: id,
            selected_node_name: if id.is_node() {
                spec_node_name(self.document.nodes, id)
            } else {
                Seq::empty()
            },
            ..self
        }
    }

    /// The state with node `id` unfolded or folded.
    pub open spec fn set_node_expanded(self, id: NodeId, expanded: bool) -> ApplicationView {
        ApplicationView {
            expanded: if expanded {
                self.expanded.insert(id.index)
            } else {
                self.expanded.remove(id.index)
            },
            ..self
        }
    }

    /// The state with the selected node folded if it was unfolded and
    /// unfolded if it was folded. Without a selection nothing changes.
    pub open spec fn toggle_selected_node_expanded(self) -> ApplicationView {
        if self.selected_node.is_node() {
            self.set_node_expanded(self.selected_node, !self.is_expanded(self.selected_node))
        } else {
            self
        }
    }

    /// The selected node is unfolded, and the selection moves to its first
    /// child if it has one. Without a selection nothing changes.
    pub open spec fn select_first_child(self) -> ApplicationView {
        if self.selected_node.is_node() {
            let unfolded = self.set_node_expanded(self.selected_node, true);
            match spec_first_child(self.document.nodes, self.selected_node) {
                Some(child) => unfolded.select_node(child),
                None => unfolded,
            }
        } else {
            self
        }
    }

    /// The selection moves to the parent of the selected node, if that is a
    /// node.
    pub open spec fn select_parent(self) -> ApplicationView {
        let nodes = self.document.nodes;
        if self.selected_node.is_node() && nodes.contains(self.selected_node) && nodes.node(
            self.selected_node,
        ).parent.is_node() {
            self.select_node(nodes.node(self.selected_node).parent)
        } else {
            self
        }
    }

    /// The selection moves one step down the tree as it is shown: into an
    /// unfolded node, else to the next sibling, else to the next sibling of
    /// the parent.
    pub open spec fn select_next(self) -> ApplicationView {
        let nodes = self.document.nodes;
        let selected = self.selected_node;
        if !selected.is_node() {
            self
        } else if self.is_expanded(selected) {
            self.select_first_child()
        } else if !nodes.contains(selected) {
            self
        } else {
            match spec_next_sibling(nodes, selected) {
                Some(sibling) => self.select_node(sibling),
                None => if nodes.node(selected).parent.is_node() {
                    match spec_next_sibling(nodes, nodes.node(selected).parent) {
                        Some(next) => self.select_node(next),
                        None => self,
                    }
                } else {
                    self
                },
            }
        }
    }

    /// The selection moves one step up the tree as it is shown: to the
    /// last child of the previous sibling where that is unfolded and has
    /// children, else to the previous sibling, else to the parent.
    pub open spec fn select_previous(self) -> ApplicationView {
        let nodes = self.document.nodes;
        let selected = self.selected_node;
        if !selected.is_node() {
            self
        } else {
            match spec_previous_sibling(nodes, selected) {
                Some(sibling) => match spec_last_child(nodes, sibling) {
                    Some(last) => if self.is_expanded(sibling) {
                        self.select_node(last)
                    } else {
                        self.select_node(sibling)
                    },
                    None => self.select_node(sibling),
                },
                None => self.select_parent(),
            }
        }
    }

    /// The state after the document has changed to `document` by the
    /// removal of a node: nothing is selected, and where the node that was
    /// shown as root is gone, the whole document is shown.
    pub open spec fn after_removal(self, document: DocumentView) -> ApplicationView {
        ApplicationView {
            document,
            selected_node: NodeId::none(),
            selected_node_name: Seq::empty(),
            root: if document.nodes.contains(self.root) {
                self.root
            } else {
                NodeId::root()
            },
            ..self
        }
    }
}

/// The document after a new node has been made and put under `parent`, and
/// whether that worked. The node gets the next identifier, and nothing can
/// be redone afterwards. Where making the node fails, nothing else happens;
/// where only putting it in place fails, the node stays, detached.
pub open spec fn spec_add_child(document: DocumentView, parent: NodeId, index: u64) -> (
    DocumentView,
    Result<(), Error>,
) {
    let child = NodeId { index: document.next_index };
    let counted = DocumentView {
        next_index: if document.next_index < u64::MAX {
            (document.next_index + 1) as u64
        } else {
            u64::MAX
        },
        ..document
    };
    match counted.add_and_apply_change(ChangeView::AddNode { id: child }) {
        Err(e) => (counted.without_redo(), Err(e)),
        Ok(made) => match made.add_and_apply_change(
            ChangeView::AddChild { parent, child, insertion_index: index },
        ) {
            Err(e) => (made, Err(e)),
            Ok(placed) => (placed, Ok(())),
        },
    }
}

impl SimpleApplication {
    /// The validity of the state: that of its document.
    pub open spec fn wf(&self) -> bool {
        self.document.wf()
    }

    /// The editor over a new document: nothing selected, nothing unfolded,
    /// the whole document shown.
    pub fn new() -> (app: SimpleApplication)
        ensures
            app.wf(),
            app@.document.pending.changes == first_changes(),
            app@.document.nodes == first_nodes(),
            app@.document.repository.len() == 0,
            app@.document.undone.len() == 0,
            app@.document.next_index == NodeId::FIRST_INDEX + 1,
            app@.root == NodeId::root(),
            app@.selected_node == NodeId::none(),
            app@.selected_node_name.len() == 0,
            app@.expanded == Set::<u64>::empty(),
            !app@.is_editing,
    {
        SimpleApplication {
            document: new_document(),
            root: NodeId::root(),
            selected_node: NodeId::none(),
            selected_node_name: String::new(),
            expanded_nodes: HashSet::new(),
            is_editing: false,
        }
    }

    /// Puts another document in place: the whole of it is shown and
    /// nothing is selected.
    pub fn set_document(&mut self, document: Document)
        requires
            document.wf(),
        ensures
            final(self).wf(),
            final(self)@ == (ApplicationView {
                document: document@,
                root: NodeId::root(),
                selected_node: NodeId::none(),
                selected_node_name: Seq::empty(),
                ..old(self)@
            }),
    {
        self.document = document;
        self.root = NodeId::root();
        self.select_node(NodeId::none());
    }

    /// The selected node, if one is selected and stored.
    pub fn get_selected_node(&self) -> (found: Option<&Node>)
        requires
            self.wf(),
        ensures
            match found {
                Some(node) => self@.selected_node.is_node() && self@.document.nodes.contains(
                    self@.selected_node,
                ) && node@ == self@.document.nodes.node(self@.selected_node),
                None => !(self@.selected_node.is_node() && self@.document.nodes.contains(
                    self@.selected_node,
                )),
            },
    {
        if self.selected_node.is_node() {
            return self.document.nodes().get(self.selected_node);
        }
        None
    }

    /// Selects `node_id` and takes its name into the name field.
    pub fn select_node(&mut self, node_id: NodeId)
        requires
            old(self).wf(),
        ensures
            final(self).wf(),
            final(self)@ == old(self)@.select_node(node_id),
    {
        self.selected_node = node_id;
        if node_id.is_node() {
            self.selected_node_name = node_name(self.document.nodes(), node_id);
        } else {
            self.selected_node_name = String::new();
        }
    }

    /// Makes a new node and puts it under `parent_id` at `insertion_index`.
    pub fn add_child(&mut self, parent_id: &NodeId, insertion_index: u64) -> (outcome: Result<
        (),
        Error,
    >)
        requires
            old(self).wf(),
        ensures
            final(self).wf(),
            outcome == spec_add_child(old(self)@.document, *parent_id, insertion_index).1,
            final(self)@ == (ApplicationView {
                document: spec_add_child(old(self)@.document, *parent_id, insertion_index).0,
                ..old(self)@
            }),
    {
        let child_id = self.document.next_id();
        match self.document.add_and_apply_change(Change::AddNode { id: child_id }) {
            Ok(()) => {},
            Err(e) => {
                return Err(e);
            },
        }
        match self.document.add_and_apply_change(
            Change::AddChild { parent: *parent_id, child: child_id, insertion_index },
        ) {
            Ok(()) => Ok(()),
            Err(e) => Err(e),
        }
    }

    /// Removes `node_id` from the document. Whether or not that works,
    /// nothing is selected and nothing can be redone afterwards.
    pub fn remove_node(&mut self, node_id: &NodeId) -> (outcome: Result<(), Error>)
        requires
            old(self).wf(),
        ensures
            final(self).wf(),
            match old(self)@.document.add_and_apply_change(ChangeView::RemoveNode { id: *node_id }) {
                Ok(document) => outcome is Ok && final(self)@ == old(self)@.after_removal(document),
                Err(e) => outcome == Err::<(), Error>(e) && final(self)@ == old(self)@.after_removal(
                    old(self)@.document.without_redo(),
                ),
            },
    {
        let outcome = self.document.add_and_apply_change(Change::RemoveNode { id: *node_id });
        self.select_node(NodeId::none());
        if !self.node_exists(self.root) {
            self.root = NodeId::root();
        }
        outcome
    }

    fn node_exists(&self, id: NodeId) -> (found: bool)
        ensures
            found == self@.document.nodes.contains(id),
    {
        self.document.nodes().contains(id)
    }

    /// Commits the pending changes of the document.
    pub fn commit(&mut self)
        requires
            old(self).wf(),
        ensures
            final(self).wf(),
            final(self)@ == (ApplicationView {
                document: old(self)@.document.commit_changes(final(self)@.document.pending),
                ..old(self)@
            }),
            final(self)@.document.pending.changes.len() == 0,
    {
        self.document.commit_changes();
    }

    /// The sibling just before `node_id`.
    pub fn get_previous_sibling(&self, node_id: NodeId) -> (found: Option<NodeId>)
        requires
            self.wf(),
        ensures
            found == spec_previous_sibling(self@.document.nodes, node_id),
    {
        previous_sibling(self.document.nodes(), node_id)
    }

    /// The sibling just after `node_id`.
    pub fn get_next_sibling(&self, node_id: NodeId) -> (found: Option<NodeId>)
        requires
            self.wf(),
        ensures
            found == spec_next_sibling(self@.document.nodes, node_id),
    {
        next_sibling(self.document.nodes(), node_id)
    }

    /// The first child of `node_id`.
    pub fn get_first_child(&self, node_id: NodeId) -> (found: Option<NodeId>)
        requires
            self.wf(),
        ensures
            found == spec_first_child(self@.document.nodes, node_id),
    {
        first_child(self.document.nodes(), node_id)
    }

    /// The last child of `node_id`.
    pub fn get_last_child(&self, node_id: NodeId) -> (found: Option<NodeId>)
        requires
            self.wf(),
        ensures
            found == spec_last_child(self@.document.nodes, node_id),
    {
        last_child(self.document.nodes(), node_id)
    }

    /// True when `node` is unfolded.
    pub fn is_node_expanded(&self, node: NodeId) -> (unfolded: bool)
        ensures
            unfolded == self@.is_expanded(node),
    {
        self.expanded_nodes.contains(&node.index)
    }

    /// Unfolds or folds `node`.
    pub fn set_node_expanded(&mut self, node: NodeId, expanded: bool)
        ensures
            final(self)@ == old(self)@.set_node_expanded(node, expanded),
            final(self).document == old(self).document,
    {
        if expanded {
            self.expanded_nodes.insert(node.index);
        } else {
            self.expanded_nodes.remove(&node.index);
        }
    }

    /// Folds the selected node if it is unfolded, and unfolds it if not.
    pub fn toggle_selected_node_expanded(&mut self)
        ensures
            final(self)@ == old(self)@.toggle_selected_node_expanded(),
            final(self).document == old(self).document,
    {
        if self.selected_node.is_node() {
            let unfolded = self.is_node_expanded(self.selected_node);
            self.set_node_expanded(self.selected_node, !unfolded);
        }
    }

    /// Unfolds the selected node and selects its first child.
    pub fn select_first_child(&mut self)
        requires
            old(self).wf(),
        ensures
            final(self).wf(),
            final(self)@ == old(self)@.select_first_child(),
    {
        if self.selected_node.is_node() {
            self.set_node_expanded(self.selected_node, true);
            match first_child(self.document.nodes(), self.selected_node) {
                Some(child) => {
                    self.select_node(child);
                },
                None => {},
            }
        }
    }

    /// Selects the parent of the selected node.
    pub fn select_parent(&mut self)
        requires
            old(self).wf(),
        ensures
            final(self).wf(),
            final(self)@ == old(self)@.select_parent(),
    {
        if self.selected_node.is_node() {
            let parent = match self.document.nodes().get(self.selected_node) {
                Some(node) => node.parent,
                None => NodeId::none(),
            };
            if parent.is_node() {
                self.select_node(parent);
            }
        }
    }

    /// Moves the selection one step down the tree as it is shown.
    pub fn select_next(&mut self)
        requires
            old(self).wf(),
        ensures
            final(self).wf(),
            final(self)@ == old(self)@.select_next(),
    {
        let selected = self.selected_node;
        if selected.is_node() {
            if self.is_node_expanded(selected) {
                self.select_first_child();
            } else {
                let parent = match self.document.nodes().get(selected) {
                    Some(node) => node.parent,
                    None => {
                        return ;
                    },
                };
                match next_sibling(self.document.nodes(), selected) {
                    Some(sibling) => {
                        self.select_node(sibling);
                    },
                    None => {
                        if parent.is_node() {
                            match next_sibling(self.document.nodes(), parent) {
                                Some(next) => {
                                    self.select_node(next);
                                },
                                None => {},
                            }
                        }
                    },
                }
            }
        }
    }

    /// Moves the selection one step up the tree as it is shown.
    pub fn select_previous(&mut self)
        requires
            old(self).wf(),
        ensures
            final(self).wf(),
            final(self)@ == old(self)@.select_previous(),
    {
        let selected = self.selected_node;
        if selected.is_node() {
            match previous_sibling(self.document.nodes(), selected) {
                Some(sibling) => {
                    let unfolded = self.is_node_expanded(sibling);
                    match last_child(self.document.nodes(), sibling) {
                        Some(last) => {
                            if unfolded {
                                self.select_node(last);
                            } else {
                                self.select_node(sibling);
                            }
                        },
                        None => {
                            self.select_node(sibling);
                        },
                    }
                },
                None => {
                    self.select_parent();
                },
            }
        }
    }

    /// Switches between editing and browsing.
    pub fn toggle_editing(&mut self)
        ensures
            final(self)@ == (ApplicationView { is_editing: !old(self)@.is_editing, ..old(self)@ }),
            final(self).document == old(self).document,
    {
        self.is_editing = !self.is_editing;
    }
}

} // verus!
