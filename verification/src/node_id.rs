//! Node identifiers and their allocator.

use vstd::prelude::*;

verus! {

/// Names a node. Two values are reserved and never name a stored node.
#[derive(Clone, Copy, Debug, PartialEq, Eq, Hash, Structural)]
pub struct NodeId {
    pub index: u64,
}

impl NodeId {
    /// The index of the identifier that stands for "no node".
    pub const NO_NODE_INDEX: u64 = 0;

    /// The index of the identifier of the implicit root.
    pub const ROOT_NODE_INDEX: u64 = 1;

    /// The first index that an allocator hands out.
    pub const FIRST_INDEX: u64 = 2;

    pub open spec fn spec_none() -> NodeId {
        NodeId { index: Self::NO_NODE_INDEX }
    }

    /// Stands for "no node": the parent of a detached node.
    #[verifier::when_used_as_spec(spec_none)]
    pub fn none() -> (id: NodeId)
        ensures
            id == Self::spec_none(),
    {
        NodeId { index: Self::NO_NODE_INDEX }
    }

    pub open spec fn spec_root() -> NodeId {
        NodeId { index: Self::ROOT_NODE_INDEX }
    }

    /// The implicit ancestor of every top-level node.
    #[verifier::when_used_as_spec(spec_root)]
    pub fn root() -> (id: NodeId)
        ensures
            id == Self::spec_root(),
    {
        NodeId { index: Self::ROOT_NODE_INDEX }
    }

    /// True for the two reserved identifiers.
    pub open spec fn is_reserved(&self) -> bool {
        self.index < Self::FIRST_INDEX
    }

    pub open spec fn spec_is_node(&self) -> bool {
        !self.is_reserved()
    }

    /// True for every identifier that can name a stored node.
    #[verifier::when_used_as_spec(spec_is_node)]
    pub fn is_node(&self) -> (b: bool)
        ensures
            b == self.spec_is_node(),
    {
        self.index >= Self::FIRST_INDEX
    }
}

impl View for NodeId {
    type V = NodeId;

    open spec fn view(&self) -> NodeId {
        *self
    }
}

impl DeepView for NodeId {
    type V = NodeId;

    open spec fn deep_view(&self) -> NodeId {
        *self
    }
}

/// Hands out identifiers in increasing order.
pub struct NodeIdGenerator {
    next: u64,
}

impl NodeIdGenerator {
    /// The index of the identifier that comes next.
    pub closed spec fn next_index(&self) -> u64 {
        self.next
    }

    pub fn new() -> (g: NodeIdGenerator)
        ensures
            g.next_index() == NodeId::FIRST_INDEX,
    {
        NodeIdGenerator { next: NodeId::FIRST_INDEX }
    }

    /// Returns an identifier that this generator has not returned before.
    /// Once the counter has reached its last value it stays there, and that
    /// identifier is returned again.
    pub fn next_id(&mut self) -> (id: NodeId)
        ensures
            id.index == old(self).next_index(),
            old(self).next_index() >= NodeId::FIRST_INDEX ==> id.is_node(),
            final(self).next_index() == if old(self).next_index() < u64::MAX {
                old(self).next_index() + 1
            } else {
                u64::MAX as int
            },
    {
        let id = NodeId { index: self.next };
        if self.next < u64::MAX {
            self.next = self.next + 1;
        }
        id
    }
}

} // verus!
