//! Node and document identifiers.
use vstd::prelude::*;
pub use crate::model::node::NodeId;

verus! {

/// Identifier for an open document (tab).
pub type DocumentId = u64;

/// Allocates `NodeId`s for a single document.
///
/// Kept inside `Document` so that every node created during a merge or edit
/// gets a new, never-reused id within that document's lifetime.
#[derive(Debug, Clone, Copy)]
pub struct NodeIdAllocator {
    next: u64,
}

impl NodeIdAllocator {
    /// The id the next call to `alloc_id` hands out.
    pub closed spec fn next_id(self) -> u64 {
        self.next
    }

    /// An allocator whose first id is 1.
    pub fn new() -> (r: Self)
        ensures
            r.next_id() == 1,
    {
        NodeIdAllocator { next: 1 }
    }

    /// An allocator whose first id is `last + 1`, so it never hands out an id
    /// that is already present in a tree whose highest id is `last`.
    pub fn starting_after(last: NodeId) -> (r: Self)
        requires
            last < u64::MAX,
        ensures
            r.next_id() == last + 1,
    {
        NodeIdAllocator { next: last + 1 }
    }

    /// Hand out the next id.
    pub fn alloc_id(&mut self) -> (r: NodeId)
        requires
            old(self).next_id() < u64::MAX,
        ensures
            r == old(self).next_id(),
            final(self).next_id() == old(self).next_id() + 1,
    {
        let id = self.next;
        self.next = self.next + 1;
        id
    }

    /// The id the next call to `alloc_id` hands out.
    pub fn peek(&self) -> (r: NodeId)
        ensures
            r == self.next_id(),
    {
        self.next
    }
}

impl Default for NodeIdAllocator {
    fn default() -> (r: Self)
        ensures
            r.next_id() == 1,
    {
        Self::new()
    }
}

} // verus!
