//! Append-only arena of plan nodes referenced by integer ids.
use vstd::prelude::*;

verus! {

/// A unique index into the Arena.
#[derive(Debug, Clone, Copy, PartialEq, Eq, Hash, Structural)]
pub struct NodeId(pub u32);

impl NodeId {
    /// An id that refers to no node.
    pub fn invalid() -> (r: NodeId)
        ensures
            r.0 == u32::MAX,
    {
        NodeId(u32::MAX)
    }

    /// The position this id refers to.
    pub fn index(self) -> (r: usize)
        ensures
            r == self.0,
    {
        self.0 as usize
    }
}

/// A typed arena that stores nodes of type T, referenced by NodeId.
/// Nodes are append-only: positions never move and are never removed.
#[derive(Debug, Clone)]
pub struct Arena<T> {
    nodes: Vec<T>,
}

impl<T> View for Arena<T> {
    type V = Seq<T>;

    closed spec fn view(&self) -> Seq<T> {
        self.nodes@
    }
}

impl<T> Arena<T> {
    /// Create an empty arena.
    pub fn new() -> (r: Self)
        ensures
            r@ == Seq::<T>::empty(),
    {
        Arena { nodes: Vec::new() }
    }

    /// Create an empty arena with room for `cap` nodes.
    pub fn with_capacity(cap: usize) -> (r: Self)
        ensures
            r@ == Seq::<T>::empty(),
    {
        Arena { nodes: Vec::with_capacity(cap) }
    }

    /// Appends a node; its id is its position (as a 32-bit number).
    pub fn add(&mut self, node: T) -> (id: NodeId)
        ensures
            final(self)@ == old(self)@.push(node),
            id.0 == old(self)@.len() as u32,
    {
        let id = NodeId(self.nodes.len() as u32);
        self.nodes.push(node);
        id
    }

    /// The node with id `id`.
    pub fn get(&self, id: NodeId) -> (r: &T)
        requires
            id.0 < self@.len(),
        ensures
            *r == self@[id.0 as int],
    {
        &self.nodes[id.index()]
    }

    /// Mutable access to the node with id `id`.
    pub fn get_mut(&mut self, id: NodeId) -> (r: &mut T)
        requires
            id.0 < old(self)@.len(),
        ensures
            *r == old(self)@[id.0 as int],
            final(self)@ == old(self)@.update(id.0 as int, *final(r)),
    {
        &mut self.nodes[id.index()]
    }

    /// Number of nodes in the arena.
    pub fn len(&self) -> (r: usize)
        ensures
            r == self@.len(),
    {
        self.nodes.len()
    }

    /// Whether the arena is empty.
    pub fn is_empty(&self) -> (r: bool)
        ensures
            r == (self@.len() == 0),
    {
        self.nodes.len() == 0
    }

    /// Replaces the node with id `id`, returning the old one.
    pub fn replace(&mut self, id: NodeId, node: T) -> (r: T)
        requires
            id.0 < old(self)@.len(),
        ensures
            r == old(self)@[id.0 as int],
            final(self)@ == old(self)@.update(id.0 as int, node),
    {
        let mut taken = node;
        let slot = self.get_mut(id);
        std::mem::swap(slot, &mut taken);
        taken
    }

    /// All (id, node) pairs, in insertion order.
    pub fn iter(&self) -> (r: Vec<(NodeId, &T)>)
        ensures
            r@.len() == self@.len(),
            forall|i: int|
                0 <= i < r@.len() ==> (#[trigger] r@[i]).0.0 == i as u32 && *r@[i].1 == self@[i],
    {
        let mut out: Vec<(NodeId, &T)> = Vec::new();
        let mut i: usize = 0;
        while i < self.nodes.len()
            invariant
                i <= self.nodes@.len(),
                out@.len() == i,
                forall|j: int|
                    0 <= j < i ==> (#[trigger] out@[j]).0.0 == j as u32 && *out@[j].1
                        == self.nodes@[j],
            decreases self.nodes@.len() - i,
        {
            out.push((NodeId(i as u32), &self.nodes[i]));
            i += 1;
        }
        out
    }
}

impl<T> Default for Arena<T> {
    fn default() -> (r: Self)
        ensures
            r@ == Seq::<T>::empty(),
    {
        Self::new()
    }
}

/// What one `add` gives back reads back: while ids fit in 32 bits, the node
/// stored last is found again under the id returned, and no earlier node moves.
pub proof fn lemma_add_then_get<T>(before: Arena<T>, after: Arena<T>, node: T, id: NodeId)
    requires
        before@.len() < u32::MAX,
        after@ == before@.push(node),
        id.0 == before@.len() as u32,
    ensures
        id.0 < after@.len(),
        after@[id.0 as int] == node,
        forall|i: int| 0 <= i < before@.len() ==> after@[i] == before@[i],
{
}

} // verus!
