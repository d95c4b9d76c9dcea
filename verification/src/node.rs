use crate::anchor::Anchor;
use crate::graph::{alive, anchor_count, unanchored, with_anchors, with_value, Cell, Graph};
use crate::internode::Internode;
use crate::internode_mutex_guard::InternodeMutexGuard;
use crate::neighbors::Neighbors;
use vstd::prelude::*;

verus! {

/// An owning reference to a node.
///
/// This anchors its cell, and with it every cell from which the cell can be
/// reached along outgoing edges alone or along incoming edges alone. A
/// payload should not hold owning handles of other nodes. An owning handle
/// is given up with [`Node::drop`]: when no owning handle is left on any
/// cell that sustains a node, the node and what is linked to it is released.
///
/// Returned by [`Node::new`] and [`Internode::upgrade`].
#[derive(Debug, PartialEq, Eq, Hash, Structural)]
pub struct Node {
    anchor: Anchor,
}

impl Node {
    /// The cell that this handle anchors.
    pub closed spec fn cell(&self) -> Internode {
        self.anchor.inner
    }

    pub(crate) fn from_internode<T>(graph: &mut Graph<T>, inner: Internode) -> (node: Node)
        requires
            anchor_count(old(graph)@, inner) < usize::MAX,
        ensures
            node.cell() == inner,
            final(graph)@ == with_anchors(
                old(graph)@,
                inner,
                (anchor_count(old(graph)@, inner) + 1) as usize,
            ),
    {
        Node { anchor: Anchor::new(graph, inner) }
    }

    /// Creates a new node with the given value, in a cell of its own, and
    /// returns the owning handle that anchors it.
    pub fn new<T: Neighbors>(graph: &mut Graph<T>, value: T) -> (node: Node)
        ensures
            node.cell()@ == old(graph)@.len(),
            final(graph)@ == old(graph)@.push(Cell { value: Some(value), anchors: 1 }),
    {
        let inner = Internode::new(graph, value);
        let node = Node::from_internode(graph, inner);
        assert(graph@ =~= old(graph)@.push(Cell { value: Some(value), anchors: 1 }));
        node
    }

    /// The text by which an owning handle is shown, around the text
    /// `payload` by which its payload is: `Node(`, the payload, `)`.
    pub fn debug_text(payload: &str) -> (text: String)
        ensures
            text@ == "Node("@ + payload@ + ")"@,
    {
        let mut text = String::from_str("Node(");
        text.append(payload);
        text.append(")");
        text
    }

    /// A non-owning handle of the same cell.
    pub fn downgrade(&self) -> (handle: Internode)
        ensures
            handle == self.cell(),
    {
        *self.anchor.inner()
    }

    /// Exclusive access to the payload of a node that was not released.
    pub fn lock<'a, T: Neighbors>(&self, graph: &'a mut Graph<T>) -> (guard: InternodeMutexGuard<
        'a,
        T,
    >)
        requires
            alive(old(graph)@, self.cell()),
        ensures
            Some(*guard.payload) == old(graph)@[self.cell()@ as int].value,
            final(graph)@ == with_value(old(graph)@, self.cell(), Some(*final(guard.payload))),
    {
        self.anchor.inner().lock(graph).unwrap()
    }

    /// One more owning handle of the same cell, which shares the anchor.
    pub fn clone<T>(&self, graph: &mut Graph<T>) -> (node: Node)
        requires
            anchor_count(old(graph)@, self.cell()) < usize::MAX,
        ensures
            node.cell() == self.cell(),
            final(graph)@ == with_anchors(
                old(graph)@,
                self.cell(),
                (anchor_count(old(graph)@, self.cell()) + 1) as usize,
            ),
    {
        Node::from_internode(graph, *self.anchor.inner())
    }

    /// Gives this owning handle up. If it was the last one of its cell and
    /// the cell is not sustained by another anchored cell, the node is
    /// released together with everything linked to it.
    pub fn drop<T: Neighbors>(self, graph: &mut Graph<T>)
        ensures
            final(graph)@ == unanchored(old(graph)@, self.cell()),
    {
        self.anchor.drop(graph)
    }
}

impl std::ops::Deref for Node {
    type Target = Internode;

    /// The non-owning handle of the anchored cell: whatever a non-owning
    /// handle can do, an owning handle can do through it.
    fn deref(&self) -> (handle: &Internode)
        ensures
            *handle == self.cell(),
    {
        self.anchor.inner()
    }
}

} // verus!
