use crate::graph::{anchor_count, unanchored, with_anchors, Graph};
use crate::internode::Internode;
use crate::neighbors::Neighbors;
use vstd::prelude::*;

verus! {

/// The claim of one owning handle on a cell.
///
/// A cell has at most one anchor: its cell counts the owning handles that
/// share it. The first one creates the anchor, every further one joins it,
/// and the anchor goes with the last.
#[derive(Debug, PartialEq, Eq, Hash, Structural)]
pub(crate) struct Anchor {
    pub(crate) inner: Internode,
}

impl Anchor {
    /// Anchors `inner`: joins the anchor of its cell if there is one, and
    /// creates it otherwise.
    pub(crate) fn new<T>(graph: &mut Graph<T>, inner: Internode) -> (anchor: Anchor)
        requires
            anchor_count(old(graph)@, inner) < usize::MAX,
        ensures
            anchor.inner == inner,
            final(graph)@ == with_anchors(
                old(graph)@,
                inner,
                (anchor_count(old(graph)@, inner) + 1) as usize,
            ),
    {
        let held = inner.anchor(graph);
        graph.set_anchors(inner, held + 1);
        Anchor { inner }
    }

    /// The cell that this anchor holds.
    pub(crate) fn inner(&self) -> (inner: &Internode)
        ensures
            *inner == self.inner,
    {
        &self.inner
    }

    /// Gives the claim up. When it was the last one on its cell, the cell is
    /// no longer anchored; if it should not live on, it is released.
    pub(crate) fn drop<T: Neighbors>(self, graph: &mut Graph<T>)
        ensures
            final(graph)@ == unanchored(old(graph)@, self.inner),
    {
        let held = self.inner.anchor(graph);
        if held > 0 {
            graph.set_anchors(self.inner, held - 1);
            if !self.inner.should_live(graph) {
                self.inner.release(graph)
            }
        }
    }
}

} // verus!
