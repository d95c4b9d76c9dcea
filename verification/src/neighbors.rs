use crate::internode::Internode;
use vstd::prelude::*;

verus! {

/// Defines the neighbors of a node.
///
/// A payload type implements this to expose the edges it holds. The two
/// spec functions say what the edges are; the two executable functions
/// enumerate them, in that order.
pub trait Neighbors: Sized {
    /// The outgoing neighbors of this node, in enumeration order.
    spec fn outgoing_edges(&self) -> Seq<Internode>;

    /// The incoming neighbors of this node, in enumeration order.
    spec fn incoming_edges(&self) -> Seq<Internode>;

    /// Returns the outgoing neighbors of this node.
    fn outgoing(&self) -> (edges: Vec<Internode>)
        ensures
            edges@ == self.outgoing_edges(),
    ;

    /// Returns the incoming neighbors of this node.
    fn incoming(&self) -> (edges: Vec<Internode>)
        ensures
            edges@ == self.incoming_edges(),
    ;
}

} // verus!
