use crate::internode::Internode;
use crate::neighbors::Neighbors;
use vstd::prelude::*;

verus! {

/// A payload that keeps its edges in two lists, beside a value of the
/// caller's choice.
///
/// The edges are what the lists hold, in their order. They are changed
/// through the fields, under the guard of [`Internode::lock`].
pub struct Linked<V> {
    /// What the node stands for.
    pub value: V,
    /// The outgoing neighbors.
    pub succs: Vec<Internode>,
    /// The incoming neighbors.
    pub preds: Vec<Internode>,
}

impl<V> Linked<V> {
    /// A payload with the given value and no edges.
    pub fn new(value: V) -> (payload: Self)
        ensures
            payload.value == value,
            payload.succs@ == Seq::<Internode>::empty(),
            payload.preds@ == Seq::<Internode>::empty(),
    {
        Linked { value, succs: Vec::new(), preds: Vec::new() }
    }
}

/// A copy of a list of handles.
fn copied(handles: &Vec<Internode>) -> (copy: Vec<Internode>)
    ensures
        copy@ == handles@,
{
    let mut copy: Vec<Internode> = Vec::new();
    let mut i: usize = 0;
    while i < handles.len()
        invariant
            i <= handles.len(),
            copy@ == handles@.subrange(0, i as int),
        decreases handles.len() - i,
    {
        copy.push(handles[i]);
        i = i + 1;
    }
    assert(handles@.subrange(0, handles.len() as int) =~= handles@);
    copy
}

impl<V> Neighbors for Linked<V> {
    open spec fn outgoing_edges(&self) -> Seq<Internode> {
        self.succs@
    }

    open spec fn incoming_edges(&self) -> Seq<Internode> {
        self.preds@
    }

    fn outgoing(&self) -> (edges: Vec<Internode>) {
        copied(&self.succs)
    }

    fn incoming(&self) -> (edges: Vec<Internode>) {
        copied(&self.preds)
    }
}

} // verus!
