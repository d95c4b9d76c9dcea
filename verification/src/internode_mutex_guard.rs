use crate::graph::{payload_edges, Direction};
use crate::internode::Internode;
use crate::neighbors::Neighbors;
use vstd::prelude::*;

verus! {

/// Exclusive access to the payload of a node.
///
/// The guard borrows the graph for as long as it lives, so that nothing
/// else can touch the cell meanwhile. The payload is read and written
/// through `payload`, or through the guard itself, which dereferences to it.
///
/// Returned by [`crate::Node::lock`] and [`Internode::lock`].
pub struct InternodeMutexGuard<'a, T: Neighbors> {
    /// The payload of the locked cell.
    pub payload: &'a mut T,
}

impl<'a, T: Neighbors> InternodeMutexGuard<'a, T> {
    pub(crate) fn new(payload: &'a mut T) -> (guard: Self)
        ensures
            *guard.payload == *old(payload),
            *final(guard.payload) == *final(payload),
    {
        InternodeMutexGuard { payload }
    }

    /// The outgoing neighbors that the payload names. The guard is used up;
    /// the payload stays as it is.
    pub fn outgoing(self) -> (found: Vec<Internode>)
        ensures
            found@ == payload_edges(*old(self.payload), Direction::Outgoing),
            *final(self.payload) == *old(self.payload),
    {
        self.payload.outgoing()
    }

    /// The incoming neighbors that the payload names. The guard is used up;
    /// the payload stays as it is.
    pub fn incoming(self) -> (found: Vec<Internode>)
        ensures
            found@ == payload_edges(*old(self.payload), Direction::Incoming),
            *final(self.payload) == *old(self.payload),
    {
        self.payload.incoming()
    }
}

impl<'a, T: Neighbors> std::ops::Deref for InternodeMutexGuard<'a, T> {
    type Target = T;

    /// The payload, to read.
    fn deref(&self) -> (value: &T)
        ensures
            *value == *old(self.payload),
    {
        self.payload
    }
}

impl<'a, T: Neighbors> std::ops::DerefMut for InternodeMutexGuard<'a, T> {
    /// The payload, to change.
    fn deref_mut(&mut self) -> (value: &mut T)
        ensures
            *value == *old(self).payload,
            *final(self).payload == *final(value),
            *final(final(self).payload) == *final(old(self).payload),
    {
        self.payload
    }
}

} // verus!
