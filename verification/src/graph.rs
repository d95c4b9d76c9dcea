use crate::internode::Internode;
use crate::neighbors::Neighbors;
use crate::walk::reaches;
use vstd::prelude::*;

verus! {

/// The storage of one node: its payload, present while the node is alive,
/// and the number of owning handles that anchor it.
pub struct Cell<T> {
    /// The payload. `None` once the node was released; it never comes back.
    pub value: Option<T>,
    /// The number of owning handles of this cell. The cell is anchored
    /// while it is not zero.
    pub anchors: usize,
}

/// The edges that a traversal follows.
#[derive(Clone, Copy, Debug, PartialEq, Eq, Structural)]
pub enum Direction {
    /// From a node to the nodes it names as outgoing neighbors.
    Outgoing,
    /// From a node to the nodes it names as incoming neighbors.
    Incoming,
    /// Both ways: the incoming neighbors of a node, then the outgoing ones.
    Both,
}

/// The cells of a graph. The view of a graph is the sequence of its cells;
/// a handle names the cell at the position that is its identity.
pub struct Graph<T> {
    cells: Vec<Cell<T>>,
}

impl<T> View for Graph<T> {
    type V = Seq<Cell<T>>;

    closed spec fn view(&self) -> Seq<Cell<T>> {
        self.cells@
    }
}

/// The payload of `at` is present.
pub open spec fn alive<T>(cells: Seq<Cell<T>>, at: Internode) -> bool {
    at@ < cells.len() && cells[at@ as int].value.is_some()
}

/// The number of owning handles of `at`; none for a handle of no cell.
pub open spec fn anchor_count<T>(cells: Seq<Cell<T>>, at: Internode) -> usize {
    if at@ < cells.len() {
        cells[at@ as int].anchors
    } else {
        0
    }
}

/// Some owning handle anchors `at`.
pub open spec fn anchored<T>(cells: Seq<Cell<T>>, at: Internode) -> bool {
    anchor_count(cells, at) > 0
}

/// The neighbors that a payload names in the given direction, in the order
/// in which it names them.
pub open spec fn payload_edges<T: Neighbors>(value: T, direction: Direction) -> Seq<Internode> {
    match direction {
        Direction::Outgoing => value.outgoing_edges(),
        Direction::Incoming => value.incoming_edges(),
        Direction::Both => value.incoming_edges() + value.outgoing_edges(),
    }
}

/// The neighbors of a cell: those of its payload. A released cell has none.
pub open spec fn edges<T: Neighbors>(cell: Cell<T>, direction: Direction) -> Seq<Internode> {
    match cell.value {
        None => Seq::empty(),
        Some(value) => payload_edges(value, direction),
    }
}

/// For each position, the neighbors of the cell there.
pub open spec fn adjacency<T: Neighbors>(cells: Seq<Cell<T>>, direction: Direction) -> Seq<
    Seq<Internode>,
> {
    Seq::new(cells.len(), |i: int| edges(cells[i], direction))
}

/// The cells with the number of owning handles of `at` set to `anchors`.
pub open spec fn with_anchors<T>(cells: Seq<Cell<T>>, at: Internode, anchors: usize) -> Seq<
    Cell<T>,
> {
    if at@ < cells.len() {
        cells.update(at@ as int, Cell { value: cells[at@ as int].value, anchors })
    } else {
        cells
    }
}

/// The cells with the payload of `at` replaced by `value`.
pub open spec fn with_value<T>(cells: Seq<Cell<T>>, at: Internode, value: Option<T>) -> Seq<
    Cell<T>,
> {
    if at@ < cells.len() {
        cells.update(at@ as int, Cell { value, anchors: cells[at@ as int].anchors })
    } else {
        cells
    }
}

/// The liveness test: `at` is anchored, or an anchored cell can be reached
/// from it along outgoing edges alone, or along incoming edges alone.
///
/// A cell that is linked to an anchored one only by a path that changes
/// direction is not sustained by it.
pub open spec fn sustained<T: Neighbors>(cells: Seq<Cell<T>>, at: Internode) -> bool {
    ||| anchored(cells, at)
    ||| exists|h: Internode| #[trigger]
        reaches(adjacency(cells, Direction::Outgoing), at, h) && anchored(cells, h)
    ||| exists|h: Internode| #[trigger]
        reaches(adjacency(cells, Direction::Incoming), at, h) && anchored(cells, h)
}

/// The cell at `index` goes when `origin` is released: it is linked to
/// `origin` by edges of live cells, followed in either direction.
pub open spec fn doomed<T: Neighbors>(cells: Seq<Cell<T>>, origin: Internode, index: int) -> bool {
    exists|h: Internode| h@ == index && #[trigger] reaches(
        adjacency(cells, Direction::Both),
        origin,
        h,
    )
}

/// The cells after `origin` was released: the payload of every doomed cell
/// is gone. Anchors are left as they are.
pub open spec fn released<T: Neighbors>(cells: Seq<Cell<T>>, origin: Internode) -> Seq<Cell<T>> {
    Seq::new(
        cells.len(),
        |i: int|
            if doomed(cells, origin, i) {
                Cell { value: None, anchors: cells[i].anchors }
            } else {
                cells[i]
            },
    )
}

/// The cells after an owning handle of `at` was given up. When it was the
/// last one of its cell, the cell stays only if it is sustained, and is
/// released otherwise.
pub open spec fn unanchored<T: Neighbors>(cells: Seq<Cell<T>>, at: Internode) -> Seq<Cell<T>> {
    if !anchored(cells, at) {
        cells
    } else {
        let rest = with_anchors(cells, at, (anchor_count(cells, at) - 1) as usize);
        if sustained(rest, at) {
            rest
        } else {
            released(rest, at)
        }
    }
}

/// Enumerates the neighbors that a payload names in the given direction.
pub(crate) fn enumerate<T: Neighbors>(value: &T, direction: Direction) -> (found: Vec<Internode>)
    ensures
        found@ == payload_edges(*value, direction),
{
    match direction {
        Direction::Outgoing => value.outgoing(),
        Direction::Incoming => value.incoming(),
        Direction::Both => {
            let mut found = value.incoming();
            let mut onward = value.outgoing();
            found.append(&mut onward);
            found
        },
    }
}

impl<T> Graph<T> {
    /// A graph without cells.
    pub fn new() -> (graph: Self)
        ensures
            graph@ == Seq::<Cell<T>>::empty(),
    {
        Graph { cells: Vec::new() }
    }

    /// The number of cells, released ones included.
    pub fn len(&self) -> (len: usize)
        ensures
            len == self@.len(),
    {
        self.cells.len()
    }

    /// Every cell has a position that fits a machine word.
    pub proof fn lemma_len_fits(&self)
        ensures
            self@.len() <= usize::MAX,
    {
        assert(self.cells.len() == self.cells@.len());
    }

    /// Adds a cell that holds `value` and that nothing anchors yet.
    pub(crate) fn push(&mut self, value: T) -> (at: Internode)
        ensures
            at@ == old(self)@.len(),
            final(self)@ == old(self)@.push(Cell { value: Some(value), anchors: 0 }),
    {
        let at = Internode::from_index(self.cells.len());
        self.cells.push(Cell { value: Some(value), anchors: 0 });
        at
    }

    /// The payload of `at`, if it is present.
    pub(crate) fn value(&self, at: Internode) -> (value: Option<&T>)
        ensures
            value.is_some() == alive(self@, at),
            value matches Some(payload) ==> Some(*payload) == self@[at@ as int].value,
    {
        let i = at.index();
        if i < self.cells.len() {
            self.cells[i].value.as_ref()
        } else {
            None
        }
    }

    /// Exclusive access to the payload of `at`, if it is present. What the
    /// borrower leaves there is the payload afterwards.
    pub(crate) fn value_mut(&mut self, at: Internode) -> (value: Option<&mut T>)
        ensures
            value.is_some() == alive(old(self)@, at),
            value matches Some(payload) ==> Some(*payload) == old(self)@[at@ as int].value
                && final(self)@ == with_value(old(self)@, at, Some(*final(payload))),
            value.is_none() ==> final(self)@ == old(self)@,
    {
        let i = at.index();
        if i < self.cells.len() {
            match &mut self.cells[i].value {
                Some(payload) => Some(payload),
                None => None,
            }
        } else {
            None
        }
    }

    /// Takes the payload of `at` out of its cell, which stays empty.
    pub(crate) fn take(&mut self, at: Internode) -> (value: Option<T>)
        ensures
            value.is_some() == alive(old(self)@, at),
            value.is_some() ==> value == old(self)@[at@ as int].value,
            final(self)@ == with_value(old(self)@, at, None),
    {
        let i = at.index();
        if i < self.cells.len() {
            let value = self.cells[i].value.take();
            assert(self@ =~= with_value(old(self)@, at, None));
            value
        } else {
            None
        }
    }

    /// The number of owning handles of `at`.
    pub(crate) fn anchors(&self, at: Internode) -> (anchors: usize)
        ensures
            anchors == anchor_count(self@, at),
    {
        let i = at.index();
        if i < self.cells.len() {
            self.cells[i].anchors
        } else {
            0
        }
    }

    /// Records that `at` has `anchors` owning handles. A handle of no cell
    /// of this graph is left alone.
    pub(crate) fn set_anchors(&mut self, at: Internode, anchors: usize)
        ensures
            final(self)@ == with_anchors(old(self)@, at, anchors),
    {
        let i = at.index();
        if i < self.cells.len() {
            self.cells[i].anchors = anchors;
            assert(self@ =~= with_anchors(old(self)@, at, anchors));
        }
    }
}

} // verus!
