use crate::graph::{
    adjacency, alive, anchor_count, anchored, doomed, enumerate, released, sustained,
    with_anchors, with_value, Cell, Direction, Graph,
};
use crate::internode_mutex_guard::InternodeMutexGuard;
use crate::neighbors::Neighbors;
use crate::node::Node;
use crate::search::Search;
use crate::walk::{
    enqueue, lemma_unvisited_suffix, lemma_walk_end, lemma_walk_step,
    lemma_walk_visits_reachable, links, reaches, unexplored, walk, Order,
};
use vstd::prelude::*;

verus! {

/// A non-owning reference to a cell of a [`crate::graph::Graph`].
///
/// A handle carries nothing but the identity of its cell. It can be copied
/// freely and never keeps the payload alive. Two handles are equal exactly
/// when they refer to the same cell, whatever the payloads hold.
#[derive(Clone, Copy, Debug, PartialEq, Eq, Hash, Structural)]
pub struct Internode {
    id: usize,
}

impl View for Internode {
    type V = nat;

    /// The identity of the cell: its position in the graph.
    closed spec fn view(&self) -> nat {
        self.id as nat
    }
}

impl Internode {
    /// The handle of the cell at position `index`.
    pub closed spec fn of(index: nat) -> Internode {
        Internode { id: index as usize }
    }

    /// A handle is determined by the identity of its cell: handles of one
    /// cell are equal, handles of distinct cells are not.
    pub proof fn lemma_identity(a: Internode, b: Internode)
        ensures
            a@ <= usize::MAX,
            Internode::of(a@) == a,
            (a@ == b@) == (a == b),
    {
    }

    /// Every position that fits a machine word has a handle.
    pub proof fn lemma_of(index: nat)
        requires
            index <= usize::MAX,
        ensures
            Internode::of(index)@ == index,
    {
    }

    pub(crate) fn from_index(id: usize) -> (handle: Internode)
        ensures
            handle@ == id,
            handle == Internode::of(id as nat),
    {
        Internode { id }
    }

    /// The position of the cell in its graph.
    pub fn index(&self) -> (index: usize)
        ensures
            index == self@,
    {
        self.id
    }

    /// The text by which a handle is shown, around the text `payload` by
    /// which its payload is: `Internode(`, the payload, `)`.
    pub fn debug_text(payload: &str) -> (text: String)
        ensures
            text@ == "Internode("@ + payload@ + ")"@,
    {
        let mut text = String::from_str("Internode(");
        text.append(payload);
        text.append(")");
        text
    }

    /// The payload of this handle's cell, if it is present.
    pub fn value<'a, T>(&self, graph: &'a Graph<T>) -> (value: Option<&'a T>)
        ensures
            value.is_some() == alive(graph@, *self),
            value matches Some(payload) ==> Some(*payload) == graph@[self@ as int].value,
    {
        graph.value(*self)
    }

    /// The number of owning handles of this handle's cell.
    pub fn anchor<T>(&self, graph: &Graph<T>) -> (anchors: usize)
        ensures
            anchors == anchor_count(graph@, *self),
    {
        graph.anchors(*self)
    }

    /// Creates a cell that holds `value` and returns its handle. Nothing
    /// anchors the cell yet.
    pub(crate) fn new<T>(graph: &mut Graph<T>, value: T) -> (handle: Internode)
        ensures
            handle@ == old(graph)@.len(),
            final(graph)@ == old(graph)@.push(Cell { value: Some(value), anchors: 0 }),
    {
        graph.push(value)
    }

    /// Exclusive access to the payload. `None` if the node was released.
    ///
    /// While the guard lives the graph cannot be used otherwise; what the
    /// guard leaves behind is the payload of the cell afterwards.
    pub fn lock<'a, T: Neighbors>(&self, graph: &'a mut Graph<T>) -> (guard: Option<
        InternodeMutexGuard<'a, T>,
    >)
        ensures
            guard.is_some() == alive(old(graph)@, *self),
            guard matches Some(held) ==> Some(*held.payload) == old(graph)@[self@ as int].value
                && final(graph)@ == with_value(old(graph)@, *self, Some(*final(held.payload))),
            guard.is_none() ==> final(graph)@ == old(graph)@,
    {
        match graph.value_mut(*self) {
            Some(value) => Some(InternodeMutexGuard::new(value)),
            None => None,
        }
    }

    /// Tries to anchor this handle's cell: returns an owning handle if the
    /// payload is present, and `None`, changing nothing, if the node was
    /// released.
    pub fn upgrade<T: Neighbors>(&self, graph: &mut Graph<T>) -> (node: Option<Node>)
        requires
            alive(old(graph)@, *self) ==> anchor_count(old(graph)@, *self) < usize::MAX,
        ensures
            node.is_some() == alive(old(graph)@, *self),
            node matches Some(owner) ==> owner.cell() == *self && final(graph)@ == with_anchors(
                old(graph)@,
                *self,
                (anchor_count(old(graph)@, *self) + 1) as usize,
            ),
            node.is_none() ==> final(graph)@ == old(graph)@,
    {
        if self.is_alive(graph) {
            Some(Node::from_internode(graph, *self))
        } else {
            None
        }
    }

    /// Whether the payload is present.
    pub fn is_alive<T>(&self, graph: &Graph<T>) -> (live: bool)
        ensures
            live == alive(graph@, *self),
    {
        self.value(graph).is_some()
    }

    /// Whether an owning handle anchors this handle's cell.
    pub fn is_anchored<T>(&self, graph: &Graph<T>) -> (held: bool)
        ensures
            held == anchored(graph@, *self),
    {
        self.anchor(graph) > 0
    }

    /// Whether an anchored cell can be reached from this one by edges of the
    /// given direction; the cell itself counts.
    fn reaches_anchor<T: Neighbors>(&self, graph: &Graph<T>, direction: Direction) -> (found: bool)
        ensures
            found == exists|h: Internode| #[trigger]
                reaches(adjacency(graph@, direction), *self, h) && anchored(graph@, h),
    {
        let ghost adj = adjacency(graph@, direction);
        let ghost all = walk(adj, Order::DepthFirst, seq![*self], Set::empty());
        let ghost mut done: Seq<Internode> = Seq::empty();
        let mut search = Search::new(*self, Order::DepthFirst);
        proof {
            lemma_walk_visits_reachable(adj, Order::DepthFirst, *self);
            assert(done + all =~= all);
        }
        loop
            invariant
                adj == adjacency(graph@, direction),
                search.order() == Order::DepthFirst,
                all == walk(adj, Order::DepthFirst, seq![*self], Set::empty()),
                done + walk(adj, Order::DepthFirst, search.pending(), search.visited()) == all,
                forall|h: Internode| #[trigger] all.contains(h) <==> reaches(adj, *self, h),
                forall|h: Internode| #[trigger] done.contains(h) ==> !anchored(graph@, h),
            decreases search.pending().len() + unexplored(adj, search.visited(), adj.len()),
        {
            let ghost work = search.pending();
            let ghost seen = search.visited();
            match search.next() {
                None => {
                    proof {
                        lemma_walk_end(adj, Order::DepthFirst, work, seen);
                        assert(done =~= all);
                        assert forall|h: Internode| #[trigger]
                            reaches(adj, *self, h) implies !anchored(graph@, h) by {
                            assert(all.contains(h));
                        }
                    }
                    return false;
                },
                Some(at) => {
                    proof {
                        lemma_walk_step(adj, Order::DepthFirst, work, seen);
                    }
                    let ghost onward = walk(
                        adj,
                        Order::DepthFirst,
                        enqueue(Order::DepthFirst, links(adj, at), search.pending()),
                        search.visited(),
                    );
                    assert(all =~= done.push(at) + onward);
                    if at.is_anchored(graph) {
                        assert(all[done.len() as int] == at);
                        assert(all.contains(at));
                        return true;
                    }
                    let found = at.neighbors(graph, direction);
                    search.expand(found);
                    proof {
                        assert forall|h: Internode| #[trigger]
                            done.push(at).contains(h) implies !anchored(graph@, h) by {
                            if !done.contains(h) {
                                let i = choose|i: int|
                                    0 <= i < done.push(at).len() && done.push(at)[i] == h;
                                assert(i == done.len());
                            }
                        }
                        done = done.push(at);
                    }
                },
            }
        }
    }

    /// The liveness test: whether this handle's cell is anchored, or an
    /// anchored cell can be reached from it along incoming edges alone, or
    /// along outgoing edges alone.
    pub fn should_live<T: Neighbors>(&self, graph: &Graph<T>) -> (live: bool)
        ensures
            live == sustained(graph@, *self),
    {
        self.is_anchored(graph) || self.reaches_anchor(graph, Direction::Incoming)
            || self.reaches_anchor(graph, Direction::Outgoing)
    }

    /// Releases this handle's cell and, in cascade, every cell linked to it:
    /// the payload is taken out and dropped, and the same is done, depth
    /// first, to the incoming and then the outgoing neighbors that it named.
    /// A cell whose payload is gone already is passed over, so that releasing
    /// a released cell changes nothing.
    pub fn release<T: Neighbors>(&self, graph: &mut Graph<T>)
        ensures
            final(graph)@ == released(old(graph)@, *self),
    {
        let ghost before = graph@;
        let ghost adj = adjacency(before, Direction::Both);
        let ghost all = walk(adj, Order::DepthFirst, seq![*self], Set::empty());
        let ghost mut done: Seq<Internode> = Seq::empty();
        let mut search = Search::new(*self, Order::DepthFirst);
        proof {
            lemma_walk_visits_reachable(adj, Order::DepthFirst, *self);
            assert(done + all =~= all);
            graph.lemma_len_fits();
        }
        loop
            invariant
                adj == adjacency(before, Direction::Both),
                search.order() == Order::DepthFirst,
                done + walk(adj, Order::DepthFirst, search.pending(), search.visited()) == all,
                forall|h: Internode| #[trigger] done.contains(h) <==> search.visited().contains(h@),
                graph@.len() == before.len(),
                before.len() <= usize::MAX,
                forall|i: int|
                    0 <= i < before.len() ==> #[trigger] graph@[i] == (if search.visited().contains(
                        i as nat,
                    ) {
                        Cell { value: None, anchors: before[i].anchors }
                    } else {
                        before[i]
                    }),
            ensures
                done == all,
                forall|h: Internode| #[trigger] done.contains(h) <==> search.visited().contains(h@),
                graph@.len() == before.len(),
                before.len() <= usize::MAX,
                forall|i: int|
                    0 <= i < before.len() ==> #[trigger] graph@[i] == (if search.visited().contains(
                        i as nat,
                    ) {
                        Cell { value: None, anchors: before[i].anchors }
                    } else {
                        before[i]
                    }),
            decreases search.pending().len() + unexplored(adj, search.visited(), adj.len()),
        {
            let ghost work = search.pending();
            let ghost seen = search.visited();
            let ghost cells = graph@;
            match search.next() {
                None => {
                    proof {
                        lemma_walk_end(adj, Order::DepthFirst, work, seen);
                        assert(done =~= all);
                    }
                    break ;
                },
                Some(at) => {
                    proof {
                        lemma_walk_step(adj, Order::DepthFirst, work, seen);
                        lemma_unvisited_suffix(work, seen);
                    }
                    let found = match graph.take(at) {
                        Some(value) => enumerate(&value, Direction::Both),
                        None => Vec::new(),
                    };
                    assert(found@ == links(adj, at)) by {
                        if at@ < before.len() {
                            assert(cells[at@ as int] == before[at@ as int]);
                        }
                    }
                    search.expand(found);
                    proof {
                        assert forall|h: Internode| #[trigger]
                            done.push(at).contains(h) <==> search.visited().contains(h@) by {
                            Internode::lemma_identity(h, at);
                            if done.push(at).contains(h) {
                                let i = choose|i: int|
                                    0 <= i < done.push(at).len() && done.push(at)[i] == h;
                                if i < done.len() {
                                    assert(done[i] == h);
                                }
                            }
                            if done.contains(h) {
                                let i = choose|i: int| 0 <= i < done.len() && done[i] == h;
                                assert(done.push(at)[i] == h);
                            }
                            if h == at {
                                assert(done.push(at)[done.len() as int] == h);
                            }
                        }
                        assert(done.push(at) + walk(
                            adj,
                            Order::DepthFirst,
                            search.pending(),
                            search.visited(),
                        ) =~= all);
                        done = done.push(at);
                    }
                },
            }
        }
        proof {
            let after = released(before, *self);
            assert forall|i: int| 0 <= i < before.len() implies graph@[i] == after[i] by {
                if search.visited().contains(i as nat) {
                    let h = Internode::of(i as nat);
                    Internode::lemma_of(i as nat);
                    assert(done.contains(h));
                    assert(all.contains(h));
                    assert(reaches(adj, *self, h));
                    assert(doomed(before, *self, i));
                }
                if doomed(before, *self, i) {
                    let h = choose|h: Internode| h@ == i && #[trigger] reaches(adj, *self, h);
                    assert(all.contains(h));
                    assert(done.contains(h));
                }
            }
            assert(graph@ =~= after);
        }
    }

    /// The neighbors of this handle's cell in the given direction; none if
    /// the node was released.
    fn neighbors<T: Neighbors>(&self, graph: &Graph<T>, direction: Direction) -> (found: Vec<
        Internode,
    >)
        ensures
            found@ == links(adjacency(graph@, direction), *self),
    {
        match self.value(graph) {
            Some(value) => enumerate(value, direction),
            None => Vec::new(),
        }
    }

    /// The outgoing neighbors that the payload names; none if the node was
    /// released.
    pub fn outgoing<T: Neighbors>(&self, graph: &Graph<T>) -> (found: Vec<Internode>)
        ensures
            found@ == links(adjacency(graph@, Direction::Outgoing), *self),
    {
        self.neighbors(graph, Direction::Outgoing)
    }

    /// The incoming neighbors that the payload names; none if the node was
    /// released.
    pub fn incoming<T: Neighbors>(&self, graph: &Graph<T>) -> (found: Vec<Internode>)
        ensures
            found@ == links(adjacency(graph@, Direction::Incoming), *self),
    {
        self.neighbors(graph, Direction::Incoming)
    }

    /// Carries a search from this cell to its end and returns the cells in
    /// the order in which the search yields them.
    fn traverse<T: Neighbors>(&self, graph: &Graph<T>, direction: Direction, order: Order) -> (path:
        Vec<Internode>)
        ensures
            path@ == walk(adjacency(graph@, direction), order, seq![*self], Set::empty()),
            path@.len() > 0,
            path@[0] == *self,
            path@.no_duplicates(),
            forall|to: Internode| #[trigger]
                path@.contains(to) <==> reaches(adjacency(graph@, direction), *self, to),
    {
        let ghost adj = adjacency(graph@, direction);
        let ghost all = walk(adj, order, seq![*self], Set::empty());
        let mut search = Search::new(*self, order);
        let mut path: Vec<Internode> = Vec::new();
        proof {
            assert(path@ + all =~= all);
            lemma_walk_visits_reachable(adj, order, *self);
        }
        loop
            invariant
                adj == adjacency(graph@, direction),
                search.order() == order,
                path@ + walk(adj, order, search.pending(), search.visited()) == all,
            ensures
                path@ == all,
            decreases search.pending().len() + unexplored(adj, search.visited(), adj.len()),
        {
            let ghost work = search.pending();
            let ghost seen = search.visited();
            match search.next() {
                None => {
                    proof {
                        lemma_walk_end(adj, order, work, seen);
                        assert(path@ =~= all);
                    }
                    break ;
                },
                Some(at) => {
                    proof {
                        lemma_walk_step(adj, order, work, seen);
                    }
                    let found = at.neighbors(graph, direction);
                    search.expand(found);
                    let ghost sofar = path@;
                    path.push(at);
                    assert(path@ + walk(adj, order, search.pending(), search.visited()) =~= sofar
                        + (seq![at] + walk(adj, order, search.pending(), search.visited())));
                },
            }
        }
        path
    }

    /// A depth-first search along outgoing edges. The cells come in
    /// pre-order, this one first, the neighbors of each cell in the order in
    /// which its payload names them; no cell comes twice.
    pub fn dfs_outgoing<T: Neighbors>(&self, graph: &Graph<T>) -> (path: Vec<Internode>)
        ensures
            path@ == walk(
                adjacency(graph@, Direction::Outgoing),
                Order::DepthFirst,
                seq![*self],
                Set::empty(),
            ),
            path@.len() > 0,
            path@[0] == *self,
            path@.no_duplicates(),
            forall|to: Internode| #[trigger]
                path@.contains(to) <==> reaches(adjacency(graph@, Direction::Outgoing), *self, to),
    {
        self.traverse(graph, Direction::Outgoing, Order::DepthFirst)
    }

    /// A depth-first search along incoming edges. The cells come in
    /// pre-order, this one first, the neighbors of each cell in the order in
    /// which its payload names them; no cell comes twice.
    pub fn dfs_incoming<T: Neighbors>(&self, graph: &Graph<T>) -> (path: Vec<Internode>)
        ensures
            path@ == walk(
                adjacency(graph@, Direction::Incoming),
                Order::DepthFirst,
                seq![*self],
                Set::empty(),
            ),
            path@.len() > 0,
            path@[0] == *self,
            path@.no_duplicates(),
            forall|to: Internode| #[trigger]
                path@.contains(to) <==> reaches(adjacency(graph@, Direction::Incoming), *self, to),
    {
        self.traverse(graph, Direction::Incoming, Order::DepthFirst)
    }

    /// A breadth-first search along outgoing edges. This cell comes first,
    /// the neighbors of each cell in the order in which its payload names
    /// them, behind all cells found earlier; no cell comes twice.
    pub fn bfs_outgoing<T: Neighbors>(&self, graph: &Graph<T>) -> (path: Vec<Internode>)
        ensures
            path@ == walk(
                adjacency(graph@, Direction::Outgoing),
                Order::BreadthFirst,
                seq![*self],
                Set::empty(),
            ),
            path@.len() > 0,
            path@[0] == *self,
            path@.no_duplicates(),
            forall|to: Internode| #[trigger]
                path@.contains(to) <==> reaches(adjacency(graph@, Direction::Outgoing), *self, to),
    {
        self.traverse(graph, Direction::Outgoing, Order::BreadthFirst)
    }

    /// A breadth-first search along incoming edges. This cell comes first,
    /// the neighbors of each cell in the order in which its payload names
    /// them, behind all cells found earlier; no cell comes twice.
    pub fn bfs_incoming<T: Neighbors>(&self, graph: &Graph<T>) -> (path: Vec<Internode>)
        ensures
            path@ == walk(
                adjacency(graph@, Direction::Incoming),
                Order::BreadthFirst,
                seq![*self],
                Set::empty(),
            ),
            path@.len() > 0,
            path@[0] == *self,
            path@.no_duplicates(),
            forall|to: Internode| #[trigger]
                path@.contains(to) <==> reaches(adjacency(graph@, Direction::Incoming), *self, to),
    {
        self.traverse(graph, Direction::Incoming, Order::BreadthFirst)
    }
}

} // verus!
