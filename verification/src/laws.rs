use crate::graph::{
    adjacency, alive, anchor_count, anchored, doomed, edges, released, sustained, unanchored,
    with_anchors, Cell, Direction,
};
use crate::internode::Internode;
use crate::neighbors::Neighbors;
use crate::walk::{
    lemma_reaches_dead_end, lemma_reaches_self, lemma_reaches_step, lemma_reaches_trans, links,
    reaches,
};
use vstd::prelude::*;

verus! {

proof fn lemma_release_of_released<T: Neighbors>(cells: Seq<Cell<T>>, origin: Internode)
    requires
        !alive(cells, origin),
    ensures
        released(cells, origin) == cells,
{
    let adj = adjacency(cells, Direction::Both);
    assert(links(adj, origin).len() == 0);
    assert forall|i: int| 0 <= i < cells.len() implies released(cells, origin)[i] == cells[i] by {
        if doomed(cells, origin, i) {
            let h = choose|h: Internode| h@ == i && #[trigger] reaches(adj, origin, h);
            lemma_reaches_dead_end(adj, origin, h);
        }
    }
    assert(released(cells, origin) =~= cells);
}

/// Releasing is idempotent: releasing a cell whose payload is gone changes
/// nothing, so a second release of the same cell does nothing more than
/// the first.
pub proof fn lemma_release_idempotent<T: Neighbors>(cells: Seq<Cell<T>>, origin: Internode)
    ensures
        !alive(cells, origin) ==> released(cells, origin) == cells,
        !alive(released(cells, origin), origin),
        released(released(cells, origin), origin) == released(cells, origin),
{
    if !alive(cells, origin) {
        lemma_release_of_released(cells, origin);
    }
    lemma_reaches_self(adjacency(cells, Direction::Both), origin);
    if origin@ < cells.len() {
        assert(doomed(cells, origin, origin@ as int));
    }
    lemma_release_of_released(released(cells, origin), origin);
}

/// A release only takes payloads away: it adds and removes no cell, leaves
/// every anchor as it is, revives nothing, and a payload that stays is the
/// one that was there.
pub proof fn lemma_release_only_clears<T: Neighbors>(
    cells: Seq<Cell<T>>,
    origin: Internode,
    at: Internode,
)
    ensures
        released(cells, origin).len() == cells.len(),
        anchor_count(released(cells, origin), at) == anchor_count(cells, at),
        alive(released(cells, origin), at) ==> alive(cells, at) && released(
            cells,
            origin,
        )[at@ as int] == cells[at@ as int],
{
}

/// A release is cascading: with the payload of a live cell goes the payload
/// of every cell that it names as a neighbor, incoming or outgoing, and so
/// on through every cell that can be reached that way.
pub proof fn lemma_release_cascades<T: Neighbors>(
    cells: Seq<Cell<T>>,
    origin: Internode,
    at: Internode,
    neighbor: Internode,
)
    requires
        reaches(adjacency(cells, Direction::Both), origin, at),
    ensures
        !alive(released(cells, origin), at),
        alive(cells, at) && edges(cells[at@ as int], Direction::Both).contains(neighbor)
            ==> reaches(adjacency(cells, Direction::Both), origin, neighbor) && !alive(
            released(cells, origin),
            neighbor,
        ),
{
    let adj = adjacency(cells, Direction::Both);
    if at@ < cells.len() {
        assert(doomed(cells, origin, at@ as int));
    }
    if alive(cells, at) && edges(cells[at@ as int], Direction::Both).contains(neighbor) {
        assert(links(adj, at) == edges(cells[at@ as int], Direction::Both));
        lemma_reaches_self(adj, neighbor);
        lemma_reaches_step(adj, at, neighbor, neighbor);
        lemma_reaches_trans(adj, origin, at, neighbor);
        if neighbor@ < cells.len() {
            assert(doomed(cells, origin, neighbor@ as int));
        }
    }
}

/// Giving an owning handle up only takes payloads away, and takes none
/// away while another owning handle holds the same cell.
pub proof fn lemma_unanchor_only_clears<T: Neighbors>(
    cells: Seq<Cell<T>>,
    held: Internode,
    at: Internode,
)
    ensures
        unanchored(cells, held).len() == cells.len(),
        alive(unanchored(cells, held), at) ==> alive(cells, at),
        at != held ==> anchor_count(unanchored(cells, held), at) == anchor_count(cells, at),
        anchored(cells, held) ==> anchor_count(unanchored(cells, held), held) + 1 == anchor_count(
            cells,
            held,
        ),
        anchor_count(cells, held) > 1 ==> unanchored(cells, held) == with_anchors(
            cells,
            held,
            (anchor_count(cells, held) - 1) as usize,
        ),
{
    Internode::lemma_identity(at, held);
    if anchored(cells, held) {
        let rest = with_anchors(cells, held, (anchor_count(cells, held) - 1) as usize);
        lemma_release_only_clears(rest, held, at);
        lemma_release_only_clears(rest, held, held);
    }
}

/// An anchor keeps alive what leads to it in one direction: when an owning
/// handle of `held` is given up, and an anchored cell can be reached from
/// `held` along outgoing edges alone or along incoming edges alone, then
/// no payload is released.
pub proof fn lemma_anchor_sustains<T: Neighbors>(
    cells: Seq<Cell<T>>,
    held: Internode,
    anchor: Internode,
    direction: Direction,
)
    requires
        anchored(cells, held),
        direction != Direction::Both,
        anchored(with_anchors(cells, held, (anchor_count(cells, held) - 1) as usize), anchor),
        reaches(
            adjacency(
                with_anchors(cells, held, (anchor_count(cells, held) - 1) as usize),
                direction,
            ),
            held,
            anchor,
        ),
    ensures
        unanchored(cells, held) == with_anchors(
            cells,
            held,
            (anchor_count(cells, held) - 1) as usize,
        ),
{
    let rest = with_anchors(cells, held, (anchor_count(cells, held) - 1) as usize);
    assert(sustained(rest, held));
}

} // verus!
