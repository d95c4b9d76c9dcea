use crate::internode::Internode;
use crate::walk::{enqueue, unvisited_suffix, Order};
use std::collections::HashSet;
use std::collections::VecDeque;
use vstd::prelude::*;
use vstd::std_specs::hash::group_hash_axioms;

verus! {

broadcast use group_hash_axioms;

/// The state of a traversal that is carried out one cell at a time.
///
/// A search holds the cells that wait to be explored and the identities of
/// the cells it has yielded. [`Search::next`] yields the next cell that was
/// not yielded before; the caller looks up the neighbors of that cell, with
/// no obligation to do so at once or at all, and hands them to
/// [`Search::expand`]. Between two steps the search holds on to nothing but
/// its own worklist.
pub struct Search {
    order: Order,
    work: VecDeque<Internode>,
    seen: HashSet<usize>,
}

impl Search {
    /// The order in which this search takes up discovered cells.
    pub closed spec fn order(&self) -> Order {
        self.order
    }

    /// The cells that wait to be explored, the next one first.
    pub closed spec fn pending(&self) -> Seq<Internode> {
        self.work@
    }

    /// The identities of the cells that were yielded.
    pub closed spec fn visited(&self) -> Set<nat> {
        Set::new(|i: nat| i <= usize::MAX && self.seen@.contains(i as usize))
    }

    /// Starts a search at `origin`: nothing is visited, `origin` waits.
    pub fn new(origin: Internode, order: Order) -> (search: Search)
        ensures
            search.order() == order,
            search.pending() == seq![origin],
            search.visited() == Set::<nat>::empty(),
    {
        let mut work = VecDeque::new();
        work.push_back(origin);
        let search = Search { order, work, seen: HashSet::new() };
        assert(search.work@ =~= seq![origin]);
        assert(search.visited() =~= Set::<nat>::empty());
        search
    }

    /// Yields the first waiting cell that was not yielded before and marks
    /// it as visited; the visited cells in front of it leave the worklist.
    /// Returns `None`, with the worklist empty, when every waiting cell was
    /// visited.
    pub fn next(&mut self) -> (at: Option<Internode>)
        ensures
            final(self).order() == old(self).order(),
            match at {
                Some(h) => {
                    let rest = unvisited_suffix(old(self).pending(), old(self).visited());
                    &&& rest.len() > 0
                    &&& h == rest[0]
                    &&& final(self).pending() == rest.subrange(1, rest.len() as int)
                    &&& final(self).visited() == old(self).visited().insert(h@)
                },
                None => {
                    &&& unvisited_suffix(old(self).pending(), old(self).visited()).len() == 0
                    &&& final(self).pending().len() == 0
                    &&& final(self).visited() == old(self).visited()
                },
            },
    {
        loop
            invariant
                self.order == old(self).order,
                self.visited() == old(self).visited(),
                unvisited_suffix(self.work@, self.visited()) == unvisited_suffix(
                    old(self).work@,
                    old(self).visited(),
                ),
            decreases self.work@.len(),
        {
            let ghost seen = self.seen@;
            match self.work.pop_front() {
                None => {
                    return None;
                },
                Some(h) => {
                    let fresh = self.seen.insert(h.index());
                    if fresh {
                        assert(self.visited() =~= old(self).visited().insert(h@));
                        return Some(h);
                    }
                    assert(self.seen@ =~= seen);
                },
            }
        }
    }

    /// Puts the neighbors `found` of the cell that was yielded last on the
    /// worklist: in front of the waiting cells when the search is depth
    /// first, behind them when it is breadth first, in both cases in the
    /// order in which they were found.
    pub fn expand(&mut self, found: Vec<Internode>)
        ensures
            final(self).order() == old(self).order(),
            final(self).visited() == old(self).visited(),
            final(self).pending() == enqueue(old(self).order(), found@, old(self).pending()),
    {
        match self.order {
            Order::DepthFirst => {
                let mut i: usize = found.len();
                while i > 0
                    invariant
                        i <= found.len(),
                        self.order == old(self).order,
                        self.seen == old(self).seen,
                        self.work@ == found@.subrange(i as int, found.len() as int) + old(
                            self,
                        ).work@,
                    decreases i,
                {
                    i = i - 1;
                    self.work.push_front(found[i]);
                }
                assert(found@.subrange(0, found.len() as int) =~= found@);
            },
            Order::BreadthFirst => {
                let mut i: usize = 0;
                while i < found.len()
                    invariant
                        i <= found.len(),
                        self.order == old(self).order,
                        self.seen == old(self).seen,
                        self.work@ == old(self).work@ + found@.subrange(0, i as int),
                    decreases found.len() - i,
                {
                    self.work.push_back(found[i]);
                    i = i + 1;
                }
                assert(found@.subrange(0, found.len() as int) =~= found@);
            },
        }
    }
}

} // verus!
