use crate::internode::Internode;
use vstd::prelude::*;

verus! {

/// The order in which a traversal takes up the cells it discovers.
#[derive(Clone, Copy, Debug, PartialEq, Eq, Structural)]
pub enum Order {
    /// Newly discovered neighbors are explored before anything found earlier.
    DepthFirst,
    /// Newly discovered neighbors wait behind everything found earlier.
    BreadthFirst,
}

/// The cells that `at` links to. `adj` lists, for each position, the links
/// of the cell there; a handle beyond its end links to nothing.
pub open spec fn links(adj: Seq<Seq<Internode>>, at: Internode) -> Seq<Internode> {
    if at@ < adj.len() {
        adj[at@ as int]
    } else {
        Seq::empty()
    }
}

/// The worklist after the neighbors `found` of the current cell have joined
/// the cells `rest` that were waiting.
pub open spec fn enqueue(order: Order, found: Seq<Internode>, rest: Seq<Internode>) -> Seq<
    Internode,
> {
    match order {
        Order::DepthFirst => found + rest,
        Order::BreadthFirst => rest + found,
    }
}

/// The number of links that leave the unseen cells among the first `upto`.
pub open spec fn unexplored(adj: Seq<Seq<Internode>>, seen: Set<nat>, upto: nat) -> nat
    decreases upto,
{
    if upto == 0 {
        0
    } else {
        let below = unexplored(adj, seen, (upto - 1) as nat);
        if upto <= adj.len() && !seen.contains((upto - 1) as nat) {
            below + adj[upto - 1].len()
        } else {
            below
        }
    }
}

/// Seeing one more cell takes exactly its links out of the unexplored ones.
pub proof fn lemma_unexplored_insert(adj: Seq<Seq<Internode>>, seen: Set<nat>, at: nat, upto: nat)
    requires
        !seen.contains(at),
    ensures
        unexplored(adj, seen, upto) == unexplored(adj, seen.insert(at), upto) + (if at < upto && at
            < adj.len() {
            adj[at as int].len()
        } else {
            0
        }),
    decreases upto,
{
    if upto > 0 {
        lemma_unexplored_insert(adj, seen, at, (upto - 1) as nat);
    }
}

/// The cells a traversal yields, in order, when `work` is its worklist and
/// `seen` holds the identities of the cells it has yielded already.
///
/// The first waiting cell is dropped if it was seen; otherwise it is
/// yielded, marked as seen, and its links join the worklist.
pub open spec fn walk(adj: Seq<Seq<Internode>>, order: Order, work: Seq<Internode>, seen: Set<nat>)
    -> Seq<Internode>
    decreases work.len() + unexplored(adj, seen, adj.len()),
{
    if work.len() == 0 {
        Seq::empty()
    } else if seen.contains(work[0]@) {
        walk(adj, order, work.subrange(1, work.len() as int), seen)
    } else {
        proof {
            lemma_unexplored_insert(adj, seen, work[0]@, adj.len());
        }
        seq![work[0]] + walk(
            adj,
            order,
            enqueue(order, links(adj, work[0]), work.subrange(1, work.len() as int)),
            seen.insert(work[0]@),
        )
    }
}

/// The worklist without the seen cells at its front.
pub open spec fn unvisited_suffix(work: Seq<Internode>, seen: Set<nat>) -> Seq<Internode>
    decreases work.len(),
{
    if work.len() > 0 && seen.contains(work[0]@) {
        unvisited_suffix(work.subrange(1, work.len() as int), seen)
    } else {
        work
    }
}

/// Seen cells at the front of the worklist do not change what is yielded.
pub proof fn lemma_walk_skips_seen(
    adj: Seq<Seq<Internode>>,
    order: Order,
    work: Seq<Internode>,
    seen: Set<nat>,
)
    ensures
        walk(adj, order, work, seen) == walk(adj, order, unvisited_suffix(work, seen), seen),
    decreases work.len(),
{
    if work.len() > 0 && seen.contains(work[0]@) {
        lemma_walk_skips_seen(adj, order, work.subrange(1, work.len() as int), seen);
    }
}

/// What is left of a worklist without the seen cells at its front is no
/// longer than the worklist, and begins with a cell that was not seen.
pub proof fn lemma_unvisited_suffix(work: Seq<Internode>, seen: Set<nat>)
    ensures
        unvisited_suffix(work, seen).len() <= work.len(),
        unvisited_suffix(work, seen).len() > 0 ==> !seen.contains(
            unvisited_suffix(work, seen)[0]@,
        ),
    decreases work.len(),
{
    if work.len() > 0 && seen.contains(work[0]@) {
        lemma_unvisited_suffix(work.subrange(1, work.len() as int), seen);
    }
}

/// One step of a traversal: the first unseen cell of the worklist is
/// yielded, and the traversal goes on with its links enqueued and the cell
/// marked as seen. The step brings the traversal closer to its end.
pub proof fn lemma_walk_step(
    adj: Seq<Seq<Internode>>,
    order: Order,
    work: Seq<Internode>,
    seen: Set<nat>,
)
    requires
        unvisited_suffix(work, seen).len() > 0,
    ensures
        ({
            let rest = unvisited_suffix(work, seen);
            let next = enqueue(order, links(adj, rest[0]), rest.subrange(1, rest.len() as int));
            &&& walk(adj, order, work, seen) == seq![rest[0]] + walk(
                adj,
                order,
                next,
                seen.insert(rest[0]@),
            )
            &&& next.len() + unexplored(adj, seen.insert(rest[0]@), adj.len()) < work.len()
                + unexplored(adj, seen, adj.len())
        }),
{
    let rest = unvisited_suffix(work, seen);
    lemma_unvisited_suffix(work, seen);
    lemma_walk_skips_seen(adj, order, work, seen);
    lemma_unexplored_insert(adj, seen, rest[0]@, adj.len());
    assert(walk(adj, order, rest, seen) == seq![rest[0]] + walk(
        adj,
        order,
        enqueue(order, links(adj, rest[0]), rest.subrange(1, rest.len() as int)),
        seen.insert(rest[0]@),
    ));
}

/// A traversal whose worklist holds seen cells only yields nothing more.
pub proof fn lemma_walk_end(
    adj: Seq<Seq<Internode>>,
    order: Order,
    work: Seq<Internode>,
    seen: Set<nat>,
)
    requires
        unvisited_suffix(work, seen).len() == 0,
    ensures
        walk(adj, order, work, seen) == Seq::<Internode>::empty(),
{
    lemma_walk_skips_seen(adj, order, work, seen);
    assert(walk(adj, order, unvisited_suffix(work, seen), seen) == Seq::<Internode>::empty());
}

/// `to` can be reached from `from` over exactly `steps` links.
pub open spec fn reaches_within(
    adj: Seq<Seq<Internode>>,
    from: Internode,
    to: Internode,
    steps: nat,
) -> bool
    decreases steps,
{
    if steps == 0 {
        from == to
    } else {
        exists|via: Internode| #[trigger]
            links(adj, from).contains(via) && reaches_within(adj, via, to, (steps - 1) as nat)
    }
}

/// `to` can be reached from `from` by following links; every cell reaches
/// itself.
pub open spec fn reaches(adj: Seq<Seq<Internode>>, from: Internode, to: Internode) -> bool {
    exists|steps: nat| reaches_within(adj, from, to, steps)
}


proof fn lemma_concat_contains(a: Seq<Internode>, b: Seq<Internode>, h: Internode)
    ensures
        (a + b).contains(h) <==> a.contains(h) || b.contains(h),
{
    if (a + b).contains(h) {
        let i = choose|i: int| 0 <= i < (a + b).len() && (a + b)[i] == h;
        if i < a.len() {
            assert(a[i] == h);
        } else {
            assert(b[i - a.len()] == h);
        }
    }
    if a.contains(h) {
        let i = choose|i: int| 0 <= i < a.len() && a[i] == h;
        assert((a + b)[i] == h);
    }
    if b.contains(h) {
        let i = choose|i: int| 0 <= i < b.len() && b[i] == h;
        assert((a + b)[i + a.len()] == h);
    }
}

proof fn lemma_enqueue_contains(
    order: Order,
    found: Seq<Internode>,
    rest: Seq<Internode>,
    h: Internode,
)
    ensures
        enqueue(order, found, rest).contains(h) <==> found.contains(h) || rest.contains(h),
{
    lemma_concat_contains(found, rest, h);
    lemma_concat_contains(rest, found, h);
}

proof fn lemma_rest_contains(work: Seq<Internode>, h: Internode)
    requires
        work.len() > 0,
    ensures
        work.contains(h) <==> work[0] == h || work.subrange(1, work.len() as int).contains(h),
{
    let rest = work.subrange(1, work.len() as int);
    if work.contains(h) {
        let i = choose|i: int| 0 <= i < work.len() && work[i] == h;
        if i > 0 {
            assert(rest[i - 1] == h);
        }
    }
    if rest.contains(h) {
        let i = choose|i: int| 0 <= i < rest.len() && rest[i] == h;
        assert(work[i + 1] == h);
    }
    assert(work[0] == h ==> work.contains(h));
}

/// A link followed by a path is a path.
pub proof fn lemma_reaches_step(
    adj: Seq<Seq<Internode>>,
    from: Internode,
    via: Internode,
    to: Internode,
)
    requires
        links(adj, from).contains(via),
        reaches(adj, via, to),
    ensures
        reaches(adj, from, to),
{
    let steps = choose|steps: nat| reaches_within(adj, via, to, steps);
    assert(reaches_within(adj, from, to, steps + 1));
}

/// Every cell reaches itself.
pub proof fn lemma_reaches_self(adj: Seq<Seq<Internode>>, at: Internode)
    ensures
        reaches(adj, at, at),
{
    assert(reaches_within(adj, at, at, 0));
}

/// A path followed by a path is a path.
pub proof fn lemma_reaches_trans(
    adj: Seq<Seq<Internode>>,
    from: Internode,
    via: Internode,
    to: Internode,
)
    requires
        reaches(adj, from, via),
        reaches(adj, via, to),
    ensures
        reaches(adj, from, to),
{
    let steps = choose|steps: nat| reaches_within(adj, from, via, steps);
    lemma_reaches_trans_within(adj, from, via, to, steps);
}

proof fn lemma_reaches_trans_within(
    adj: Seq<Seq<Internode>>,
    from: Internode,
    via: Internode,
    to: Internode,
    steps: nat,
)
    requires
        reaches_within(adj, from, via, steps),
        reaches(adj, via, to),
    ensures
        reaches(adj, from, to),
    decreases steps,
{
    if steps > 0 {
        let next = choose|next: Internode| #[trigger]
            links(adj, from).contains(next) && reaches_within(
                adj,
                next,
                via,
                (steps - 1) as nat,
            );
        lemma_reaches_trans_within(adj, next, via, to, (steps - 1) as nat);
        lemma_reaches_step(adj, from, next, to);
    }
}

/// From a cell without links only the cell itself can be reached.
pub proof fn lemma_reaches_dead_end(adj: Seq<Seq<Internode>>, from: Internode, to: Internode)
    requires
        links(adj, from).len() == 0,
        reaches(adj, from, to),
    ensures
        to == from,
{
    let steps = choose|steps: nat| reaches_within(adj, from, to, steps);
    if steps > 0 {
        let via = choose|via: Internode| #[trigger]
            links(adj, from).contains(via) && reaches_within(adj, via, to, (steps - 1) as nat);
        assert(false);
    }
}

/// A traversal yields no cell that was seen before.
pub proof fn lemma_walk_fresh(
    adj: Seq<Seq<Internode>>,
    order: Order,
    work: Seq<Internode>,
    seen: Set<nat>,
)
    ensures
        forall|h: Internode| #[trigger]
            walk(adj, order, work, seen).contains(h) ==> !seen.contains(h@),
    decreases work.len() + unexplored(adj, seen, adj.len()),
{
    let out = walk(adj, order, work, seen);
    if work.len() == 0 {
        assert(out == Seq::<Internode>::empty());
    } else {
        let rest = work.subrange(1, work.len() as int);
        if seen.contains(work[0]@) {
            lemma_walk_fresh(adj, order, rest, seen);
            assert(out == walk(adj, order, rest, seen));
        } else {
            lemma_unexplored_insert(adj, seen, work[0]@, adj.len());
            let next = enqueue(order, links(adj, work[0]), rest);
            let tail = walk(adj, order, next, seen.insert(work[0]@));
            lemma_walk_fresh(adj, order, next, seen.insert(work[0]@));
            assert(out == seq![work[0]] + tail);
            assert forall|h: Internode| #[trigger] out.contains(h) implies !seen.contains(h@) by {
                lemma_concat_contains(seq![work[0]], tail, h);
                if !tail.contains(h) {
                    assert(seq![work[0]].contains(h));
                    assert(h == work[0]);
                }
            }
        }
    }
}

/// A traversal yields no cell twice.
pub proof fn lemma_walk_distinct(
    adj: Seq<Seq<Internode>>,
    order: Order,
    work: Seq<Internode>,
    seen: Set<nat>,
)
    ensures
        forall|i: int, j: int|
            0 <= i < j < walk(adj, order, work, seen).len() ==> walk(adj, order, work, seen)[i]@
                != walk(adj, order, work, seen)[j]@,
    decreases work.len() + unexplored(adj, seen, adj.len()),
{
    let out = walk(adj, order, work, seen);
    if work.len() == 0 {
        assert(out == Seq::<Internode>::empty());
    } else {
        let rest = work.subrange(1, work.len() as int);
        if seen.contains(work[0]@) {
            lemma_walk_distinct(adj, order, rest, seen);
            assert(out == walk(adj, order, rest, seen));
        } else {
            lemma_unexplored_insert(adj, seen, work[0]@, adj.len());
            let next = enqueue(order, links(adj, work[0]), rest);
            let tail = walk(adj, order, next, seen.insert(work[0]@));
            lemma_walk_distinct(adj, order, next, seen.insert(work[0]@));
            lemma_walk_fresh(adj, order, next, seen.insert(work[0]@));
            assert(out == seq![work[0]] + tail);
            assert forall|i: int, j: int| 0 <= i < j < out.len() implies out[i]@ != out[j]@ by {
                assert(out[j] == tail[j - 1]);
                assert(tail.contains(tail[j - 1]));
                if i > 0 {
                    assert(out[i] == tail[i - 1]);
                }
            }
        }
    }
}

/// Whatever a traversal yields can be reached from a cell of its worklist.
pub proof fn lemma_walk_sound(
    adj: Seq<Seq<Internode>>,
    order: Order,
    work: Seq<Internode>,
    seen: Set<nat>,
)
    ensures
        forall|h: Internode| #[trigger]
            walk(adj, order, work, seen).contains(h) ==> exists|w: Internode|
                work.contains(w) && #[trigger] reaches(adj, w, h),
    decreases work.len() + unexplored(adj, seen, adj.len()),
{
    let out = walk(adj, order, work, seen);
    if work.len() == 0 {
        assert(out == Seq::<Internode>::empty());
    } else {
        let rest = work.subrange(1, work.len() as int);
        if seen.contains(work[0]@) {
            lemma_walk_sound(adj, order, rest, seen);
            assert(out == walk(adj, order, rest, seen));
            assert forall|h: Internode| #[trigger] out.contains(h) implies exists|w: Internode|
                work.contains(w) && #[trigger] reaches(adj, w, h) by {
                let w = choose|w: Internode| rest.contains(w) && #[trigger] reaches(adj, w, h);
                lemma_rest_contains(work, w);
            }
        } else {
            lemma_unexplored_insert(adj, seen, work[0]@, adj.len());
            let next = enqueue(order, links(adj, work[0]), rest);
            let tail = walk(adj, order, next, seen.insert(work[0]@));
            lemma_walk_sound(adj, order, next, seen.insert(work[0]@));
            assert(out == seq![work[0]] + tail);
            assert forall|h: Internode| #[trigger] out.contains(h) implies exists|w: Internode|
                work.contains(w) && #[trigger] reaches(adj, w, h) by {
                lemma_concat_contains(seq![work[0]], tail, h);
                lemma_rest_contains(work, work[0]);
                if tail.contains(h) {
                    let w = choose|w: Internode| next.contains(w) && #[trigger] reaches(adj, w, h);
                    lemma_enqueue_contains(order, links(adj, work[0]), rest, w);
                    if links(adj, work[0]).contains(w) {
                        lemma_reaches_step(adj, work[0], w, h);
                    } else {
                        lemma_rest_contains(work, w);
                    }
                } else {
                    assert(seq![work[0]].contains(h));
                    assert(h == work[0]);
                    lemma_reaches_self(adj, h);
                }
            }
        }
    }
}

/// If every link of a seen cell leads to a seen or a waiting cell, then a
/// traversal yields every waiting cell that was not seen, and every link of
/// a seen or yielded cell leads to a seen or yielded cell.
pub proof fn lemma_walk_closed(
    adj: Seq<Seq<Internode>>,
    order: Order,
    work: Seq<Internode>,
    seen: Set<nat>,
)
    requires
        forall|h: Internode, v: Internode|
            seen.contains(h@) && #[trigger] links(adj, h).contains(v) ==> seen.contains(v@)
                || work.contains(v),
    ensures
        forall|w: Internode| #[trigger]
            work.contains(w) ==> seen.contains(w@) || walk(adj, order, work, seen).contains(w),
        forall|h: Internode, v: Internode|
            (seen.contains(h@) || walk(adj, order, work, seen).contains(h)) && #[trigger] links(
                adj,
                h,
            ).contains(v) ==> seen.contains(v@) || walk(adj, order, work, seen).contains(v),
    decreases work.len() + unexplored(adj, seen, adj.len()),
{
    let out = walk(adj, order, work, seen);
    if work.len() == 0 {
        assert(out == Seq::<Internode>::empty());
    } else {
        let first = work[0];
        let rest = work.subrange(1, work.len() as int);
        if seen.contains(first@) {
            assert forall|h: Internode, v: Internode|
                seen.contains(h@) && #[trigger] links(adj, h).contains(v) implies seen.contains(v@)
                || rest.contains(v) by {
                lemma_rest_contains(work, v);
            }
            lemma_walk_closed(adj, order, rest, seen);
            assert(out == walk(adj, order, rest, seen));
            assert forall|w: Internode| #[trigger] work.contains(w) implies seen.contains(w@)
                || out.contains(w) by {
                lemma_rest_contains(work, w);
            }
        } else {
            lemma_unexplored_insert(adj, seen, first@, adj.len());
            let found = links(adj, first);
            let next = enqueue(order, found, rest);
            let seen2 = seen.insert(first@);
            let tail = walk(adj, order, next, seen2);
            assert forall|h: Internode, v: Internode|
                seen2.contains(h@) && #[trigger] links(adj, h).contains(v) implies seen2.contains(
                v@,
            ) || next.contains(v) by {
                lemma_enqueue_contains(order, found, rest, v);
                lemma_rest_contains(work, v);
                Internode::lemma_identity(h, first);
            }
            lemma_walk_closed(adj, order, next, seen2);
            assert(out == seq![first] + tail);
            assert(seq![first].contains(first)) by {
                assert(seq![first][0] == first);
            }
            assert forall|w: Internode| #[trigger] work.contains(w) implies seen.contains(w@)
                || out.contains(w) by {
                lemma_rest_contains(work, w);
                lemma_concat_contains(seq![first], tail, w);
                lemma_enqueue_contains(order, found, rest, w);
                Internode::lemma_identity(w, first);
            }
            assert forall|h: Internode, v: Internode|
                (seen.contains(h@) || out.contains(h)) && #[trigger] links(adj, h).contains(
                    v,
                ) implies seen.contains(v@) || out.contains(v) by {
                lemma_concat_contains(seq![first], tail, h);
                lemma_concat_contains(seq![first], tail, v);
                Internode::lemma_identity(v, first);
                if seq![first].contains(h) {
                    assert(h == first);
                }
            }
        }
    }
}

proof fn lemma_closed_holds_reachable(
    adj: Seq<Seq<Internode>>,
    path: Seq<Internode>,
    from: Internode,
    to: Internode,
    steps: nat,
)
    requires
        forall|h: Internode, v: Internode|
            path.contains(h) && #[trigger] links(adj, h).contains(v) ==> path.contains(v),
        path.contains(from),
        reaches_within(adj, from, to, steps),
    ensures
        path.contains(to),
    decreases steps,
{
    if steps > 0 {
        let via = choose|via: Internode| #[trigger]
            links(adj, from).contains(via) && reaches_within(adj, via, to, (steps - 1) as nat);
        lemma_closed_holds_reachable(adj, path, via, to, (steps - 1) as nat);
    }
}

/// A traversal from `origin` yields `origin` first, yields no cell twice,
/// and yields exactly the cells that can be reached from `origin`.
pub proof fn lemma_walk_visits_reachable(adj: Seq<Seq<Internode>>, order: Order, origin: Internode)
    ensures
        walk(adj, order, seq![origin], Set::empty()).len() > 0,
        walk(adj, order, seq![origin], Set::empty())[0] == origin,
        walk(adj, order, seq![origin], Set::empty()).no_duplicates(),
        forall|to: Internode| #[trigger]
            walk(adj, order, seq![origin], Set::empty()).contains(to) <==> reaches(adj, origin, to),
{
    let work = seq![origin];
    let seen = Set::<nat>::empty();
    let path = walk(adj, order, work, seen);
    lemma_walk_distinct(adj, order, work, seen);
    lemma_walk_sound(adj, order, work, seen);
    lemma_walk_closed(adj, order, work, seen);
    assert(work.contains(origin)) by {
        assert(work[0] == origin);
    }
    assert forall|to: Internode| #[trigger] path.contains(to) <==> reaches(adj, origin, to) by {
        if path.contains(to) {
            let w = choose|w: Internode| work.contains(w) && #[trigger] reaches(adj, w, to);
            assert(w == origin);
        }
        if reaches(adj, origin, to) {
            let steps = choose|steps: nat| reaches_within(adj, origin, to, steps);
            lemma_closed_holds_reachable(adj, path, origin, to, steps);
        }
    }
}

} // verus!
