use internode::{Graph, Internode, Linked, Node, Order, Search};

fn cells(count: u8) -> (Graph<Linked<u8>>, Vec<Internode>) {
    let mut graph = Graph::new();
    let handles = (0..count).map(|i| Node::new(&mut graph, Linked::new(i)).downgrade()).collect();
    (graph, handles)
}

fn link(graph: &mut Graph<Linked<u8>>, from: &Internode, to: &Internode) {
    from.lock(graph).unwrap().succs.push(*to);
    to.lock(graph).unwrap().preds.push(*from);
}

#[test]
fn depth_first_search_takes_new_neighbors_first() {
    let (_, c) = cells(4);
    let mut search = Search::new(c[0], Order::DepthFirst);
    assert_eq!(search.next(), Some(c[0]));
    search.expand(vec![c[1], c[2]]);
    assert_eq!(search.next(), Some(c[1]));
    search.expand(vec![c[3]]);
    assert_eq!(search.next(), Some(c[3]));
    search.expand(vec![c[0]]);
    assert_eq!(search.next(), Some(c[2]));
    search.expand(vec![c[3]]);
    assert_eq!(search.next(), None);
    assert_eq!(search.next(), None);
}

#[test]
fn breadth_first_search_takes_new_neighbors_last() {
    let (_, c) = cells(4);
    let mut search = Search::new(c[0], Order::BreadthFirst);
    assert_eq!(search.next(), Some(c[0]));
    search.expand(vec![c[1], c[2]]);
    assert_eq!(search.next(), Some(c[1]));
    search.expand(vec![c[3]]);
    assert_eq!(search.next(), Some(c[2]));
    search.expand(vec![c[3]]);
    assert_eq!(search.next(), Some(c[3]));
    search.expand(vec![c[0]]);
    assert_eq!(search.next(), None);
}

#[test]
fn search_yields_a_cell_once() {
    let (_, c) = cells(3);
    let mut search = Search::new(c[0], Order::DepthFirst);
    assert_eq!(search.next(), Some(c[0]));
    search.expand(vec![c[1], c[1], c[0], c[2], c[1]]);
    assert_eq!(search.next(), Some(c[1]));
    assert_eq!(search.next(), Some(c[2]));
    assert_eq!(search.next(), None);
}

#[test]
fn search_without_neighbors_ends_after_its_origin() {
    let (_, c) = cells(1);
    for order in [Order::DepthFirst, Order::BreadthFirst] {
        let mut search = Search::new(c[0], order);
        assert_eq!(search.next(), Some(c[0]));
        search.expand(Vec::new());
        assert_eq!(search.next(), None);
    }
}

#[test]
fn traversal_of_a_lone_cell_is_the_cell() {
    let (graph, c) = cells(2);
    assert_eq!(c[0].dfs_outgoing(&graph), vec![c[0]]);
    assert_eq!(c[0].dfs_incoming(&graph), vec![c[0]]);
    assert_eq!(c[1].bfs_outgoing(&graph), vec![c[1]]);
    assert_eq!(c[1].bfs_incoming(&graph), vec![c[1]]);
}

#[test]
fn traversal_follows_the_order_of_the_neighbor_lists() {
    // 0 -> 1, 0 -> 2, 0 -> 3, 1 -> 4, 3 -> 5, 2 -> 4
    let (mut graph, c) = cells(6);
    link(&mut graph, &c[0], &c[1]);
    link(&mut graph, &c[0], &c[2]);
    link(&mut graph, &c[0], &c[3]);
    link(&mut graph, &c[1], &c[4]);
    link(&mut graph, &c[3], &c[5]);
    link(&mut graph, &c[2], &c[4]);
    assert_eq!(c[0].dfs_outgoing(&graph), vec![c[0], c[1], c[4], c[2], c[3], c[5]]);
    assert_eq!(c[0].bfs_outgoing(&graph), vec![c[0], c[1], c[2], c[3], c[4], c[5]]);
    assert_eq!(c[4].dfs_incoming(&graph), vec![c[4], c[1], c[0], c[2]]);
    assert_eq!(c[4].bfs_incoming(&graph), vec![c[4], c[1], c[2], c[0]]);
    assert_eq!(c[5].dfs_outgoing(&graph), vec![c[5]]);
    assert_eq!(c[0].outgoing(&graph), vec![c[1], c[2], c[3]]);
    assert_eq!(c[4].incoming(&graph), vec![c[1], c[2]]);
    assert_eq!(c[4].outgoing(&graph), Vec::new());
}

#[test]
fn traversal_yields_released_cells_but_not_their_neighbors() {
    // 0 names 1 and 2; 1 names 2 as incoming neighbor, and is released.
    let (mut graph, c) = cells(3);
    c[0].lock(&mut graph).unwrap().succs.push(c[1]);
    c[0].lock(&mut graph).unwrap().succs.push(c[2]);
    c[1].lock(&mut graph).unwrap().preds.push(c[2]);
    assert_eq!(c[1].dfs_incoming(&graph), vec![c[1], c[2]]);
    c[1].release(&mut graph);
    assert!(c[0].is_alive(&graph));
    assert!(!c[1].is_alive(&graph));
    assert!(!c[2].is_alive(&graph));
    assert_eq!(c[0].dfs_outgoing(&graph), vec![c[0], c[1], c[2]]);
    assert_eq!(c[1].dfs_incoming(&graph), vec![c[1]]);
    assert_eq!(c[1].incoming(&graph), Vec::new());
}

#[test]
fn traversal_with_a_self_loop_and_repeated_edges() {
    let (mut graph, c) = cells(2);
    link(&mut graph, &c[0], &c[0]);
    link(&mut graph, &c[0], &c[1]);
    link(&mut graph, &c[0], &c[1]);
    link(&mut graph, &c[1], &c[0]);
    assert_eq!(c[0].dfs_outgoing(&graph), vec![c[0], c[1]]);
    assert_eq!(c[0].bfs_incoming(&graph), vec![c[0], c[1]]);
    assert_eq!(c[0].outgoing(&graph), vec![c[0], c[1], c[1]]);
}
