use internode::{Graph, Internode, Linked, Node};

type Entity = Linked<&'static str>;

fn link(graph: &mut Graph<Entity>, from: &Internode, to: &Internode) {
    from.lock(graph).unwrap().succs.push(*to);
    to.lock(graph).unwrap().preds.push(*from);
}

fn promotes(graph: &mut Graph<Entity>, weak: &Internode) -> bool {
    match weak.upgrade(graph) {
        Some(node) => {
            node.drop(graph);
            true
        }
        None => false,
    }
}

#[test]
fn two_node_cycle_goes_together() {
    let mut graph = Graph::new();
    let a = Node::new(&mut graph, Entity::new("a"));
    let b = Node::new(&mut graph, Entity::new("b"));
    link(&mut graph, &*a, &*b);
    link(&mut graph, &*b, &*a);
    let a_weak = a.downgrade();
    let b_weak = b.downgrade();
    a.drop(&mut graph);
    assert!(promotes(&mut graph, &a_weak));
    assert!(promotes(&mut graph, &b_weak));
    b.drop(&mut graph);
    assert!(a_weak.upgrade(&mut graph).is_none());
    assert!(b_weak.upgrade(&mut graph).is_none());
    assert!(a_weak.upgrade(&mut graph).is_none());
    assert!(!a_weak.is_alive(&graph));
    assert!(!b_weak.is_alive(&graph));
}

#[test]
fn lone_node_goes_with_its_handle() {
    let mut graph = Graph::new();
    let a = Node::new(&mut graph, Entity::new("a"));
    let a_weak = a.downgrade();
    assert!(a_weak.is_alive(&graph));
    assert!(a_weak.is_anchored(&graph));
    assert!(a_weak.should_live(&graph));
    a.drop(&mut graph);
    assert!(!a_weak.is_alive(&graph));
    assert!(!a_weak.is_anchored(&graph));
    assert!(!a_weak.should_live(&graph));
    assert!(a_weak.lock(&mut graph).is_none());
    assert_eq!(graph.len(), 1);
}

#[test]
fn chain_lives_while_its_end_is_held() {
    let mut graph = Graph::new();
    let a = Node::new(&mut graph, Entity::new("a"));
    let b = Node::new(&mut graph, Entity::new("b"));
    let c = Node::new(&mut graph, Entity::new("c"));
    link(&mut graph, &*a, &*b);
    link(&mut graph, &*b, &*c);
    let (a_weak, b_weak, c_weak) = (a.downgrade(), b.downgrade(), c.downgrade());
    a.drop(&mut graph);
    b.drop(&mut graph);
    // a and b lead to c along outgoing edges, and c is anchored.
    assert!(a_weak.should_live(&graph));
    assert!(b_weak.should_live(&graph));
    assert!(promotes(&mut graph, &a_weak));
    assert!(promotes(&mut graph, &b_weak));
    assert!(promotes(&mut graph, &c_weak));
    c.drop(&mut graph);
    assert!(!promotes(&mut graph, &a_weak));
    assert!(!promotes(&mut graph, &b_weak));
    assert!(!promotes(&mut graph, &c_weak));
}

#[test]
fn chain_lives_while_its_start_is_held() {
    let mut graph = Graph::new();
    let a = Node::new(&mut graph, Entity::new("a"));
    let b = Node::new(&mut graph, Entity::new("b"));
    let c = Node::new(&mut graph, Entity::new("c"));
    link(&mut graph, &*a, &*b);
    link(&mut graph, &*b, &*c);
    let (a_weak, b_weak, c_weak) = (a.downgrade(), b.downgrade(), c.downgrade());
    c.drop(&mut graph);
    b.drop(&mut graph);
    // b and c lead to a along incoming edges, and a is anchored.
    assert!(promotes(&mut graph, &b_weak));
    assert!(promotes(&mut graph, &c_weak));
    a.drop(&mut graph);
    assert!(!promotes(&mut graph, &a_weak));
    assert!(!promotes(&mut graph, &b_weak));
    assert!(!promotes(&mut graph, &c_weak));
}

#[test]
fn three_node_cycle_lives_through_one_anchor() {
    let mut graph = Graph::new();
    let a = Node::new(&mut graph, Entity::new("a"));
    let b = Node::new(&mut graph, Entity::new("b"));
    let c = Node::new(&mut graph, Entity::new("c"));
    link(&mut graph, &*a, &*b);
    link(&mut graph, &*b, &*c);
    link(&mut graph, &*c, &*a);
    let (a_weak, b_weak, c_weak) = (a.downgrade(), b.downgrade(), c.downgrade());
    a.drop(&mut graph);
    b.drop(&mut graph);
    let a_again = a_weak.upgrade(&mut graph);
    let b_again = b_weak.upgrade(&mut graph);
    assert!(a_again.is_some());
    assert!(b_again.is_some());
    // The promoted handles anchor the cycle as well as the first ones did.
    c.drop(&mut graph);
    assert!(c_weak.is_alive(&graph));
    a_again.unwrap().drop(&mut graph);
    assert!(c_weak.is_alive(&graph));
    b_again.unwrap().drop(&mut graph);
    assert!(a_weak.upgrade(&mut graph).is_none());
    assert!(b_weak.upgrade(&mut graph).is_none());
    assert!(c_weak.upgrade(&mut graph).is_none());
}

#[test]
fn anchor_is_shared_by_the_owning_handles_of_a_cell() {
    let mut graph = Graph::new();
    let a = Node::new(&mut graph, Entity::new("a"));
    let a_weak = a.downgrade();
    assert_eq!(a_weak.anchor(&graph), 1);
    let second = a.clone(&mut graph);
    assert_eq!(a_weak.anchor(&graph), 2);
    let third = a_weak.upgrade(&mut graph).unwrap();
    assert_eq!(a_weak.anchor(&graph), 3);
    assert!(second == a);
    assert!(third == a);
    a.drop(&mut graph);
    assert_eq!(a_weak.anchor(&graph), 2);
    assert!(a_weak.is_alive(&graph));
    third.drop(&mut graph);
    assert_eq!(a_weak.anchor(&graph), 1);
    assert!(a_weak.is_anchored(&graph));
    assert!(a_weak.is_alive(&graph));
    second.drop(&mut graph);
    assert_eq!(a_weak.anchor(&graph), 0);
    assert!(!a_weak.is_anchored(&graph));
    assert!(!a_weak.is_alive(&graph));
}

#[test]
fn mixed_direction_path_does_not_sustain() {
    // a -> b <- c: from c, the anchored a is found neither along outgoing
    // edges alone nor along incoming edges alone.
    let mut graph = Graph::new();
    let a = Node::new(&mut graph, Entity::new("a"));
    let b = Node::new(&mut graph, Entity::new("b"));
    let c = Node::new(&mut graph, Entity::new("c"));
    link(&mut graph, &*a, &*b);
    link(&mut graph, &*c, &*b);
    let (a_weak, b_weak, c_weak) = (a.downgrade(), b.downgrade(), c.downgrade());
    b.drop(&mut graph);
    assert!(b_weak.is_alive(&graph));
    assert!(!c_weak.dfs_outgoing(&graph).contains(&a_weak));
    assert!(!c_weak.dfs_incoming(&graph).contains(&a_weak));
    c.drop(&mut graph);
    // The release of c cascades through b to a, anchored though it is.
    assert!(!c_weak.is_alive(&graph));
    assert!(!b_weak.is_alive(&graph));
    assert!(!a_weak.is_alive(&graph));
    assert!(a_weak.is_anchored(&graph));
    assert!(a_weak.upgrade(&mut graph).is_none());
    a.drop(&mut graph);
    assert!(!a_weak.is_anchored(&graph));
    assert!(a_weak.upgrade(&mut graph).is_none());
}

#[test]
fn released_node_stays_released() {
    let mut graph = Graph::new();
    let a = Node::new(&mut graph, Entity::new("a"));
    let a_weak = a.downgrade();
    a.drop(&mut graph);
    let b = Node::new(&mut graph, Entity::new("b"));
    link(&mut graph, &*b, &*b);
    assert!(b.downgrade() != a_weak);
    assert!(!a_weak.is_alive(&graph));
    assert!(a_weak.upgrade(&mut graph).is_none());
    assert!(a_weak.lock(&mut graph).is_none());
    b.drop(&mut graph);
    assert!(!a_weak.is_alive(&graph));
    assert_eq!(graph.len(), 2);
}
