use internode::{Graph, Internode, Linked, Node};
use std::collections::hash_map::DefaultHasher;
use std::collections::HashSet;
use std::hash::{Hash, Hasher};

fn hash_of<H: Hash>(value: &H) -> u64 {
    let mut hasher = DefaultHasher::new();
    value.hash(&mut hasher);
    hasher.finish()
}

#[test]
fn handles_of_one_cell_are_equal() {
    let mut graph = Graph::new();
    let a = Node::new(&mut graph, Linked::new("same"));
    let first = a.downgrade();
    let second = a.downgrade();
    let copy = first.clone();
    assert_eq!(first, second);
    assert_eq!(first, copy);
    assert_eq!(*a, first);
    assert_eq!(hash_of(&first), hash_of(&second));
    assert_eq!(hash_of(&first), hash_of(&copy));
    assert_eq!(first.index(), second.index());
}

#[test]
fn handles_of_distinct_cells_differ_whatever_they_hold() {
    let mut graph = Graph::new();
    let a = Node::new(&mut graph, Linked::new("same"));
    let b = Node::new(&mut graph, Linked::new("same"));
    assert_ne!(a.downgrade(), b.downgrade());
    assert!(a != b);
    assert_eq!(a.downgrade().index(), 0);
    assert_eq!(b.downgrade().index(), 1);
    let mut set = HashSet::new();
    assert!(set.insert(a.downgrade()));
    assert!(set.insert(b.downgrade()));
    assert!(!set.insert(a.downgrade()));
    assert_eq!(set.len(), 2);
}

#[test]
fn owning_handles_compare_by_their_cell() {
    let mut graph = Graph::new();
    let a = Node::new(&mut graph, Linked::new(1u8));
    let again = a.downgrade().upgrade(&mut graph).unwrap();
    assert!(a == again);
    assert_eq!(hash_of(&a), hash_of(&again));
    assert_eq!(hash_of(&a), hash_of(&a.downgrade()));
}

#[test]
fn handles_are_shown_around_their_payload() {
    assert_eq!(Internode::debug_text("Entity(a, ..)"), "Internode(Entity(a, ..))");
    assert_eq!(Internode::debug_text(""), "Internode()");
    assert_eq!(Node::debug_text("Entity(b, ..)"), "Node(Entity(b, ..))");
    assert_eq!(Node::debug_text(""), "Node()");
}

#[test]
fn guard_gives_the_payload_to_read_and_write() {
    let mut graph = Graph::new();
    let a = Node::new(&mut graph, Linked::new(String::from("first")));
    let b = Node::new(&mut graph, Linked::new(String::from("other")));
    let weak = a.downgrade();
    {
        let guard = weak.lock(&mut graph).unwrap();
        assert_eq!(guard.payload.value, "first");
        guard.payload.value.push_str(" and more");
        guard.payload.succs.push(b.downgrade());
    }
    assert_eq!(weak.value(&graph).unwrap().value, "first and more");
    assert_eq!(b.value(&graph).unwrap().value, "other");
    {
        let guard = a.lock(&mut graph);
        *guard.payload = Linked::new(String::from("second"));
    }
    assert_eq!(weak.value(&graph).unwrap().value, "second");
    {
        let mut guard = a.lock(&mut graph);
        guard.value.push_str(" payload");
        assert_eq!(guard.value, "second payload");
        assert!(guard.succs.is_empty());
    }
    assert_eq!(weak.value(&graph).unwrap().value, "second payload");
    assert!(weak.outgoing(&graph).is_empty());
    assert_eq!(weak.anchor(&graph), 1);
}

#[test]
fn guard_enumerates_the_neighbors() {
    let mut graph = Graph::new();
    let a = Node::new(&mut graph, Linked::new(0u8));
    let b = Node::new(&mut graph, Linked::new(1u8));
    let c = Node::new(&mut graph, Linked::new(2u8));
    {
        let guard = a.lock(&mut graph);
        guard.payload.succs.push(*b);
        guard.payload.succs.push(*c);
        guard.payload.preds.push(*c);
    }
    assert_eq!(a.lock(&mut graph).outgoing(), vec![*b, *c]);
    assert_eq!(a.lock(&mut graph).incoming(), vec![*c]);
    assert_eq!(b.lock(&mut graph).outgoing(), Vec::new());
    assert_eq!(a.outgoing(&graph), vec![*b, *c]);
    assert_eq!(a.incoming(&graph), vec![*c]);
}

#[test]
fn handle_of_no_cell_is_like_a_released_one() {
    let mut large = Graph::new();
    let _first = Node::new(&mut large, Linked::new(0u8));
    let stray = Node::new(&mut large, Linked::new(1u8)).downgrade();
    let mut graph: Graph<Linked<u8>> = Graph::new();
    let a = Node::new(&mut graph, Linked::new(7u8));
    assert_eq!(graph.len(), 1);
    assert!(!stray.is_alive(&graph));
    assert!(!stray.is_anchored(&graph));
    assert!(!stray.should_live(&graph));
    assert_eq!(stray.anchor(&graph), 0);
    assert!(stray.value(&graph).is_none());
    assert!(stray.lock(&mut graph).is_none());
    assert!(stray.upgrade(&mut graph).is_none());
    assert_eq!(stray.dfs_outgoing(&graph), vec![stray]);
    assert_eq!(stray.outgoing(&graph), Vec::new());
    stray.release(&mut graph);
    assert!(a.is_alive(&graph));
    assert_eq!(a.anchor(&graph), 1);
    assert_eq!(graph.len(), 1);
}

#[test]
fn new_payload_has_no_edges() {
    let payload = Linked::new('x');
    assert_eq!(payload.value, 'x');
    assert!(payload.succs.is_empty());
    assert!(payload.preds.is_empty());
    let graph: Graph<Linked<char>> = Graph::new();
    assert_eq!(graph.len(), 0);
}
