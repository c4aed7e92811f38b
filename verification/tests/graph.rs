use custos::{Deps, Graph, Node};

#[test]
fn graph_numbers_nodes_in_order() {
    let mut graph = Graph::new();
    assert!(graph.is_empty());
    let a = graph.add_leaf(12);
    let b = graph.add_leaf(4);
    let c = graph.add_node(12, a.idx, b.idx);
    let d = graph.add(3, Deps::Unary(c.idx));

    assert_eq!(a, Node { idx: 0, deps: Deps::Leaf, len: 12 });
    assert_eq!(b, Node { idx: 1, deps: Deps::Leaf, len: 4 });
    assert_eq!(c, Node { idx: 2, deps: Deps::Binary(0, 1), len: 12 });
    assert_eq!(d, Node { idx: 3, deps: Deps::Unary(2), len: 3 });
    assert_eq!(graph.len(), 4);
    assert_eq!(graph.node(2), Some(c));
    assert_eq!(graph.node(4), None);
}

#[test]
fn graph_knows_its_leaves() {
    let mut graph = Graph::default();
    let a = graph.add_leaf(1);
    let b = graph.add(1, Deps::Unary(0));
    assert!(a.is_leaf());
    assert!(!b.is_leaf());
    assert!(graph.is_leaf(0));
    assert!(!graph.is_leaf(1));
    assert!(!graph.is_leaf(2));
}

#[test]
fn deps_of_operands() {
    assert_eq!(Deps::of(Some(1), Some(2)), Deps::Binary(1, 2));
    assert_eq!(Deps::of(Some(1), None), Deps::Unary(1));
    assert_eq!(Deps::of(None, Some(2)), Deps::Unary(2));
    assert_eq!(Deps::of(None, None), Deps::Leaf);
}

#[test]
fn deps_below_a_bound() {
    assert!(Deps::Leaf.is_below(0));
    assert!(Deps::Unary(2).is_below(3));
    assert!(!Deps::Unary(3).is_below(3));
    assert!(Deps::Binary(0, 2).is_below(3));
    assert!(!Deps::Binary(0, 3).is_below(3));
    assert!(!Deps::Binary(3, 0).is_below(3));
}

#[test]
fn graph_knows_which_nodes_were_read() {
    let mut graph = Graph::new();
    graph.add_leaf(2);
    graph.add_leaf(2);
    graph.add_leaf(2);
    graph.add_node(2, 0, 1);
    graph.add(2, Deps::Unary(3));
    assert!(graph.is_used(0));
    assert!(graph.is_used(1));
    assert!(!graph.is_used(2));
    assert!(graph.is_used(3));
    assert!(!graph.is_used(4));
    assert!(!graph.is_used(9));
    assert!(Deps::Binary(1, 2).is_named(2));
    assert!(!Deps::Unary(1).is_named(2));
    assert!(!Deps::Leaf.is_named(0));
}
