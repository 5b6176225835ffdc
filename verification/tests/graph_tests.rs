use algorithms::graph::Graph;
use algorithms::graph_alg::{BreadthFirstPaths, DepthFirstPaths, Paths};

#[test]
fn test_number_of_vertices() {
    let g: Vec<Vec<usize>> = Graph::new(4);

    assert_eq!(4, g.number_of_vertices());
}

#[test]
fn test_number_of_edges() {
    let mut g: Vec<Vec<usize>> = Graph::new(4);
    assert_eq!(0, g.number_of_edges());

    g.add_edge(0, 1);
    g.add_edge(0, 2);
    assert_eq!(2, g.number_of_edges());
}

#[test]
fn test_adj() {
    let mut g: Vec<Vec<usize>> = Graph::new(4);

    g.add_edge(0, 1);
    g.add_edge(0, 2);

    let adj: Vec<usize> = Graph::adj(&g, 0).iter().map(|x| *x).collect();

    assert_eq!(vec!(1, 2), adj);
}

fn examplary_graph() -> Vec<Vec<usize>> {
    let mut g: Vec<Vec<usize>> = Graph::new(13);
    g.add_edge(0, 6);
    g.add_edge(0, 2);
    g.add_edge(0, 1);
    g.add_edge(0, 5);

    g.add_edge(3, 5);
    g.add_edge(3, 4);

    g.add_edge(4, 5);
    g.add_edge(4, 6);

    g.add_edge(7, 8);

    g.add_edge(12, 11);
    g.add_edge(12, 9);
    g.add_edge(9, 11);
    g.add_edge(9, 10);

    g
}

#[test]
fn test_depth_is_visted() {
    let graph = examplary_graph();
    assert!(DepthFirstPaths::new(&graph, 0).is_visited(3));
    assert!(DepthFirstPaths::new(&graph, 6).is_visited(2));
    assert!(DepthFirstPaths::new(&graph, 1).is_visited(3));
    assert!(DepthFirstPaths::new(&graph, 5).is_visited(1));

    assert!(!DepthFirstPaths::new(&graph, 0).is_visited(7));
    assert!(!DepthFirstPaths::new(&graph, 8).is_visited(10));
    assert!(!DepthFirstPaths::new(&graph, 2).is_visited(9));
    assert!(!DepthFirstPaths::new(&graph, 6).is_visited(11));

    assert!(DepthFirstPaths::new(&graph, 10).is_visited(11));
    assert!(DepthFirstPaths::new(&graph, 10).is_visited(10));
}

#[test]
fn test_depth_path_to() {
    let graph = examplary_graph();
    assert_eq!(Some(vec!(0)), DepthFirstPaths::new(&graph, 0).path_to(0));
    assert_eq!(Some(vec!(0, 6, 4, 3)), DepthFirstPaths::new(&graph, 0).path_to(3));
    assert_eq!(Some(vec!(6, 0, 2)), DepthFirstPaths::new(&graph, 6).path_to(2));
    assert_eq!(Some(vec!(1, 0, 6, 4, 3)), DepthFirstPaths::new(&graph, 1).path_to(3));
    assert_eq!(Some(vec!(5, 0, 1)), DepthFirstPaths::new(&graph, 5).path_to(1));

    assert_eq!(None, DepthFirstPaths::new(&graph, 0).path_to(7));
    assert_eq!(None, DepthFirstPaths::new(&graph, 8).path_to(10));
    assert_eq!(None, DepthFirstPaths::new(&graph, 2).path_to(9));
    assert_eq!(None, DepthFirstPaths::new(&graph, 6).path_to(11));

    assert_eq!(Some(vec!(10, 9, 12, 11)), DepthFirstPaths::new(&graph, 10).path_to(11));
    assert_eq!(Some(vec!(10)), DepthFirstPaths::new(&graph, 10).path_to(10));
}

#[test]
fn test_breadth_is_visted() {
    let graph = examplary_graph();
    assert!(BreadthFirstPaths::new(&graph, 0).is_visited(3));
    assert!(BreadthFirstPaths::new(&graph, 6).is_visited(2));
    assert!(BreadthFirstPaths::new(&graph, 1).is_visited(3));
    assert!(BreadthFirstPaths::new(&graph, 5).is_visited(1));

    assert!(!BreadthFirstPaths::new(&graph, 0).is_visited(7));
    assert!(!BreadthFirstPaths::new(&graph, 8).is_visited(10));
    assert!(!BreadthFirstPaths::new(&graph, 2).is_visited(9));
    assert!(!BreadthFirstPaths::new(&graph, 6).is_visited(11));

    assert!(BreadthFirstPaths::new(&graph, 10).is_visited(11));
    assert!(BreadthFirstPaths::new(&graph, 10).is_visited(10));
}

#[test]
fn test_breadth_path_to() {
    let graph = examplary_graph();
    assert_eq!(Some(vec!(0)), BreadthFirstPaths::new(&graph, 0).path_to(0));
    assert_eq!(Some(vec!(0, 5, 3)), BreadthFirstPaths::new(&graph, 0).path_to(3));
    assert_eq!(Some(vec!(6, 0, 2)), BreadthFirstPaths::new(&graph, 6).path_to(2));
    assert_eq!(Some(vec!(1, 0, 5, 3)), BreadthFirstPaths::new(&graph, 1).path_to(3));
    assert_eq!(Some(vec!(5, 0, 1)), BreadthFirstPaths::new(&graph, 5).path_to(1));

    assert_eq!(None, BreadthFirstPaths::new(&graph, 0).path_to(7));
    assert_eq!(None, BreadthFirstPaths::new(&graph, 8).path_to(10));
    assert_eq!(None, BreadthFirstPaths::new(&graph, 2).path_to(9));
    assert_eq!(None, BreadthFirstPaths::new(&graph, 6).path_to(11));

    assert_eq!(Some(vec!(10, 9, 11)), BreadthFirstPaths::new(&graph, 10).path_to(11));
    assert_eq!(Some(vec!(10)), BreadthFirstPaths::new(&graph, 10).path_to(10));
}
