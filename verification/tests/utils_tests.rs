use cpd::data::graph::Graph;
use cpd::data::utils::get_edge_vector;
use cpd::data::utils::get_vertex_vector;
use cpd::data::utils::vertices_are_connected;

#[test]
fn test_vertices_are_connected() {
    let mut graph = Graph::new(1);
    graph.create_vertex_with_data(1, 2);
    graph.create_vertex_with_data(2, 2);
    graph.create_vertex_with_data(3, 4);
    graph.create_vertex_with_data(4, 2);
    graph.vertices.get_mut(0).unwrap().push(1, 0);
    graph.vertices.get_mut(0).unwrap().push(2, 0);
    graph.vertices.get_mut(1).unwrap().push(2, 0);
    graph.vertices.get_mut(1).unwrap().push(3, 0);
    graph.vertices.get_mut(3).unwrap().push(2, 0);
    let result = vertices_are_connected(&graph.vertices.iter().collect());
    assert!(result);
    let result = vertices_are_connected(&vec![
        graph.vertices.first().unwrap(),
        graph.vertices.get(1).unwrap(),
        graph.vertices.get(3).unwrap(),
    ]);
    assert!(result);
    let result = vertices_are_connected(&vec![
        graph.vertices.first().unwrap(),
        graph.vertices.get(3).unwrap(),
    ]);
    assert!(!result);
}

#[test]
fn test_vertex_vector() {
    let mut graph = Graph::new(1);
    graph.create_vertex_with_data(1, 2);
    graph.create_vertex_with_data(2, 2);
    graph.create_vertex_with_data(3, 4);
    graph.create_vertex_with_data(2, 2);
    graph.vertices.get_mut(0).unwrap().push(1, 0);
    graph.vertices.get_mut(0).unwrap().push(2, 0);
    graph.vertices.get_mut(1).unwrap().push(2, 0);
    graph.vertices.get_mut(1).unwrap().push(3, 0);
    graph.vertices.get_mut(3).unwrap().push(2, 0);
    let vertex_vector = get_vertex_vector(&graph);
    assert_eq!(vertex_vector.len(), 3);
    assert_eq!(vertex_vector[&1], 1);
    assert_eq!(vertex_vector[&2], 2);
    assert_eq!(vertex_vector[&3], 1);
}

#[test]
fn test_edge_vector() {
    let mut graph = Graph::new(1);
    graph.create_vertex_with_data(1, 2); // 0
    graph.create_vertex_with_data(2, 2); // 1
    graph.create_vertex_with_data(3, 4); // 2
    graph.create_vertex_with_data(2, 2); // 3
    graph.vertices.get_mut(0).unwrap().push(1, 1);
    graph.vertices.get_mut(0).unwrap().push(2, 2);
    graph.vertices.get_mut(1).unwrap().push(2, 3);
    graph.vertices.get_mut(1).unwrap().push(3, 4);
    graph.vertices.get_mut(3).unwrap().push(3, 4);
    let edge_vector = get_edge_vector(&graph);
    assert_eq!(edge_vector.len(), 4);
    assert_eq!(edge_vector.get(&(1, 2, 1, 2, 2)), 1);
    assert_eq!(edge_vector.get(&(1, 2, 2, 3, 4)), 1);
    assert_eq!(edge_vector.get(&(2, 2, 3, 3, 4)), 1);
    assert_eq!(edge_vector.get(&(2, 2, 4, 2, 2)), 2);
}

#[test]
fn a_single_vertex_is_connected() {
    let mut graph = Graph::new(0);
    graph.create_vertex_with_data(1, 1);
    graph.create_vertex_with_data(2, 1);
    assert!(vertices_are_connected(&vec![graph.vertices.get(1).unwrap()]));
}

#[test]
fn direction_of_edges_does_not_matter_for_connectivity() {
    let mut graph = Graph::new(0);
    graph.create_vertex_with_data(1, 1);
    graph.create_vertex_with_data(2, 1);
    graph.create_vertex_with_data(3, 1);
    // 1 -> 0 and 1 -> 2: vertex 0 is reached against the direction
    graph.vertices.get_mut(1).unwrap().push(0, 0);
    graph.vertices.get_mut(1).unwrap().push(2, 0);
    assert!(vertices_are_connected(&graph.vertices.iter().collect()));
    // without the middle vertex its edges do not count
    assert!(!vertices_are_connected(&vec![
        graph.vertices.first().unwrap(),
        graph.vertices.get(2).unwrap(),
    ]));
}

#[test]
fn a_late_edge_connects_what_earlier_edges_could_not() {
    let mut graph = Graph::new(0);
    for label in 0..4 {
        graph.create_vertex_with_data(label, 1);
    }
    // the edge 2 -> 3 is seen before either end is reached
    graph.vertices.get_mut(2).unwrap().push(3, 0);
    graph.vertices.get_mut(3).unwrap().push(1, 0);
    graph.vertices.get_mut(1).unwrap().push(0, 0);
    assert!(vertices_are_connected(&graph.vertices.iter().collect()));
}

#[test]
fn an_absent_signature_counts_zero() {
    let mut graph = Graph::new(1);
    graph.create_vertex_with_data(1, 2);
    graph.create_vertex_with_data(2, 2);
    graph.vertices.get_mut(0).unwrap().push(1, 1);
    let edge_vector = get_edge_vector(&graph);
    assert_eq!(edge_vector.len(), 1);
    assert_eq!(edge_vector.get(&(2, 2, 1, 1, 2)), 0);
    assert!(get_edge_vector(&Graph::new(5)).entries.is_empty());
    assert!(get_vertex_vector(&Graph::new(5)).is_empty());
}
