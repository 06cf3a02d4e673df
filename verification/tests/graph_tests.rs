use cpd::data::edge::Edge;
use cpd::data::graph::Graph;
use cpd::data::vertex::Vertex;

#[test]
fn test_simple_graph() {
    let mut graph = Graph::new(1);
    graph.create_vertex_with_data(1, 2);
    graph.create_vertex_with_data(2, 2);
    graph.create_vertex_with_data(3, 4);
    graph.vertices.get_mut(0).unwrap().push(1, 0);
    graph.vertices.get_mut(0).unwrap().push(2, 0);
    graph.vertices.get_mut(1).unwrap().push(2, 0);
    println!("{:?}", graph);
    assert_eq!(graph.vertices.len(), 3);
    assert_eq!(graph.vertices.first().unwrap().edges.len(), 2);
    assert_eq!(graph.vertices.get(1).unwrap().edges.len(), 1);
    assert_eq!(graph.vertices.get(2).unwrap().edges.len(), 0);
}

#[test]
fn test_build_digraph() {
    let mut graph = Graph::new(1);
    graph.create_vertex_with_data(1, 2);
    graph.create_vertex_with_data(2, 2);
    graph.create_vertex_with_data(3, 4);
    graph.vertices.get_mut(0).unwrap().push(1, 0);
    graph.vertices.get_mut(0).unwrap().push(2, 0);
    graph.vertices.get_mut(1).unwrap().push(2, 0);
    let di_graph = graph.get_digraph();
    assert_eq!(di_graph.node_count(), 3);

    // Check node weights
    let nodes = di_graph.node_weights();
    assert!(nodes.contains(&(1, 2)));
    assert!(nodes.contains(&(2, 2)));
    assert!(nodes.contains(&(3, 4)));

    // Check edges
    let mut edges = di_graph.edge_list();

    // Sort for consistent order
    edges.sort();

    // Expected edges (source_index, target_index, weight)
    let expected_edges = vec![(0, 1, 0), (0, 2, 0), (1, 2, 0)];

    assert_eq!(edges, expected_edges);

    // A second adjacency form of the same graph holds the same
    let di_graph2 = graph.get_digraph();
    assert_eq!(di_graph2.node_weights(), nodes);
    assert!(di_graph.is_isomorphic(&di_graph2));
}

#[test]
fn adjacency_form_keeps_parallel_edges_in_order() {
    let mut graph = Graph::new(1);
    graph.create_vertex_with_data(1, 2);
    graph.create_vertex_with_data(2, 2);
    graph.vertices.get_mut(1).unwrap().push(0, 5);
    graph.vertices.get_mut(1).unwrap().push(0, 6);
    graph.vertices.get_mut(0).unwrap().push(0, 7);
    let di_graph = graph.get_digraph();
    assert_eq!(di_graph.node_weights(), vec![(1, 2), (2, 2)]);
    assert_eq!(di_graph.edge_list(), vec![(0, 0, 7), (1, 0, 5), (1, 0, 6)]);
}

#[test]
fn created_vertices_get_dense_ids() {
    let mut graph = Graph::new(4);
    assert_eq!(graph.id, 4);
    assert!(!graph.has_vertex_with_id(&0));
    assert_eq!(graph.create_vertex().id, 0);
    {
        let v = graph.create_vertex_with_data(8, 9);
        assert_eq!((v.id, v.label, v.vertex_type), (1, 8, 9));
    }
    assert_eq!((graph.vertices[0].label, graph.vertices[0].vertex_type), (0, 0));
    assert!(graph.has_vertex_with_id(&1));
    assert!(!graph.has_vertex_with_id(&2));
    assert!(graph.is_well_formed());
}

#[test]
fn vertices_by_type_come_in_id_order() {
    let mut graph = Graph::new(1);
    graph.create_vertex_with_data(1, 2);
    graph.create_vertex_with_data(2, 4);
    graph.create_vertex_with_data(3, 2);
    let ids: Vec<usize> = graph.get_vertices_by_type(2).iter().map(|v| v.id).collect();
    assert_eq!(ids, vec![0, 2]);
    assert!(graph.get_vertices_by_type(7).is_empty());
}

#[test]
fn pattern_text_has_header_vertices_and_edges() {
    let mut graph = Graph::new(12);
    graph.create_vertex_with_data(1, 2);
    graph.create_vertex_with_data(30, 4);
    graph.vertices.get_mut(1).unwrap().push(0, 5);
    graph.vertices.get_mut(0).unwrap().push(1, 100);
    assert_eq!(
        graph.to_str_repr(Some(3), Some(4)),
        "t # 12 * 3 / 4\nv 0 1 2\nv 1 30 4\ne 0 1 100\ne 1 0 5"
    );
    assert_eq!(graph.to_str_repr(None, None), "t # 12\nv 0 1 2\nv 1 30 4\ne 0 1 100\ne 1 0 5");
    assert_eq!(Graph::new(0).to_str_repr(Some(1), None), "t # 0 * 1");
    assert_eq!(Graph::new(0).to_str_repr(None, Some(10)), "t # 0 / 10");
    assert_eq!(graph.vertices[1].to_str_repr(), "v 1 30 4");
    assert_eq!(Edge::new(0, 7, 8, 9).to_str_repr(), "e 7 8 9");
}

#[test]
fn vertices_compare_by_label_and_type() {
    let mut a = Vertex::new(0, Some(1), Some(2));
    let b = Vertex::new(5, Some(1), Some(2));
    a.push(3, 4);
    assert!(a == b);
    assert!(a != Vertex::new(0, Some(1), Some(3)));
    assert!(a != Vertex::new(0, Some(2), Some(2)));
}

#[test]
fn a_copy_has_the_same_content() {
    let mut graph = Graph::new(6);
    graph.create_vertex_with_data(1, 2);
    graph.create_vertex_with_data(3, 4);
    graph.vertices.get_mut(0).unwrap().push(1, 5);
    let copy = graph.duplicate();
    assert_eq!(copy.id, 6);
    assert_eq!(copy.to_str_repr(None, None), graph.to_str_repr(None, None));
    assert_eq!(copy.vertices[0].edges[0], graph.vertices[0].edges[0]);
}

#[test]
fn edges_are_counted_against_a_limit() {
    let mut graph = Graph::new(1);
    graph.create_vertex_with_data(1, 2);
    graph.create_vertex_with_data(3, 4);
    graph.vertices.get_mut(0).unwrap().push(1, 5);
    graph.vertices.get_mut(1).unwrap().push(0, 5);
    assert!(graph.has_fewer_edges_than(3));
    assert!(!graph.has_fewer_edges_than(2));
    assert!(!graph.has_fewer_edges_than(0));
    assert!(!Graph::new(0).has_fewer_edges_than(0));
    assert!(Graph::new(0).has_fewer_edges_than(1));
}

#[test]
fn a_vertex_with_a_foreign_edge_is_not_well_formed() {
    let mut v = Vertex::new(2, None, None);
    v.push(0, 1);
    assert!(v.is_well_formed());
    v.edges.push(Edge::new(1, 3, 0, 1));
    assert!(!v.is_well_formed());
    let mut w = Vertex::new(2, None, None);
    w.edges.push(Edge::new(4, 2, 0, 1));
    assert!(!w.is_well_formed());
}
