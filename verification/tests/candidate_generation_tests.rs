use cpd::cpd::candidate_generation::candidates_of_selections;
use cpd::cpd::candidate_generation::connected_selections;
use cpd::cpd::candidate_generation::AlgoCandidateGeneration;
use cpd::cpd::candidate_generation::GraphIdGenerator;
use cpd::cpd::candidate_generation::_get_fully_connected_candidates_of_graph;
use cpd::data::graph::Graph;

fn make_basic_graph() -> Graph {
    let mut g = Graph::new(1);

    g.create_vertex_with_data(1, 2); // id 0
    g.create_vertex_with_data(2, 2); // id 1
    g.create_vertex_with_data(3, 2); // id 2

    // Object vertex
    g.create_vertex_with_data(4, 4); // id 3

    // Edges creating connectivity among activities
    g.vertices.get_mut(0).unwrap().push(1, 10);
    g.vertices.get_mut(1).unwrap().push(2, 10);

    // Objects connected all activity vertices
    g.vertices.get_mut(0).unwrap().push(3, 20);
    g.vertices.get_mut(1).unwrap().push(3, 20);
    g.vertices.get_mut(2).unwrap().push(3, 20);

    g
}

#[test]
fn test_single_graph_single_candidate() {
    let g = make_basic_graph();

    let algo = AlgoCandidateGeneration::FullyConnected {
        activity_vertex_type: 2,
        object_vertex_types: vec![4],
        min_number_of_activity_vertices: 2,
        max_number_of_activity_vertices: 2,
    };

    let result = algo.get_candidates(&vec![g]);

    assert_eq!(result.len(), 1);
    assert_eq!(result[0].len(), 2);
}

#[test]
fn test_non_connected_activity_vertices_are_rejected() {
    let mut g = Graph::new(1);

    // Two activities with no edge
    g.create_vertex_with_data(1, 2); // id 0
    g.create_vertex_with_data(2, 2); // id 1

    let algo = AlgoCandidateGeneration::FullyConnected {
        activity_vertex_type: 2,
        object_vertex_types: vec![],
        min_number_of_activity_vertices: 2,
        max_number_of_activity_vertices: 2,
    };

    let result = algo.get_candidates(&vec![g]);
    assert_eq!(
        result[0].len(),
        0,
        "Disconnected activities should not produce candidates"
    );
}

#[test]
fn test_object_vertices_are_included() {
    let g = make_basic_graph();

    let algo = AlgoCandidateGeneration::FullyConnected {
        activity_vertex_type: 2,
        object_vertex_types: vec![4],
        min_number_of_activity_vertices: 2,
        max_number_of_activity_vertices: 2,
    };

    let result = algo.get_candidates(&vec![g]);
    let candidates = &result[0];

    let candidate: &Graph = candidates
        .iter()
        .find(|c| c.vertices.iter().any(|v| v.label == 2))
        .unwrap();

    assert!(
        candidate.vertices.iter().any(|v| v.vertex_type == 4),
        "Candidate must include object vertices connected to selected activities"
    );
}

#[test]
fn test_min_max_activity_vertex_limits() {
    let g = make_basic_graph();

    let algo = AlgoCandidateGeneration::FullyConnected {
        activity_vertex_type: 2,
        object_vertex_types: vec![],
        min_number_of_activity_vertices: 3,
        max_number_of_activity_vertices: 3,
    };

    let result = algo.get_candidates(&vec![g]);

    assert_eq!(result[0].len(), 1);
}

#[test]
fn test_multiple_input_graphs() {
    let g1 = make_basic_graph();
    let g2 = make_basic_graph();

    let algo = AlgoCandidateGeneration::FullyConnected {
        activity_vertex_type: 2,
        object_vertex_types: vec![4],
        min_number_of_activity_vertices: 2,
        max_number_of_activity_vertices: 2,
    };

    let result = algo.get_candidates(&vec![g1, g2]);

    assert_eq!(result.len(), 2);
    assert_eq!(result[0].len(), 2);
    assert_eq!(result[1].len(), 2);
}

#[test]
fn test_graph_id_generation_increments() {
    let g = make_basic_graph();

    let algo = AlgoCandidateGeneration::FullyConnected {
        activity_vertex_type: 2,
        object_vertex_types: vec![4],
        min_number_of_activity_vertices: 2,
        max_number_of_activity_vertices: 2,
    };

    let result = algo.get_candidates(&vec![g]);

    let ids: Vec<_> = result[0].iter().map(|c| c.id).collect();
    let mut sorted = ids.clone();
    sorted.sort();

    assert_eq!(ids, sorted, "Graph IDs should increase monotonically");
    assert!(
        ids.windows(2).all(|w| w[1] > w[0]),
        "Each ID must be unique and increasing"
    );
}

#[test]
fn candidate_copies_vertices_and_edges_in_order() {
    let g = make_basic_graph();
    let algo = AlgoCandidateGeneration::FullyConnected {
        activity_vertex_type: 2,
        object_vertex_types: vec![4],
        min_number_of_activity_vertices: 2,
        max_number_of_activity_vertices: 2,
    };
    let result = algo.get_candidates(&vec![g]);
    // selections {0, 1} and {1, 2}; {0, 2} is linked through the object only
    let first = &result[0][0];
    assert_eq!(first.id, 1);
    let attrs: Vec<(usize, usize, usize)> = first.vertices.iter().map(|v| (v.id, v.label, v.vertex_type)).collect();
    assert_eq!(attrs, vec![(0, 1, 2), (1, 2, 2), (2, 4, 4)]);
    let edges0: Vec<(usize, usize, usize, usize)> =
        first.vertices[0].edges.iter().map(|e| (e.id, e.from, e.to, e.e_label)).collect();
    assert_eq!(edges0, vec![(0, 0, 1, 10), (1, 0, 2, 20)]);
    // the edge 1 -> 2 of the input leaves the selection and is dropped
    let edges1: Vec<(usize, usize, usize, usize)> =
        first.vertices[1].edges.iter().map(|e| (e.id, e.from, e.to, e.e_label)).collect();
    assert_eq!(edges1, vec![(0, 1, 2, 20)]);
    assert!(first.vertices[2].edges.is_empty());
    let second = &result[0][1];
    assert_eq!(second.id, 2);
    let attrs: Vec<(usize, usize)> = second.vertices.iter().map(|v| (v.label, v.vertex_type)).collect();
    assert_eq!(attrs, vec![(2, 2), (3, 2), (4, 4)]);
}

#[test]
fn candidates_come_by_size_then_by_combination() {
    let mut g = Graph::new(0);
    g.create_vertex_with_data(1, 7);
    g.create_vertex_with_data(2, 7);
    g.create_vertex_with_data(3, 7);
    g.vertices.get_mut(0).unwrap().push(1, 0);
    g.vertices.get_mut(1).unwrap().push(2, 0);
    g.vertices.get_mut(2).unwrap().push(0, 0);
    let algo = AlgoCandidateGeneration::FullyConnected {
        activity_vertex_type: 7,
        object_vertex_types: vec![],
        min_number_of_activity_vertices: 1,
        max_number_of_activity_vertices: 3,
    };
    let result = algo.get_candidates(&vec![g]);
    let labels: Vec<Vec<usize>> =
        result[0].iter().map(|c| c.vertices.iter().map(|v| v.label).collect()).collect();
    assert_eq!(
        labels,
        vec![vec![1], vec![2], vec![3], vec![1, 2], vec![1, 3], vec![2, 3], vec![1, 2, 3]]
    );
    let ids: Vec<usize> = result[0].iter().map(|c| c.id).collect();
    assert_eq!(ids, vec![1, 2, 3, 4, 5, 6, 7]);
}

#[test]
fn malformed_configurations_give_no_candidates() {
    let g = make_basic_graph();
    let min_above_max = AlgoCandidateGeneration::FullyConnected {
        activity_vertex_type: 2,
        object_vertex_types: vec![4],
        min_number_of_activity_vertices: 3,
        max_number_of_activity_vertices: 2,
    };
    assert_eq!(min_above_max.get_candidates(&vec![g.clone()])[0].len(), 0);
    let no_activity = AlgoCandidateGeneration::FullyConnected {
        activity_vertex_type: 9,
        object_vertex_types: vec![4],
        min_number_of_activity_vertices: 1,
        max_number_of_activity_vertices: 2,
    };
    assert_eq!(no_activity.get_candidates(&vec![g.clone()])[0].len(), 0);
    let too_many = AlgoCandidateGeneration::FullyConnected {
        activity_vertex_type: 2,
        object_vertex_types: vec![4],
        min_number_of_activity_vertices: 4,
        max_number_of_activity_vertices: 6,
    };
    assert_eq!(too_many.get_candidates(&vec![g])[0].len(), 0);
}

#[test]
fn ids_are_unique_across_input_graphs() {
    let algo = AlgoCandidateGeneration::FullyConnected {
        activity_vertex_type: 2,
        object_vertex_types: vec![4],
        min_number_of_activity_vertices: 1,
        max_number_of_activity_vertices: 3,
    };
    let result = algo.get_candidates(&vec![make_basic_graph(), make_basic_graph(), make_basic_graph()]);
    let ids: Vec<usize> = result.iter().flatten().map(|c| c.id).collect();
    let expected: Vec<usize> = (1..=ids.len()).collect();
    assert_eq!(ids, expected);
    // 3 singles, 2 connected pairs, 1 triple per graph
    assert_eq!(ids.len(), 18);
}

#[test]
fn three_mutually_connected_activities_give_three_pairs() {
    let mut g = Graph::new(0);
    g.create_vertex_with_data(1, 2);
    g.create_vertex_with_data(2, 2);
    g.create_vertex_with_data(3, 2);
    g.vertices.get_mut(0).unwrap().push(1, 0);
    g.vertices.get_mut(1).unwrap().push(2, 0);
    g.vertices.get_mut(2).unwrap().push(0, 0);
    let algo = AlgoCandidateGeneration::FullyConnected {
        activity_vertex_type: 2,
        object_vertex_types: vec![],
        min_number_of_activity_vertices: 2,
        max_number_of_activity_vertices: 2,
    };
    let result = algo.get_candidates(&vec![g]);
    assert_eq!(result[0].len(), 3);
}

#[test]
fn selections_are_listed_and_then_turned_into_candidates() {
    let g = make_basic_graph();
    let selections = connected_selections(&g, 2, 1, 3);
    assert_eq!(selections, vec![vec![0], vec![1], vec![2], vec![0, 1], vec![1, 2], vec![0, 1, 2]]);
    assert!(connected_selections(&g, 2, 4, 9).is_empty());
    assert!(connected_selections(&g, 2, 2, 1).is_empty());
    let mut ids = GraphIdGenerator::new();
    assert_eq!(ids.next_id(), 1);
    let candidates = candidates_of_selections(&g, &selections, &vec![4], &mut ids);
    assert_eq!(candidates.iter().map(|c| c.id).collect::<Vec<_>>(), vec![2, 3, 4, 5, 6, 7]);
    assert_eq!(ids.last, 7);
    // a single activity vertex with its object
    assert_eq!(candidates[2].to_str_repr(None, None), "t # 4\nv 0 3 2\nv 1 4 4\ne 0 1 20");
    let again = _get_fully_connected_candidates_of_graph(&g, 2, &vec![4], 1, 3, &mut ids);
    assert_eq!(again.iter().map(|c| c.id).collect::<Vec<_>>(), vec![8, 9, 10, 11, 12, 13]);
    assert_eq!(again[5].to_str_repr(None, None), candidates[5].to_str_repr(None, None).replace("t # 7", "t # 13"));
}

#[test]
fn the_id_counter_stays_at_the_largest_id() {
    let mut ids = GraphIdGenerator { last: usize::MAX - 1 };
    assert_eq!(ids.next_id(), usize::MAX);
    assert_eq!(ids.next_id(), usize::MAX);
}

#[test]
fn an_activity_type_among_the_object_types_keeps_all_edges_of_the_selection() {
    let g = make_basic_graph();
    let algo = AlgoCandidateGeneration::FullyConnected {
        activity_vertex_type: 2,
        object_vertex_types: vec![2],
        min_number_of_activity_vertices: 1,
        max_number_of_activity_vertices: 1,
    };
    let result = algo.get_candidates(&vec![g]);
    // vertex 0 points at vertex 1, which has an object type, and at vertex 3, which has none
    assert_eq!(result[0][0].to_str_repr(None, None), "t # 1\nv 0 1 2\nv 1 2 2\ne 0 1 10");
    assert_eq!(result[0][2].to_str_repr(None, None), "t # 3\nv 0 3 2");
}
