use cpd::cpd::graph_matching::AlgoGraphMatching;
use cpd::cpd::graph_matching::GEDEditCosts;
use cpd::cpd::graph_matching::MatchingResult;
use cpd::cpd::graph_matching::classify_distance;
use cpd::cpd::graph_matching::classify_similarity;
use cpd::cpd::graph_matching::edge_penalty;
use cpd::cpd::graph_matching::escalate;
use cpd::cpd::graph_matching::fast_ged;
use cpd::cpd::graph_matching::graph_vf2_isomorphism;
use cpd::data::graph::Graph;

#[test]
fn test_vf2() {
    let mut one_graph = Graph::new(1);
    one_graph.create_vertex_with_data(1, 2);
    one_graph.create_vertex_with_data(2, 2);
    one_graph.create_vertex_with_data(3, 4);
    one_graph.create_vertex_with_data(4, 2);
    one_graph.vertices.get_mut(0).unwrap().push(1, 0);
    one_graph.vertices.get_mut(0).unwrap().push(2, 0);
    one_graph.vertices.get_mut(1).unwrap().push(2, 0);
    one_graph.vertices.get_mut(1).unwrap().push(3, 0);
    one_graph.vertices.get_mut(3).unwrap().push(2, 0);
    let mut other_eq_graph = Graph::new(1);
    other_eq_graph.create_vertex_with_data(1, 2);
    other_eq_graph.create_vertex_with_data(2, 2);
    other_eq_graph.create_vertex_with_data(3, 4);
    other_eq_graph.create_vertex_with_data(4, 2);
    other_eq_graph.vertices.get_mut(0).unwrap().push(1, 0);
    other_eq_graph.vertices.get_mut(0).unwrap().push(2, 0);
    other_eq_graph.vertices.get_mut(1).unwrap().push(2, 0);
    other_eq_graph.vertices.get_mut(1).unwrap().push(3, 0);
    other_eq_graph.vertices.get_mut(3).unwrap().push(2, 0);
    assert_eq!(
        AlgoGraphMatching::VF2IsomorphismTest.match_graphs(&one_graph, &other_eq_graph,),
        MatchingResult::ExactMatch
    );

    let mut other_graph = Graph::new(1);
    other_graph.create_vertex_with_data(2, 2);
    other_graph.create_vertex_with_data(3, 2);
    other_graph.create_vertex_with_data(1, 4);
    other_graph.create_vertex_with_data(2, 2);
    other_graph.vertices.get_mut(0).unwrap().push(3, 0);
    other_graph.vertices.get_mut(0).unwrap().push(2, 0);
    other_graph.vertices.get_mut(1).unwrap().push(2, 0);
    other_graph.vertices.get_mut(1).unwrap().push(3, 0);
    other_graph.vertices.get_mut(3).unwrap().push(2, 0);
    assert_eq!(
        AlgoGraphMatching::VF2IsomorphismTest.match_graphs(&one_graph, &other_graph,),
        MatchingResult::NoMatch
    );
}

#[test]
fn test_vf2_with_duplicate_labels() {
    // Graph 1
    let mut g1 = Graph::new(1);
    g1.create_vertex_with_data(1, 2); // node 0
    g1.create_vertex_with_data(2, 2); // node 1
    g1.create_vertex_with_data(1, 2); // node 2 (duplicate label)
    g1.create_vertex_with_data(3, 4); // node 3
    // edges
    g1.vertices.get_mut(0).unwrap().push(1, 0);
    g1.vertices.get_mut(1).unwrap().push(3, 0);
    g1.vertices.get_mut(2).unwrap().push(3, 0);

    // Graph 2 (ExactMatch)
    let mut g2 = Graph::new(1);
    g2.create_vertex_with_data(1, 2); // node 0
    g2.create_vertex_with_data(2, 2); // node 1
    g2.create_vertex_with_data(1, 2); // node 2 (duplicate label)
    g2.create_vertex_with_data(3, 4); // node 3
    // edges
    g2.vertices.get_mut(0).unwrap().push(1, 0);
    g2.vertices.get_mut(1).unwrap().push(3, 0);
    g2.vertices.get_mut(2).unwrap().push(3, 0);

    // Should be ExactMatch
    assert_eq!(
        AlgoGraphMatching::VF2IsomorphismTest.match_graphs(&g1, &g2),
        MatchingResult::ExactMatch
    );

    // Graph 3 (NoMatch: different topology)
    let mut g3 = Graph::new(1);
    g3.create_vertex_with_data(1, 2);
    g3.create_vertex_with_data(2, 2);
    g3.create_vertex_with_data(1, 2);
    g3.create_vertex_with_data(3, 4);
    // change edges so topology differs
    g3.vertices.get_mut(0).unwrap().push(2, 0);
    g3.vertices.get_mut(1).unwrap().push(0, 0);
    g3.vertices.get_mut(2).unwrap().push(3, 0);

    // Should be NoMatch
    assert_eq!(
        AlgoGraphMatching::VF2IsomorphismTest.match_graphs(&g1, &g3),
        MatchingResult::NoMatch
    );
}

#[test]
fn test_ged_exact_match() {
    let mut g1 = Graph::new(1);
    g1.create_vertex_with_data(1, 2);
    g1.create_vertex_with_data(2, 3);
    g1.vertices.get_mut(0).unwrap().push(1, 0);
    g1.vertices.get_mut(1).unwrap().push(0, 0);

    let mut g2 = Graph::new(1);
    g2.create_vertex_with_data(1, 2);
    g2.create_vertex_with_data(2, 3);
    g2.vertices.get_mut(0).unwrap().push(1, 0);
    g2.vertices.get_mut(1).unwrap().push(0, 0);

    let algo = AlgoGraphMatching::GEDFastHungarian {
        edit_costs: GEDEditCosts::default(),
        matching_threshold: 1,
    };

    assert_eq!(algo.match_graphs(&g1, &g2), MatchingResult::ExactMatch);
}

#[test]
fn test_ged_relaxed_match() {
    let mut g1 = Graph::new(1);
    g1.create_vertex_with_data(1, 2);
    g1.create_vertex_with_data(2, 3);

    let mut g2 = Graph::new(1);
    g2.create_vertex_with_data(1, 2);
    g2.create_vertex_with_data(5, 3); // node label changed

    let algo = AlgoGraphMatching::GEDFastHungarian {
        edit_costs: GEDEditCosts::default(),
        matching_threshold: 1,
    };

    // Substitution of 1 node → distance = 1 → within threshold
    assert_eq!(algo.match_graphs(&g1, &g2), MatchingResult::RelaxedMatch);
}

#[test]
fn test_ged_no_match() {
    let mut g1 = Graph::new(1);
    g1.create_vertex_with_data(1, 2);

    let mut g2 = Graph::new(1);
    g2.create_vertex_with_data(2, 3);
    g2.create_vertex_with_data(3, 4);

    let algo = AlgoGraphMatching::GEDFastHungarian {
        edit_costs: GEDEditCosts::default(),
        matching_threshold: 1,
    };

    // More edits than threshold → NoMatch
    assert_eq!(algo.match_graphs(&g1, &g2), MatchingResult::NoMatch);
}

#[test]
fn test_ged_edge_exact_match() {
    let mut g1 = Graph::new(1);
    g1.create_vertex_with_data(1, 2);
    g1.create_vertex_with_data(2, 3);
    g1.vertices.get_mut(0).unwrap().push(1, 5); // edge with weight 5
    g1.vertices.get_mut(1).unwrap().push(0, 2); // edge with weight 2

    let mut g2 = Graph::new(1);
    g2.create_vertex_with_data(2, 3);
    g2.create_vertex_with_data(1, 2);
    g2.vertices.get_mut(0).unwrap().push(1, 2);
    g2.vertices.get_mut(1).unwrap().push(0, 5);

    let algo = AlgoGraphMatching::GEDFastHungarian {
        edit_costs: GEDEditCosts::default(),
        matching_threshold: 1,
    };

    assert_eq!(algo.match_graphs(&g1, &g2), MatchingResult::ExactMatch);
}

#[test]
fn test_ged_edge_substitution() {
    let mut g1 = Graph::new(1);
    g1.create_vertex_with_data(1, 2);
    g1.create_vertex_with_data(2, 3);
    g1.vertices.get_mut(0).unwrap().push(1, 5); // edge with weight 5

    let mut g2 = Graph::new(1);
    g2.create_vertex_with_data(1, 2);
    g2.create_vertex_with_data(2, 3);
    g2.vertices.get_mut(0).unwrap().push(1, 7); // weight changed

    let algo = AlgoGraphMatching::GEDFastHungarian {
        edit_costs: GEDEditCosts::default(),
        matching_threshold: 1,
    };

    // 1 edge substitution → distance = 1 → within threshold → RelaxedMatch
    assert_eq!(algo.match_graphs(&g1, &g2), MatchingResult::RelaxedMatch);
}

#[test]
fn test_ged_edge_insertion_deletion() {
    let mut g1 = Graph::new(1);
    g1.create_vertex_with_data(1, 2);
    g1.create_vertex_with_data(2, 3);
    g1.vertices.get_mut(0).unwrap().push(1, 5); // g1 has 1 edge

    let mut g2 = Graph::new(1);
    g2.create_vertex_with_data(1, 2);
    g2.create_vertex_with_data(2, 3);
    // g2 has no edges → edge deletion penalty

    let algo = AlgoGraphMatching::GEDFastHungarian {
        edit_costs: GEDEditCosts::default(),
        matching_threshold: 1,
    };

    // 1 edge deleted → distance = 1 → within threshold → RelaxedMatch
    assert_eq!(algo.match_graphs(&g1, &g2), MatchingResult::RelaxedMatch);
}

#[test]
fn test_ged_edge_no_match_due_to_multiple_edits() {
    let mut g1 = Graph::new(1);
    g1.create_vertex_with_data(1, 2);
    g1.create_vertex_with_data(2, 3);
    g1.create_vertex_with_data(3, 4);
    g1.vertices.get_mut(0).unwrap().push(1, 5); // edge 0→1
    g1.vertices.get_mut(1).unwrap().push(2, 2); // edge 1→2

    let mut g2 = Graph::new(1);
    g2.create_vertex_with_data(1, 2);
    g2.create_vertex_with_data(2, 3);
    g2.create_vertex_with_data(3, 4);
    g2.vertices.get_mut(0).unwrap().push(2, 7); // edge 0→2 (different target and weight)
    g2.vertices.get_mut(1).unwrap().push(0, 3); // edge 1→0 (different target and weight)

    let algo = AlgoGraphMatching::GEDFastHungarian {
        edit_costs: GEDEditCosts::default(),
        matching_threshold: 1,
    };

    // multiple edge substitutions → distance > threshold → NoMatch
    assert_eq!(algo.match_graphs(&g1, &g2), MatchingResult::NoMatch);
}

fn two_vertex_graph(second_label: usize) -> Graph {
    let mut g = Graph::new(1);
    g.create_vertex_with_data(1, 2);
    g.create_vertex_with_data(second_label, 3);
    g
}

fn ged(matching_threshold: usize) -> AlgoGraphMatching {
    AlgoGraphMatching::GEDFastHungarian { edit_costs: GEDEditCosts::default(), matching_threshold }
}

#[test]
fn default_edit_costs_are_all_one() {
    let c = GEDEditCosts::default();
    assert_eq!(
        (c.node_sub, c.node_ins, c.node_del, c.edge_sub, c.edge_ins, c.edge_del),
        (1, 1, 1, 1, 1, 1)
    );
}

#[test]
fn every_algorithm_matches_a_graph_with_itself_exactly() {
    let mut g = Graph::new(3);
    g.create_vertex_with_data(1, 2);
    g.create_vertex_with_data(1, 2);
    g.create_vertex_with_data(5, 4);
    g.vertices.get_mut(0).unwrap().push(1, 7);
    g.vertices.get_mut(0).unwrap().push(1, 8);
    g.vertices.get_mut(1).unwrap().push(2, 7);
    g.vertices.get_mut(2).unwrap().push(2, 9);
    let copy = g.duplicate();
    assert_eq!(AlgoGraphMatching::VF2IsomorphismTest.match_graphs(&g, &g), MatchingResult::ExactMatch);
    assert_eq!(AlgoGraphMatching::VF2IsomorphismTest.match_graphs(&g, &copy), MatchingResult::ExactMatch);
    assert_eq!(ged(0).match_graphs(&g, &g), MatchingResult::ExactMatch);
    assert_eq!(ged(0).match_graphs(&g, &copy), MatchingResult::ExactMatch);
    assert_eq!(ged(0).calc_distance(&g, &g), 0);
    assert_eq!(AlgoGraphMatching::VF2IsomorphismTest.calc_distance(&g, &g), 1);
    let empty = Graph::new(0);
    assert_eq!(ged(0).calc_distance(&empty, &empty), 0);
    assert_eq!(ged(0).match_graphs(&empty, &empty), MatchingResult::ExactMatch);
}

#[test]
fn matching_does_not_depend_on_the_order_of_the_graphs() {
    let mut a = Graph::new(1);
    a.create_vertex_with_data(1, 2);
    a.create_vertex_with_data(2, 2);
    a.create_vertex_with_data(3, 4);
    a.vertices.get_mut(0).unwrap().push(1, 0);
    a.vertices.get_mut(1).unwrap().push(2, 5);
    let mut b = Graph::new(2);
    b.create_vertex_with_data(3, 4);
    b.create_vertex_with_data(2, 2);
    b.create_vertex_with_data(1, 2);
    b.vertices.get_mut(2).unwrap().push(1, 0);
    b.vertices.get_mut(1).unwrap().push(0, 5);
    let c = two_vertex_graph(9);
    for algo in [AlgoGraphMatching::VF2IsomorphismTest, ged(1), ged(10)] {
        assert_eq!(algo.match_graphs(&a, &b), algo.match_graphs(&b, &a));
        assert_eq!(algo.match_graphs(&a, &c), algo.match_graphs(&c, &a));
        assert_eq!(algo.calc_distance(&a, &c), algo.calc_distance(&c, &a));
    }
    assert_eq!(AlgoGraphMatching::VF2IsomorphismTest.match_graphs(&a, &b), MatchingResult::ExactMatch);
}

#[test]
fn relabeling_one_vertex_turns_exact_into_no_match() {
    let mut a = Graph::new(1);
    a.create_vertex_with_data(1, 2);
    a.create_vertex_with_data(2, 2);
    a.vertices.get_mut(0).unwrap().push(1, 0);
    let mut b = a.duplicate();
    assert!(graph_vf2_isomorphism(&a, &b));
    assert_eq!(AlgoGraphMatching::VF2IsomorphismTest.match_graphs(&a, &b), MatchingResult::ExactMatch);
    b.vertices.get_mut(1).unwrap().label = 7;
    assert!(!graph_vf2_isomorphism(&a, &b));
    assert_eq!(AlgoGraphMatching::VF2IsomorphismTest.match_graphs(&a, &b), MatchingResult::NoMatch);
    assert_eq!(AlgoGraphMatching::VF2IsomorphismTest.calc_distance(&a, &b), 0);
}

#[test]
fn one_substitution_is_relaxed_and_two_are_no_match() {
    let g1 = two_vertex_graph(2);
    let one = two_vertex_graph(5);
    assert_eq!(ged(1).calc_distance(&g1, &one), 1);
    assert_eq!(ged(1).match_graphs(&g1, &one), MatchingResult::RelaxedMatch);
    let mut two = Graph::new(1);
    two.create_vertex_with_data(8, 2);
    two.create_vertex_with_data(5, 3);
    assert_eq!(ged(1).calc_distance(&g1, &two), 2);
    assert_eq!(ged(1).match_graphs(&g1, &two), MatchingResult::NoMatch);
    assert_eq!(ged(2).match_graphs(&g1, &two), MatchingResult::RelaxedMatch);
}

#[test]
fn the_assignment_is_a_cheapest_one() {
    // the vertices of the second graph come in another order
    let mut a = Graph::new(1);
    a.create_vertex_with_data(1, 1);
    a.create_vertex_with_data(2, 1);
    a.create_vertex_with_data(3, 1);
    let mut b = Graph::new(2);
    b.create_vertex_with_data(3, 1);
    b.create_vertex_with_data(1, 1);
    b.create_vertex_with_data(2, 1);
    assert_eq!(ged(0).calc_distance(&a, &b), 0);
    // a vertex too many is inserted or deleted at its own price
    let costs = GEDEditCosts { node_sub: 5, node_ins: 3, node_del: 2, edge_sub: 1, edge_ins: 1, edge_del: 1 };
    let mut small = Graph::new(3);
    small.create_vertex_with_data(1, 1);
    assert_eq!(fast_ged(&small, &a, &costs), 6);
    assert_eq!(fast_ged(&a, &small, &costs), 4);
    let mut other = Graph::new(4);
    other.create_vertex_with_data(9, 1);
    assert_eq!(fast_ged(&other, &a, &costs), 11);
}

#[test]
fn edge_penalty_counts_missing_edges_and_differing_labels_in_stored_order() {
    let costs = GEDEditCosts { node_sub: 1, node_ins: 1, node_del: 1, edge_sub: 10, edge_ins: 100, edge_del: 1000 };
    let mut a = Graph::new(1);
    a.create_vertex_with_data(1, 1);
    a.create_vertex_with_data(1, 1);
    a.vertices.get_mut(0).unwrap().push(1, 5);
    a.vertices.get_mut(0).unwrap().push(1, 6);
    a.vertices.get_mut(0).unwrap().push(0, 7);
    let mut b = Graph::new(2);
    b.create_vertex_with_data(1, 1);
    b.vertices.get_mut(0).unwrap().push(0, 5);
    b.vertices.get_mut(0).unwrap().push(0, 9);
    // one edge more on one side, and of the aligned pairs (5, 5) and (6, 9) one differs
    assert_eq!(edge_penalty(&a, &b, 0, 0, &costs), 110);
    assert_eq!(edge_penalty(&b, &a, 0, 0, &costs), 110);
    assert_eq!(edge_penalty(&a, &b, 1, 0, &costs), 200);
    assert_eq!(edge_penalty(&a, &a, 0, 0, &costs), 0);
}

#[test]
fn a_highest_score_is_confirmed_by_the_isomorphism_test() {
    // same histograms, other structure: a chain and a fork
    let mut chain = Graph::new(1);
    chain.create_vertex_with_data(1, 1);
    chain.create_vertex_with_data(1, 1);
    chain.create_vertex_with_data(1, 1);
    chain.vertices.get_mut(0).unwrap().push(1, 0);
    chain.vertices.get_mut(1).unwrap().push(2, 0);
    let mut fork = Graph::new(2);
    fork.create_vertex_with_data(1, 1);
    fork.create_vertex_with_data(1, 1);
    fork.create_vertex_with_data(1, 1);
    fork.vertices.get_mut(0).unwrap().push(1, 0);
    fork.vertices.get_mut(0).unwrap().push(2, 0);
    assert_eq!(escalate(&chain, &fork), MatchingResult::RelaxedMatch);
    assert_eq!(escalate(&chain, &chain.duplicate()), MatchingResult::ExactMatch);
    assert_eq!(classify_similarity(true, true, &chain, &fork), MatchingResult::RelaxedMatch);
    assert_eq!(classify_similarity(true, true, &chain, &chain), MatchingResult::ExactMatch);
    assert_eq!(classify_similarity(false, true, &chain, &chain), MatchingResult::RelaxedMatch);
    assert_eq!(classify_similarity(false, false, &chain, &chain), MatchingResult::NoMatch);
    assert_eq!(classify_distance(0, 0, &chain, &fork), MatchingResult::RelaxedMatch);
    assert_eq!(classify_distance(0, 0, &fork, &fork), MatchingResult::ExactMatch);
    assert_eq!(classify_distance(3, 3, &fork, &fork), MatchingResult::RelaxedMatch);
    assert_eq!(classify_distance(4, 3, &fork, &fork), MatchingResult::NoMatch);
}

#[test]
fn algorithms_say_which_graphs_they_take() {
    let mut g = Graph::new(1);
    g.create_vertex_with_data(1, 2);
    g.create_vertex_with_data(2, 2);
    g.vertices.get_mut(0).unwrap().push(1, 0);
    assert!(AlgoGraphMatching::VF2IsomorphismTest.accepts_graph(&g));
    assert!(ged(1).accepts_graph(&g));
    let expensive = AlgoGraphMatching::GEDFastHungarian {
        edit_costs: GEDEditCosts { node_sub: 65536, node_ins: 1, node_del: 1, edge_sub: 1, edge_ins: 1, edge_del: 1 },
        matching_threshold: 1,
    };
    assert!(!expensive.accepts_graph(&g));
    // an edge to a vertex that does not exist
    g.vertices.get_mut(1).unwrap().push(2, 0);
    assert!(!g.is_well_formed());
    assert!(!AlgoGraphMatching::VF2IsomorphismTest.accepts_graph(&g));
    assert!(!ged(1).accepts_graph(&g));
}
