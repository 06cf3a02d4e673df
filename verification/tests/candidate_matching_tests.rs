use cpd::cpd::candidate_generation::AlgoCandidateGeneration;
use cpd::cpd::candidate_matching::collect_survivors;
use cpd::cpd::candidate_matching::deduplicate;
use cpd::cpd::candidate_matching::fill_match_cache;
use cpd::cpd::candidate_matching::have_unique_ids;
use cpd::cpd::candidate_matching::reassign_ids;
use cpd::cpd::candidate_matching::run_naive;
use cpd::cpd::candidate_matching::run_parallel;
use cpd::cpd::candidate_matching::takes_every_candidate;
use cpd::cpd::candidate_matching::AlgoCandidateMatching;
use cpd::cpd::candidate_matching::PatternResult;
use cpd::cpd::config::CPDConfig;
use cpd::cpd::graph_matching::classify_similarity;
use cpd::cpd::graph_matching::AlgoGraphMatching;
use cpd::cpd::graph_matching::GEDEditCosts;
use cpd::cpd::graph_matching::MatchingResult;
use cpd::cpd::match_cache::MatchCache;
use cpd::data::graph::Graph;
use std::cell::Cell;
use std::collections::HashMap;

/// Three activity vertices in a ring, labels 1, 2 and 3; with an object
/// vertex that every activity points at, if asked for.
fn ring(id: usize, with_object: bool) -> Graph {
    let mut g = Graph::new(id);
    g.create_vertex_with_data(1, 2);
    g.create_vertex_with_data(2, 2);
    g.create_vertex_with_data(3, 2);
    g.vertices.get_mut(0).unwrap().push(1, 0);
    g.vertices.get_mut(1).unwrap().push(2, 0);
    g.vertices.get_mut(2).unwrap().push(0, 0);
    if with_object {
        g.create_vertex_with_data(4, 4);
        g.vertices.get_mut(0).unwrap().push(3, 9);
        g.vertices.get_mut(1).unwrap().push(3, 9);
        g.vertices.get_mut(2).unwrap().push(3, 9);
    }
    g
}

fn pairs(object_vertex_types: Vec<usize>) -> AlgoCandidateGeneration {
    AlgoCandidateGeneration::FullyConnected {
        activity_vertex_type: 2,
        object_vertex_types,
        min_number_of_activity_vertices: 2,
        max_number_of_activity_vertices: 2,
    }
}

fn similarity<K: std::hash::Hash + Eq + Copy>(one: &HashMap<K, usize>, other: &HashMap<K, usize>) -> f64 {
    let mut dot = 0.0f64;
    let mut norm_one = 0.0f64;
    let mut norm_other = 0.0f64;
    for (key, v1) in one.iter() {
        let v2 = *other.get(key).unwrap_or(&0) as f64;
        dot += *v1 as f64 * v2;
        norm_one += (*v1 as f64) * (*v1 as f64);
    }
    for v2 in other.values() {
        norm_other += (*v2 as f64) * (*v2 as f64);
    }
    if norm_one == 0.0 || norm_other == 0.0 {
        return 0.0;
    }
    dot / (norm_one.sqrt() * norm_other.sqrt())
}

fn cosine(one_graph: &Graph, other_graph: &Graph, alpha: f64, matching_threshold: f64) -> MatchingResult {
    let edges = |g: &Graph| -> HashMap<(usize, usize, usize, usize, usize), usize> {
        g.get_edge_vector().entries.iter().copied().collect()
    };
    let sim_vertices = similarity(&one_graph.get_vertex_vector(), &other_graph.get_vertex_vector());
    let sim_edges = similarity(&edges(one_graph), &edges(other_graph));
    let s = alpha * sim_vertices + (1.0 - alpha) * sim_edges;
    classify_similarity(s >= 1.0 - 1e-8, s >= matching_threshold, one_graph, other_graph)
}

fn summary(patterns: &Vec<PatternResult>) -> Vec<(usize, Vec<usize>, usize, usize)> {
    patterns
        .iter()
        .map(|p| {
            (
                p.pattern.id,
                p.pattern.vertices.iter().map(|v| v.label).collect(),
                p.frequency_exact,
                p.frequency_relaxed,
            )
        })
        .collect()
}

#[test]
fn one_input_graph_keeps_all_its_candidates() {
    let candidates = pairs(vec![]).get_candidates(&vec![ring(0, false)]);
    assert_eq!(candidates[0].len(), 3);
    for strategy in [AlgoCandidateMatching::Naive, AlgoCandidateMatching::Parallel] {
        let patterns = strategy.run_matching(&candidates, &AlgoGraphMatching::VF2IsomorphismTest, 1, 1);
        assert_eq!(
            summary(&patterns),
            vec![(0, vec![1, 2], 1, 1), (1, vec![1, 3], 1, 1), (2, vec![2, 3], 1, 1)]
        );
    }
}

#[test]
fn two_equal_input_graphs_give_each_pattern_once_with_frequency_two() {
    let candidates = pairs(vec![4]).get_candidates(&vec![ring(0, true), ring(1, true)]);
    assert_eq!(candidates[0].len(), 3);
    assert_eq!(candidates[1].len(), 3);
    let matcher = |a: &Graph, b: &Graph| cosine(a, b, 0.5, 0.8);
    for strategy in [AlgoCandidateMatching::Naive, AlgoCandidateMatching::Parallel] {
        let (patterns, cache) = strategy.run_matching_with(&candidates, &matcher, 2, 2);
        assert_eq!(
            summary(&patterns),
            vec![(0, vec![1, 2, 4], 2, 2), (1, vec![1, 3, 4], 2, 2), (2, vec![2, 3, 4], 2, 2)]
        );
        assert_eq!(cache.get(1, 4), Some(MatchingResult::ExactMatch));
        assert_eq!(cache.get(4, 1), Some(MatchingResult::ExactMatch));
        assert_eq!(cache.get(1, 2), None);
    }
}

#[test]
fn equal_histograms_without_isomorphism_are_a_relaxed_match() {
    let mut chain = Graph::new(1);
    let mut fork = Graph::new(2);
    for g in [&mut chain, &mut fork] {
        g.create_vertex_with_data(1, 1);
        g.create_vertex_with_data(1, 1);
        g.create_vertex_with_data(1, 1);
    }
    chain.vertices.get_mut(0).unwrap().push(1, 0);
    chain.vertices.get_mut(1).unwrap().push(2, 0);
    fork.vertices.get_mut(0).unwrap().push(1, 0);
    fork.vertices.get_mut(0).unwrap().push(2, 0);
    assert_eq!(cosine(&chain, &fork, 0.5, 1.0), MatchingResult::RelaxedMatch);
    assert_eq!(cosine(&fork, &chain, 0.5, 1.0), MatchingResult::RelaxedMatch);
    assert_eq!(cosine(&chain, &chain.duplicate(), 0.5, 1.0), MatchingResult::ExactMatch);
    // graphs without vertices have similarity 0
    assert_eq!(cosine(&Graph::new(0), &Graph::new(1), 0.5, 0.5), MatchingResult::NoMatch);
}

#[test]
fn every_pair_of_different_input_graphs_is_evaluated_once() {
    let candidates = pairs(vec![]).get_candidates(&vec![ring(0, false), ring(1, false), ring(2, false)]);
    let calls = Cell::new(0usize);
    let order: std::cell::RefCell<Vec<(usize, usize)>> = std::cell::RefCell::new(Vec::new());
    let matcher = |a: &Graph, b: &Graph| {
        calls.set(calls.get() + 1);
        order.borrow_mut().push((a.id, b.id));
        AlgoGraphMatching::VF2IsomorphismTest.match_graphs(a, b)
    };
    let cache = fill_match_cache(&candidates, &matcher);
    // 3 candidates in each of 3 graphs: 3 pairs of graphs with 9 pairs each
    assert_eq!(calls.get(), 27);
    assert_eq!(order.borrow()[0], (1, 4));
    assert_eq!(order.borrow()[3], (1, 7));
    assert_eq!(order.borrow()[6], (2, 4));
    assert!(order.borrow().iter().all(|(a, b)| a < b));
    assert_eq!(cache.get(9, 1), Some(MatchingResult::NoMatch));
    assert_eq!(cache.get(3, 9), Some(MatchingResult::ExactMatch));
    assert_eq!(cache.get(7, 9), None);
}

fn labelled(id: usize, labels: &[usize]) -> Graph {
    let mut g = Graph::new(id);
    for l in labels {
        g.create_vertex_with_data(*l, 1);
    }
    g
}

#[test]
fn frequencies_count_input_graphs_not_candidates() {
    // graph 0 holds a; graph 1 holds two copies of a; graph 2 holds a near miss
    let candidates = vec![
        vec![labelled(1, &[1, 2])],
        vec![labelled(2, &[1, 2]), labelled(3, &[2, 1])],
        vec![labelled(4, &[1, 5])],
    ];
    let algo = AlgoGraphMatching::GEDFastHungarian { edit_costs: GEDEditCosts::default(), matching_threshold: 1 };
    assert!(takes_every_candidate(&candidates, &algo));
    let cache = fill_match_cache(&candidates, &|a: &Graph, b: &Graph| algo.match_graphs(a, b));
    let all = collect_survivors(&candidates, &cache, 1, 1);
    assert_eq!(
        summary(&all),
        vec![(1, vec![1, 2], 2, 3), (2, vec![1, 2], 2, 3), (3, vec![2, 1], 2, 3), (4, vec![1, 5], 1, 3)]
    );
    // thresholds are alternatives
    assert_eq!(collect_survivors(&candidates, &cache, 2, 9).len(), 3);
    assert_eq!(collect_survivors(&candidates, &cache, 9, 3).len(), 4);
    assert_eq!(collect_survivors(&candidates, &cache, 3, 4).len(), 0);
    // the first survivor takes out its exact partners behind it, here both candidates of graph 1
    let unique = deduplicate(&all, &cache);
    assert_eq!(summary(&unique), vec![(1, vec![1, 2], 2, 3), (4, vec![1, 5], 1, 3)]);
}

#[test]
fn exact_partners_of_one_input_graph_both_stay() {
    // the two candidates of graph 1 are never compared with each other
    let candidates = vec![vec![labelled(1, &[7])], vec![labelled(2, &[1, 2]), labelled(3, &[2, 1])]];
    let patterns =
        AlgoCandidateMatching::Parallel.run_matching(&candidates, &AlgoGraphMatching::VF2IsomorphismTest, 1, 1);
    assert_eq!(summary(&patterns), vec![(0, vec![7], 1, 1), (1, vec![1, 2], 1, 1), (2, vec![2, 1], 1, 1)]);
}

#[test]
fn lower_thresholds_keep_every_survivor() {
    let candidates = pairs(vec![4]).get_candidates(&vec![ring(0, true), ring(1, false), ring(2, true)]);
    let algo = AlgoGraphMatching::GEDFastHungarian { edit_costs: GEDEditCosts::default(), matching_threshold: 2 };
    let cache = fill_match_cache(&candidates, &|a: &Graph, b: &Graph| algo.match_graphs(a, b));
    let mut last: Vec<usize> = Vec::new();
    for support in [4usize, 3, 2, 1] {
        let ids: Vec<usize> =
            collect_survivors(&candidates, &cache, support, support).iter().map(|p| p.pattern.id).collect();
        assert!(last.iter().all(|id| ids.contains(id)));
        last = ids;
    }
    assert_eq!(last.len(), 9);
}

#[test]
fn both_strategies_give_the_same_patterns() {
    let candidates = pairs(vec![4]).get_candidates(&vec![ring(0, true), ring(1, false), ring(2, true)]);
    for algo in [
        AlgoGraphMatching::VF2IsomorphismTest,
        AlgoGraphMatching::GEDFastHungarian { edit_costs: GEDEditCosts::default(), matching_threshold: 2 },
    ] {
        let matcher = |a: &Graph, b: &Graph| algo.match_graphs(a, b);
        for support in [1usize, 2, 3] {
            let (one, _) = run_naive(&candidates, &matcher, support, support);
            let (other, _) = run_parallel(&candidates, &matcher, support, support);
            assert_eq!(summary(&one), summary(&other));
            let numbered = AlgoCandidateMatching::Naive.run_matching(&candidates, &algo, support, support);
            assert_eq!(numbered.len(), one.len());
        }
    }
    let vf2 = |a: &Graph, b: &Graph| AlgoGraphMatching::VF2IsomorphismTest.match_graphs(a, b);
    let (patterns, _) = run_parallel(&candidates, &vf2, 2, 2);
    // graphs 0 and 2 agree; the candidates of graph 2 are exact partners and dropped
    assert_eq!(summary(&patterns), vec![(1, vec![1, 2, 4], 2, 2), (2, vec![1, 3, 4], 2, 2), (3, vec![2, 3, 4], 2, 2)]);
}

#[test]
fn numbering_the_patterns_twice_is_numbering_them_once() {
    let candidates = pairs(vec![]).get_candidates(&vec![ring(0, false)]);
    let vf2 = |a: &Graph, b: &Graph| AlgoGraphMatching::VF2IsomorphismTest.match_graphs(a, b);
    let (mut patterns, _) = run_naive(&candidates, &vf2, 1, 1);
    assert_eq!(patterns.iter().map(|p| p.pattern.id).collect::<Vec<_>>(), vec![1, 2, 3]);
    reassign_ids(&mut patterns);
    let once = summary(&patterns);
    assert_eq!(once.iter().map(|p| p.0).collect::<Vec<_>>(), vec![0, 1, 2]);
    reassign_ids(&mut patterns);
    assert_eq!(summary(&patterns), once);
}

#[test]
fn the_cache_keeps_one_slot_for_both_orders_of_a_pair() {
    let mut cache = MatchCache::new();
    assert_eq!(cache.get(3, 5), None);
    cache.insert(5, 3, MatchingResult::RelaxedMatch);
    assert_eq!(cache.get(3, 5), Some(MatchingResult::RelaxedMatch));
    assert_eq!(cache.get(5, 3), Some(MatchingResult::RelaxedMatch));
    assert_eq!(cache.get(5, 4), None);
    cache.insert(3, 5, MatchingResult::ExactMatch);
    assert_eq!(cache.get(5, 3), Some(MatchingResult::ExactMatch));
}

#[test]
fn the_pipeline_runs_generation_and_matching() {
    let config = CPDConfig::new(pairs(vec![4]), AlgoGraphMatching::VF2IsomorphismTest, 2, 2, true);
    let patterns = config.run(&vec![ring(0, true), ring(1, true)]).unwrap();
    assert_eq!(
        summary(&patterns),
        vec![(0, vec![1, 2, 4], 2, 2), (1, vec![1, 3, 4], 2, 2), (2, vec![2, 3, 4], 2, 2)]
    );
    assert_eq!(patterns[1].pattern.to_str_repr(Some(2), Some(2)), "t # 1 * 2 / 2\nv 0 1 2\nv 1 3 2\nv 2 4 4\ne 0 2 9\ne 1 0 0\ne 1 2 9");
    assert!(config.run(&Vec::new()).unwrap().is_empty());
    // an algorithm that does not take the candidates gives no result
    let expensive = GEDEditCosts { node_sub: 1, node_ins: 1, node_del: 1, edge_sub: 1, edge_ins: 1, edge_del: 70000 };
    let config = CPDConfig::new(
        pairs(vec![4]),
        AlgoGraphMatching::GEDFastHungarian { edit_costs: expensive, matching_threshold: 1 },
        2,
        2,
        true,
    );
    assert!(config.run(&vec![ring(0, true), ring(1, true)]).is_none());
}

#[test]
fn test_cosine_similarity() {
    let mut one_graph = Graph::new(1);
    one_graph.create_vertex_with_data(1, 2);
    one_graph.create_vertex_with_data(2, 2);
    one_graph.create_vertex_with_data(3, 4);
    one_graph.create_vertex_with_data(4, 2);
    one_graph.vertices.get_mut(0).unwrap().push(1, 0);
    one_graph.vertices.get_mut(0).unwrap().push(2, 0);
    one_graph.vertices.get_mut(1).unwrap().push(2, 0);
    one_graph.vertices.get_mut(1).unwrap().push(3, 0);
    one_graph.vertices.get_mut(3).unwrap().push(2, 0);
    let mut other_eq_graph = Graph::new(1);
    other_eq_graph.create_vertex_with_data(1, 2);
    other_eq_graph.create_vertex_with_data(2, 2);
    other_eq_graph.create_vertex_with_data(3, 4);
    other_eq_graph.create_vertex_with_data(4, 2);
    other_eq_graph.vertices.get_mut(0).unwrap().push(1, 0);
    other_eq_graph.vertices.get_mut(0).unwrap().push(2, 0);
    other_eq_graph.vertices.get_mut(1).unwrap().push(2, 0);
    other_eq_graph.vertices.get_mut(1).unwrap().push(3, 0);
    other_eq_graph.vertices.get_mut(3).unwrap().push(2, 0);
    assert_eq!(cosine(&one_graph, &other_eq_graph, 0.5, 1.0), MatchingResult::ExactMatch);
    assert_eq!(cosine(&one_graph, &other_eq_graph, 0.5, 0.5), MatchingResult::ExactMatch);

    let mut other_graph = Graph::new(1);
    other_graph.create_vertex_with_data(1, 2);
    other_graph.create_vertex_with_data(2, 2);
    other_graph.create_vertex_with_data(5, 4);
    other_graph.create_vertex_with_data(4, 2);
    other_graph.vertices.get_mut(0).unwrap().push(1, 0);
    other_graph.vertices.get_mut(0).unwrap().push(2, 0);
    other_graph.vertices.get_mut(1).unwrap().push(2, 0);
    other_graph.vertices.get_mut(1).unwrap().push(3, 0);
    other_graph.vertices.get_mut(3).unwrap().push(2, 0);

    assert_eq!(cosine(&one_graph, &other_graph, 0.5, 0.6), MatchingResult::NoMatch);
    assert_eq!(cosine(&one_graph, &other_graph, 0.5, 0.5), MatchingResult::RelaxedMatch);
}

#[test]
fn repeated_ids_are_found() {
    assert!(have_unique_ids(&Vec::new()));
    assert!(have_unique_ids(&vec![vec![labelled(1, &[1]), labelled(2, &[1])], vec![], vec![labelled(3, &[1])]]));
    assert!(!have_unique_ids(&vec![vec![labelled(1, &[1]), labelled(1, &[2])]]));
    assert!(!have_unique_ids(&vec![vec![labelled(1, &[1]), labelled(2, &[1])], vec![labelled(5, &[1]), labelled(2, &[1])]]));
    let candidates = pairs(vec![4]).get_candidates(&vec![ring(0, true), ring(1, true)]);
    assert!(have_unique_ids(&candidates));
}
