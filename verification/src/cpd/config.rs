//! The pipeline: candidate generation, then candidate matching.

use vstd::prelude::*;
use crate::cpd::candidate_generation::AlgoCandidateGeneration;
use crate::cpd::candidate_generation::GraphIdGenerator;
use crate::cpd::candidate_generation::get_fully_connected_candidates;
use crate::cpd::candidate_generation::graph_candidates;
use crate::cpd::candidate_generation::lemma_candidate_ids_unique;
use crate::cpd::candidate_generation::lemma_total_candidates_mono;
use crate::cpd::candidate_generation::sat_add;
use crate::cpd::candidate_generation::total_candidates;
use crate::cpd::candidate_matching::AlgoCandidateMatching;
use crate::cpd::candidate_matching::PatternResult;
use crate::cpd::candidate_matching::accepts_all;
use crate::cpd::candidate_matching::algo_table;
use crate::cpd::candidate_matching::id_at;
use crate::cpd::candidate_matching::ids_unique;
use crate::cpd::candidate_matching::is_pattern_list;
use crate::cpd::candidate_matching::is_position;
use crate::cpd::candidate_matching::takes_every_candidate;
use crate::cpd::graph_matching::AlgoGraphMatching;
use crate::data::graph::Graph;

verus! {

/// The configuration of a mining run: how candidates are generated, how
/// they are counted, how two graphs are compared, and the two support
/// thresholds.
#[derive(Debug)]
pub struct CPDConfig {
    pub algo_candidate_generation: AlgoCandidateGeneration,
    pub algo_candidate_matching: AlgoCandidateMatching,
    pub algo_graph_matching: AlgoGraphMatching,
    pub support_exact: usize,
    pub support_relaxed: usize,
    pub silence: bool,
}

/// `cands` holds the candidates of each graph, with ids that count from 1
/// through the lists in order.
pub open spec fn all_candidates(graphs: Seq<Graph>, generation: &AlgoCandidateGeneration, cands: Seq<Vec<Graph>>) -> bool {
    &&& cands.len() == graphs.len()
    &&& forall|g: int|
        0 <= g < graphs.len() ==> graph_candidates(
            &graphs[g],
            generation->activity_vertex_type,
            generation->object_vertex_types@,
            generation->min_number_of_activity_vertices,
            generation->max_number_of_activity_vertices,
            (#[trigger] cands[g])@,
            sat_add(0, total_candidates(cands, g)),
        )
}

/// Candidates whose ids have not reached `usize::MAX` have unique ids.
pub proof fn lemma_ids_unique(graphs: Seq<Graph>, generation: &AlgoCandidateGeneration, cands: Seq<Vec<Graph>>)
    requires
        all_candidates(graphs, generation, cands),
        total_candidates(cands, cands.len() as int) < usize::MAX,
    ensures
        ids_unique(cands),
{
    assert forall|ia: int, ka: int, ib: int, kb: int|
        is_position(cands, ia, ka) && is_position(cands, ib, kb) && !(ia == ib && ka == kb) implies #[trigger] id_at(
        cands,
        ia,
        ka,
    ) != #[trigger] id_at(cands, ib, kb) by {
        if ia < ib || (ia == ib && ka < kb) {
            lemma_candidate_ids_unique(
                graphs,
                generation->activity_vertex_type,
                generation->object_vertex_types@,
                generation->min_number_of_activity_vertices,
                generation->max_number_of_activity_vertices,
                cands,
                ia,
                ka,
                ib,
                kb,
            );
        } else {
            lemma_candidate_ids_unique(
                graphs,
                generation->activity_vertex_type,
                generation->object_vertex_types@,
                generation->min_number_of_activity_vertices,
                generation->max_number_of_activity_vertices,
                cands,
                ib,
                kb,
                ia,
                ka,
            );
        }
    }
}

impl CPDConfig {
    /// A configuration that counts the input graphs side by side.
    pub fn new(
        algo_candidate_generation: AlgoCandidateGeneration,
        algo_graph_matching: AlgoGraphMatching,
        support_exact: usize,
        support_relaxed: usize,
        silence: bool,
    ) -> (config: CPDConfig)
        ensures
            config.algo_candidate_generation == algo_candidate_generation,
            config.algo_candidate_matching == AlgoCandidateMatching::Parallel,
            config.algo_graph_matching == algo_graph_matching,
            config.support_exact == support_exact,
            config.support_relaxed == support_relaxed,
            config.silence == silence,
    {
        CPDConfig {
            algo_candidate_generation,
            algo_candidate_matching: AlgoCandidateMatching::Parallel,
            algo_graph_matching,
            support_exact,
            support_relaxed,
            silence,
        }
    }

    /// Runs the pipeline: generates the candidates of every graph, counts
    /// them across the graphs and returns the patterns. There is no result
    /// where the candidate ids have run out or the matching algorithm does
    /// not take a candidate.
    pub fn run(&self, graphs: &Vec<Graph>) -> (patterns: Option<Vec<PatternResult>>)
        requires
            forall|g: int| 0 <= g < graphs@.len() ==> (#[trigger] graphs@[g]).wf(),
            self.algo_candidate_generation->min_number_of_activity_vertices >= 1,
        ensures
            exists|cands: Seq<Vec<Graph>>|
                #[trigger] all_candidates(graphs@, &self.algo_candidate_generation, cands) && match patterns {
                    Some(p) => {
                        &&& total_candidates(cands, cands.len() as int) < usize::MAX
                        &&& accepts_all(cands, &self.algo_graph_matching)
                        &&& is_pattern_list(
                            p@,
                            cands,
                            algo_table(cands, &self.algo_graph_matching),
                            self.support_exact,
                            self.support_relaxed,
                        )
                    },
                    None => !(total_candidates(cands, cands.len() as int) < usize::MAX && accepts_all(
                        cands,
                        &self.algo_graph_matching,
                    )),
                },
    {
        let mut graph_id_generator = GraphIdGenerator::new();
        let candidates = match &self.algo_candidate_generation {
            AlgoCandidateGeneration::FullyConnected {
                activity_vertex_type,
                object_vertex_types,
                min_number_of_activity_vertices,
                max_number_of_activity_vertices,
            } => get_fully_connected_candidates(
                graphs,
                *activity_vertex_type,
                object_vertex_types,
                *min_number_of_activity_vertices,
                *max_number_of_activity_vertices,
                &mut graph_id_generator,
            ),
        };
        assert(all_candidates(graphs@, &self.algo_candidate_generation, candidates@));
        assert(graph_id_generator.last == sat_add(0, total_candidates(candidates@, candidates@.len() as int)));
        let ids_left = graph_id_generator.last < usize::MAX;
        proof {
            lemma_total_candidates_mono(candidates@, 0, candidates@.len() as int);
        }
        assert(ids_left == (total_candidates(candidates@, candidates@.len() as int) < usize::MAX));
        if !ids_left || !takes_every_candidate(&candidates, &self.algo_graph_matching) {
            return None;
        }
        proof {
            lemma_ids_unique(graphs@, &self.algo_candidate_generation, candidates@);
        }
        let result = self.algo_candidate_matching.run_matching(
            &candidates,
            &self.algo_graph_matching,
            self.support_exact,
            self.support_relaxed,
        );
        Some(result)
    }
}

} // verus!
