//! Cross-graph frequency counting and de-duplication of candidates.

use vstd::prelude::*;
use crate::cpd::graph_matching::MatchingResult;
use crate::cpd::match_cache::MatchCache;
use crate::cpd::match_cache::pair_key;
use crate::data::graph::Graph;
use crate::data::graph::same_content;
use crate::data::graph::lemma_same_content_transitive;
use crate::data::graph::lemma_same_content_symmetric;
use crate::cpd::graph_matching::AlgoGraphMatching;
use std::collections::HashSet;
use rayon::iter::IntoParallelIterator;
use rayon::iter::ParallelIterator;

verus! {

/// A pattern with the number of input graphs in which it occurs.
#[derive(Debug, Clone)]
pub struct PatternResult {
    /// The pattern itself.
    pub pattern: Graph,
    /// Number of input graphs that hold an exact match of the pattern.
    pub frequency_exact: usize,
    /// Number of input graphs that hold an exact or a relaxed match.
    pub frequency_relaxed: usize,
}

/// `ka` is a position in the candidate list of input graph `ia`.
pub open spec fn is_position(cands: Seq<Vec<Graph>>, ia: int, ka: int) -> bool {
    0 <= ia < cands.len() && 0 <= ka < cands[ia]@.len()
}

/// The id of the candidate at a position.
pub open spec fn id_at(cands: Seq<Vec<Graph>>, ia: int, ka: int) -> usize {
    cands[ia]@[ka].id
}

/// No two candidates have the same id.
pub open spec fn ids_unique(cands: Seq<Vec<Graph>>) -> bool {
    forall|ia: int, ka: int, ib: int, kb: int|
        is_position(cands, ia, ka) && is_position(cands, ib, kb) && !(ia == ib && ka == kb) ==> #[trigger] id_at(
            cands,
            ia,
            ka,
        ) != #[trigger] id_at(cands, ib, kb)
}

/// Two candidates of different input graphs, the one of the earlier graph first.
pub open spec fn valid_pair(cands: Seq<Vec<Graph>>, ia: int, ka: int, ib: int, kb: int) -> bool {
    is_position(cands, ia, ka) && is_position(cands, ib, kb) && ia < ib
}

/// The cache key of a pair of candidates.
pub open spec fn key_of(cands: Seq<Vec<Graph>>, ia: int, ka: int, ib: int, kb: int) -> (usize, usize) {
    pair_key(id_at(cands, ia, ka), id_at(cands, ib, kb))
}

/// The pair is evaluated before candidate `ka0` of graph `ia0` meets graph `ib0`.
pub open spec fn evaluated_before(ia: int, ka: int, ib: int, ia0: int, ka0: int, ib0: int) -> bool {
    ia < ia0 || (ia == ia0 && ka < ka0) || (ia == ia0 && ka == ka0 && ib < ib0)
}

/// The table holds a result for the pairs evaluated so far and for no other key,
/// each result one that the matcher gives for the pair.
pub open spec fn table_upto<F: Fn(&Graph, &Graph) -> MatchingResult>(
    cands: Seq<Vec<Graph>>,
    matcher: &F,
    t: Map<(usize, usize), MatchingResult>,
    ia0: int,
    ka0: int,
    ib0: int,
) -> bool {
    &&& forall|k: (usize, usize)|
        t.contains_key(k) ==> exists|ia: int, ka: int, ib: int, kb: int|
            #[trigger] valid_pair(cands, ia, ka, ib, kb) && evaluated_before(ia, ka, ib, ia0, ka0, ib0) && key_of(
                cands,
                ia,
                ka,
                ib,
                kb,
            ) == k
    &&& forall|ia: int, ka: int, ib: int, kb: int|
        #[trigger] valid_pair(cands, ia, ka, ib, kb) && evaluated_before(ia, ka, ib, ia0, ka0, ib0) ==> t.contains_key(
            key_of(cands, ia, ka, ib, kb),
        ) && matcher.ensures((&cands[ia]@[ka], &cands[ib]@[kb]), t[key_of(cands, ia, ka, ib, kb)])
}

/// The table of a whole run: a result for every pair of candidates of
/// different input graphs, under the key of their ids, and for no other key;
/// each result is one that the matcher gives for the pair, the candidate of
/// the earlier graph as its first argument.
pub open spec fn is_match_table<F: Fn(&Graph, &Graph) -> MatchingResult>(
    cands: Seq<Vec<Graph>>,
    matcher: &F,
    t: Map<(usize, usize), MatchingResult>,
) -> bool {
    &&& forall|k: (usize, usize)|
        t.contains_key(k) ==> exists|ia: int, ka: int, ib: int, kb: int|
            #[trigger] valid_pair(cands, ia, ka, ib, kb) && key_of(cands, ia, ka, ib, kb) == k
    &&& forall|ia: int, ka: int, ib: int, kb: int|
        #[trigger] valid_pair(cands, ia, ka, ib, kb) ==> t.contains_key(key_of(cands, ia, ka, ib, kb))
            && matcher.ensures((&cands[ia]@[ka], &cands[ib]@[kb]), t[key_of(cands, ia, ka, ib, kb)])
}

/// The matcher takes every pair of candidates.
pub open spec fn takes_all<F: Fn(&Graph, &Graph) -> MatchingResult>(cands: Seq<Vec<Graph>>, matcher: &F) -> bool {
    forall|ia: int, ka: int, ib: int, kb: int|
        #[trigger] valid_pair(cands, ia, ka, ib, kb) ==> matcher.requires((&cands[ia]@[ka], &cands[ib]@[kb]))
}

/// Looks up, or computes and stores, the result of candidate `ka` of graph
/// `ia` against every candidate of graph `ib`.
fn match_against_graph<F: Fn(&Graph, &Graph) -> MatchingResult>(
    candidates: &Vec<Vec<Graph>>,
    matcher: &F,
    cache: &mut MatchCache,
    ia: usize,
    ka: usize,
    ib: usize,
)
    requires
        ids_unique(candidates@),
        takes_all(candidates@, matcher),
        is_position(candidates@, ia as int, ka as int),
        ia < ib < candidates@.len(),
        table_upto(candidates@, matcher, old(cache)@, ia as int, ka as int, ib as int),
    ensures
        table_upto(candidates@, matcher, final(cache)@, ia as int, ka as int, ib as int + 1),
{
    let a = &candidates[ia][ka];
    let list = &candidates[ib];
    let ghost cands = candidates@;
    let ghost t0 = cache@;
    let mut kb: usize = 0;
    while kb < list.len()
        invariant
            cands == candidates@,
            ids_unique(cands),
            takes_all(cands, matcher),
            is_position(cands, ia as int, ka as int),
            ia < ib < cands.len(),
            *a == cands[ia as int]@[ka as int],
            *list == cands[ib as int],
            kb <= list@.len(),
            table_upto(cands, matcher, t0, ia as int, ka as int, ib as int),
            forall|k: (usize, usize)|
                cache@.contains_key(k) ==> t0.contains_key(k) || exists|j: int|
                    0 <= j < kb && k == #[trigger] key_of(cands, ia as int, ka as int, ib as int, j),
            forall|k: (usize, usize)| t0.contains_key(k) ==> cache@.contains_key(k) && cache@[k] == t0[k],
            forall|j: int|
                0 <= j < kb ==> cache@.contains_key(#[trigger] key_of(cands, ia as int, ka as int, ib as int, j))
                    && matcher.ensures(
                    (&cands[ia as int]@[ka as int], &cands[ib as int]@[j]),
                    cache@[key_of(cands, ia as int, ka as int, ib as int, j)],
                ),
        decreases list@.len() - kb,
    {
        let b = &list[kb];
        let ghost key = key_of(cands, ia as int, ka as int, ib as int, kb as int);
        let ghost before = cache@;
        assert(valid_pair(cands, ia as int, ka as int, ib as int, kb as int));
        proof {
            // the pair has not been evaluated yet
            if before.contains_key(key) {
                if t0.contains_key(key) {
                    let (ja, la, jb, lb) = choose|ja: int, la: int, jb: int, lb: int|
                        #[trigger] valid_pair(cands, ja, la, jb, lb) && evaluated_before(
                            ja,
                            la,
                            jb,
                            ia as int,
                            ka as int,
                            ib as int,
                        ) && key_of(cands, ja, la, jb, lb) == key;
                    lemma_same_key_same_pair(cands, ja, la, jb, lb, ia as int, ka as int, ib as int, kb as int);
                    assert(false);
                } else {
                    let j = choose|j: int|
                        0 <= j < kb && key == #[trigger] key_of(cands, ia as int, ka as int, ib as int, j);
                    assert(valid_pair(cands, ia as int, ka as int, ib as int, j));
                    lemma_same_key_same_pair(cands, ia as int, ka as int, ib as int, j, ia as int, ka as int, ib as int, kb as int);
                    assert(false);
                }
            }
        }
        match cache.get(a.id, b.id) {
            Some(_) => {},
            None => {
                let result = matcher(a, b);
                cache.insert(a.id, b.id, result);
            },
        }
        proof {
            assert(cache@ == before.insert(key, cache@[key]));
            assert forall|j: int| 0 <= j < kb + 1 implies cache@.contains_key(
                #[trigger] key_of(cands, ia as int, ka as int, ib as int, j),
            ) && matcher.ensures(
                (&cands[ia as int]@[ka as int], &cands[ib as int]@[j]),
                cache@[key_of(cands, ia as int, ka as int, ib as int, j)],
            ) by {
                if j < kb {
                    let kj = key_of(cands, ia as int, ka as int, ib as int, j);
                    assert(before.contains_key(kj));
                    assert(kj != key);
                }
            }
            assert forall|k: (usize, usize)| cache@.contains_key(k) implies t0.contains_key(k) || exists|j: int|
                0 <= j < kb + 1 && k == #[trigger] key_of(cands, ia as int, ka as int, ib as int, j) by {
                if k != key {
                    assert(before.contains_key(k));
                    if !t0.contains_key(k) {
                        let j = choose|j: int|
                            0 <= j < kb && k == #[trigger] key_of(cands, ia as int, ka as int, ib as int, j);
                        assert(0 <= j < kb + 1 && k == key_of(cands, ia as int, ka as int, ib as int, j));
                    }
                }
            }
        }
        kb += 1;
    }
    proof {
        let t = cache@;
        assert forall|k: (usize, usize)| t.contains_key(k) implies exists|ja: int, la: int, jb: int, lb: int|
            #[trigger] valid_pair(cands, ja, la, jb, lb) && evaluated_before(
                ja,
                la,
                jb,
                ia as int,
                ka as int,
                ib as int + 1,
            ) && key_of(cands, ja, la, jb, lb) == k by {
            if t0.contains_key(k) {
                let (ja, la, jb, lb) = choose|ja: int, la: int, jb: int, lb: int|
                    #[trigger] valid_pair(cands, ja, la, jb, lb) && evaluated_before(
                        ja,
                        la,
                        jb,
                        ia as int,
                        ka as int,
                        ib as int,
                    ) && key_of(cands, ja, la, jb, lb) == k;
                assert(valid_pair(cands, ja, la, jb, lb) && evaluated_before(
                    ja,
                    la,
                    jb,
                    ia as int,
                    ka as int,
                    ib as int + 1,
                ));
            } else {
                let j = choose|j: int| 0 <= j < kb && k == #[trigger] key_of(cands, ia as int, ka as int, ib as int, j);
                assert(valid_pair(cands, ia as int, ka as int, ib as int, j));
            }
        }
        assert forall|ja: int, la: int, jb: int, lb: int|
            #[trigger] valid_pair(cands, ja, la, jb, lb) && evaluated_before(
                ja,
                la,
                jb,
                ia as int,
                ka as int,
                ib as int + 1,
            ) implies t.contains_key(key_of(cands, ja, la, jb, lb)) && matcher.ensures(
            (&cands[ja]@[la], &cands[jb]@[lb]),
            t[key_of(cands, ja, la, jb, lb)],
        ) by {
            if evaluated_before(ja, la, jb, ia as int, ka as int, ib as int) {
                assert(t0.contains_key(key_of(cands, ja, la, jb, lb)));
            } else {
                assert(ja == ia && la == ka && jb == ib);
                assert(cache@.contains_key(key_of(cands, ia as int, ka as int, ib as int, lb)));
            }
        }
    }
}

/// With unique ids, two pairs with the same key are the same pair.
proof fn lemma_same_key_same_pair(
    cands: Seq<Vec<Graph>>,
    ia: int,
    ka: int,
    ib: int,
    kb: int,
    ja: int,
    la: int,
    jb: int,
    lb: int,
)
    requires
        ids_unique(cands),
        valid_pair(cands, ia, ka, ib, kb),
        valid_pair(cands, ja, la, jb, lb),
        key_of(cands, ia, ka, ib, kb) == key_of(cands, ja, la, jb, lb),
    ensures
        ia == ja && ka == la && ib == jb && kb == lb,
{
    let a = id_at(cands, ia, ka);
    let b = id_at(cands, ib, kb);
    let c = id_at(cands, ja, la);
    let d = id_at(cands, jb, lb);
    assert(a != b);
    assert(c != d);
    if a == c {
        assert(b == d);
        if !(ia == ja && ka == la) {
            assert(id_at(cands, ia, ka) != id_at(cands, ja, la));
        }
        if !(ib == jb && kb == lb) {
            assert(id_at(cands, ib, kb) != id_at(cands, jb, lb));
        }
    } else {
        assert(a == d && b == c);
        if !(ia == jb && ka == lb) {
            assert(id_at(cands, ia, ka) != id_at(cands, jb, lb));
        }
        if !(ib == ja && kb == la) {
            assert(id_at(cands, ib, kb) != id_at(cands, ja, la));
        }
    }
}

/// Two points of the run before which the same pairs are evaluated have the
/// same tables.
proof fn lemma_table_range<F: Fn(&Graph, &Graph) -> MatchingResult>(
    cands: Seq<Vec<Graph>>,
    matcher: &F,
    t: Map<(usize, usize), MatchingResult>,
    a0: int,
    k0: int,
    b0: int,
    a1: int,
    k1: int,
    b1: int,
)
    requires
        table_upto(cands, matcher, t, a0, k0, b0),
        forall|ia: int, ka: int, ib: int, kb: int|
            #[trigger] valid_pair(cands, ia, ka, ib, kb) ==> (evaluated_before(ia, ka, ib, a0, k0, b0)
                <==> evaluated_before(ia, ka, ib, a1, k1, b1)),
    ensures
        table_upto(cands, matcher, t, a1, k1, b1),
{
    assert forall|k: (usize, usize)| t.contains_key(k) implies exists|ia: int, ka: int, ib: int, kb: int|
        #[trigger] valid_pair(cands, ia, ka, ib, kb) && evaluated_before(ia, ka, ib, a1, k1, b1) && key_of(
            cands,
            ia,
            ka,
            ib,
            kb,
        ) == k by {
        let (ia, ka, ib, kb) = choose|ia: int, ka: int, ib: int, kb: int|
            #[trigger] valid_pair(cands, ia, ka, ib, kb) && evaluated_before(ia, ka, ib, a0, k0, b0) && key_of(
                cands,
                ia,
                ka,
                ib,
                kb,
            ) == k;
        assert(valid_pair(cands, ia, ka, ib, kb) && evaluated_before(ia, ka, ib, a1, k1, b1));
    }
}

/// Looks up, or computes and stores, the result of candidate `ka` of graph
/// `ia` against every candidate of the later graphs.
fn match_candidate<F: Fn(&Graph, &Graph) -> MatchingResult>(
    candidates: &Vec<Vec<Graph>>,
    matcher: &F,
    cache: &mut MatchCache,
    ia: usize,
    ka: usize,
)
    requires
        ids_unique(candidates@),
        takes_all(candidates@, matcher),
        is_position(candidates@, ia as int, ka as int),
        table_upto(candidates@, matcher, old(cache)@, ia as int, ka as int, ia as int + 1),
    ensures
        table_upto(candidates@, matcher, final(cache)@, ia as int, ka as int + 1, ia as int + 1),
{
    let n = candidates.len();
    let mut ib: usize = ia + 1;
    while ib < n
        invariant
            n == candidates@.len(),
            ids_unique(candidates@),
            takes_all(candidates@, matcher),
            is_position(candidates@, ia as int, ka as int),
            ia < ib <= n,
            table_upto(candidates@, matcher, cache@, ia as int, ka as int, ib as int),
        decreases n - ib,
    {
        match_against_graph(candidates, matcher, cache, ia, ka, ib);
        ib += 1;
    }
    proof {
        lemma_table_range(candidates@, matcher, cache@, ia as int, ka as int, n as int, ia as int, ka as int + 1, ia as int + 1);
    }
}

/// Looks up, or computes and stores, the results of the candidates of graph
/// `ia` against every candidate of the later graphs.
fn match_block<F: Fn(&Graph, &Graph) -> MatchingResult>(
    candidates: &Vec<Vec<Graph>>,
    matcher: &F,
    cache: &mut MatchCache,
    ia: usize,
)
    requires
        ids_unique(candidates@),
        takes_all(candidates@, matcher),
        ia < candidates@.len(),
        table_upto(candidates@, matcher, old(cache)@, ia as int, 0, ia as int + 1),
    ensures
        table_upto(candidates@, matcher, final(cache)@, ia as int + 1, 0, ia as int + 2),
{
    let m = candidates[ia].len();
    let mut ka: usize = 0;
    while ka < m
        invariant
            ids_unique(candidates@),
            takes_all(candidates@, matcher),
            ia < candidates@.len(),
            m == candidates@[ia as int]@.len(),
            ka <= m,
            table_upto(candidates@, matcher, cache@, ia as int, ka as int, ia as int + 1),
        decreases m - ka,
    {
        match_candidate(candidates, matcher, cache, ia, ka);
        ka += 1;
    }
    proof {
        lemma_table_range(candidates@, matcher, cache@, ia as int, m as int, ia as int + 1, ia as int + 1, 0, ia as int + 2);
    }
}

/// Evaluates every pair of candidates of different input graphs once, in
/// the order of the candidates, and memoizes the results under the keys of
/// the pairs.
pub fn fill_match_cache<F: Fn(&Graph, &Graph) -> MatchingResult>(candidates: &Vec<Vec<Graph>>, matcher: &F) -> (cache:
    MatchCache)
    requires
        ids_unique(candidates@),
        takes_all(candidates@, matcher),
    ensures
        is_match_table(candidates@, matcher, cache@),
{
    let mut cache = MatchCache::new();
    let n = candidates.len();
    let mut ia: usize = 0;
    while ia < n
        invariant
            n == candidates@.len(),
            ids_unique(candidates@),
            takes_all(candidates@, matcher),
            ia <= n,
            table_upto(candidates@, matcher, cache@, ia as int, 0, ia as int + 1),
        decreases n - ia,
    {
        match_block(candidates, matcher, &mut cache, ia);
        ia += 1;
    }
    proof {
        let t = cache@;
        let cands = candidates@;
        assert forall|k: (usize, usize)| t.contains_key(k) implies exists|ia: int, ka: int, ib: int, kb: int|
            #[trigger] valid_pair(cands, ia, ka, ib, kb) && key_of(cands, ia, ka, ib, kb) == k by {
            let (ja, la, jb, lb) = choose|ja: int, la: int, jb: int, lb: int|
                #[trigger] valid_pair(cands, ja, la, jb, lb) && evaluated_before(ja, la, jb, n as int, 0, n as int + 1)
                    && key_of(cands, ja, la, jb, lb) == k;
            assert(valid_pair(cands, ja, la, jb, lb) && key_of(cands, ja, la, jb, lb) == k);
        }
    }
    cache
}

/// The result that the table holds for a pair of ids, if it holds one.
pub open spec fn result_of(t: Map<(usize, usize), MatchingResult>, a: usize, b: usize) -> Option<MatchingResult> {
    if t.contains_key(pair_key(a, b)) {
        Some(t[pair_key(a, b)])
    } else {
        None
    }
}

/// Some candidate of the list matches the graph with id `a` exactly.
pub open spec fn exact_in(t: Map<(usize, usize), MatchingResult>, a: usize, list: Seq<Graph>) -> bool {
    exists|k: int| 0 <= k < list.len() && result_of(t, a, (#[trigger] list[k]).id) == Some(MatchingResult::ExactMatch)
}

/// Some candidate of the list is a relaxed match of the graph with id `a`.
pub open spec fn relaxed_in(t: Map<(usize, usize), MatchingResult>, a: usize, list: Seq<Graph>) -> bool {
    exists|k: int|
        0 <= k < list.len() && result_of(t, a, (#[trigger] list[k]).id) == Some(MatchingResult::RelaxedMatch)
}

/// Among the first `n` input graphs, without graph `ia`, the number of those
/// that hold an exact match of the graph with id `a`.
pub open spec fn exact_support(cands: Seq<Vec<Graph>>, t: Map<(usize, usize), MatchingResult>, ia: int, a: usize, n: int) -> int
    decreases n,
{
    if n <= 0 {
        0
    } else {
        exact_support(cands, t, ia, a, n - 1) + (if n - 1 != ia && exact_in(t, a, cands[n - 1]@) {
            1int
        } else {
            0int
        })
    }
}

/// Among the first `n` input graphs, without graph `ia`, the number of those
/// that hold an exact or a relaxed match of the graph with id `a`.
pub open spec fn relaxed_support(cands: Seq<Vec<Graph>>, t: Map<(usize, usize), MatchingResult>, ia: int, a: usize, n: int) -> int
    decreases n,
{
    if n <= 0 {
        0
    } else {
        relaxed_support(cands, t, ia, a, n - 1) + (if n - 1 != ia && (exact_in(t, a, cands[n - 1]@) || relaxed_in(
            t,
            a,
            cands[n - 1]@,
        )) {
            1int
        } else {
            0int
        })
    }
}

/// The exact frequency of a candidate: itself, and every other input graph
/// with an exact match.
pub open spec fn frequency_exact(cands: Seq<Vec<Graph>>, t: Map<(usize, usize), MatchingResult>, ia: int, ka: int) -> int {
    1 + exact_support(cands, t, ia, id_at(cands, ia, ka), cands.len() as int)
}

/// The relaxed frequency of a candidate: itself, and every other input graph
/// with an exact or a relaxed match.
pub open spec fn frequency_relaxed(cands: Seq<Vec<Graph>>, t: Map<(usize, usize), MatchingResult>, ia: int, ka: int) -> int {
    1 + relaxed_support(cands, t, ia, id_at(cands, ia, ka), cands.len() as int)
}

/// The candidate reaches one of the two support thresholds.
pub open spec fn survives(
    cands: Seq<Vec<Graph>>,
    t: Map<(usize, usize), MatchingResult>,
    support_exact: usize,
    support_relaxed: usize,
    ia: int,
    ka: int,
) -> bool {
    frequency_exact(cands, t, ia, ka) >= support_exact || frequency_relaxed(cands, t, ia, ka) >= support_relaxed
}

/// The positions of the surviving candidates among the first `k` of graph `ia`.
pub open spec fn survivors_of(
    cands: Seq<Vec<Graph>>,
    t: Map<(usize, usize), MatchingResult>,
    support_exact: usize,
    support_relaxed: usize,
    ia: int,
    k: int,
) -> Seq<(int, int)>
    decreases k,
{
    if k <= 0 {
        Seq::empty()
    } else if survives(cands, t, support_exact, support_relaxed, ia, k - 1) {
        survivors_of(cands, t, support_exact, support_relaxed, ia, k - 1).push((ia, k - 1))
    } else {
        survivors_of(cands, t, support_exact, support_relaxed, ia, k - 1)
    }
}

/// The positions of the surviving candidates of the first `n` input graphs:
/// graph by graph in input order, within a graph in candidate order.
pub open spec fn survivors(
    cands: Seq<Vec<Graph>>,
    t: Map<(usize, usize), MatchingResult>,
    support_exact: usize,
    support_relaxed: usize,
    n: int,
) -> Seq<(int, int)>
    decreases n,
{
    if n <= 0 {
        Seq::empty()
    } else {
        survivors(cands, t, support_exact, support_relaxed, n - 1) + survivors_of(
            cands,
            t,
            support_exact,
            support_relaxed,
            n - 1,
            cands[n - 1]@.len() as int,
        )
    }
}

/// The pattern result `r` is the candidate at the position, with its two
/// frequencies.
pub open spec fn describes(
    r: PatternResult,
    cands: Seq<Vec<Graph>>,
    t: Map<(usize, usize), MatchingResult>,
    ia: int,
    ka: int,
) -> bool {
    &&& r.pattern.id == id_at(cands, ia, ka)
    &&& same_content(&cands[ia]@[ka], &r.pattern)
    &&& r.frequency_exact == frequency_exact(cands, t, ia, ka)
    &&& r.frequency_relaxed == frequency_relaxed(cands, t, ia, ka)
}

/// The pattern results are the candidates at the positions, one for one.
pub open spec fn describe_all(
    rs: Seq<PatternResult>,
    cands: Seq<Vec<Graph>>,
    t: Map<(usize, usize), MatchingResult>,
    positions: Seq<(int, int)>,
) -> bool {
    &&& rs.len() == positions.len()
    &&& forall|k: int|
        0 <= k < rs.len() ==> is_position(cands, (#[trigger] positions[k]).0, positions[k].1) && describes(
            rs[k],
            cands,
            t,
            positions[k].0,
            positions[k].1,
        )
}

proof fn lemma_describe_push(
    rs: Seq<PatternResult>,
    cands: Seq<Vec<Graph>>,
    t: Map<(usize, usize), MatchingResult>,
    positions: Seq<(int, int)>,
    r: PatternResult,
    ia: int,
    ka: int,
)
    requires
        describe_all(rs, cands, t, positions),
        is_position(cands, ia, ka),
        describes(r, cands, t, ia, ka),
    ensures
        describe_all(rs.push(r), cands, t, positions.push((ia, ka))),
{
    let rs2 = rs.push(r);
    let ps2 = positions.push((ia, ka));
    assert(rs2.len() == ps2.len());
    assert forall|k: int| 0 <= k < rs2.len() implies is_position(cands, (#[trigger] ps2[k]).0, ps2[k].1) && describes(
        rs2[k],
        cands,
        t,
        ps2[k].0,
        ps2[k].1,
    ) by {
        if k < rs.len() {
            assert(rs2[k] == rs[k]);
            assert(ps2[k] == positions[k]);
        } else {
            assert(rs2[k] == r);
            assert(ps2[k] == (ia, ka));
        }
    }
}

proof fn lemma_describe_concat(
    rs: Seq<PatternResult>,
    rs2: Seq<PatternResult>,
    cands: Seq<Vec<Graph>>,
    t: Map<(usize, usize), MatchingResult>,
    positions: Seq<(int, int)>,
    positions2: Seq<(int, int)>,
)
    requires
        describe_all(rs, cands, t, positions),
        describe_all(rs2, cands, t, positions2),
    ensures
        describe_all(rs + rs2, cands, t, positions + positions2),
{
    let all = rs + rs2;
    let ps = positions + positions2;
    assert(all.len() == ps.len());
    assert forall|k: int| 0 <= k < all.len() implies is_position(cands, (#[trigger] ps[k]).0, ps[k].1) && describes(
        all[k],
        cands,
        t,
        ps[k].0,
        ps[k].1,
    ) by {
        if k < rs.len() {
            assert(all[k] == rs[k]);
            assert(ps[k] == positions[k]);
        } else {
            assert(all[k] == rs2[k - rs.len()]);
            assert(ps[k] == positions2[k - rs.len()]);
        }
    }
}

/// Whether the list holds an exact, and whether it holds a relaxed match of `a`.
fn scan_graph(cache: &MatchCache, a: &Graph, list: &Vec<Graph>) -> (r: (bool, bool))
    ensures
        r.0 == exact_in(cache@, a.id, list@),
        r.1 == relaxed_in(cache@, a.id, list@),
{
    let mut exact_match_found = false;
    let mut relaxed_found = false;
    let mut k: usize = 0;
    while k < list.len()
        invariant
            k <= list@.len(),
            exact_match_found == exists|j: int|
                0 <= j < k && result_of(cache@, a.id, (#[trigger] list@[j]).id) == Some(MatchingResult::ExactMatch),
            relaxed_found == exists|j: int|
                0 <= j < k && result_of(cache@, a.id, (#[trigger] list@[j]).id) == Some(MatchingResult::RelaxedMatch),
        decreases list@.len() - k,
    {
        let b = &list[k];
        match cache.get(a.id, b.id) {
            Some(MatchingResult::ExactMatch) => {
                exact_match_found = true;
            },
            Some(MatchingResult::RelaxedMatch) => {
                relaxed_found = true;
            },
            _ => {},
        }
        k += 1;
    }
    (exact_match_found, relaxed_found)
}

proof fn lemma_support_bounds(cands: Seq<Vec<Graph>>, t: Map<(usize, usize), MatchingResult>, ia: int, a: usize, n: int)
    requires
        0 <= n,
    ensures
        0 <= exact_support(cands, t, ia, a, n) <= relaxed_support(cands, t, ia, a, n) <= n,
        0 <= ia < n ==> relaxed_support(cands, t, ia, a, n) <= n - 1,
    decreases n,
{
    if n > 0 {
        lemma_support_bounds(cands, t, ia, a, n - 1);
    }
}

/// The two frequencies of a candidate.
fn count_support(candidates: &Vec<Vec<Graph>>, cache: &MatchCache, ia: usize, ka: usize) -> (r: (usize, usize))
    requires
        is_position(candidates@, ia as int, ka as int),
    ensures
        r.0 == frequency_exact(candidates@, cache@, ia as int, ka as int),
        r.1 == frequency_relaxed(candidates@, cache@, ia as int, ka as int),
{
    let a = &candidates[ia][ka];
    let n = candidates.len();
    let mut freq_exact: usize = 1;
    let mut freq_relaxed: usize = 1;
    let mut ib: usize = 0;
    while ib < n
        invariant
            n == candidates@.len(),
            is_position(candidates@, ia as int, ka as int),
            *a == candidates@[ia as int]@[ka as int],
            ib <= n,
            freq_exact == 1 + exact_support(candidates@, cache@, ia as int, a.id, ib as int),
            freq_relaxed == 1 + relaxed_support(candidates@, cache@, ia as int, a.id, ib as int),
        decreases n - ib,
    {
        proof {
            lemma_support_bounds(candidates@, cache@, ia as int, a.id, ib as int);
            lemma_support_bounds(candidates@, cache@, ia as int, a.id, ib as int + 1);
            lemma_support_bounds(candidates@, cache@, ia as int, a.id, n as int);
        }
        if ib != ia {
            let (exact_match_found, relaxed_found) = scan_graph(cache, a, &candidates[ib]);
            if exact_match_found {
                freq_exact = freq_exact + 1;
                freq_relaxed = freq_relaxed + 1;
            } else if relaxed_found {
                freq_relaxed = freq_relaxed + 1;
            }
        }
        ib += 1;
    }
    (freq_exact, freq_relaxed)
}

/// The surviving candidates of input graph `ia`, in candidate order, each
/// with its two frequencies.
pub fn block_survivors(
    candidates: &Vec<Vec<Graph>>,
    cache: &MatchCache,
    support_exact: usize,
    support_relaxed: usize,
    ia: usize,
) -> (local: Vec<PatternResult>)
    requires
        ia < candidates@.len(),
    ensures
        describe_all(
            local@,
            candidates@,
            cache@,
            survivors_of(
                candidates@,
                cache@,
                support_exact,
                support_relaxed,
                ia as int,
                candidates@[ia as int]@.len() as int,
            ),
        ),
{
    let mut local: Vec<PatternResult> = Vec::new();
    let m = candidates[ia].len();
    let mut ka: usize = 0;
    while ka < m
        invariant
            ia < candidates@.len(),
            m == candidates@[ia as int]@.len(),
            ka <= m,
            describe_all(
                local@,
                candidates@,
                cache@,
                survivors_of(candidates@, cache@, support_exact, support_relaxed, ia as int, ka as int),
            ),
        decreases m - ka,
    {
        let (freq_exact, freq_relaxed) = count_support(candidates, cache, ia, ka);
        let ghost before = local@;
        let ghost pos_before = survivors_of(candidates@, cache@, support_exact, support_relaxed, ia as int, ka as int);
        let ghost pos_after = survivors_of(candidates@, cache@, support_exact, support_relaxed, ia as int, ka as int + 1);
        if freq_exact >= support_exact || freq_relaxed >= support_relaxed {
            let candidate_a = &candidates[ia][ka];
            let result = PatternResult {
                pattern: candidate_a.duplicate(),
                frequency_exact: freq_exact,
                frequency_relaxed: freq_relaxed,
            };
            assert(describes(result, candidates@, cache@, ia as int, ka as int));
            local.push(result);
            proof {
                assert(survives(candidates@, cache@, support_exact, support_relaxed, ia as int, ka as int));
                assert(pos_after == pos_before.push((ia as int, ka as int)));
                lemma_describe_push(before, candidates@, cache@, pos_before, result, ia as int, ka as int);
            }
        } else {
            assert(!survives(candidates@, cache@, support_exact, support_relaxed, ia as int, ka as int));
            assert(pos_after == pos_before);
            assert(describe_all(local@, candidates@, cache@, pos_after));
        }
        ka += 1;
    }
    local
}

/// The surviving candidates of all input graphs, graph by graph in input
/// order, each with its two frequencies.
pub fn collect_survivors(
    candidates: &Vec<Vec<Graph>>,
    cache: &MatchCache,
    support_exact: usize,
    support_relaxed: usize,
) -> (all_results: Vec<PatternResult>)
    ensures
        describe_all(
            all_results@,
            candidates@,
            cache@,
            survivors(candidates@, cache@, support_exact, support_relaxed, candidates@.len() as int),
        ),
{
    let mut all_results: Vec<PatternResult> = Vec::new();
    let n = candidates.len();
    let mut ia: usize = 0;
    while ia < n
        invariant
            n == candidates@.len(),
            ia <= n,
            describe_all(
                all_results@,
                candidates@,
                cache@,
                survivors(candidates@, cache@, support_exact, support_relaxed, ia as int),
            ),
        decreases n - ia,
    {
        let mut local = block_survivors(candidates, cache, support_exact, support_relaxed, ia);
        proof {
            lemma_describe_concat(
                all_results@,
                local@,
                candidates@,
                cache@,
                survivors(candidates@, cache@, support_exact, support_relaxed, ia as int),
                survivors_of(
                    candidates@,
                    cache@,
                    support_exact,
                    support_relaxed,
                    ia as int,
                    candidates@[ia as int]@.len() as int,
                ),
            );
        }
        all_results.append(&mut local);
        ia += 1;
    }
    all_results
}

/// The ids of the patterns of a list of results.
pub open spec fn ids_of(rs: Seq<PatternResult>) -> Seq<usize> {
    Seq::new(rs.len(), |k: int| rs[k].pattern.id)
}

/// The ids, among those behind position `i` and before position `j`, that
/// differ from the id at `i` and for which the table holds an exact match
/// with it.
pub open spec fn marked_upto(t: Map<(usize, usize), MatchingResult>, ids: Seq<usize>, i: int, j: int) -> Set<usize> {
    Set::new(
        |x: usize|
            exists|l: int|
                i < l < j && l < ids.len() && #[trigger] ids[l] == x && x != ids[i] && result_of(t, ids[i], x) == Some(
                    MatchingResult::ExactMatch,
                ),
    )
}

/// The ids behind position `i` that the survivor at `i` takes out.
pub open spec fn marked_by(t: Map<(usize, usize), MatchingResult>, ids: Seq<usize>, i: int) -> Set<usize> {
    marked_upto(t, ids, i, ids.len() as int)
}

/// The positions, from `i` on, of the survivors that are emitted when the
/// ids in `visited` are taken out already: a survivor that is not taken out
/// is emitted and takes out its own id and the ids of its exact partners
/// behind it.
pub open spec fn kept_from(t: Map<(usize, usize), MatchingResult>, ids: Seq<usize>, i: int, visited: Set<usize>) -> Seq<int>
    decreases ids.len() - i,
{
    if i < 0 || i >= ids.len() {
        Seq::empty()
    } else if visited.contains(ids[i]) {
        kept_from(t, ids, i + 1, visited)
    } else {
        seq![i] + kept_from(t, ids, i + 1, visited.insert(ids[i]).union(marked_by(t, ids, i)))
    }
}

/// The positions of the survivors that de-duplication emits.
pub open spec fn kept(t: Map<(usize, usize), MatchingResult>, ids: Seq<usize>) -> Seq<int> {
    kept_from(t, ids, 0, Set::empty())
}

/// The same pattern, content for content, with the same frequencies.
pub open spec fn same_result(a: PatternResult, b: PatternResult) -> bool {
    &&& a.pattern.id == b.pattern.id
    &&& same_content(&a.pattern, &b.pattern)
    &&& a.frequency_exact == b.frequency_exact
    &&& a.frequency_relaxed == b.frequency_relaxed
}

/// `unique` holds the results of `all` at the given positions.
pub open spec fn picks(unique: Seq<PatternResult>, all: Seq<PatternResult>, positions: Seq<int>) -> bool {
    &&& unique.len() == positions.len()
    &&& forall|k: int|
        0 <= k < positions.len() ==> 0 <= (#[trigger] positions[k]) < all.len() && same_result(
            all[positions[k]],
            unique[k],
        )
}

/// A copy of a pattern result.
fn copy_result(r: &PatternResult) -> (c: PatternResult)
    ensures
        same_result(*r, c),
{
    PatternResult {
        pattern: r.pattern.duplicate(),
        frequency_exact: r.frequency_exact,
        frequency_relaxed: r.frequency_relaxed,
    }
}

/// Marks the exact partners of survivor `i` that come behind it.
fn mark_partners(all_results: &Vec<PatternResult>, cache: &MatchCache, i: usize, visited: &mut HashSet<usize>)
    requires
        i < all_results@.len(),
    ensures
        final(visited)@ == old(visited)@.union(marked_by(cache@, ids_of(all_results@), i as int)),
{
    broadcast use vstd::std_specs::hash::group_hash_axioms;

    let one_graph = &all_results[i];
    let n = all_results.len();
    let ghost ids = ids_of(all_results@);
    let ghost v0 = visited@;
    let mut j: usize = i + 1;
    proof {
        assert(v0.union(marked_upto(cache@, ids, i as int, j as int)) =~= v0);
    }
    while j < n
        invariant
            n == all_results@.len(),
            ids == ids_of(all_results@),
            i < j <= n,
            *one_graph == all_results@[i as int],
            visited@ == v0.union(marked_upto(cache@, ids, i as int, j as int)),
        decreases n - j,
    {
        let other_graph = &all_results[j];
        let ghost before = visited@;
        let mut hit = false;
        if one_graph.pattern.id != other_graph.pattern.id {
            match cache.get(one_graph.pattern.id, other_graph.pattern.id) {
                Some(MatchingResult::ExactMatch) => {
                    visited.insert(other_graph.pattern.id);
                    hit = true;
                },
                _ => {},
            }
        }
        proof {
            let x = ids[j as int];
            assert(x == other_graph.pattern.id);
            assert(ids[i as int] == one_graph.pattern.id);
            let m0 = marked_upto(cache@, ids, i as int, j as int);
            let m1 = marked_upto(cache@, ids, i as int, j as int + 1);
            if hit {
                assert(m1 =~= m0.insert(x)) by {
                    assert forall|y: usize| m1.contains(y) implies m0.insert(x).contains(y) by {
                        let l = choose|l: int|
                            i < l < j + 1 && l < ids.len() && #[trigger] ids[l] == y && y != ids[i as int] && result_of(
                                cache@,
                                ids[i as int],
                                y,
                            ) == Some(MatchingResult::ExactMatch);
                        if l < j {
                            assert(m0.contains(y));
                        }
                    }
                    assert forall|y: usize| m0.insert(x).contains(y) implies m1.contains(y) by {
                        if y == x {
                            assert(ids[j as int] == y);
                        } else {
                            let l = choose|l: int|
                                i < l < j && l < ids.len() && #[trigger] ids[l] == y && y != ids[i as int] && result_of(
                                    cache@,
                                    ids[i as int],
                                    y,
                                ) == Some(MatchingResult::ExactMatch);
                            assert(i < l < j + 1 && ids[l] == y);
                        }
                    }
                }
                assert(visited@ =~= v0.union(m1));
            } else {
                assert(m1 =~= m0) by {
                    assert forall|y: usize| m1.contains(y) implies m0.contains(y) by {
                        let l = choose|l: int|
                            i < l < j + 1 && l < ids.len() && #[trigger] ids[l] == y && y != ids[i as int] && result_of(
                                cache@,
                                ids[i as int],
                                y,
                            ) == Some(MatchingResult::ExactMatch);
                        if l == j {
                            assert(false);
                        }
                    }
                    assert forall|y: usize| m0.contains(y) implies m1.contains(y) by {
                        let l = choose|l: int|
                            i < l < j && l < ids.len() && #[trigger] ids[l] == y && y != ids[i as int] && result_of(
                                cache@,
                                ids[i as int],
                                y,
                            ) == Some(MatchingResult::ExactMatch);
                        assert(i < l < j + 1 && ids[l] == y);
                    }
                }
            }
        }
        j += 1;
    }
}

/// Walks the survivors in order: a survivor that no earlier one has taken
/// out is emitted, and takes out the later survivors for which the cache
/// holds an exact match with it.
pub fn deduplicate(all_results: &Vec<PatternResult>, cache: &MatchCache) -> (unique: Vec<PatternResult>)
    ensures
        picks(unique@, all_results@, kept(cache@, ids_of(all_results@))),
{
    broadcast use vstd::std_specs::hash::group_hash_axioms;

    let mut unique: Vec<PatternResult> = Vec::new();
    let mut visited: HashSet<usize> = HashSet::new();
    let n = all_results.len();
    let ghost ids = ids_of(all_results@);
    let ghost t = cache@;
    let ghost mut emitted: Seq<int> = Seq::empty();
    let mut i: usize = 0;
    proof {
        assert(visited@ =~= Set::<usize>::empty());
        assert(emitted + kept_from(t, ids, 0, visited@) =~= kept(t, ids));
    }
    while i < n
        invariant
            n == all_results@.len(),
            ids == ids_of(all_results@),
            t == cache@,
            i <= n,
            kept(t, ids) == emitted + kept_from(t, ids, i as int, visited@),
            picks(unique@, all_results@, emitted),
        decreases n - i,
    {
        let one_graph = &all_results[i];
        assert(ids[i as int] == one_graph.pattern.id);
        if !visited.contains(&one_graph.pattern.id) {
            let ghost v0 = visited@;
            visited.insert(one_graph.pattern.id);
            mark_partners(all_results, cache, i, &mut visited);
            let copy = copy_result(one_graph);
            let ghost unique_before = unique@;
            unique.push(copy);
            proof {
                let rest = kept_from(t, ids, i as int + 1, v0.insert(ids[i as int]).union(marked_by(t, ids, i as int)));
                assert(kept_from(t, ids, i as int, v0) == seq![i as int] + rest);
                let emitted_before = emitted;
                emitted = emitted.push(i as int);
                assert(emitted + rest =~= emitted_before + (seq![i as int] + rest));
                assert forall|k: int| 0 <= k < emitted.len() implies 0 <= (#[trigger] emitted[k]) < all_results@.len()
                    && same_result(all_results@[emitted[k]], unique@[k]) by {
                    if k < emitted_before.len() {
                        assert(emitted[k] == emitted_before[k]);
                        assert(unique@[k] == unique_before[k]);
                    }
                }
            }
        }
        i += 1;
    }
    proof {
        assert(emitted + kept_from(t, ids, n as int, visited@) =~= emitted);
    }
    unique
}

/// The ids of the candidates at the given positions.
pub open spec fn survivor_ids(cands: Seq<Vec<Graph>>, s: Seq<(int, int)>) -> Seq<usize> {
    Seq::new(s.len(), |k: int| id_at(cands, s[k].0, s[k].1))
}

/// The positions of the candidates that make up the result: the survivors
/// that de-duplication emits.
pub open spec fn final_positions(
    cands: Seq<Vec<Graph>>,
    t: Map<(usize, usize), MatchingResult>,
    support_exact: usize,
    support_relaxed: usize,
) -> Seq<(int, int)> {
    let s = survivors(cands, t, support_exact, support_relaxed, cands.len() as int);
    let k = kept(t, survivor_ids(cands, s));
    Seq::new(k.len(), |i: int| s[k[i]])
}

/// `rs` is the list of patterns with the ids 0, 1, 2 and so on: the
/// candidates at the final positions, content for content, each with its two
/// frequencies.
pub open spec fn is_pattern_list(
    rs: Seq<PatternResult>,
    cands: Seq<Vec<Graph>>,
    t: Map<(usize, usize), MatchingResult>,
    support_exact: usize,
    support_relaxed: usize,
) -> bool {
    let p = final_positions(cands, t, support_exact, support_relaxed);
    &&& rs.len() == p.len()
    &&& forall|k: int|
        0 <= k < rs.len() ==> {
            &&& is_position(cands, (#[trigger] p[k]).0, p[k].1)
            &&& rs[k].pattern.id == k
            &&& same_content(&cands[p[k].0]@[p[k].1], &rs[k].pattern)
            &&& rs[k].frequency_exact == frequency_exact(cands, t, p[k].0, p[k].1)
            &&& rs[k].frequency_relaxed == frequency_relaxed(cands, t, p[k].0, p[k].1)
        }
}

/// The results with the ids 0, 1, 2 and so on in place of their own.
pub open spec fn with_ids(rs: Seq<PatternResult>) -> Seq<PatternResult> {
    Seq::new(
        rs.len(),
        |k: int|
            PatternResult {
                pattern: Graph { id: k as usize, vertices: rs[k].pattern.vertices },
                frequency_exact: rs[k].frequency_exact,
                frequency_relaxed: rs[k].frequency_relaxed,
            },
    )
}

/// Rewriting the ids a second time changes nothing.
pub proof fn lemma_with_ids_idempotent(rs: Seq<PatternResult>)
    ensures
        with_ids(with_ids(rs)) == with_ids(rs),
{
    assert(with_ids(with_ids(rs)) =~= with_ids(rs));
}

/// Gives the patterns the ids 0, 1, 2 and so on, in the order of the list.
pub fn reassign_ids(result: &mut Vec<PatternResult>)
    ensures
        final(result)@ == with_ids(old(result)@),
{
    let n = result.len();
    let ghost before = result@;
    let mut i: usize = 0;
    while i < n
        invariant
            n == before.len(),
            result@.len() == n,
            i <= n,
            forall|k: int| 0 <= k < i ==> #[trigger] result@[k] == with_ids(before)[k],
            forall|k: int| i <= k < n ==> #[trigger] result@[k] == before[k],
        decreases n - i,
    {
        result[i].pattern.id = i;
        i += 1;
    }
    assert(result@ =~= with_ids(before));
}

/// The survivors that de-duplication emits, ids as the candidates have them.
pub open spec fn is_survivor_list(
    rs: Seq<PatternResult>,
    cands: Seq<Vec<Graph>>,
    t: Map<(usize, usize), MatchingResult>,
    support_exact: usize,
    support_relaxed: usize,
) -> bool {
    describe_all(rs, cands, t, final_positions(cands, t, support_exact, support_relaxed))
}

proof fn lemma_dedup_describes(
    unique: Seq<PatternResult>,
    all: Seq<PatternResult>,
    cands: Seq<Vec<Graph>>,
    t: Map<(usize, usize), MatchingResult>,
    support_exact: usize,
    support_relaxed: usize,
)
    requires
        describe_all(all, cands, t, survivors(cands, t, support_exact, support_relaxed, cands.len() as int)),
        picks(unique, all, kept(t, ids_of(all))),
    ensures
        is_survivor_list(unique, cands, t, support_exact, support_relaxed),
{
    let s = survivors(cands, t, support_exact, support_relaxed, cands.len() as int);
    assert(ids_of(all) =~= survivor_ids(cands, s)) by {
        assert forall|k: int| 0 <= k < all.len() implies ids_of(all)[k] == survivor_ids(cands, s)[k] by {
            assert(is_position(cands, s[k].0, s[k].1));
        }
    }
    let ks = kept(t, ids_of(all));
    let p = final_positions(cands, t, support_exact, support_relaxed);
    assert(p.len() == ks.len());
    assert forall|k: int| 0 <= k < unique.len() implies is_position(cands, (#[trigger] p[k]).0, p[k].1) && describes(
        unique[k],
        cands,
        t,
        p[k].0,
        p[k].1,
    ) by {
        let i = ks[k];
        assert(0 <= i < all.len() && same_result(all[i], unique[k]));
        assert(p[k] == s[i]);
        assert(is_position(cands, s[i].0, s[i].1) && describes(all[i], cands, t, s[i].0, s[i].1));
        lemma_same_content_transitive(&cands[s[i].0]@[s[i].1], &all[i].pattern, &unique[k].pattern);
    }
}

/// Counts and de-duplicates one input graph after the other.
pub fn run_naive<F: Fn(&Graph, &Graph) -> MatchingResult>(
    candidates: &Vec<Vec<Graph>>,
    matcher: &F,
    support_exact: usize,
    support_relaxed: usize,
) -> (r: (Vec<PatternResult>, MatchCache))
    requires
        ids_unique(candidates@),
        takes_all(candidates@, matcher),
    ensures
        is_match_table(candidates@, matcher, r.1@),
        is_survivor_list(r.0@, candidates@, r.1@, support_exact, support_relaxed),
{
    let match_results = fill_match_cache(candidates, matcher);
    let resulting_candidates = collect_survivors(candidates, &match_results, support_exact, support_relaxed);
    let unique = deduplicate(&resulting_candidates, &match_results);
    proof {
        lemma_dedup_describes(
            unique@,
            resulting_candidates@,
            candidates@,
            match_results@,
            support_exact,
            support_relaxed,
        );
    }
    (unique, match_results)
}

/// `rayon`'s parallel map over the indices of the input graphs, collected
/// in index order: for each input graph the list that `block_survivors`
/// returns for it.
#[verifier::external_body]
fn par_block_survivors(
    candidates: &Vec<Vec<Graph>>,
    cache: &MatchCache,
    support_exact: usize,
    support_relaxed: usize,
) -> (blocks: Vec<Vec<PatternResult>>)
    ensures
        blocks@.len() == candidates@.len(),
        forall|ia: int|
            0 <= ia < candidates@.len() ==> describe_all(
                (#[trigger] blocks@[ia])@,
                candidates@,
                cache@,
                survivors_of(
                    candidates@,
                    cache@,
                    support_exact,
                    support_relaxed,
                    ia,
                    candidates@[ia]@.len() as int,
                ),
            ),
{
    (0..candidates.len()).into_par_iter().map(
        |ia| block_survivors(candidates, cache, support_exact, support_relaxed, ia),
    ).collect()
}

/// Counts the input graphs side by side, joins their blocks in input order
/// and de-duplicates.
pub fn run_parallel<F: Fn(&Graph, &Graph) -> MatchingResult>(
    candidates: &Vec<Vec<Graph>>,
    matcher: &F,
    support_exact: usize,
    support_relaxed: usize,
) -> (r: (Vec<PatternResult>, MatchCache))
    requires
        ids_unique(candidates@),
        takes_all(candidates@, matcher),
    ensures
        is_match_table(candidates@, matcher, r.1@),
        is_survivor_list(r.0@, candidates@, r.1@, support_exact, support_relaxed),
{
    let match_cache = fill_match_cache(candidates, matcher);
    let mut blocks = par_block_survivors(candidates, &match_cache, support_exact, support_relaxed);
    let mut all_results: Vec<PatternResult> = Vec::new();
    let n = blocks.len();
    let ghost blocks0 = blocks@;
    let mut ia: usize = 0;
    while ia < n
        invariant
            n == candidates@.len(),
            blocks@.len() == n,
            ia <= n,
            forall|j: int| ia <= j < n ==> #[trigger] blocks@[j] == blocks0[j],
            forall|j: int|
                0 <= j < n ==> describe_all(
                    (#[trigger] blocks0[j])@,
                    candidates@,
                    match_cache@,
                    survivors_of(
                        candidates@,
                        match_cache@,
                        support_exact,
                        support_relaxed,
                        j,
                        candidates@[j]@.len() as int,
                    ),
                ),
            describe_all(
                all_results@,
                candidates@,
                match_cache@,
                survivors(candidates@, match_cache@, support_exact, support_relaxed, ia as int),
            ),
        decreases n - ia,
    {
        proof {
            assert(blocks@[ia as int] == blocks0[ia as int]);
            lemma_describe_concat(
                all_results@,
                blocks0[ia as int]@,
                candidates@,
                match_cache@,
                survivors(candidates@, match_cache@, support_exact, support_relaxed, ia as int),
                survivors_of(
                    candidates@,
                    match_cache@,
                    support_exact,
                    support_relaxed,
                    ia as int,
                    candidates@[ia as int]@.len() as int,
                ),
            );
        }
        all_results.append(&mut blocks[ia]);
        ia += 1;
    }
    let unique = deduplicate(&all_results, &match_cache);
    proof {
        lemma_dedup_describes(unique@, all_results@, candidates@, match_cache@, support_exact, support_relaxed);
    }
    (unique, match_cache)
}

/// The strategies for the cross-graph counting.
#[derive(Debug)]
pub enum AlgoCandidateMatching {
    /// One input graph after the other.
    Naive,
    /// The input graphs side by side.
    Parallel,
}

/// The algorithm takes every candidate.
pub open spec fn accepts_all(cands: Seq<Vec<Graph>>, algo: &AlgoGraphMatching) -> bool {
    forall|ia: int, ka: int| is_position(cands, ia, ka) ==> algo.accepts(&#[trigger] cands[ia]@[ka])
}

/// The table of an algorithm: for every pair of candidates of different
/// input graphs, under the key of their ids, the class that the algorithm
/// gives the pair, the candidate of the earlier graph first; no other key.
pub open spec fn is_algo_table(
    cands: Seq<Vec<Graph>>,
    algo: &AlgoGraphMatching,
    t: Map<(usize, usize), MatchingResult>,
) -> bool {
    &&& forall|k: (usize, usize)|
        t.contains_key(k) ==> exists|ia: int, ka: int, ib: int, kb: int|
            #[trigger] valid_pair(cands, ia, ka, ib, kb) && key_of(cands, ia, ka, ib, kb) == k
    &&& forall|ia: int, ka: int, ib: int, kb: int|
        #[trigger] valid_pair(cands, ia, ka, ib, kb) ==> t.contains_key(key_of(cands, ia, ka, ib, kb)) && t[key_of(
            cands,
            ia,
            ka,
            ib,
            kb,
        )] == algo.matches(&cands[ia]@[ka], &cands[ib]@[kb])
}

/// The table of an algorithm on a collection of candidates.
pub open spec fn algo_table(cands: Seq<Vec<Graph>>, algo: &AlgoGraphMatching) -> Map<(usize, usize), MatchingResult> {
    choose|t: Map<(usize, usize), MatchingResult>| is_algo_table(cands, algo, t)
}

/// An algorithm has one table.
pub proof fn lemma_algo_table_unique(
    cands: Seq<Vec<Graph>>,
    algo: &AlgoGraphMatching,
    t: Map<(usize, usize), MatchingResult>,
)
    requires
        is_algo_table(cands, algo, t),
    ensures
        algo_table(cands, algo) == t,
{
    let u = algo_table(cands, algo);
    assert(is_algo_table(cands, algo, u));
    assert forall|k: (usize, usize)| t.contains_key(k) == u.contains_key(k) && (t.contains_key(k) ==> t[k] == u[k]) by {
        if t.contains_key(k) {
            let (ia, ka, ib, kb) = choose|ia: int, ka: int, ib: int, kb: int|
                #[trigger] valid_pair(cands, ia, ka, ib, kb) && key_of(cands, ia, ka, ib, kb) == k;
            assert(valid_pair(cands, ia, ka, ib, kb));
        }
        if u.contains_key(k) {
            let (ia, ka, ib, kb) = choose|ia: int, ka: int, ib: int, kb: int|
                #[trigger] valid_pair(cands, ia, ka, ib, kb) && key_of(cands, ia, ka, ib, kb) == k;
            assert(valid_pair(cands, ia, ka, ib, kb));
        }
    }
    assert(t =~= u);
}

proof fn lemma_renumbered(
    rs: Seq<PatternResult>,
    cands: Seq<Vec<Graph>>,
    t: Map<(usize, usize), MatchingResult>,
    support_exact: usize,
    support_relaxed: usize,
)
    requires
        is_survivor_list(rs, cands, t, support_exact, support_relaxed),
        rs.len() <= usize::MAX,
    ensures
        is_pattern_list(with_ids(rs), cands, t, support_exact, support_relaxed),
{
    let p = final_positions(cands, t, support_exact, support_relaxed);
    let ws = with_ids(rs);
    assert forall|k: int| 0 <= k < ws.len() implies {
        &&& is_position(cands, (#[trigger] p[k]).0, p[k].1)
        &&& ws[k].pattern.id == k
        &&& same_content(&cands[p[k].0]@[p[k].1], &ws[k].pattern)
        &&& ws[k].frequency_exact == frequency_exact(cands, t, p[k].0, p[k].1)
        &&& ws[k].frequency_relaxed == frequency_relaxed(cands, t, p[k].0, p[k].1)
    } by {
        assert(describes(rs[k], cands, t, p[k].0, p[k].1));
        assert(ws[k].pattern.vertices == rs[k].pattern.vertices);
    }
}

/// The position comes before candidate `ka` of graph `ia`.
pub open spec fn comes_before(ja: int, la: int, ia: int, ka: int) -> bool {
    ja < ia || (ja == ia && la < ka)
}

/// The candidates before a position have ids of their own, and `seen`
/// holds these ids.
pub open spec fn unique_upto(cands: Seq<Vec<Graph>>, seen: Set<usize>, ia: int, ka: int) -> bool {
    &&& forall|ja: int, la: int, jb: int, lb: int|
        is_position(cands, ja, la) && is_position(cands, jb, lb) && comes_before(ja, la, ia, ka) && comes_before(
            jb,
            lb,
            ia,
            ka,
        ) && !(ja == jb && la == lb) ==> #[trigger] id_at(cands, ja, la) != #[trigger] id_at(cands, jb, lb)
    &&& forall|ja: int, la: int|
        is_position(cands, ja, la) && comes_before(ja, la, ia, ka) ==> seen.contains(#[trigger] id_at(cands, ja, la))
    &&& forall|x: usize|
        seen.contains(x) ==> exists|ja: int, la: int|
            is_position(cands, ja, la) && comes_before(ja, la, ia, ka) && #[trigger] id_at(cands, ja, la) == x
}

/// Checks whether no two candidates have the same id.
pub fn have_unique_ids(candidates: &Vec<Vec<Graph>>) -> (b: bool)
    ensures
        b == ids_unique(candidates@),
{
    broadcast use vstd::std_specs::hash::group_hash_axioms;

    let mut seen: HashSet<usize> = HashSet::new();
    let n = candidates.len();
    let mut ia: usize = 0;
    while ia < n
        invariant
            n == candidates@.len(),
            ia <= n,
            unique_upto(candidates@, seen@, ia as int, 0),
        decreases n - ia,
    {
        let list = &candidates[ia];
        let mut ka: usize = 0;
        while ka < list.len()
            invariant
                n == candidates@.len(),
                ia < n,
                *list == candidates@[ia as int],
                ka <= list@.len(),
                unique_upto(candidates@, seen@, ia as int, ka as int),
            decreases list@.len() - ka,
        {
            let id = list[ka].id;
            let ghost before = seen@;
            assert(is_position(candidates@, ia as int, ka as int));
            assert(id == id_at(candidates@, ia as int, ka as int));
            if seen.contains(&id) {
                proof {
                    let (ja, la) = choose|ja: int, la: int|
                        is_position(candidates@, ja, la) && comes_before(ja, la, ia as int, ka as int) && #[trigger] id_at(
                            candidates@,
                            ja,
                            la,
                        ) == id;
                    assert(id_at(candidates@, ja, la) == id_at(candidates@, ia as int, ka as int));
                    assert(!(ja == ia && la == ka));
                }
                return false;
            }
            seen.insert(id);
            proof {
                assert forall|ja: int, la: int, jb: int, lb: int|
                    is_position(candidates@, ja, la) && is_position(candidates@, jb, lb) && comes_before(
                        ja,
                        la,
                        ia as int,
                        ka as int + 1,
                    ) && comes_before(jb, lb, ia as int, ka as int + 1) && !(ja == jb && la == lb) implies #[trigger] id_at(
                    candidates@,
                    ja,
                    la,
                ) != #[trigger] id_at(candidates@, jb, lb) by {
                    if ja == ia && la == ka {
                        assert(comes_before(jb, lb, ia as int, ka as int));
                        assert(before.contains(id_at(candidates@, jb, lb)));
                    } else if jb == ia && lb == ka {
                        assert(comes_before(ja, la, ia as int, ka as int));
                        assert(before.contains(id_at(candidates@, ja, la)));
                    } else {
                        assert(comes_before(ja, la, ia as int, ka as int));
                        assert(comes_before(jb, lb, ia as int, ka as int));
                    }
                }
                assert forall|ja: int, la: int|
                    is_position(candidates@, ja, la) && comes_before(ja, la, ia as int, ka as int + 1) implies seen@.contains(
                    #[trigger] id_at(candidates@, ja, la),
                ) by {
                    if !(ja == ia && la == ka) {
                        assert(comes_before(ja, la, ia as int, ka as int));
                    }
                }
                assert forall|x: usize| seen@.contains(x) implies exists|ja: int, la: int|
                    is_position(candidates@, ja, la) && comes_before(ja, la, ia as int, ka as int + 1) && #[trigger] id_at(
                        candidates@,
                        ja,
                        la,
                    ) == x by {
                    if x == id {
                        assert(comes_before(ia as int, ka as int, ia as int, ka as int + 1));
                    } else {
                        assert(before.contains(x));
                        let (ja, la) = choose|ja: int, la: int|
                            is_position(candidates@, ja, la) && comes_before(ja, la, ia as int, ka as int) && #[trigger] id_at(
                                candidates@,
                                ja,
                                la,
                            ) == x;
                        assert(comes_before(ja, la, ia as int, ka as int + 1));
                    }
                }
            }
            ka += 1;
        }
        proof {
            lemma_unique_upto_next(candidates@, seen@, ia as int);
        }
        ia += 1;
    }
    proof {
        assert forall|ja: int, la: int, jb: int, lb: int|
            is_position(candidates@, ja, la) && is_position(candidates@, jb, lb) && !(ja == jb && la == lb) implies #[trigger] id_at(
            candidates@,
            ja,
            la,
        ) != #[trigger] id_at(candidates@, jb, lb) by {
            assert(comes_before(ja, la, n as int, 0));
            assert(comes_before(jb, lb, n as int, 0));
        }
    }
    true
}

proof fn lemma_unique_upto_next(cands: Seq<Vec<Graph>>, seen: Set<usize>, ia: int)
    requires
        0 <= ia < cands.len(),
        unique_upto(cands, seen, ia, cands[ia]@.len() as int),
    ensures
        unique_upto(cands, seen, ia + 1, 0),
{
    let m = cands[ia]@.len() as int;
    assert forall|ja: int, la: int| is_position(cands, ja, la) implies (comes_before(ja, la, ia + 1, 0) <==> comes_before(
        ja,
        la,
        ia,
        m,
    )) by {}
    assert forall|ja: int, la: int, jb: int, lb: int|
        is_position(cands, ja, la) && is_position(cands, jb, lb) && comes_before(ja, la, ia + 1, 0) && comes_before(
            jb,
            lb,
            ia + 1,
            0,
        ) && !(ja == jb && la == lb) implies #[trigger] id_at(cands, ja, la) != #[trigger] id_at(cands, jb, lb) by {
        assert(comes_before(ja, la, ia, m));
        assert(comes_before(jb, lb, ia, m));
    }
    assert forall|ja: int, la: int| is_position(cands, ja, la) && comes_before(ja, la, ia + 1, 0) implies seen.contains(
        #[trigger] id_at(cands, ja, la),
    ) by {
        assert(comes_before(ja, la, ia, m));
    }
    assert forall|x: usize| seen.contains(x) implies exists|ja: int, la: int|
        is_position(cands, ja, la) && comes_before(ja, la, ia + 1, 0) && #[trigger] id_at(cands, ja, la) == x by {
        let (ja, la) = choose|ja: int, la: int|
            is_position(cands, ja, la) && comes_before(ja, la, ia, m) && #[trigger] id_at(cands, ja, la) == x;
        assert(comes_before(ja, la, ia + 1, 0));
    }
}

/// Checks whether the algorithm takes every candidate.
pub fn takes_every_candidate(candidates: &Vec<Vec<Graph>>, algo: &AlgoGraphMatching) -> (b: bool)
    ensures
        b == accepts_all(candidates@, algo),
{
    let n = candidates.len();
    let mut ia: usize = 0;
    while ia < n
        invariant
            n == candidates@.len(),
            ia <= n,
            forall|ja: int, ka: int| is_position(candidates@, ja, ka) && ja < ia ==> algo.accepts(&#[trigger] candidates@[ja]@[ka]),
        decreases n - ia,
    {
        let list = &candidates[ia];
        let mut ka: usize = 0;
        while ka < list.len()
            invariant
                n == candidates@.len(),
                ia < n,
                *list == candidates@[ia as int],
                ka <= list@.len(),
                forall|ja: int, la: int| is_position(candidates@, ja, la) && ja < ia ==> algo.accepts(&#[trigger] candidates@[ja]@[la]),
                forall|la: int| 0 <= la < ka ==> algo.accepts(&#[trigger] candidates@[ia as int]@[la]),
            decreases list@.len() - ka,
        {
            if !algo.accepts_graph(&list[ka]) {
                assert(is_position(candidates@, ia as int, ka as int));
                assert(!algo.accepts(&candidates@[ia as int]@[ka as int]));
                return false;
            }
            ka += 1;
        }
        ia += 1;
    }
    true
}

impl AlgoCandidateMatching {
    /// Counts, for each candidate, the input graphs that hold an exact or a
    /// relaxed match of it, under any matcher; keeps the candidates that
    /// reach a threshold, de-duplicates them and numbers the patterns from 0.
    /// The cache that comes back holds the result of every pair.
    pub fn run_matching_with<F: Fn(&Graph, &Graph) -> MatchingResult>(
        &self,
        candidates: &Vec<Vec<Graph>>,
        matcher: &F,
        support_exact: usize,
        support_relaxed: usize,
    ) -> (r: (Vec<PatternResult>, MatchCache))
        requires
            ids_unique(candidates@),
            takes_all(candidates@, matcher),
        ensures
            is_match_table(candidates@, matcher, r.1@),
            is_pattern_list(r.0@, candidates@, r.1@, support_exact, support_relaxed),
    {
        let (mut result, cache) = match self {
            AlgoCandidateMatching::Naive => run_naive(candidates, matcher, support_exact, support_relaxed),
            AlgoCandidateMatching::Parallel => run_parallel(candidates, matcher, support_exact, support_relaxed),
        };
        let n = result.len();
        proof {
            lemma_renumbered(result@, candidates@, cache@, support_exact, support_relaxed);
        }
        reassign_ids(&mut result);
        (result, cache)
    }

    /// Counts, for each candidate, the input graphs that hold an exact or a
    /// relaxed match of it under the algorithm; keeps the candidates that
    /// reach a threshold, de-duplicates them and numbers the patterns from 0.
    pub fn run_matching(
        &self,
        candidates: &Vec<Vec<Graph>>,
        algo_graph_matching: &AlgoGraphMatching,
        support_exact: usize,
        support_relaxed: usize,
    ) -> (result: Vec<PatternResult>)
        requires
            ids_unique(candidates@),
            accepts_all(candidates@, algo_graph_matching),
        ensures
            is_pattern_list(
                result@,
                candidates@,
                algo_table(candidates@, algo_graph_matching),
                support_exact,
                support_relaxed,
            ),
    {
        let matcher = |a: &Graph, b: &Graph| -> (r: MatchingResult)
            requires
                algo_graph_matching.accepts(a),
                algo_graph_matching.accepts(b),
            ensures
                r == algo_graph_matching.matches(a, b),
            { algo_graph_matching.match_graphs(a, b) };
        proof {
            assert forall|ia: int, ka: int, ib: int, kb: int| #[trigger]
                valid_pair(candidates@, ia, ka, ib, kb) implies matcher.requires(
                (&candidates@[ia]@[ka], &candidates@[ib]@[kb]),
            ) by {
                assert(is_position(candidates@, ia, ka));
                assert(is_position(candidates@, ib, kb));
                assert(algo_graph_matching.accepts(&candidates@[ia]@[ka]));
                assert(algo_graph_matching.accepts(&candidates@[ib]@[kb]));
            }
        }
        let (result, cache) = self.run_matching_with(candidates, &matcher, support_exact, support_relaxed);
        proof {
            assert(is_algo_table(candidates@, algo_graph_matching, cache@));
            lemma_algo_table_unique(candidates@, algo_graph_matching, cache@);
        }
        result
    }
}

/// The survivors among the first `k` candidates of a graph are the
/// positions of those that reach a threshold.
pub proof fn lemma_survivors_of(
    cands: Seq<Vec<Graph>>,
    t: Map<(usize, usize), MatchingResult>,
    support_exact: usize,
    support_relaxed: usize,
    ia: int,
    k: int,
)
    ensures
        forall|p: (int, int)|
            survivors_of(cands, t, support_exact, support_relaxed, ia, k).contains(p) <==> (p.0 == ia && 0 <= p.1 < k
                && survives(cands, t, support_exact, support_relaxed, p.0, p.1)),
    decreases k,
{
    if k > 0 {
        lemma_survivors_of(cands, t, support_exact, support_relaxed, ia, k - 1);
        let prev = survivors_of(cands, t, support_exact, support_relaxed, ia, k - 1);
        let cur = survivors_of(cands, t, support_exact, support_relaxed, ia, k);
        assert forall|p: (int, int)| cur.contains(p) <==> (p.0 == ia && 0 <= p.1 < k && survives(
            cands,
            t,
            support_exact,
            support_relaxed,
            p.0,
            p.1,
        )) by {
            if cur.contains(p) {
                let w = choose|w: int| 0 <= w < cur.len() && cur[w] == p;
                if w < prev.len() {
                    assert(prev[w] == p);
                    assert(prev.contains(p));
                }
            }
            if p.0 == ia && 0 <= p.1 < k && survives(cands, t, support_exact, support_relaxed, p.0, p.1) {
                if p.1 < k - 1 {
                    assert(prev.contains(p));
                    let w = choose|w: int| 0 <= w < prev.len() && prev[w] == p;
                    assert(cur[w] == p);
                } else {
                    assert(cur[cur.len() - 1] == p);
                }
            }
        }
    }
}

/// The survivors of the first `n` input graphs are the positions of the
/// candidates that reach a threshold.
pub proof fn lemma_survivors(
    cands: Seq<Vec<Graph>>,
    t: Map<(usize, usize), MatchingResult>,
    support_exact: usize,
    support_relaxed: usize,
    n: int,
)
    requires
        0 <= n <= cands.len(),
    ensures
        forall|p: (int, int)|
            survivors(cands, t, support_exact, support_relaxed, n).contains(p) <==> (0 <= p.0 < n && is_position(
                cands,
                p.0,
                p.1,
            ) && survives(cands, t, support_exact, support_relaxed, p.0, p.1)),
    decreases n,
{
    if n > 0 {
        lemma_survivors(cands, t, support_exact, support_relaxed, n - 1);
        lemma_survivors_of(cands, t, support_exact, support_relaxed, n - 1, cands[n - 1]@.len() as int);
        let prev = survivors(cands, t, support_exact, support_relaxed, n - 1);
        let block = survivors_of(cands, t, support_exact, support_relaxed, n - 1, cands[n - 1]@.len() as int);
        let cur = survivors(cands, t, support_exact, support_relaxed, n);
        assert(cur == prev + block);
        assert forall|p: (int, int)| cur.contains(p) <==> (0 <= p.0 < n && is_position(cands, p.0, p.1) && survives(
            cands,
            t,
            support_exact,
            support_relaxed,
            p.0,
            p.1,
        )) by {
            if cur.contains(p) {
                let w = choose|w: int| 0 <= w < cur.len() && cur[w] == p;
                if w < prev.len() {
                    assert(prev[w] == p);
                    assert(prev.contains(p));
                } else {
                    assert(block[w - prev.len()] == p);
                    assert(block.contains(p));
                }
            }
            if 0 <= p.0 < n && is_position(cands, p.0, p.1) && survives(cands, t, support_exact, support_relaxed, p.0, p.1) {
                if p.0 < n - 1 {
                    assert(prev.contains(p));
                    let w = choose|w: int| 0 <= w < prev.len() && prev[w] == p;
                    assert(cur[w] == p);
                } else {
                    assert(block.contains(p));
                    let w = choose|w: int| 0 <= w < block.len() && block[w] == p;
                    assert(cur[prev.len() + w] == p);
                }
            }
        }
    }
}

/// Lowering a support threshold can only add survivors: every candidate
/// that reaches a threshold still does so under lower thresholds.
pub proof fn lemma_thresholds_monotone(
    cands: Seq<Vec<Graph>>,
    t: Map<(usize, usize), MatchingResult>,
    support_exact: usize,
    support_relaxed: usize,
    lower_exact: usize,
    lower_relaxed: usize,
)
    requires
        lower_exact <= support_exact,
        lower_relaxed <= support_relaxed,
    ensures
        forall|p: (int, int)|
            survivors(cands, t, support_exact, support_relaxed, cands.len() as int).contains(p) ==> survivors(
                cands,
                t,
                lower_exact,
                lower_relaxed,
                cands.len() as int,
            ).contains(p),
{
    lemma_survivors(cands, t, support_exact, support_relaxed, cands.len() as int);
    lemma_survivors(cands, t, lower_exact, lower_relaxed, cands.len() as int);
}

/// Two runs over the same candidates with the same table and thresholds,
/// whatever their strategy, give the same patterns with the same
/// frequencies, in the same order.
pub proof fn lemma_strategies_agree(
    one: Seq<PatternResult>,
    other: Seq<PatternResult>,
    cands: Seq<Vec<Graph>>,
    t: Map<(usize, usize), MatchingResult>,
    support_exact: usize,
    support_relaxed: usize,
)
    requires
        is_pattern_list(one, cands, t, support_exact, support_relaxed),
        is_pattern_list(other, cands, t, support_exact, support_relaxed),
    ensures
        one.len() == other.len(),
        forall|k: int| 0 <= k < one.len() ==> same_result(#[trigger] one[k], other[k]),
{
    let p = final_positions(cands, t, support_exact, support_relaxed);
    assert forall|k: int| 0 <= k < one.len() implies same_result(#[trigger] one[k], other[k]) by {
        assert(is_position(cands, p[k].0, p[k].1));
        let c = &cands[p[k].0]@[p[k].1];
        lemma_same_content_symmetric(c, &one[k].pattern);
        lemma_same_content_transitive(&one[k].pattern, c, &other[k].pattern);
    }
}

} // verus!
