//! Candidate generation: the connected selections of activity vertices of
//! each input graph, each with the object vertices that it points at.

use vstd::prelude::*;
use crate::data::edge::Edge;
use crate::data::graph::Graph;
use crate::data::graph::type_positions;
use crate::data::graph::lemma_type_positions;
use crate::data::utils::vertices_are_connected;
use crate::data::utils::weakly_connected;
use crate::data::utils::has_id;
use crate::data::utils::induced_edge;
use crate::data::utils::is_walk;
use crate::data::utils::linked;
use crate::data::utils::reachable;
use crate::data::utils::stores_edge;
use crate::data::utils::lemma_closed_holds_reachable;
use crate::data::utils::lemma_reachable_refl;
use crate::data::utils::lemma_reachable_step;
use crate::data::vertex::Vertex;
use itertools::Itertools;
use rayon::iter::IntoParallelRefIterator;
use rayon::iter::ParallelIterator;

verus! {

/// An edge of a selected vertex is copied when its target is an object
/// vertex or is selected itself.
pub open spec fn keeps_edge(g: &Graph, sel: Seq<usize>, object_types: Seq<usize>, e: Edge) -> bool {
    object_types.contains(g.vertices@[e.to as int].vertex_type) || sel.contains(e.to)
}

/// The edges among the first `k` of `edges` that are copied, in stored order.
pub open spec fn kept_edges(
    g: &Graph,
    sel: Seq<usize>,
    object_types: Seq<usize>,
    edges: Seq<Edge>,
    k: int,
) -> Seq<Edge>
    decreases k,
{
    if k <= 0 {
        Seq::empty()
    } else if keeps_edge(g, sel, object_types, edges[k - 1]) {
        kept_edges(g, sel, object_types, edges, k - 1).push(edges[k - 1])
    } else {
        kept_edges(g, sel, object_types, edges, k - 1)
    }
}

/// All copied edges of the vertex with id `s`.
pub open spec fn kept_edges_of(g: &Graph, sel: Seq<usize>, object_types: Seq<usize>, s: usize) -> Seq<Edge> {
    kept_edges(
        g,
        sel,
        object_types,
        g.vertices@[s as int].edges@,
        g.vertices@[s as int].edges@.len() as int,
    )
}

/// The target ids of a sequence of edges.
pub open spec fn targets(edges: Seq<Edge>) -> Seq<usize> {
    Seq::new(edges.len(), |q: int| edges[q].to)
}

/// The targets of the copied edges of the first `i` selected vertices, in
/// the order in which the edges are walked.
pub open spec fn kept_targets(g: &Graph, sel: Seq<usize>, object_types: Seq<usize>, i: int) -> Seq<usize>
    decreases i,
{
    if i <= 0 {
        Seq::empty()
    } else {
        kept_targets(g, sel, object_types, i - 1) + targets(
            kept_edges_of(g, sel, object_types, sel[i - 1]),
        )
    }
}

/// The distinct values of `s`, each at the place of its first occurrence.
pub open spec fn first_occurrences(s: Seq<usize>) -> Seq<usize>
    decreases s.len(),
{
    if s.len() == 0 {
        Seq::empty()
    } else if first_occurrences(s.drop_last()).contains(s.last()) {
        first_occurrences(s.drop_last())
    } else {
        first_occurrences(s.drop_last()).push(s.last())
    }
}

/// For each vertex of a candidate the id of the vertex that it was copied
/// from: the selected vertices first, then the targets of copied edges in
/// the order of first sight.
pub open spec fn candidate_origin(g: &Graph, sel: Seq<usize>, object_types: Seq<usize>) -> Seq<usize> {
    first_occurrences(sel + kept_targets(g, sel, object_types, sel.len() as int))
}

/// The edges `cs` of a candidate vertex are the copied edges `ks`, one for
/// one, their targets mapped through `origin`.
pub open spec fn edges_copied(cs: Seq<Edge>, ks: Seq<Edge>, origin: Seq<usize>) -> bool {
    &&& cs.len() == ks.len()
    &&& forall|k: int|
        0 <= k < cs.len() ==> {
            &&& (#[trigger] cs[k]).to < origin.len()
            &&& origin[cs[k].to as int] == ks[k].to
            &&& cs[k].e_label == ks[k].e_label
        }
}

/// The vertices of candidate `c` are copies, labels and types kept, of the
/// vertices of `g` that `origin` names.
pub open spec fn vertices_copied(c: &Graph, g: &Graph, origin: Seq<usize>) -> bool {
    &&& c.vertices@.len() == origin.len()
    &&& forall|i: int|
        0 <= i < origin.len() ==> {
            &&& (#[trigger] origin[i]) < g.vertices@.len()
            &&& c.vertices@[i].label == g.vertices@[origin[i] as int].label
            &&& c.vertices@[i].vertex_type == g.vertices@[origin[i] as int].vertex_type
        }
}

/// `c` is the candidate that the selection `sel` of vertex ids of `g` gives.
pub open spec fn is_candidate(c: &Graph, g: &Graph, sel: Seq<usize>, object_types: Seq<usize>) -> bool {
    let origin = candidate_origin(g, sel, object_types);
    &&& c.wf()
    &&& vertices_copied(c, g, origin)
    &&& sel.len() <= origin.len()
    &&& origin.subrange(0, sel.len() as int) == sel
    &&& forall|i: int|
        0 <= i < sel.len() ==> edges_copied(
            (#[trigger] c.vertices@[i]).edges@,
            kept_edges_of(g, sel, object_types, sel[i]),
            origin,
        )
    &&& forall|i: int| sel.len() <= i < origin.len() ==> (#[trigger] c.vertices@[i]).edges@.len() == 0
}

/// A selection of vertex ids of `g`: strictly increasing and in range.
pub open spec fn is_selection(g: &Graph, sel: Seq<usize>) -> bool {
    &&& forall|i: int| 0 <= i < sel.len() ==> (#[trigger] sel[i]) < g.vertices@.len()
    &&& forall|i: int, j: int| 0 <= i < j < sel.len() ==> sel[i] < sel[j]
}

/// A strictly increasing sequence is its own sequence of first occurrences.
pub proof fn lemma_first_occurrences_of_increasing(s: Seq<usize>)
    requires
        forall|i: int, j: int| 0 <= i < j < s.len() ==> s[i] < s[j],
    ensures
        first_occurrences(s) == s,
    decreases s.len(),
{
    if s.len() > 0 {
        let t = s.drop_last();
        lemma_first_occurrences_of_increasing(t);
        if t.contains(s.last()) {
            let w = choose|w: int| 0 <= w < t.len() && t[w] == s.last();
            assert(s[w] < s[s.len() - 1]);
        }
        assert(t.push(s.last()) =~= s);
    }
}

fn position(ids: &Vec<usize>, id: usize) -> (r: Option<usize>)
    ensures
        match r {
            Some(p) => p < ids@.len() && ids@[p as int] == id,
            None => !ids@.contains(id),
        },
{
    let mut i: usize = 0;
    while i < ids.len()
        invariant
            i <= ids@.len(),
            forall|j: int| 0 <= j < i ==> ids@[j] != id,
        decreases ids@.len() - i,
    {
        if ids[i] == id {
            return Some(i);
        }
        i += 1;
    }
    None
}

/// Builds the candidate of a selection: one vertex per selected vertex, then
/// the edges of each selected vertex that lead to an object vertex (created
/// on first sight) or to a selected one.
fn build_candidate(graph: &Graph, sel: &Vec<usize>, object_types: &Vec<usize>, id: usize) -> (c: Graph)
    requires
        graph.wf(),
        is_selection(graph, sel@),
    ensures
        c.id == id,
        is_candidate(&c, graph, sel@, object_types@),
{
    let mut c = Graph::new(id);
    let mut origin: Vec<usize> = Vec::new();
    let n = sel.len();
    let mut j: usize = 0;
    while j < n
        invariant
            graph.wf(),
            is_selection(graph, sel@),
            n == sel@.len(),
            j <= n,
            c.id == id,
            c.wf(),
            origin@ == sel@.subrange(0, j as int),
            vertices_copied(&c, graph, origin@),
            forall|i: int| 0 <= i < c.vertices@.len() ==> (#[trigger] c.vertices@[i]).edges@.len() == 0,
        decreases n - j,
    {
        let s = sel[j];
        let v = &graph.vertices[s];
        c.create_vertex_with_data(v.label, v.vertex_type);
        origin.push(s);
        j += 1;
        assert(origin@ =~= sel@.subrange(0, j as int));
    }
    let ghost sel_ids = sel@;
    let ghost ot = object_types@;
    let ghost mut seen: Seq<usize> = sel_ids;
    proof {
        assert(origin@ =~= sel_ids);
        lemma_first_occurrences_of_increasing(sel_ids);
        assert(sel_ids + kept_targets(graph, sel_ids, ot, 0) =~= sel_ids);
    }
    let mut j: usize = 0;
    while j < n
        invariant
            graph.wf(),
            is_selection(graph, sel@),
            sel_ids == sel@,
            ot == object_types@,
            n == sel@.len(),
            j <= n,
            c.id == id,
            c.wf(),
            seen == sel_ids + kept_targets(graph, sel_ids, ot, j as int),
            origin@ == first_occurrences(seen),
            n <= origin@.len(),
            origin@.subrange(0, n as int) == sel_ids,
            vertices_copied(&c, graph, origin@),
            forall|i: int|
                0 <= i < j ==> edges_copied(
                    (#[trigger] c.vertices@[i]).edges@,
                    kept_edges_of(graph, sel_ids, ot, sel_ids[i]),
                    origin@,
                ),
            forall|i: int| j <= i < c.vertices@.len() ==> (#[trigger] c.vertices@[i]).edges@.len() == 0,
        decreases n - j,
    {
        let s = sel[j];
        let v = &graph.vertices[s];
        let m = v.edges.len();
        let ghost base = kept_targets(graph, sel_ids, ot, j as int);
        let mut k: usize = 0;
        proof {
            assert(base + targets(kept_edges(graph, sel_ids, ot, v.edges@, 0)) =~= base);
        }
        while k < m
            invariant
                graph.wf(),
                is_selection(graph, sel@),
                sel_ids == sel@,
                ot == object_types@,
                n == sel@.len(),
                j < n,
                s == sel_ids[j as int],
                *v == graph.vertices@[s as int],
                m == v.edges@.len(),
                k <= m,
                c.id == id,
                c.wf(),
                base == kept_targets(graph, sel_ids, ot, j as int),
                seen == sel_ids + (base + targets(kept_edges(graph, sel_ids, ot, v.edges@, k as int))),
                origin@ == first_occurrences(seen),
                n <= origin@.len(),
                origin@.subrange(0, n as int) == sel_ids,
                vertices_copied(&c, graph, origin@),
                forall|i: int|
                    0 <= i < j ==> edges_copied(
                        (#[trigger] c.vertices@[i]).edges@,
                        kept_edges_of(graph, sel_ids, ot, sel_ids[i]),
                        origin@,
                    ),
                edges_copied(
                    c.vertices@[j as int].edges@,
                    kept_edges(graph, sel_ids, ot, v.edges@, k as int),
                    origin@,
                ),
                forall|i: int| j < i < c.vertices@.len() ==> (#[trigger] c.vertices@[i]).edges@.len() == 0,
            decreases m - k,
        {
            let e = v.edges[k];
            let t = &graph.vertices[e.to];
            let is_object = position(object_types, t.vertex_type).is_some();
            let is_selected = position(sel, e.to).is_some();
            let ghost kept_before = kept_edges(graph, sel_ids, ot, v.edges@, k as int);
            let ghost origin_before = origin@;
            let ghost c_before = c;
            if is_object || is_selected {
                assert(keeps_edge(graph, sel_ids, ot, e));
                proof {
                    let kept_after = kept_edges(graph, sel_ids, ot, v.edges@, k as int + 1);
                    assert(kept_after == kept_before.push(e));
                    assert(targets(kept_after) =~= targets(kept_before).push(e.to));
                    assert(sel_ids + (base + targets(kept_after)) =~= seen.push(e.to));
                    assert(seen.push(e.to).drop_last() =~= seen);
                    seen = seen.push(e.to);
                }
                let pos: usize = match position(&origin, e.to) {
                    Some(p) => p,
                    None => {
                        c.create_vertex_with_data(t.label, t.vertex_type);
                        origin.push(e.to);
                        origin.len() - 1
                    },
                };
                assert(origin@ == first_occurrences(seen));
                assert(pos < origin@.len() && origin@[pos as int] == e.to);
                assert(forall|i: int| 0 <= i < origin_before.len() ==> origin@[i] == origin_before[i]);
                assert(origin@.subrange(0, n as int) =~= sel_ids);
                let ghost c_mid = c;
                assert(forall|i: int| 0 <= i < c_before.vertices@.len() ==> c_mid.vertices@[i] == c_before.vertices@[i]);
                c.vertices[j].push(pos, e.e_label);
                proof {
                    assert(c.vertices@.len() == c_mid.vertices@.len());
                    assert(forall|i: int| 0 <= i < c.vertices@.len() && i != j ==> c.vertices@[i] == c_mid.vertices@[i]);
                    assert(c.vertices@[j as int].edges@ == c_mid.vertices@[j as int].edges@.push(
                        Edge { id: c_mid.vertices@[j as int].edges@.len() as usize, from: j, to: pos, e_label: e.e_label },
                    ));
                    assert(c.wf());
                }
            } else {
                assert(!keeps_edge(graph, sel_ids, ot, e));
            }
            k += 1;
        }
        proof {
            assert(v.edges@ == graph.vertices@[s as int].edges@);
            assert(kept_edges(graph, sel_ids, ot, v.edges@, m as int) == kept_edges_of(graph, sel_ids, ot, s));
            assert(kept_targets(graph, sel_ids, ot, j as int + 1) == base + targets(kept_edges_of(graph, sel_ids, ot, sel_ids[j as int])));
        }
        j += 1;
    }
    c
}

/// Each value is smaller than the next.
pub open spec fn strictly_increasing(s: Seq<usize>) -> bool {
    forall|i: int, j: int| 0 <= i < j < s.len() ==> s[i] < s[j]
}

/// `c` picks `k` of the indices below `n`, in ascending order.
pub open spec fn is_index_combination(c: Seq<usize>, n: int, k: int) -> bool {
    &&& c.len() == k
    &&& strictly_increasing(c)
    &&& forall|i: int| 0 <= i < c.len() ==> (#[trigger] c[i]) < n
}

/// `a` comes before `b` in lexicographic order, at a position that both have.
pub open spec fn lex_less(a: Seq<usize>, b: Seq<usize>) -> bool {
    exists|p: int|
        0 <= p < a.len() && p < b.len() && #[trigger] a[p] < b[p] && forall|q: int|
            0 <= q < p ==> a[q] == b[q]
}

/// `itertools::Itertools::combinations` over the indices `0..n`: every
/// combination of `k` indices, each in ascending order, once, and the
/// combinations themselves in lexicographic order.
#[verifier::external_body]
fn index_combinations(n: usize, k: usize) -> (r: Vec<Vec<usize>>)
    ensures
        forall|c: int| 0 <= c < r@.len() ==> is_index_combination((#[trigger] r@[c])@, n as int, k as int),
        forall|c: int, d: int| 0 <= c < d < r@.len() ==> lex_less((#[trigger] r@[c])@, (#[trigger] r@[d])@),
        forall|s: Seq<usize>|
            #[trigger] is_index_combination(s, n as int, k as int) ==> exists|c: int|
                0 <= c < r@.len() && (#[trigger] r@[c])@ == s,
{
    (0..n).combinations(k).collect()
}

/// `base + count`, held at `usize::MAX`.
pub open spec fn sat_add(base: usize, count: int) -> usize {
    if base + count <= usize::MAX {
        (base + count) as usize
    } else {
        usize::MAX
    }
}

/// Hands out candidate ids: 1, 2, 3 and so on. The counter stays at
/// `usize::MAX` once it gets there.
pub struct GraphIdGenerator {
    pub last: usize,
}

impl GraphIdGenerator {
    pub fn new() -> (g: GraphIdGenerator)
        ensures
            g.last == 0,
    {
        GraphIdGenerator { last: 0 }
    }

    pub fn next_id(&mut self) -> (id: usize)
        ensures
            id == sat_add(old(self).last, 1),
            final(self).last == id,
    {
        if self.last < usize::MAX {
            self.last = self.last + 1;
        }
        self.last
    }
}

/// The vertices of `g` with the ids `sel`.
pub open spec fn selected(g: &Graph, sel: Seq<usize>) -> Seq<&Vertex> {
    Seq::new(sel.len(), |i: int| &g.vertices@[sel[i] as int])
}

/// `sel` selects between `min` and `max` vertices of `g`, all of the
/// activity type, by ascending id.
pub open spec fn is_activity_selection(g: &Graph, activity_type: usize, min: int, max: int, sel: Seq<usize>) -> bool {
    &&& is_selection(g, sel)
    &&& min <= sel.len() <= max
    &&& forall|i: int| 0 <= i < sel.len() ==> g.vertices@[(#[trigger] sel[i]) as int].vertex_type == activity_type
}

/// Smaller selections first, selections of one size in lexicographic order.
pub open spec fn selection_before(a: Seq<usize>, b: Seq<usize>) -> bool {
    a.len() < b.len() || (a.len() == b.len() && lex_less(a, b))
}

/// `sels` lists, in order and without repetition, the connected activity
/// selections of `g` whose size lies between `min` and `max`.
pub open spec fn lists_selections(g: &Graph, activity_type: usize, min: int, max: int, sels: Seq<Seq<usize>>) -> bool {
    &&& forall|k: int|
        0 <= k < sels.len() ==> is_activity_selection(g, activity_type, min, max, #[trigger] sels[k])
            && weakly_connected(selected(g, sels[k]))
    &&& forall|k: int, l: int| 0 <= k < l < sels.len() ==> selection_before(#[trigger] sels[k], #[trigger] sels[l])
    &&& forall|sel: Seq<usize>|
        #[trigger] is_activity_selection(g, activity_type, min, max, sel) && weakly_connected(selected(g, sel))
            ==> sels.contains(sel)
}

/// `cands` holds the candidates of the selections `sels`, one for one, with
/// the ids that follow `base`.
pub open spec fn candidates_match(g: &Graph, object_types: Seq<usize>, sels: Seq<Seq<usize>>, cands: Seq<Graph>, base: usize) -> bool {
    &&& cands.len() == sels.len()
    &&& forall|k: int|
        0 <= k < sels.len() ==> is_candidate(&#[trigger] cands[k], g, sels[k], object_types)
            && cands[k].id == sat_add(base, k + 1)
}

/// The ids of the vertices that the index combination `idx` picks from the
/// positions `pos`.
pub open spec fn sel_of(pos: Seq<usize>, idx: Seq<usize>) -> Seq<usize> {
    Seq::new(idx.len(), |j: int| pos[idx[j] as int])
}

/// Picking by a strictly increasing map keeps the lexicographic order.
proof fn lemma_sel_of_keeps_order(pos: Seq<usize>, a: Seq<usize>, b: Seq<usize>)
    requires
        strictly_increasing(pos),
        a.len() == b.len(),
        forall|i: int| 0 <= i < a.len() ==> (#[trigger] a[i]) < pos.len(),
        forall|i: int| 0 <= i < b.len() ==> (#[trigger] b[i]) < pos.len(),
        lex_less(a, b),
    ensures
        lex_less(sel_of(pos, a), sel_of(pos, b)),
{
    let p = choose|p: int|
        0 <= p < a.len() && p < b.len() && #[trigger] a[p] < b[p] && forall|q: int|
            0 <= q < p ==> a[q] == b[q];
    let sa = sel_of(pos, a);
    let sb = sel_of(pos, b);
    assert(pos[a[p] as int] < pos[b[p] as int]);
    assert(sa[p] < sb[p]);
    assert forall|q: int| 0 <= q < p implies sa[q] == sb[q] by {
        assert(a[q] == b[q]);
    }
}

/// Every activity selection is picked by an index combination.
proof fn lemma_selection_has_combination(g: &Graph, activity_type: usize, size: int, sel: Seq<usize>) -> (idx: Seq<usize>)
    requires
        g.vertices@.len() <= usize::MAX,
        is_activity_selection(g, activity_type, size, size, sel),
    ensures
        is_index_combination(
            idx,
            type_positions(g.vertices@, activity_type, g.vertices@.len() as int).len() as int,
            size,
        ),
        sel_of(type_positions(g.vertices@, activity_type, g.vertices@.len() as int), idx) == sel,
{
    let vs = g.vertices@;
    let pos = type_positions(vs, activity_type, vs.len() as int);
    lemma_type_positions(vs, activity_type, vs.len() as int);
    let idx = Seq::new(
        sel.len(),
        |j: int| (choose|q: int| 0 <= q < pos.len() && pos[q] == sel[j]) as usize,
    );
    assert forall|j: int| 0 <= j < sel.len() implies 0 <= (#[trigger] idx[j]) < pos.len() && pos[idx[j] as int] == sel[j] by {
        let p = sel[j] as int;
        assert(vs[p].vertex_type == activity_type);
        assert(pos.contains(p as usize));
        let w = choose|w: int| 0 <= w < pos.len() && pos[w] == sel[j];
        assert(0 <= w < pos.len() && pos[w] == sel[j]);
    }
    assert forall|i: int, j: int| 0 <= i < j < idx.len() implies idx[i] < idx[j] by {
        assert(sel[i] < sel[j]);
        assert(pos[idx[i] as int] == sel[i]);
        assert(pos[idx[j] as int] == sel[j]);
        if idx[i] > idx[j] {
            assert(pos[idx[j] as int] < pos[idx[i] as int]);
        }
    }
    assert(sel_of(pos, idx) =~= sel);
    idx
}

/// Adding in two steps is adding the sum.
proof fn lemma_sat_add_twice(base: usize, a: int, b: int)
    requires
        0 <= a,
        0 <= b,
    ensures
        sat_add(sat_add(base, a), b) == sat_add(base, a + b),
{
}

/// The vertices that the index combination `idx` picks from `act`, and their ids.
fn pick<'a>(act: &Vec<&'a Vertex>, idx: &Vec<usize>) -> (r: (Vec<&'a Vertex>, Vec<usize>))
    requires
        forall|q: int| 0 <= q < idx@.len() ==> (#[trigger] idx@[q]) < act@.len(),
    ensures
        r.0@.len() == idx@.len(),
        r.1@.len() == idx@.len(),
        forall|q: int| 0 <= q < idx@.len() ==> (#[trigger] r.0@[q]) == act@[idx@[q] as int],
        forall|q: int| 0 <= q < idx@.len() ==> (#[trigger] r.1@[q]) == act@[idx@[q] as int].id,
{
    let mut comb_ref: Vec<&Vertex> = Vec::new();
    let mut sel: Vec<usize> = Vec::new();
    let mut j: usize = 0;
    while j < idx.len()
        invariant
            forall|q: int| 0 <= q < idx@.len() ==> (#[trigger] idx@[q]) < act@.len(),
            j <= idx@.len(),
            comb_ref@.len() == j,
            sel@.len() == j,
            forall|q: int| 0 <= q < j ==> (#[trigger] comb_ref@[q]) == act@[idx@[q] as int],
            forall|q: int| 0 <= q < j ==> (#[trigger] sel@[q]) == act@[idx@[q] as int].id,
        decreases idx@.len() - j,
    {
        let v = act[idx[j]];
        comb_ref.push(v);
        sel.push(v.id);
        j += 1;
    }
    (comb_ref, sel)
}

/// What a list of selections holds.
pub open spec fn selection_views(sels: Seq<Vec<usize>>) -> Seq<Seq<usize>> {
    Seq::new(sels.len(), |k: int| sels[k]@)
}

/// The connected selections of `size` activity vertices, in combination
/// order.
fn selections_of_size(graph: &Graph, activity_type: usize, act: &Vec<&Vertex>, size: usize) -> (found: Vec<Vec<usize>>)
    requires
        graph.wf(),
        size >= 1,
        act@.len() == type_positions(graph.vertices@, activity_type, graph.vertices@.len() as int).len(),
        forall|k: int|
            0 <= k < act@.len() ==> *(#[trigger] act@[k]) == graph.vertices@[type_positions(
                graph.vertices@,
                activity_type,
                graph.vertices@.len() as int,
            )[k] as int],
    ensures
        lists_selections(graph, activity_type, size as int, size as int, selection_views(found@)),
{
    let n_vertices = graph.vertices.len();
    let combos = index_combinations(act.len(), size);
    let ghost pos = type_positions(graph.vertices@, activity_type, graph.vertices@.len() as int);
    let ghost mut from: Seq<int> = Seq::empty();
    let mut found: Vec<Vec<usize>> = Vec::new();
    proof {
        lemma_type_positions(graph.vertices@, activity_type, graph.vertices@.len() as int);
    }
    let mut c: usize = 0;
    while c < combos.len()
        invariant
            graph.wf(),
            size >= 1,
            n_vertices == graph.vertices@.len(),
            pos == type_positions(graph.vertices@, activity_type, graph.vertices@.len() as int),
            act@.len() == pos.len(),
            forall|k: int| 0 <= k < act@.len() ==> *(#[trigger] act@[k]) == graph.vertices@[pos[k] as int],
            forall|k: int|
                0 <= k < pos.len() ==> (#[trigger] pos[k]) < graph.vertices@.len() && graph.vertices@[pos[k] as int].vertex_type
                    == activity_type,
            strictly_increasing(pos),
            forall|d: int|
                0 <= d < combos@.len() ==> is_index_combination(
                    (#[trigger] combos@[d])@,
                    act@.len() as int,
                    size as int,
                ),
            c <= combos@.len(),
            found@.len() == from.len(),
            forall|k: int|
                0 <= k < from.len() ==> 0 <= (#[trigger] from[k]) < c && found@[k]@ == sel_of(pos, combos@[from[k]]@),
            forall|k: int, l: int| 0 <= k < l < from.len() ==> from[k] < from[l],
            forall|d: int|
                0 <= d < c && weakly_connected(selected(graph, sel_of(pos, (#[trigger] combos@[d])@)))
                    ==> from.contains(d),
            forall|k: int|
                0 <= k < found@.len() ==> is_activity_selection(
                    graph,
                    activity_type,
                    size as int,
                    size as int,
                    (#[trigger] found@[k])@,
                ) && weakly_connected(selected(graph, found@[k]@)),
        decreases combos@.len() - c,
    {
        let idx = &combos[c];
        assert(is_index_combination(combos@[c as int]@, act@.len() as int, size as int));
        let (comb_ref, sel) = pick(act, idx);
        assert forall|q: int| 0 <= q < sel@.len() implies (#[trigger] sel@[q]) == pos[idx@[q] as int]
            && *comb_ref@[q] == graph.vertices@[sel@[q] as int] by {
            let i = idx@[q] as int;
            assert(idx@[q] < act@.len());
            assert(comb_ref@[q] == act@[i]);
            assert(*act@[i] == graph.vertices@[pos[i] as int]);
            assert(pos[i] < graph.vertices@.len());
            assert(graph.vertices@[pos[i] as int].id == pos[i]);
        }
        proof {
            assert(sel@ =~= sel_of(pos, idx@));
            assert(comb_ref@ =~= selected(graph, sel@));
            assert forall|a: int, b: int| 0 <= a < b < sel@.len() implies sel@[a] < sel@[b] by {
                assert(idx@[a] < idx@[b]);
            }
            assert(is_selection(graph, sel@));
            assert(is_activity_selection(graph, activity_type, size as int, size as int, sel@));
        }
        let ghost from_before = from;
        let ghost found_before = found@;
        if vertices_are_connected(&comb_ref) {
            found.push(sel);
            proof {
                from = from.push(c as int);
                assert forall|k: int| 0 <= k < from.len() implies 0 <= (#[trigger] from[k]) < c + 1 && found@[k]@
                    == sel_of(pos, combos@[from[k]]@) by {
                    if k < from_before.len() {
                        assert(from[k] == from_before[k]);
                        assert(found@[k] == found_before[k]);
                    }
                }
                assert forall|k: int| 0 <= k < found@.len() implies is_activity_selection(
                    graph,
                    activity_type,
                    size as int,
                    size as int,
                    (#[trigger] found@[k])@,
                ) && weakly_connected(selected(graph, found@[k]@)) by {
                    if k < found_before.len() {
                        assert(found@[k] == found_before[k]);
                    }
                }
                assert(from[from.len() - 1] == c as int);
            }
        }
        proof {
            assert forall|d: int|
                0 <= d < c + 1 && weakly_connected(
                    selected(graph, sel_of(pos, (#[trigger] combos@[d])@)),
                ) implies from.contains(d) by {
                if d < c {
                    assert(from_before.contains(d));
                    let w = choose|w: int| 0 <= w < from_before.len() && from_before[w] == d;
                    assert(from[w] == d);
                }
            }
        }
        c += 1;
    }
    proof {
        let sels = selection_views(found@);
        assert forall|k: int| 0 <= k < sels.len() implies is_activity_selection(
            graph,
            activity_type,
            size as int,
            size as int,
            #[trigger] sels[k],
        ) && weakly_connected(selected(graph, sels[k])) by {
            assert(sels[k] == found@[k]@);
        }
        assert forall|k: int, l: int| 0 <= k < l < sels.len() implies selection_before(
            #[trigger] sels[k],
            #[trigger] sels[l],
        ) by {
            assert(from[k] < from[l]);
            let a = combos@[from[k]]@;
            let b = combos@[from[l]]@;
            assert(lex_less(a, b));
            assert(is_index_combination(a, act@.len() as int, size as int));
            assert(is_index_combination(b, act@.len() as int, size as int));
            lemma_sel_of_keeps_order(pos, a, b);
            assert(sels[k] == found@[k]@);
            assert(sels[l] == found@[l]@);
        }
        assert forall|sel: Seq<usize>|
            #[trigger] is_activity_selection(graph, activity_type, size as int, size as int, sel) && weakly_connected(
                selected(graph, sel),
            ) implies sels.contains(sel) by {
            let idx = lemma_selection_has_combination(graph, activity_type, size as int, sel);
            assert(is_index_combination(idx, act@.len() as int, size as int));
            let d = choose|d: int| 0 <= d < combos@.len() && (#[trigger] combos@[d])@ == idx;
            assert(from.contains(d));
            let w = choose|w: int| 0 <= w < from.len() && from[w] == d;
            assert(found@[w]@ == sel);
            assert(sels[w] == sel);
        }
    }
    found
}

/// The connected selections of `min` to `max` activity vertices of a graph:
/// smaller selections first, selections of one size in combination order.
pub fn connected_selections(graph: &Graph, activity_vertex_type: usize, min: usize, max: usize) -> (found: Vec<
    Vec<usize>,
>)
    requires
        graph.wf(),
        min >= 1,
    ensures
        lists_selections(graph, activity_vertex_type, min as int, max as int, selection_views(found@)),
{
    let activity_vertices = graph.get_vertices_by_type(activity_vertex_type);
    let mut found: Vec<Vec<usize>> = Vec::new();
    let mut n: usize = min;
    let mut done = min > max;
    while !done
        invariant
            graph.wf(),
            min >= 1,
            activity_vertices@.len() == type_positions(
                graph.vertices@,
                activity_vertex_type,
                graph.vertices@.len() as int,
            ).len(),
            forall|k: int|
                0 <= k < activity_vertices@.len() ==> *(#[trigger] activity_vertices@[k]) == graph.vertices@[type_positions(
                    graph.vertices@,
                    activity_vertex_type,
                    graph.vertices@.len() as int,
                )[k] as int],
            !done ==> min <= n <= max && lists_selections(
                graph,
                activity_vertex_type,
                min as int,
                n - 1,
                selection_views(found@),
            ),
            done ==> lists_selections(graph, activity_vertex_type, min as int, max as int, selection_views(found@)),
        decreases max - n + (if done { 0int } else { 1int }),
    {
        let ghost sels_before = selection_views(found@);
        let mut added = selections_of_size(graph, activity_vertex_type, &activity_vertices, n);
        let ghost new = selection_views(added@);
        found.append(&mut added);
        proof {
            let sels = selection_views(found@);
            assert(sels =~= sels_before + new);
            assert forall|k: int| 0 <= k < sels.len() implies is_activity_selection(
                graph,
                activity_vertex_type,
                min as int,
                n as int,
                #[trigger] sels[k],
            ) && weakly_connected(selected(graph, sels[k])) by {
                if k < sels_before.len() {
                    assert(sels[k] == sels_before[k]);
                } else {
                    assert(sels[k] == new[k - sels_before.len()]);
                }
            }
            assert forall|k: int, l: int| 0 <= k < l < sels.len() implies selection_before(
                #[trigger] sels[k],
                #[trigger] sels[l],
            ) by {
                if l < sels_before.len() {
                    assert(sels[k] == sels_before[k] && sels[l] == sels_before[l]);
                } else if k < sels_before.len() {
                    assert(sels[k] == sels_before[k]);
                    assert(sels[l] == new[l - sels_before.len()]);
                    assert(is_activity_selection(graph, activity_vertex_type, min as int, n - 1, sels_before[k]));
                    assert(is_activity_selection(
                        graph,
                        activity_vertex_type,
                        n as int,
                        n as int,
                        new[l - sels_before.len()],
                    ));
                } else {
                    assert(sels[k] == new[k - sels_before.len()]);
                    assert(sels[l] == new[l - sels_before.len()]);
                }
            }
            assert forall|sel: Seq<usize>|
                #[trigger] is_activity_selection(graph, activity_vertex_type, min as int, n as int, sel)
                    && weakly_connected(selected(graph, sel)) implies sels.contains(sel) by {
                if sel.len() < n {
                    assert(is_activity_selection(graph, activity_vertex_type, min as int, n - 1, sel));
                    assert(sels_before.contains(sel));
                    let w = choose|w: int| 0 <= w < sels_before.len() && sels_before[w] == sel;
                    assert(sels[w] == sel);
                } else {
                    assert(is_activity_selection(graph, activity_vertex_type, n as int, n as int, sel));
                    assert(new.contains(sel));
                    let w = choose|w: int| 0 <= w < new.len() && new[w] == sel;
                    assert(sels[sels_before.len() + w] == sel);
                }
            }
            assert(lists_selections(graph, activity_vertex_type, min as int, n as int, sels));
        }
        if n == max {
            done = true;
        } else {
            n = n + 1;
        }
    }
    found
}

/// The candidates of the given selections of a graph, one for one, with
/// ids from the generator.
pub fn candidates_of_selections(
    graph: &Graph,
    selections: &Vec<Vec<usize>>,
    object_vertex_types: &Vec<usize>,
    graph_id_generator: &mut GraphIdGenerator,
) -> (candidates: Vec<Graph>)
    requires
        graph.wf(),
        forall|k: int| 0 <= k < selections@.len() ==> is_selection(graph, (#[trigger] selections@[k])@),
    ensures
        candidates_match(
            graph,
            object_vertex_types@,
            selection_views(selections@),
            candidates@,
            old(graph_id_generator).last,
        ),
        final(graph_id_generator).last == sat_add(old(graph_id_generator).last, candidates@.len() as int),
{
    let mut candidates: Vec<Graph> = Vec::new();
    let ghost base = graph_id_generator.last;
    let ghost sels = selection_views(selections@);
    let mut k: usize = 0;
    while k < selections.len()
        invariant
            graph.wf(),
            forall|j: int| 0 <= j < selections@.len() ==> is_selection(graph, (#[trigger] selections@[j])@),
            sels == selection_views(selections@),
            k <= selections@.len(),
            candidates@.len() == k,
            forall|j: int|
                0 <= j < k ==> is_candidate(&#[trigger] candidates@[j], graph, sels[j], object_vertex_types@)
                    && candidates@[j].id == sat_add(base, j + 1),
            graph_id_generator.last == sat_add(base, k as int),
        decreases selections@.len() - k,
    {
        let id = graph_id_generator.next_id();
        let new_candidate = build_candidate(graph, &selections[k], object_vertex_types, id);
        let ghost before = candidates@;
        candidates.push(new_candidate);
        proof {
            lemma_sat_add_twice(base, k as int, 1);
            assert(sels[k as int] == selections@[k as int]@);
            assert forall|j: int| 0 <= j < k + 1 implies is_candidate(
                &#[trigger] candidates@[j],
                graph,
                sels[j],
                object_vertex_types@,
            ) && candidates@[j].id == sat_add(base, j + 1) by {
                if j < k {
                    assert(candidates@[j] == before[j]);
                }
            }
        }
        k += 1;
    }
    candidates
}

/// `cands` are the candidates of `g`: one for each connected selection of
/// `min` to `max` activity vertices, smaller selections first and selections
/// of one size in lexicographic order, with the ids that follow `base`.
pub open spec fn graph_candidates(
    g: &Graph,
    activity_type: usize,
    object_types: Seq<usize>,
    min: usize,
    max: usize,
    cands: Seq<Graph>,
    base: usize,
) -> bool {
    exists|sels: Seq<Seq<usize>>|
        #[trigger] lists_selections(g, activity_type, min as int, max as int, sels) && candidates_match(
            g,
            object_types,
            sels,
            cands,
            base,
        )
}

/// The number of candidates in the first `n` lists.
pub open spec fn total_candidates(r: Seq<Vec<Graph>>, n: int) -> int
    decreases n,
{
    if n <= 0 {
        0
    } else {
        total_candidates(r, n - 1) + r[n - 1]@.len()
    }
}

proof fn lemma_listed_are_selections(g: &Graph, activity_type: usize, min: int, max: int, found: Seq<Vec<usize>>)
    requires
        lists_selections(g, activity_type, min, max, selection_views(found)),
    ensures
        forall|k: int| 0 <= k < found.len() ==> is_selection(g, (#[trigger] found[k])@),
{
    let sels = selection_views(found);
    assert forall|k: int| 0 <= k < found.len() implies is_selection(g, (#[trigger] found[k])@) by {
        assert(sels[k] == found[k]@);
        assert(is_activity_selection(g, activity_type, min, max, sels[k]));
    }
}

/// The candidates of one graph, for every size from `min` to `max`.
pub fn _get_fully_connected_candidates_of_graph(
    graph: &Graph,
    activity_vertex_type: usize,
    object_vertex_types: &Vec<usize>,
    min_number_of_activity_vertices: usize,
    max_number_of_activity_vertices: usize,
    graph_id_generator: &mut GraphIdGenerator,
) -> (candidates: Vec<Graph>)
    requires
        graph.wf(),
        min_number_of_activity_vertices >= 1,
    ensures
        graph_candidates(
            graph,
            activity_vertex_type,
            object_vertex_types@,
            min_number_of_activity_vertices,
            max_number_of_activity_vertices,
            candidates@,
            old(graph_id_generator).last,
        ),
        final(graph_id_generator).last == sat_add(old(graph_id_generator).last, candidates@.len() as int),
{
    let selections = connected_selections(
        graph,
        activity_vertex_type,
        min_number_of_activity_vertices,
        max_number_of_activity_vertices,
    );
    proof {
        lemma_listed_are_selections(
            graph,
            activity_vertex_type,
            min_number_of_activity_vertices as int,
            max_number_of_activity_vertices as int,
            selections@,
        );
    }
    candidates_of_selections(graph, &selections, object_vertex_types, graph_id_generator)
}

/// `rayon`'s parallel map over the graphs, collected in the order of the
/// graphs: for each graph the list that `connected_selections` returns for it.
#[verifier::external_body]
fn par_connected_selections(graphs: &Vec<Graph>, activity_vertex_type: usize, min: usize, max: usize) -> (found: Vec<
    Vec<Vec<usize>>,
>)
    requires
        forall|g: int| 0 <= g < graphs@.len() ==> (#[trigger] graphs@[g]).wf(),
        min >= 1,
    ensures
        found@.len() == graphs@.len(),
        forall|g: int|
            0 <= g < graphs@.len() ==> lists_selections(
                &graphs@[g],
                activity_vertex_type,
                min as int,
                max as int,
                selection_views((#[trigger] found@[g])@),
            ),
{
    graphs.par_iter().map(|g| connected_selections(g, activity_vertex_type, min, max)).collect()
}

/// The candidates of each graph, graph by graph, with ids drawn from one
/// generator. The selections of the graphs are enumerated side by side.
pub fn get_fully_connected_candidates(
    graphs: &Vec<Graph>,
    activity_vertex_type: usize,
    object_vertex_types: &Vec<usize>,
    min_number_of_activity_vertices: usize,
    max_number_of_activity_vertices: usize,
    graph_id_generator: &mut GraphIdGenerator,
) -> (r: Vec<Vec<Graph>>)
    requires
        forall|g: int| 0 <= g < graphs@.len() ==> (#[trigger] graphs@[g]).wf(),
        min_number_of_activity_vertices >= 1,
    ensures
        r@.len() == graphs@.len(),
        forall|g: int|
            0 <= g < graphs@.len() ==> graph_candidates(
                &graphs@[g],
                activity_vertex_type,
                object_vertex_types@,
                min_number_of_activity_vertices,
                max_number_of_activity_vertices,
                (#[trigger] r@[g])@,
                sat_add(old(graph_id_generator).last, total_candidates(r@, g)),
            ),
        final(graph_id_generator).last == sat_add(
            old(graph_id_generator).last,
            total_candidates(r@, r@.len() as int),
        ),
{
    let selections = par_connected_selections(
        graphs,
        activity_vertex_type,
        min_number_of_activity_vertices,
        max_number_of_activity_vertices,
    );
    let mut r: Vec<Vec<Graph>> = Vec::new();
    let ghost base = graph_id_generator.last;
    let mut i: usize = 0;
    while i < graphs.len()
        invariant
            forall|g: int| 0 <= g < graphs@.len() ==> (#[trigger] graphs@[g]).wf(),
            selections@.len() == graphs@.len(),
            forall|g: int|
                0 <= g < graphs@.len() ==> lists_selections(
                    &graphs@[g],
                    activity_vertex_type,
                    min_number_of_activity_vertices as int,
                    max_number_of_activity_vertices as int,
                    selection_views((#[trigger] selections@[g])@),
                ),
            i <= graphs@.len(),
            r@.len() == i,
            total_candidates(r@, i as int) >= 0,
            forall|g: int|
                0 <= g < i ==> graph_candidates(
                    &graphs@[g],
                    activity_vertex_type,
                    object_vertex_types@,
                    min_number_of_activity_vertices,
                    max_number_of_activity_vertices,
                    (#[trigger] r@[g])@,
                    sat_add(base, total_candidates(r@, g)),
                ),
            graph_id_generator.last == sat_add(base, total_candidates(r@, i as int)),
        decreases graphs@.len() - i,
    {
        let ghost r_before = r@;
        proof {
            lemma_listed_are_selections(
                &graphs@[i as int],
                activity_vertex_type,
                min_number_of_activity_vertices as int,
                max_number_of_activity_vertices as int,
                selections@[i as int]@,
            );
        }
        let candidates = candidates_of_selections(&graphs[i], &selections[i], object_vertex_types, graph_id_generator);
        r.push(candidates);
        proof {
            assert forall|g: int| 0 <= g <= i implies total_candidates(r@, g) == total_candidates(r_before, g) by {
                lemma_total_candidates_prefix(r_before, r@, g);
            }
            lemma_sat_add_twice(base, total_candidates(r_before, i as int), r@[i as int]@.len() as int);
            assert forall|g: int| 0 <= g < i + 1 implies graph_candidates(
                &graphs@[g],
                activity_vertex_type,
                object_vertex_types@,
                min_number_of_activity_vertices,
                max_number_of_activity_vertices,
                (#[trigger] r@[g])@,
                sat_add(base, total_candidates(r@, g)),
            ) by {
                if g < i {
                    assert(r@[g] == r_before[g]);
                }
            }
        }
        i += 1;
    }
    r
}

/// The count over a prefix looks at that prefix only.
proof fn lemma_total_candidates_prefix(a: Seq<Vec<Graph>>, b: Seq<Vec<Graph>>, n: int)
    requires
        0 <= n <= a.len(),
        n <= b.len(),
        forall|g: int| 0 <= g < n ==> a[g] == b[g],
    ensures
        total_candidates(a, n) == total_candidates(b, n),
        total_candidates(a, n) >= 0,
    decreases n,
{
    if n > 0 {
        lemma_total_candidates_prefix(a, b, n - 1);
    }
}

/// The strategies for generating candidate subgraphs.
#[derive(Debug)]
pub enum AlgoCandidateGeneration {
    /// Every connected selection of activity vertices, with the object
    /// vertices that its vertices point at.
    FullyConnected {
        activity_vertex_type: usize,
        object_vertex_types: Vec<usize>,
        min_number_of_activity_vertices: usize,
        max_number_of_activity_vertices: usize,
    },
}

impl AlgoCandidateGeneration {
    /// One list of candidates per input graph. Ids start at 1 and count
    /// through the lists in order.
    pub fn get_candidates(&self, graphs: &Vec<Graph>) -> (r: Vec<Vec<Graph>>)
        requires
            forall|g: int| 0 <= g < graphs@.len() ==> (#[trigger] graphs@[g]).wf(),
            self->min_number_of_activity_vertices >= 1,
        ensures
            r@.len() == graphs@.len(),
            forall|g: int|
                0 <= g < graphs@.len() ==> graph_candidates(
                    &graphs@[g],
                    self->activity_vertex_type,
                    self->object_vertex_types@,
                    self->min_number_of_activity_vertices,
                    self->max_number_of_activity_vertices,
                    (#[trigger] r@[g])@,
                    sat_add(0, total_candidates(r@, g)),
                ),
    {
        let mut graph_id_generator = GraphIdGenerator::new();
        match self {
            AlgoCandidateGeneration::FullyConnected {
                activity_vertex_type,
                object_vertex_types,
                min_number_of_activity_vertices,
                max_number_of_activity_vertices,
            } => get_fully_connected_candidates(
                graphs,
                *activity_vertex_type,
                object_vertex_types,
                *min_number_of_activity_vertices,
                *max_number_of_activity_vertices,
                &mut graph_id_generator,
            ),
        }
    }
}

/// The first occurrences of a sequence hold each of its values once.
pub proof fn lemma_first_occurrences(s: Seq<usize>)
    ensures
        first_occurrences(s).no_duplicates(),
        forall|x: usize| first_occurrences(s).contains(x) <==> s.contains(x),
    decreases s.len(),
{
    if s.len() > 0 {
        let t = s.drop_last();
        let ft = first_occurrences(t);
        let fs = first_occurrences(s);
        lemma_first_occurrences(t);
        assert forall|x: usize| fs.contains(x) <==> s.contains(x) by {
            if s.contains(x) {
                let w = choose|w: int| 0 <= w < s.len() && s[w] == x;
                if w < s.len() - 1 {
                    assert(t[w] == x);
                    assert(t.contains(x));
                    assert(ft.contains(x));
                    let v = choose|v: int| 0 <= v < ft.len() && ft[v] == x;
                    assert(fs[v] == x);
                } else if !ft.contains(x) {
                    assert(fs[fs.len() - 1] == x);
                }
            }
            if fs.contains(x) {
                let v = choose|v: int| 0 <= v < fs.len() && fs[v] == x;
                if v < ft.len() {
                    assert(ft[v] == x);
                    assert(t.contains(x));
                    let w = choose|w: int| 0 <= w < t.len() && t[w] == x;
                    assert(s[w] == x);
                } else {
                    assert(s[s.len() - 1] == x);
                }
            }
        }
    }
}

/// A copied edge is one of the stored edges and meets the rule for copying.
pub proof fn lemma_kept_edges(g: &Graph, sel: Seq<usize>, object_types: Seq<usize>, edges: Seq<Edge>, k: int)
    requires
        0 <= k <= edges.len(),
    ensures
        forall|q: int|
            0 <= q < kept_edges(g, sel, object_types, edges, k).len() ==> keeps_edge(
                g,
                sel,
                object_types,
                #[trigger] kept_edges(g, sel, object_types, edges, k)[q],
            ) && exists|j: int| 0 <= j < k && edges[j] == kept_edges(g, sel, object_types, edges, k)[q],
    decreases k,
{
    if k > 0 {
        lemma_kept_edges(g, sel, object_types, edges, k - 1);
        let prev = kept_edges(g, sel, object_types, edges, k - 1);
        let cur = kept_edges(g, sel, object_types, edges, k);
        assert forall|q: int| 0 <= q < cur.len() implies keeps_edge(g, sel, object_types, #[trigger] cur[q])
            && exists|j: int| 0 <= j < k && edges[j] == cur[q] by {
            if q < prev.len() {
                assert(cur[q] == prev[q]);
                let j = choose|j: int| 0 <= j < k - 1 && edges[j] == prev[q];
                assert(0 <= j < k && edges[j] == cur[q]);
            } else {
                assert(edges[k - 1] == cur[q]);
            }
        }
    }
}

/// The target of a copied edge is an object vertex or a selected one.
pub proof fn lemma_kept_targets(g: &Graph, sel: Seq<usize>, object_types: Seq<usize>, i: int)
    requires
        0 <= i <= sel.len(),
    ensures
        forall|q: int|
            0 <= q < kept_targets(g, sel, object_types, i).len() ==> object_types.contains(
                g.vertices@[(#[trigger] kept_targets(g, sel, object_types, i)[q]) as int].vertex_type,
            ) || sel.contains(kept_targets(g, sel, object_types, i)[q]),
    decreases i,
{
    if i > 0 {
        lemma_kept_targets(g, sel, object_types, i - 1);
        let prev = kept_targets(g, sel, object_types, i - 1);
        let es = g.vertices@[sel[i - 1] as int].edges@;
        let kept = kept_edges_of(g, sel, object_types, sel[i - 1]);
        lemma_kept_edges(g, sel, object_types, es, es.len() as int);
        let cur = kept_targets(g, sel, object_types, i);
        assert forall|q: int| 0 <= q < cur.len() implies object_types.contains(
            g.vertices@[(#[trigger] cur[q]) as int].vertex_type,
        ) || sel.contains(cur[q]) by {
            if q < prev.len() {
                assert(cur[q] == prev[q]);
            } else {
                let e = kept[q - prev.len()];
                assert(cur[q] == e.to);
                assert(keeps_edge(g, sel, object_types, e));
            }
        }
    }
}

/// The size of a candidate: its first vertices are the selected activity
/// vertices, at least `min` and at most `max` of them; every further vertex
/// is an object vertex without edges of its own; and no vertex of the graph
/// is copied twice.
pub proof fn lemma_candidate_vertices(
    c: &Graph,
    g: &Graph,
    activity_type: usize,
    object_types: Seq<usize>,
    min: int,
    max: int,
    sel: Seq<usize>,
)
    requires
        is_activity_selection(g, activity_type, min, max, sel),
        is_candidate(c, g, sel, object_types),
    ensures
        min <= sel.len() <= max,
        sel.len() <= c.vertices@.len(),
        min <= c.vertices@.len() <= max + (c.vertices@.len() - sel.len()),
        forall|i: int| 0 <= i < sel.len() ==> (#[trigger] c.vertices@[i]).vertex_type == activity_type,
        forall|i: int|
            sel.len() <= i < c.vertices@.len() ==> object_types.contains((#[trigger] c.vertices@[i]).vertex_type)
                && c.vertices@[i].edges@.len() == 0,
        candidate_origin(g, sel, object_types).no_duplicates(),
{
    let origin = candidate_origin(g, sel, object_types);
    let all = sel + kept_targets(g, sel, object_types, sel.len() as int);
    lemma_first_occurrences(all);
    lemma_kept_targets(g, sel, object_types, sel.len() as int);
    assert forall|i: int| 0 <= i < sel.len() implies (#[trigger] c.vertices@[i]).vertex_type == activity_type by {
        assert(origin[i] == origin.subrange(0, sel.len() as int)[i]);
        assert(origin[i] == sel[i]);
    }
    assert forall|i: int| sel.len() <= i < c.vertices@.len() implies object_types.contains(
        (#[trigger] c.vertices@[i]).vertex_type,
    ) by {
        let x = origin[i];
        assert(origin.contains(x));
        assert(all.contains(x));
        let w = choose|w: int| 0 <= w < all.len() && all[w] == x;
        if sel.contains(x) {
            let v = choose|v: int| 0 <= v < sel.len() && sel[v] == x;
            assert(origin.subrange(0, sel.len() as int)[v] == x);
            assert(origin[v] == x);
            assert(false);
        }
        if w < sel.len() {
            assert(all[w] == sel[w]);
            assert(sel.contains(x));
        } else {
            let kt = kept_targets(g, sel, object_types, sel.len() as int);
            assert(all[w] == kt[w - sel.len()]);
        }
    }
}

/// Every edge of a candidate stands for an edge of the graph that it was
/// taken from: same label, between the vertices that its endpoints were
/// copied from.
pub proof fn lemma_candidate_edges(c: &Graph, g: &Graph, sel: Seq<usize>, object_types: Seq<usize>, i: int, k: int)
    requires
        is_candidate(c, g, sel, object_types),
        0 <= i < c.vertices@.len(),
        0 <= k < c.vertices@[i].edges@.len(),
    ensures
        c.vertices@[i].edges@[k].from == i,
        c.vertices@[i].edges@[k].to < c.vertices@.len(),
        candidate_origin(g, sel, object_types)[i] < g.vertices@.len(),
        exists|j: int|
            0 <= j < g.vertices@[candidate_origin(g, sel, object_types)[i] as int].edges@.len() && {
                let e = #[trigger] g.vertices@[candidate_origin(g, sel, object_types)[i] as int].edges@[j];
                &&& e.to == candidate_origin(g, sel, object_types)[c.vertices@[i].edges@[k].to as int]
                &&& e.e_label == c.vertices@[i].edges@[k].e_label
            },
{
    let origin = candidate_origin(g, sel, object_types);
    assert(i < sel.len());
    assert(origin[i] == origin.subrange(0, sel.len() as int)[i]);
    let es = g.vertices@[sel[i] as int].edges@;
    let kept = kept_edges_of(g, sel, object_types, sel[i]);
    lemma_kept_edges(g, sel, object_types, es, es.len() as int);
    assert(edges_copied(c.vertices@[i].edges@, kept, origin));
    let ce = c.vertices@[i].edges@[k];
    assert(origin[ce.to as int] == kept[k].to);
    let j = choose|j: int| 0 <= j < es.len() && es[j] == kept[k];
    assert(es[j].to == origin[ce.to as int] && es[j].e_label == ce.e_label);
    assert(c.vertices@[i].wf());
}

/// The count of candidates grows with the number of lists.
pub proof fn lemma_total_candidates_mono(r: Seq<Vec<Graph>>, a: int, b: int)
    requires
        0 <= a <= b,
    ensures
        0 <= total_candidates(r, a) <= total_candidates(r, b),
    decreases b,
{
    if a < b {
        lemma_total_candidates_mono(r, a, b - 1);
    } else if a > 0 {
        lemma_total_candidates_mono(r, a - 1, a - 1);
    }
}

/// Candidate ids are unique over a whole run, and grow in the order in which
/// the candidates are produced, as long as the counter has not reached
/// `usize::MAX`.
pub proof fn lemma_candidate_ids_unique(
    graphs: Seq<Graph>,
    activity_type: usize,
    object_types: Seq<usize>,
    min: usize,
    max: usize,
    r: Seq<Vec<Graph>>,
    g1: int,
    k1: int,
    g2: int,
    k2: int,
)
    requires
        r.len() == graphs.len(),
        forall|g: int|
            0 <= g < graphs.len() ==> graph_candidates(
                &graphs[g],
                activity_type,
                object_types,
                min,
                max,
                (#[trigger] r[g])@,
                sat_add(0, total_candidates(r, g)),
            ),
        total_candidates(r, r.len() as int) < usize::MAX,
        0 <= g1 < r.len(),
        0 <= k1 < r[g1]@.len(),
        0 <= g2 < r.len(),
        0 <= k2 < r[g2]@.len(),
        g1 < g2 || (g1 == g2 && k1 < k2),
    ensures
        r[g1]@[k1].id < r[g2]@[k2].id,
{
    lemma_total_candidates_mono(r, g1, g1);
    lemma_total_candidates_mono(r, g2 + 1, r.len() as int);
    let t1 = total_candidates(r, g1);
    let t2 = total_candidates(r, g2);
    assert(total_candidates(r, g2 + 1) == t2 + r[g2]@.len());
    if g1 < g2 {
        lemma_total_candidates_mono(r, g1 + 1, g2);
        assert(total_candidates(r, g1 + 1) == t1 + r[g1]@.len());
    }
    lemma_candidate_id(&graphs[g1], activity_type, object_types, min, max, r[g1]@, sat_add(0, t1), k1);
    lemma_candidate_id(&graphs[g2], activity_type, object_types, min, max, r[g2]@, sat_add(0, t2), k2);
}

/// The id of the candidate at position `k` of a list.
pub proof fn lemma_candidate_id(
    g: &Graph,
    activity_type: usize,
    object_types: Seq<usize>,
    min: usize,
    max: usize,
    cands: Seq<Graph>,
    base: usize,
    k: int,
)
    requires
        graph_candidates(g, activity_type, object_types, min, max, cands, base),
        0 <= k < cands.len(),
    ensures
        cands[k].id == sat_add(base, k + 1),
{
    let sels = choose|sels: Seq<Seq<usize>>|
        #[trigger] lists_selections(g, activity_type, min as int, max as int, sels) && candidates_match(
            g,
            object_types,
            sels,
            cands,
            base,
        );
    assert(candidates_match(g, object_types, sels, cands, base));
}

/// An edge that meets the rule for copying is among the copied edges.
pub proof fn lemma_kept_edges_complete(
    g: &Graph,
    sel: Seq<usize>,
    object_types: Seq<usize>,
    edges: Seq<Edge>,
    k: int,
    j: int,
)
    requires
        0 <= j < k <= edges.len(),
        keeps_edge(g, sel, object_types, edges[j]),
    ensures
        exists|q: int|
            0 <= q < kept_edges(g, sel, object_types, edges, k).len() && #[trigger] kept_edges(
                g,
                sel,
                object_types,
                edges,
                k,
            )[q] == edges[j],
    decreases k,
{
    let cur = kept_edges(g, sel, object_types, edges, k);
    let prev = kept_edges(g, sel, object_types, edges, k - 1);
    if j < k - 1 {
        lemma_kept_edges_complete(g, sel, object_types, edges, k - 1, j);
        let q = choose|q: int| 0 <= q < prev.len() && #[trigger] prev[q] == edges[j];
        assert(cur[q] == edges[j]);
    } else {
        assert(cur[cur.len() - 1] == edges[j]);
    }
}

/// The first vertices of a candidate, which stand for the selection.
pub open spec fn activity_part(c: &Graph, n: int) -> Seq<&Vertex> {
    Seq::new(n as nat, |i: int| &c.vertices@[i])
}

/// The place of an id in a selection.
pub open spec fn place_in(sel: Seq<usize>, x: usize) -> int {
    choose|i: int| 0 <= i < sel.len() && sel[i] == x
}

/// A link between two selected vertices of the graph is a link between
/// their copies in the candidate.
proof fn lemma_link_is_copied(c: &Graph, g: &Graph, sel: Seq<usize>, object_types: Seq<usize>, x: usize, y: usize)
    requires
        g.wf(),
        is_selection(g, sel),
        is_candidate(c, g, sel, object_types),
        induced_edge(selected(g, sel), x, y),
    ensures
        sel.contains(x),
        sel.contains(y),
        induced_edge(
            activity_part(c, sel.len() as int),
            place_in(sel, x) as usize,
            place_in(sel, y) as usize,
        ),
{
    let vs = selected(g, sel);
    let cs = activity_part(c, sel.len() as int);
    let n = sel.len() as int;
    let origin = candidate_origin(g, sel, object_types);
    let ix = choose|i: int| 0 <= i < vs.len() && (#[trigger] vs[i]).id == x;
    let iy = choose|i: int| 0 <= i < vs.len() && (#[trigger] vs[i]).id == y;
    assert(sel[ix] == x);
    assert(sel[iy] == y);
    let px = place_in(sel, x);
    let py = place_in(sel, y);
    assert(0 <= px < n && sel[px] == x);
    assert(0 <= py < n && sel[py] == y);
    let (i, k) = choose|i: int, k: int| stores_edge(vs, i, k, x, y);
    assert(stores_edge(vs, i, k, x, y));
    let es = g.vertices@[sel[i] as int].edges@;
    let e = es[k];
    assert(vs[i].edges@ == es);
    assert(g.vertices@[sel[i] as int].wf());
    assert(e.from == sel[i]);
    assert(e.to == y);
    if i != px {
        if i < px {
            assert(sel[i] < sel[px]);
        } else {
            assert(sel[px] < sel[i]);
        }
    }
    assert(keeps_edge(g, sel, object_types, e));
    lemma_kept_edges_complete(g, sel, object_types, es, es.len() as int, k);
    let kept = kept_edges_of(g, sel, object_types, sel[i]);
    let q = choose|q: int| 0 <= q < kept.len() && #[trigger] kept[q] == e;
    assert(edges_copied(c.vertices@[i].edges@, kept, origin));
    let ce = c.vertices@[i].edges@[q];
    assert(origin[ce.to as int] == y);
    lemma_first_occurrences(sel + kept_targets(g, sel, object_types, sel.len() as int));
    assert(origin[py] == origin.subrange(0, n)[py]);
    assert(origin[py] == y);
    assert(ce.to == py);
    assert(c.vertices@[i].wf());
    assert(ce.from == i);
    assert(cs[i].edges@[q] == ce);
    assert(stores_edge(cs, i, q, px as usize, py as usize));
    assert(cs[px].id == px);
    assert(cs[py].id == py);
}

/// The vertices of a candidate that stand for a connected selection induce
/// a weakly connected subgraph of the candidate.
pub proof fn lemma_candidate_connected(c: &Graph, g: &Graph, sel: Seq<usize>, object_types: Seq<usize>)
    requires
        g.wf(),
        is_selection(g, sel),
        is_candidate(c, g, sel, object_types),
        weakly_connected(selected(g, sel)),
    ensures
        weakly_connected(activity_part(c, sel.len() as int)),
{
    let vs = selected(g, sel);
    let cs = activity_part(c, sel.len() as int);
    let n = sel.len() as int;
    if n > 0 {
        let inside = Set::new(
            |x: usize| sel.contains(x) && reachable(cs, 0, place_in(sel, x) as usize),
        );
        assert(sel[0] == sel[0]);
        assert(sel.contains(sel[0]));
        let first_place = place_in(sel, sel[0]);
        assert(0 <= first_place < n && sel[first_place] == sel[0]);
        if first_place != 0 {
            assert(sel[0] < sel[first_place]);
        }
        lemma_reachable_refl(cs, 0);
        assert(inside.contains(sel[0]));
        assert forall|x: usize, y: usize| #[trigger] linked(vs, x, y) && inside.contains(x) implies inside.contains(
            y,
        ) by {
            if induced_edge(vs, x, y) {
                lemma_link_is_copied(c, g, sel, object_types, x, y);
            } else {
                lemma_link_is_copied(c, g, sel, object_types, y, x);
            }
            assert(linked(cs, place_in(sel, x) as usize, place_in(sel, y) as usize));
            lemma_reachable_step(cs, 0, place_in(sel, x) as usize, place_in(sel, y) as usize);
        }
        assert(vs[0].id == sel[0]);
        assert(cs[0].id == 0);
        assert forall|i: int| 0 <= i < cs.len() implies reachable(cs, cs[0].id, (#[trigger] cs[i]).id) by {
            assert(reachable(vs, vs[0].id, vs[i].id));
            let p = choose|p: Seq<usize>| #[trigger] is_walk(vs, p) && p[0] == vs[0].id && p.last() == vs[i].id;
            lemma_closed_holds_reachable(vs, inside, p);
            assert(vs[i].id == sel[i]);
            assert(inside.contains(sel[i]));
            let pi = place_in(sel, sel[i]);
            assert(0 <= pi < n && sel[pi] == sel[i]);
            if pi != i {
                if pi < i {
                    assert(sel[pi] < sel[i]);
                } else {
                    assert(sel[i] < sel[pi]);
                }
            }
            assert(cs[i].id == i);
        }
    }
}

/// The candidate is made of `n` activity vertices that induce a weakly
/// connected subgraph, followed by object vertices.
pub open spec fn is_connected_pattern(c: &Graph, activity_type: usize, object_types: Seq<usize>, n: int) -> bool {
    &&& 0 <= n <= c.vertices@.len()
    &&& forall|i: int| 0 <= i < n ==> (#[trigger] c.vertices@[i]).vertex_type == activity_type
    &&& forall|i: int| n <= i < c.vertices@.len() ==> object_types.contains((#[trigger] c.vertices@[i]).vertex_type)
    &&& weakly_connected(activity_part(c, n))
}

/// Every edge of `c` stands for an edge of `g` with the same label, between
/// the vertices that `origin` names for its endpoints.
pub open spec fn edges_come_from(c: &Graph, g: &Graph, origin: Seq<usize>) -> bool {
    &&& origin.len() == c.vertices@.len()
    &&& origin.no_duplicates()
    &&& forall|i: int| 0 <= i < origin.len() ==> (#[trigger] origin[i]) < g.vertices@.len()
    &&& forall|i: int, k: int|
        0 <= i < c.vertices@.len() && 0 <= k < c.vertices@[i].edges@.len() ==> {
            let e = #[trigger] c.vertices@[i].edges@[k];
            &&& e.from == i
            &&& e.to < c.vertices@.len()
            &&& exists|j: int|
                0 <= j < g.vertices@[origin[i] as int].edges@.len() && (#[trigger] g.vertices@[origin[i] as int].edges@[j]).to
                    == origin[e.to as int] && g.vertices@[origin[i] as int].edges@[j].e_label == e.e_label
        }
}

/// Every candidate that is produced from a graph has between `min` and
/// `max` activity vertices, which induce a weakly connected subgraph, and
/// beside them object vertices only; and each of its edges stands for an
/// edge of the graph between the vertices that its endpoints were copied
/// from.
pub proof fn lemma_produced_candidate(
    g: &Graph,
    activity_type: usize,
    object_types: Seq<usize>,
    min: usize,
    max: usize,
    cands: Seq<Graph>,
    base: usize,
    k: int,
)
    requires
        g.wf(),
        graph_candidates(g, activity_type, object_types, min, max, cands, base),
        0 <= k < cands.len(),
    ensures
        cands[k].wf(),
        exists|n: int| min <= n <= max && #[trigger] is_connected_pattern(&cands[k], activity_type, object_types, n),
        min <= cands[k].vertices@.len(),
        exists|origin: Seq<usize>| #[trigger] edges_come_from(&cands[k], g, origin),
{
    let sels = choose|sels: Seq<Seq<usize>>|
        #[trigger] lists_selections(g, activity_type, min as int, max as int, sels) && candidates_match(
            g,
            object_types,
            sels,
            cands,
            base,
        );
    let sel = sels[k];
    let c = &cands[k];
    assert(is_activity_selection(g, activity_type, min as int, max as int, sel));
    assert(is_candidate(c, g, sel, object_types));
    lemma_candidate_vertices(c, g, activity_type, object_types, min as int, max as int, sel);
    lemma_candidate_connected(c, g, sel, object_types);
    assert(is_connected_pattern(c, activity_type, object_types, sel.len() as int));
    let origin = candidate_origin(g, sel, object_types);
    assert forall|i: int, q: int| 0 <= i < c.vertices@.len() && 0 <= q < c.vertices@[i].edges@.len() implies {
        let e = #[trigger] c.vertices@[i].edges@[q];
        &&& e.from == i
        &&& e.to < c.vertices@.len()
        &&& exists|j: int|
            0 <= j < g.vertices@[origin[i] as int].edges@.len() && (#[trigger] g.vertices@[origin[i] as int].edges@[j]).to
                == origin[e.to as int] && g.vertices@[origin[i] as int].edges@[j].e_label == e.e_label
    } by {
        lemma_candidate_edges(c, g, sel, object_types, i, q);
    }
    assert(edges_come_from(c, g, origin));
}

} // verus!
