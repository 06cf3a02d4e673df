//! The connectivity oracle and the two histograms of a graph.

use vstd::prelude::*;
use crate::data::vertex::Vertex;
use crate::data::edge::Edge;
use crate::data::graph::Graph;
use crate::data::graph::edge_triples_upto;
use crate::data::graph::lemma_edge_triples_upto_mono;
use std::collections::HashMap;

verus! {

/// Some vertex of the selection has this id.
pub open spec fn has_id(vs: Seq<&Vertex>, id: usize) -> bool {
    exists|i: int| 0 <= i < vs.len() && (#[trigger] vs[i]).id == id
}

/// Vertex `i` of the selection stores, at position `k`, an edge from `a` to `b`.
pub open spec fn stores_edge(vs: Seq<&Vertex>, i: int, k: int, a: usize, b: usize) -> bool {
    &&& 0 <= i < vs.len()
    &&& 0 <= k < vs[i].edges@.len()
    &&& vs[i].edges@[k].from == a
    &&& vs[i].edges@[k].to == b
}

/// The selection holds an edge from `a` to `b` whose endpoints are both selected.
pub open spec fn induced_edge(vs: Seq<&Vertex>, a: usize, b: usize) -> bool {
    &&& has_id(vs, a)
    &&& has_id(vs, b)
    &&& exists|i: int, k: int| stores_edge(vs, i, k, a, b)
}

/// An induced edge joins `a` and `b`, in either direction.
pub open spec fn linked(vs: Seq<&Vertex>, a: usize, b: usize) -> bool {
    induced_edge(vs, a, b) || induced_edge(vs, b, a)
}

/// A non-empty sequence of ids in which neighbours are linked.
pub open spec fn is_walk(vs: Seq<&Vertex>, p: Seq<usize>) -> bool {
    &&& p.len() > 0
    &&& forall|i: int| 0 <= i < p.len() - 1 ==> linked(vs, #[trigger] p[i], p[i + 1])
}

/// A walk over induced edges, directions ignored, leads from `a` to `b`.
pub open spec fn reachable(vs: Seq<&Vertex>, a: usize, b: usize) -> bool {
    exists|p: Seq<usize>| #[trigger] is_walk(vs, p) && p[0] == a && p.last() == b
}

/// The subgraph induced by the selection is weakly connected: every selected
/// vertex is reachable from the first one.
pub open spec fn weakly_connected(vs: Seq<&Vertex>) -> bool {
    forall|i: int| 0 <= i < vs.len() ==> reachable(vs, vs[0].id, (#[trigger] vs[i]).id)
}

/// Every id is reachable from itself.
pub proof fn lemma_reachable_refl(vs: Seq<&Vertex>, a: usize)
    ensures
        reachable(vs, a, a),
{
    let p = seq![a];
    assert(is_walk(vs, p));
    assert(p[0] == a && p.last() == a);
}

/// A walk can be extended by one link.
pub proof fn lemma_reachable_step(vs: Seq<&Vertex>, a: usize, b: usize, c: usize)
    requires
        reachable(vs, a, b),
        linked(vs, b, c),
    ensures
        reachable(vs, a, c),
{
    let p = choose|p: Seq<usize>| #[trigger] is_walk(vs, p) && p[0] == a && p.last() == b;
    let q = p.push(c);
    assert forall|i: int| 0 <= i < q.len() - 1 implies linked(vs, #[trigger] q[i], q[i + 1]) by {
        if i < p.len() - 1 {
            assert(q[i] == p[i] && q[i + 1] == p[i + 1]);
        } else {
            assert(q[i] == b && q[i + 1] == c);
        }
    }
    assert(is_walk(vs, q));
    assert(q[0] == a && q.last() == c);
}

/// A set of ids that no link leaves holds every id reachable from a member.
pub proof fn lemma_closed_holds_reachable(vs: Seq<&Vertex>, inside: Set<usize>, p: Seq<usize>)
    requires
        is_walk(vs, p),
        inside.contains(p[0]),
        forall|a: usize, b: usize| #[trigger] linked(vs, a, b) && inside.contains(a) ==> inside.contains(b),
    ensures
        inside.contains(p.last()),
    decreases p.len(),
{
    if p.len() > 1 {
        let q = p.drop_last();
        assert forall|i: int| 0 <= i < q.len() - 1 implies linked(vs, #[trigger] q[i], q[i + 1]) by {
            assert(q[i] == p[i] && q[i + 1] == p[i + 1]);
        }
        assert(is_walk(vs, q));
        lemma_closed_holds_reachable(vs, inside, q);
        let j = p.len() - 2;
        assert(linked(vs, p[j], p[j + 1]));
        assert(q.last() == p[j]);
    }
}

fn id_in(vertices: &Vec<&Vertex>, id: usize) -> (b: bool)
    ensures
        b == has_id(vertices@, id),
{
    let mut i: usize = 0;
    while i < vertices.len()
        invariant
            i <= vertices@.len(),
            forall|j: int| 0 <= j < i ==> (#[trigger] vertices@[j]).id != id,
        decreases vertices@.len() - i,
    {
        if vertices[i].id == id {
            return true;
        }
        i += 1;
    }
    false
}

fn holds(ids: &Vec<usize>, id: usize) -> (b: bool)
    ensures
        b == ids@.contains(id),
{
    let mut i: usize = 0;
    while i < ids.len()
        invariant
            i <= ids@.len(),
            forall|j: int| 0 <= j < i ==> ids@[j] != id,
        decreases ids@.len() - i,
    {
        if ids[i] == id {
            return true;
        }
        i += 1;
    }
    false
}

fn all_visited(vertices: &Vec<&Vertex>, visited: &Vec<usize>) -> (b: bool)
    ensures
        b == (forall|i: int| 0 <= i < vertices@.len() ==> visited@.contains((#[trigger] vertices@[i]).id)),
{
    let mut i: usize = 0;
    while i < vertices.len()
        invariant
            i <= vertices@.len(),
            forall|j: int| 0 <= j < i ==> visited@.contains((#[trigger] vertices@[j]).id),
        decreases vertices@.len() - i,
    {
        if !holds(visited, vertices[i].id) {
            return false;
        }
        i += 1;
    }
    true
}

/// The edges of the selection whose endpoints are both selected.
fn collect_induced_edges(vertices: &Vec<&Vertex>) -> (edges: Vec<(usize, usize)>)
    ensures
        forall|k: int| 0 <= k < edges@.len() ==> induced_edge(vertices@, (#[trigger] edges@[k]).0, edges@[k].1),
        forall|a: usize, b: usize| induced_edge(vertices@, a, b) ==> edges@.contains((a, b)),
{
    let mut edges: Vec<(usize, usize)> = Vec::new();
    let mut i: usize = 0;
    while i < vertices.len()
        invariant
            i <= vertices@.len(),
            forall|k: int| 0 <= k < edges@.len() ==> induced_edge(vertices@, (#[trigger] edges@[k]).0, edges@[k].1),
            forall|a: usize, b: usize, j: int, k: int|
                #[trigger] stores_edge(vertices@, j, k, a, b) && j < i && has_id(vertices@, a) && has_id(vertices@, b)
                    ==> edges@.contains((a, b)),
        decreases vertices@.len() - i,
    {
        let v = vertices[i];
        let mut k: usize = 0;
        while k < v.edges.len()
            invariant
                i < vertices@.len(),
                v == vertices@[i as int],
                k <= v.edges@.len(),
                forall|k: int| 0 <= k < edges@.len() ==> induced_edge(vertices@, (#[trigger] edges@[k]).0, edges@[k].1),
                forall|a: usize, b: usize, j: int, l: int|
                    #[trigger] stores_edge(vertices@, j, l, a, b) && (j < i || (j == i && l < k)) && has_id(vertices@, a) && has_id(vertices@, b)
                        ==> edges@.contains((a, b)),
            decreases v.edges@.len() - k,
        {
            let e = &v.edges[k];
            let ghost before = edges@;
            if id_in(vertices, e.from) && id_in(vertices, e.to) {
                assert(stores_edge(vertices@, i as int, k as int, e.from, e.to));
                edges.push((e.from, e.to));
                assert(edges@[before.len() as int] == (e.from, e.to));
            }
            assert forall|a: usize, b: usize, j: int, l: int|
                #[trigger] stores_edge(vertices@, j, l, a, b) && (j < i || (j == i && l < k + 1)) && has_id(vertices@, a) && has_id(vertices@, b)
                    implies edges@.contains((a, b)) by {
                if j == i && l == k {
                    assert(edges@[before.len() as int] == (a, b));
                } else {
                    assert(before.contains((a, b)));
                    let w = choose|w: int| 0 <= w < before.len() && before[w] == (a, b);
                    assert(edges@[w] == (a, b));
                }
            }
            k += 1;
        }
        i += 1;
    }
    edges
}

/// Decides whether the subgraph that the selection induces, keeping only the
/// edges whose endpoints are both selected, is weakly connected.
pub fn vertices_are_connected(vertices: &Vec<&Vertex>) -> (connected: bool)
    requires
        vertices@.len() > 0,
    ensures
        connected == weakly_connected(vertices@),
{
    let first = vertices[0].id;
    let mut edges = collect_induced_edges(vertices);
    let mut visited: Vec<usize> = Vec::new();
    visited.push(first);
    proof {
        lemma_reachable_refl(vertices@, first);
        assert(visited@[0] == first);
    }
    loop
        invariant
            vertices@.len() > 0,
            first == vertices@[0].id,
            visited@.contains(first),
            forall|j: int| 0 <= j < visited@.len() ==> reachable(vertices@, first, #[trigger] visited@[j]),
            forall|k: int| 0 <= k < edges@.len() ==> induced_edge(vertices@, (#[trigger] edges@[k]).0, edges@[k].1),
            forall|a: usize, b: usize| induced_edge(vertices@, a, b) ==> edges@.contains((a, b)) || (
            visited@.contains(a) && visited@.contains(b)),
        decreases edges@.len(),
    {
        if all_visited(vertices, &visited) {
            proof {
                assert forall|i: int| 0 <= i < vertices@.len() implies reachable(
                    vertices@,
                    vertices@[0].id,
                    (#[trigger] vertices@[i]).id,
                ) by {
                    let x = vertices@[i].id;
                    assert(visited@.contains(x));
                    let j = choose|j: int| 0 <= j < visited@.len() && visited@[j] == x;
                    assert(reachable(vertices@, first, visited@[j]));
                }
            }
            return true;
        }
        let mut remaining: Vec<(usize, usize)> = Vec::new();
        let mut fired = false;
        let ghost visited_before = visited@;
        let mut k: usize = 0;
        while k < edges.len()
            invariant
                k <= edges@.len(),
                first == vertices@[0].id,
                visited@.contains(first),
                forall|j: int| 0 <= j < visited@.len() ==> reachable(vertices@, first, #[trigger] visited@[j]),
                forall|k: int| 0 <= k < edges@.len() ==> induced_edge(vertices@, (#[trigger] edges@[k]).0, edges@[k].1),
                forall|j: int| 0 <= j < remaining@.len() ==> induced_edge(vertices@, (#[trigger] remaining@[j]).0, remaining@[j].1),
                // an edge seen so far is kept, or both its ends are visited
                forall|j: int| 0 <= j < k ==> remaining@.contains(#[trigger] edges@[j]) || (
                visited@.contains(edges@[j].0) && visited@.contains(edges@[j].1)),
                forall|a: usize| visited_before.contains(a) ==> visited@.contains(a),
                remaining@.len() <= k,
                fired ==> remaining@.len() < k,
                !fired ==> visited@ == visited_before && remaining@ == edges@.subrange(0, k as int),
                !fired ==> forall|j: int| 0 <= j < k ==> !visited@.contains((#[trigger] edges@[j]).0) && !visited@.contains(edges@[j].1),
            decreases edges@.len() - k,
        {
            let (a, b) = edges[k];
            let in_a = holds(&visited, a);
            let in_b = holds(&visited, b);
            let ghost rem_before = remaining@;
            let ghost vis_before = visited@;
            if in_a || in_b {
                proof {
                    assert(induced_edge(vertices@, edges@[k as int].0, edges@[k as int].1));
                    assert(linked(vertices@, a, b));
                    assert(linked(vertices@, b, a));
                    if in_a {
                        let j = choose|j: int| 0 <= j < visited@.len() && visited@[j] == a;
                        assert(reachable(vertices@, first, visited@[j]));
                        lemma_reachable_step(vertices@, first, a, b);
                    } else {
                        let j = choose|j: int| 0 <= j < visited@.len() && visited@[j] == b;
                        assert(reachable(vertices@, first, visited@[j]));
                        lemma_reachable_step(vertices@, first, b, a);
                    }
                }
                visited.push(a);
                visited.push(b);
                fired = true;
                proof {
                    let n = vis_before.len() as int;
                    assert(visited@[n] == a);
                    assert(visited@[n + 1] == b);
                    assert forall|x: usize| vis_before.contains(x) implies visited@.contains(x) by {
                        let w = choose|w: int| 0 <= w < vis_before.len() && vis_before[w] == x;
                        assert(visited@[w] == x);
                    }
                    assert forall|j: int| 0 <= j < visited@.len() implies reachable(vertices@, first, #[trigger] visited@[j]) by {
                        if j < n {
                            assert(visited@[j] == vis_before[j]);
                        }
                    }
                }
            } else {
                remaining.push((a, b));
                proof {
                    let n = rem_before.len() as int;
                    assert(remaining@[n] == (a, b));
                    assert forall|x: (usize, usize)| rem_before.contains(x) implies remaining@.contains(x) by {
                        let w = choose|w: int| 0 <= w < rem_before.len() && rem_before[w] == x;
                        assert(remaining@[w] == x);
                    }
                    if !fired {
                        assert(remaining@ =~= edges@.subrange(0, k as int + 1));
                    }
                }
            }
            k += 1;
        }
        if !fired {
            proof {
                assert(remaining@ =~= edges@);
                let inside = Set::new(|x: usize| visited@.contains(x));
                assert forall|a: usize, b: usize| #[trigger] linked(vertices@, a, b) && inside.contains(a) implies inside.contains(b) by {
                    if induced_edge(vertices@, a, b) {
                        if edges@.contains((a, b)) {
                            let w = choose|w: int| 0 <= w < edges@.len() && edges@[w] == (a, b);
                            assert(!visited@.contains(edges@[w].0));
                        }
                    } else {
                        assert(induced_edge(vertices@, b, a));
                        if edges@.contains((b, a)) {
                            let w = choose|w: int| 0 <= w < edges@.len() && edges@[w] == (b, a);
                            assert(!visited@.contains(edges@[w].1));
                        }
                    }
                }
                let i = choose|i: int| 0 <= i < vertices@.len() && !visited@.contains((#[trigger] vertices@[i]).id);
                if reachable(vertices@, first, vertices@[i].id) {
                    let p = choose|p: Seq<usize>| #[trigger] is_walk(vertices@, p) && p[0] == first && p.last() == vertices@[i].id;
                    lemma_closed_holds_reachable(vertices@, inside, p);
                    assert(false);
                }
            }
            return false;
        }
        proof {
            assert forall|a: usize, b: usize| induced_edge(vertices@, a, b) implies remaining@.contains((a, b)) || (
            visited@.contains(a) && visited@.contains(b)) by {
                if edges@.contains((a, b)) {
                    let w = choose|w: int| 0 <= w < edges@.len() && edges@[w] == (a, b);
                    assert(remaining@.contains(edges@[w]) || (visited@.contains(edges@[w].0) && visited@.contains(edges@[w].1)));
                }
            }
        }
        edges = remaining;
    }
}

/// The number of vertices with the label among the first `n` vertices.
pub open spec fn label_count(g: &Graph, label: usize, n: int) -> int
    decreases n,
{
    if n <= 0 {
        0
    } else {
        label_count(g, label, n - 1) + (if g.vertices@[n - 1].label == label {
            1int
        } else {
            0int
        })
    }
}

proof fn lemma_label_count_bounds(g: &Graph, label: usize, n: int)
    requires
        0 <= n,
    ensures
        0 <= label_count(g, label, n) <= n,
    decreases n,
{
    if n > 0 {
        lemma_label_count_bounds(g, label, n - 1);
    }
}

/// The map holds, for each label that occurs among the first `n` vertices,
/// the number of vertices with that label, and no other key.
pub open spec fn is_label_histogram(g: &Graph, m: Map<usize, usize>, n: int) -> bool {
    forall|label: usize|
        (#[trigger] m.contains_key(label) <==> label_count(g, label, n) > 0) && (m.contains_key(label) ==> m[label]
            == label_count(g, label, n))
}

/// The vertex-label histogram of a graph: label to number of vertices.
pub fn get_vertex_vector(graph: &Graph) -> (result: HashMap<usize, usize>)
    ensures
        is_label_histogram(graph, result@, graph.vertices@.len() as int),
{
    broadcast use vstd::std_specs::hash::group_hash_axioms;

    let mut result: HashMap<usize, usize> = HashMap::new();
    let n = graph.vertices.len();
    let mut i: usize = 0;
    while i < n
        invariant
            n == graph.vertices@.len(),
            i <= n,
            is_label_histogram(graph, result@, i as int),
        decreases n - i,
    {
        let label = graph.vertices[i].label;
        let ghost before = result@;
        proof {
            lemma_label_count_bounds(graph, label, i as int);
        }
        let count: usize = match result.get(&label) {
            Some(c) => *c,
            None => 0,
        };
        assert(count == label_count(graph, label, i as int)) by {
            assert(before.contains_key(label) <==> label_count(graph, label, i as int) > 0);
        }
        result.insert(label, count + 1);
        proof {
            assert forall|l: usize|
                (#[trigger] result@.contains_key(l) <==> label_count(graph, l, i as int + 1) > 0) && (result@.contains_key(l)
                    ==> result@[l] == label_count(graph, l, i as int + 1)) by {
                lemma_label_count_bounds(graph, l, i as int);
                if l != label {
                    assert(before.contains_key(l) <==> label_count(graph, l, i as int) > 0);
                }
            }
        }
        i += 1;
    }
    result
}

/// What an edge contributes to the edge histogram: label and type of its
/// source, its own label, label and type of its target.
pub open spec fn edge_signature(g: &Graph, v: Vertex, e: Edge) -> (usize, usize, usize, usize, usize) {
    (v.label, v.vertex_type, e.e_label, g.vertices@[e.to as int].label, g.vertices@[e.to as int].vertex_type)
}

/// The number of edges with the signature among the first `k` edges of `v`.
pub open spec fn vertex_signature_count(g: &Graph, v: Vertex, sig: (usize, usize, usize, usize, usize), k: int) -> int
    decreases k,
{
    if k <= 0 {
        0
    } else {
        vertex_signature_count(g, v, sig, k - 1) + (if edge_signature(g, v, v.edges@[k - 1]) == sig {
            1int
        } else {
            0int
        })
    }
}

/// The number of edges with the signature among the edges of the first `n`
/// vertices.
pub open spec fn signature_count(g: &Graph, sig: (usize, usize, usize, usize, usize), n: int) -> int
    decreases n,
{
    if n <= 0 {
        0
    } else {
        signature_count(g, sig, n - 1) + vertex_signature_count(
            g,
            g.vertices@[n - 1],
            sig,
            g.vertices@[n - 1].edges@.len() as int,
        )
    }
}

proof fn lemma_vertex_signature_count(g: &Graph, v: Vertex, sig: (usize, usize, usize, usize, usize), k: int)
    ensures
        0 <= vertex_signature_count(g, v, sig, k),
    decreases k,
{
    if k > 0 {
        lemma_vertex_signature_count(g, v, sig, k - 1);
    }
}

proof fn lemma_signature_count(g: &Graph, sig: (usize, usize, usize, usize, usize), n: int)
    ensures
        0 <= signature_count(g, sig, n),
    decreases n,
{
    if n > 0 {
        lemma_signature_count(g, sig, n - 1);
        lemma_vertex_signature_count(g, g.vertices@[n - 1], sig, g.vertices@[n - 1].edges@.len() as int);
    }
}

/// The entries hold, for each signature with `count(sig) > 0`, that count
/// under the signature, once, and no other signature.
pub open spec fn is_histogram(
    entries: Seq<((usize, usize, usize, usize, usize), usize)>,
    count: spec_fn((usize, usize, usize, usize, usize)) -> int,
) -> bool {
    &&& forall|a: int, b: int| 0 <= a < b < entries.len() ==> (#[trigger] entries[a]).0 != (#[trigger] entries[b]).0
    &&& forall|a: int| 0 <= a < entries.len() ==> (#[trigger] entries[a]).1 == count(entries[a].0) && entries[a].1 > 0
    &&& forall|sig: (usize, usize, usize, usize, usize)|
        #[trigger] count(sig) > 0 ==> exists|a: int| 0 <= a < entries.len() && (#[trigger] entries[a]).0 == sig
}

/// The edge-signature histogram of a graph: each signature that occurs,
/// with the number of edges that have it.
pub struct EdgeVector {
    pub entries: Vec<((usize, usize, usize, usize, usize), usize)>,
}

impl EdgeVector {
    /// The number of signatures.
    pub fn len(&self) -> (n: usize)
        ensures
            n == self.entries@.len(),
    {
        self.entries.len()
    }

    /// The count under a signature, 0 where the histogram does not hold it.
    pub fn get(&self, sig: &(usize, usize, usize, usize, usize)) -> (count: usize)
        ensures
            (exists|a: int| 0 <= a < self.entries@.len() && (#[trigger] self.entries@[a]).0 == *sig) ==> exists|a: int|
                0 <= a < self.entries@.len() && (#[trigger] self.entries@[a]).0 == *sig && self.entries@[a].1 == count,
            !(exists|a: int| 0 <= a < self.entries@.len() && (#[trigger] self.entries@[a]).0 == *sig) ==> count == 0,
    {
        match find_signature(&self.entries, sig) {
            Some(p) => self.entries[p].1,
            None => 0,
        }
    }
}

fn same_signature(a: &(usize, usize, usize, usize, usize), b: &(usize, usize, usize, usize, usize)) -> (r: bool)
    ensures
        r == (*a == *b),
{
    a.0 == b.0 && a.1 == b.1 && a.2 == b.2 && a.3 == b.3 && a.4 == b.4
}

fn find_signature(
    entries: &Vec<((usize, usize, usize, usize, usize), usize)>,
    sig: &(usize, usize, usize, usize, usize),
) -> (r: Option<usize>)
    ensures
        match r {
            Some(p) => p < entries@.len() && entries@[p as int].0 == *sig,
            None => forall|a: int| 0 <= a < entries@.len() ==> (#[trigger] entries@[a]).0 != *sig,
        },
{
    let mut i: usize = 0;
    while i < entries.len()
        invariant
            i <= entries@.len(),
            forall|a: int| 0 <= a < i ==> (#[trigger] entries@[a]).0 != *sig,
        decreases entries@.len() - i,
    {
        if same_signature(&entries[i].0, sig) {
            return Some(i);
        }
        i += 1;
    }
    None
}

/// The edge-signature histogram of a graph.
pub fn get_edge_vector(graph: &Graph) -> (result: EdgeVector)
    requires
        graph.wf(),
        graph.edge_triples().len() <= usize::MAX,
    ensures
        is_histogram(
            result.entries@,
            |sig: (usize, usize, usize, usize, usize)| signature_count(graph, sig, graph.vertices@.len() as int),
        ),
{
    let mut entries: Vec<((usize, usize, usize, usize, usize), usize)> = Vec::new();
    let n = graph.vertices.len();
    let mut i: usize = 0;
    while i < n
        invariant
            graph.wf(),
            graph.edge_triples().len() <= usize::MAX,
            n == graph.vertices@.len(),
            i <= n,
            is_histogram(entries@, |sig: (usize, usize, usize, usize, usize)| signature_count(graph, sig, i as int)),
        decreases n - i,
    {
        let v = &graph.vertices[i];
        let m = v.edges.len();
        let mut k: usize = 0;
        assert(is_histogram(
            entries@,
            |sig: (usize, usize, usize, usize, usize)|
                signature_count(graph, sig, i as int) + vertex_signature_count(graph, *v, sig, 0),
        )) by {
            assert forall|sig: (usize, usize, usize, usize, usize)|
                signature_count(graph, sig, i as int) + vertex_signature_count(graph, *v, sig, 0) == signature_count(
                    graph,
                    sig,
                    i as int,
                ) by {}
            lemma_histogram_same_count(
                entries@,
                |sig: (usize, usize, usize, usize, usize)| signature_count(graph, sig, i as int),
                |sig: (usize, usize, usize, usize, usize)|
                    signature_count(graph, sig, i as int) + vertex_signature_count(graph, *v, sig, 0),
            );
        }
        while k < m
            invariant
                graph.wf(),
                graph.edge_triples().len() <= usize::MAX,
                n == graph.vertices@.len(),
                i < n,
                *v == graph.vertices@[i as int],
                m == v.edges@.len(),
                k <= m,
                is_histogram(
                    entries@,
                    |sig: (usize, usize, usize, usize, usize)|
                        signature_count(graph, sig, i as int) + vertex_signature_count(graph, *v, sig, k as int),
                ),
            decreases m - k,
        {
            let e = &v.edges[k];
            let to = &graph.vertices[e.to];
            let key = (v.label, v.vertex_type, e.e_label, to.label, to.vertex_type);
            let ghost before = entries@;
            let ghost count0 = |sig: (usize, usize, usize, usize, usize)|
                signature_count(graph, sig, i as int) + vertex_signature_count(graph, *v, sig, k as int);
            let ghost count1 = |sig: (usize, usize, usize, usize, usize)|
                signature_count(graph, sig, i as int) + vertex_signature_count(graph, *v, sig, k as int + 1);
            proof {
                assert(key == edge_signature(graph, *v, v.edges@[k as int]));
                lemma_signature_count(graph, key, i as int);
                lemma_vertex_signature_count(graph, *v, key, k as int);
                assert(count1(key) == count0(key) + 1);
                assert forall|sig: (usize, usize, usize, usize, usize)| sig != key implies #[trigger] count1(sig) == count0(
                    sig,
                ) by {}
            }
            match find_signature(&entries, &key) {
                Some(p) => {
                    let old_count = entries[p].1;
                    assert(old_count == count0(key));
                    proof {
                        lemma_count_fits(graph, key, i as int, k as int + 1);
                    }
                    entries[p].1 = old_count + 1;
                    proof {
                        assert forall|a: int| 0 <= a < entries@.len() implies (#[trigger] entries@[a]).1 == count1(
                            entries@[a].0,
                        ) && entries@[a].1 > 0 by {
                            if a != p {
                                assert(entries@[a] == before[a]);
                                assert(before[a].0 != before[p as int].0);
                            }
                        }
                        assert forall|sig: (usize, usize, usize, usize, usize)| #[trigger] count1(sig) > 0 implies exists|
                            a: int,
                        | 0 <= a < entries@.len() && (#[trigger] entries@[a]).0 == sig by {
                            if sig == key {
                                assert(entries@[p as int].0 == sig);
                            } else {
                                assert(count0(sig) > 0);
                                let a = choose|a: int| 0 <= a < before.len() && (#[trigger] before[a]).0 == sig;
                                assert(entries@[a].0 == sig);
                            }
                        }
                        assert forall|a: int, b: int| 0 <= a < b < entries@.len() implies (#[trigger] entries@[a]).0 != (
                        #[trigger] entries@[b]).0 by {
                            assert(entries@[a].0 == before[a].0);
                            assert(entries@[b].0 == before[b].0);
                        }
                    }
                },
                None => {
                    entries.push((key, 1));
                    proof {
                        assert(count0(key) == 0) by {
                            if count0(key) > 0 {
                                let a = choose|a: int| 0 <= a < before.len() && (#[trigger] before[a]).0 == key;
                                assert(false);
                            }
                        }
                        assert forall|a: int| 0 <= a < entries@.len() implies (#[trigger] entries@[a]).1 == count1(
                            entries@[a].0,
                        ) && entries@[a].1 > 0 by {
                            if a < before.len() {
                                assert(entries@[a] == before[a]);
                            }
                        }
                        assert forall|sig: (usize, usize, usize, usize, usize)| #[trigger] count1(sig) > 0 implies exists|
                            a: int,
                        | 0 <= a < entries@.len() && (#[trigger] entries@[a]).0 == sig by {
                            if sig == key {
                                assert(entries@[before.len() as int].0 == sig);
                            } else {
                                assert(count0(sig) > 0);
                                let a = choose|a: int| 0 <= a < before.len() && (#[trigger] before[a]).0 == sig;
                                assert(entries@[a].0 == sig);
                            }
                        }
                        assert forall|a: int, b: int| 0 <= a < b < entries@.len() implies (#[trigger] entries@[a]).0 != (
                        #[trigger] entries@[b]).0 by {
                            if b < before.len() {
                                assert(entries@[a] == before[a]);
                                assert(entries@[b] == before[b]);
                            } else {
                                assert(entries@[a] == before[a]);
                            }
                        }
                    }
                },
            }
            assert(is_histogram(entries@, count1));
            k += 1;
        }
        proof {
            lemma_histogram_same_count(
                entries@,
                |sig: (usize, usize, usize, usize, usize)|
                    signature_count(graph, sig, i as int) + vertex_signature_count(graph, *v, sig, m as int),
                |sig: (usize, usize, usize, usize, usize)| signature_count(graph, sig, i as int + 1),
            );
        }
        i += 1;
    }
    EdgeVector { entries }
}

/// Two ways to count that agree on every signature give the same histograms.
proof fn lemma_histogram_same_count(
    entries: Seq<((usize, usize, usize, usize, usize), usize)>,
    count0: spec_fn((usize, usize, usize, usize, usize)) -> int,
    count1: spec_fn((usize, usize, usize, usize, usize)) -> int,
)
    requires
        is_histogram(entries, count0),
        forall|sig: (usize, usize, usize, usize, usize)| #[trigger] count1(sig) == count0(sig),
    ensures
        is_histogram(entries, count1),
{
    assert forall|sig: (usize, usize, usize, usize, usize)| #[trigger] count1(sig) > 0 implies exists|a: int|
        0 <= a < entries.len() && (#[trigger] entries[a]).0 == sig by {
        assert(count0(sig) > 0);
    }
}

/// A count of edges stays below the number of edges of the graph.
proof fn lemma_count_fits(g: &Graph, sig: (usize, usize, usize, usize, usize), i: int, k: int)
    requires
        0 <= i < g.vertices@.len(),
        0 <= k <= g.vertices@[i].edges@.len(),
    ensures
        signature_count(g, sig, i) + vertex_signature_count(g, g.vertices@[i], sig, k) <= g.edge_triples().len(),
{
    lemma_signature_count_bound(g, sig, i);
    lemma_vertex_signature_count_bound(g, g.vertices@[i], sig, k);
    lemma_edge_triples_upto_mono(g.vertices@, i + 1, g.vertices@.len() as int);
}

proof fn lemma_vertex_signature_count_bound(g: &Graph, v: Vertex, sig: (usize, usize, usize, usize, usize), k: int)
    requires
        0 <= k,
    ensures
        vertex_signature_count(g, v, sig, k) <= k,
    decreases k,
{
    if k > 0 {
        lemma_vertex_signature_count_bound(g, v, sig, k - 1);
    }
}

proof fn lemma_signature_count_bound(g: &Graph, sig: (usize, usize, usize, usize, usize), n: int)
    requires
        0 <= n <= g.vertices@.len(),
    ensures
        signature_count(g, sig, n) <= edge_triples_upto(g.vertices@, n).len(),
    decreases n,
{
    if n > 0 {
        lemma_signature_count_bound(g, sig, n - 1);
        lemma_vertex_signature_count_bound(g, g.vertices@[n - 1], sig, g.vertices@[n - 1].edges@.len() as int);
    }
}

} // verus!
