//! Graphs: construction, derived forms and pattern text.

use vstd::prelude::*;
use crate::data::edge::Edge;
use crate::data::vertex::Vertex;
use crate::data::vertex::VertexView;
use crate::data::digraph::AdjacencyForm;
use crate::data::text::decimal;
use crate::data::text::decimal_digits;
use crate::data::text::join;
use crate::data::text::joined;
use crate::data::text::views;
use crate::data::text::lemma_views_push;
use crate::data::utils::EdgeVector;
use crate::data::utils::is_histogram;
use crate::data::utils::is_label_histogram;
use crate::data::utils::signature_count;
use std::collections::HashMap;

verus! {

/// A directed multigraph with labeled, typed vertices and labeled edges.
#[derive(Debug, Clone)]
pub struct Graph {
    pub id: usize,
    pub vertices: Vec<Vertex>,
}

/// The two graphs hold the same vertices with the same edges, position by
/// position.
pub open spec fn same_content(a: &Graph, b: &Graph) -> bool {
    &&& a.vertices@.len() == b.vertices@.len()
    &&& forall|i: int|
        0 <= i < a.vertices@.len() ==> {
            &&& (#[trigger] a.vertices@[i]).id == b.vertices@[i].id
            &&& a.vertices@[i].label == b.vertices@[i].label
            &&& a.vertices@[i].vertex_type == b.vertices@[i].vertex_type
            &&& a.vertices@[i].edges@ == b.vertices@[i].edges@
        }
}

/// Having the same content goes both ways.
pub proof fn lemma_same_content_symmetric(a: &Graph, b: &Graph)
    requires
        same_content(a, b),
    ensures
        same_content(b, a),
{
    assert forall|i: int| 0 <= i < b.vertices@.len() implies {
        &&& (#[trigger] b.vertices@[i]).id == a.vertices@[i].id
        &&& b.vertices@[i].label == a.vertices@[i].label
        &&& b.vertices@[i].vertex_type == a.vertices@[i].vertex_type
        &&& b.vertices@[i].edges@ == a.vertices@[i].edges@
    } by {
        assert(a.vertices@[i].id == b.vertices@[i].id);
    }
}

/// Having the same content carries over.
pub proof fn lemma_same_content_transitive(a: &Graph, b: &Graph, c: &Graph)
    requires
        same_content(a, b),
        same_content(b, c),
    ensures
        same_content(a, c),
{
    assert forall|i: int| 0 <= i < a.vertices@.len() implies {
        &&& (#[trigger] a.vertices@[i]).id == c.vertices@[i].id
        &&& a.vertices@[i].label == c.vertices@[i].label
        &&& a.vertices@[i].vertex_type == c.vertices@[i].vertex_type
        &&& a.vertices@[i].edges@ == c.vertices@[i].edges@
    } by {
        assert(a.vertices@[i].id == b.vertices@[i].id);
        assert(b.vertices@[i].id == c.vertices@[i].id);
    }
}

/// The lines of the edges of one vertex, in stored order.
pub open spec fn vertex_edge_lines(v: Vertex) -> Seq<Seq<char>> {
    Seq::new(v.edges@.len(), |k: int| v.edges@[k].line())
}

/// The lines of the edges of the first `n` vertices, vertex by vertex.
pub open spec fn edge_lines_upto(vs: Seq<Vertex>, n: int) -> Seq<Seq<char>>
    decreases n,
{
    if n <= 0 {
        Seq::empty()
    } else {
        edge_lines_upto(vs, n - 1) + vertex_edge_lines(vs[n - 1])
    }
}

/// The words of the first line of a pattern: `t # id`, then `* exact` and
/// `/ relaxed` for the frequencies that are known.
pub open spec fn header_words(id: usize, frequency_exact: Option<usize>, frequency_relaxed: Option<usize>) -> Seq<
    Seq<char>,
> {
    seq!["t"@, "#"@, decimal_digits(id as nat)] + (match frequency_exact {
        Some(f) => seq!["*"@, decimal_digits(f as nat)],
        None => Seq::empty(),
    }) + (match frequency_relaxed {
        Some(f) => seq!["/"@, decimal_digits(f as nat)],
        None => Seq::empty(),
    })
}

/// The edges of one vertex as `(source, target, label)`, in stored order.
pub open spec fn vertex_edge_triples(v: Vertex) -> Seq<(usize, usize, usize)> {
    Seq::new(v.edges@.len(), |k: int| (v.id, v.edges@[k].to, v.edges@[k].e_label))
}

/// The edges of the first `n` vertices, vertex by vertex.
pub open spec fn edge_triples_upto(vs: Seq<Vertex>, n: int) -> Seq<(usize, usize, usize)>
    decreases n,
{
    if n <= 0 {
        Seq::empty()
    } else {
        edge_triples_upto(vs, n - 1) + vertex_edge_triples(vs[n - 1])
    }
}

/// The edges of a prefix are a prefix of the edges of a longer prefix.
pub proof fn lemma_edge_triples_upto_mono(vs: Seq<Vertex>, n: int, m: int)
    requires
        0 <= n <= m,
    ensures
        edge_triples_upto(vs, n).len() <= edge_triples_upto(vs, m).len(),
        edge_triples_upto(vs, n) =~= edge_triples_upto(vs, m).subrange(
            0,
            edge_triples_upto(vs, n).len() as int,
        ),
    decreases m - n,
{
    if n < m {
        lemma_edge_triples_upto_mono(vs, n, m - 1);
    }
}

/// The positions, among the first `n` vertices, of those with type `t`, ascending.
pub open spec fn type_positions(vs: Seq<Vertex>, t: usize, n: int) -> Seq<usize>
    decreases n,
{
    if n <= 0 {
        Seq::empty()
    } else if vs[n - 1].vertex_type == t {
        type_positions(vs, t, n - 1).push((n - 1) as usize)
    } else {
        type_positions(vs, t, n - 1)
    }
}

/// `type_positions` lists exactly the positions below `n` with type `t`, in
/// strictly ascending order.
pub proof fn lemma_type_positions(vs: Seq<Vertex>, t: usize, n: int)
    requires
        0 <= n <= vs.len(),
        n <= usize::MAX,
    ensures
        forall|k: int|
            0 <= k < type_positions(vs, t, n).len() ==> (#[trigger] type_positions(vs, t, n)[k]) < n
                && vs[type_positions(vs, t, n)[k] as int].vertex_type == t,
        forall|k: int, l: int|
            0 <= k < l < type_positions(vs, t, n).len() ==> type_positions(vs, t, n)[k]
                < type_positions(vs, t, n)[l],
        forall|p: int|
            0 <= p < n && (#[trigger] vs[p]).vertex_type == t ==> type_positions(vs, t, n).contains(
                p as usize,
            ),
        type_positions(vs, t, n).len() <= n,
    decreases n,
{
    if n > 0 {
        lemma_type_positions(vs, t, n - 1);
        let prev = type_positions(vs, t, n - 1);
        let cur = type_positions(vs, t, n);
        assert forall|p: int| 0 <= p < n && (#[trigger] vs[p]).vertex_type == t implies cur.contains(
            p as usize,
        ) by {
            if p < n - 1 {
                assert(prev.contains(p as usize));
                let w = choose|w: int| 0 <= w < prev.len() && prev[w] == p as usize;
                assert(cur[w] == p as usize);
            } else {
                assert(cur[cur.len() - 1] == p as usize);
            }
        }
    }
}

/// What a graph holds: its id and what its vertices hold.
pub struct GraphView {
    pub id: usize,
    pub vertices: Seq<VertexView>,
}

impl View for Graph {
    type V = GraphView;

    open spec fn view(&self) -> GraphView {
        GraphView { id: self.id, vertices: Seq::new(self.vertices@.len(), |i: int| self.vertices@[i]@) }
    }
}

impl Graph {
    /// The node attributes `(label, type)`, by vertex id.
    pub open spec fn node_attrs(&self) -> Seq<(usize, usize)> {
        Seq::new(
            self.vertices@.len(),
            |i: int| (self.vertices@[i].label, self.vertices@[i].vertex_type),
        )
    }

    /// All edges as `(source, target, label)`, vertex by vertex in stored order.
    pub open spec fn edge_triples(&self) -> Seq<(usize, usize, usize)> {
        edge_triples_upto(self.vertices@, self.vertices@.len() as int)
    }

    /// Vertex ids are their positions, every edge is stored on its source and
    /// points at a vertex of this graph.
    pub open spec fn wf(&self) -> bool {
        forall|i: int|
            0 <= i < self.vertices@.len() ==> {
                &&& (#[trigger] self.vertices@[i]).id == i
                &&& self.vertices@[i].wf()
                &&& forall|k: int|
                    0 <= k < self.vertices@[i].edges@.len() ==> (
                    #[trigger] self.vertices@[i].edges@[k]).to < self.vertices@.len()
            }
    }

    pub fn new(id: usize) -> (g: Graph)
        ensures
            g.id == id,
            g.vertices@ == Seq::<Vertex>::empty(),
            g.wf(),
    {
        Graph { id, vertices: Vec::new() }
    }

    /// Appends a vertex with label 0 and type 0 and hands it out.
    pub fn create_vertex(&mut self) -> (v: &mut Vertex)
        ensures
            v.id == old(self).vertices@.len(),
            v.label == 0,
            v.vertex_type == 0,
            v.edges@ == Seq::<Edge>::empty(),
            final(self).id == old(self).id,
            final(self).vertices@ == old(self).vertices@.push(*final(v)),
    {
        let n = self.vertices.len();
        let vertex = Vertex::new(n, None, None);
        self.vertices.push(vertex);
        &mut self.vertices[n]
    }

    /// Appends a vertex with the given label and type and hands it out.
    pub fn create_vertex_with_data(&mut self, label: usize, vertex_type: usize) -> (v: &mut Vertex)
        ensures
            v.id == old(self).vertices@.len(),
            v.label == label,
            v.vertex_type == vertex_type,
            v.edges@ == Seq::<Edge>::empty(),
            final(self).id == old(self).id,
            final(self).vertices@ == old(self).vertices@.push(*final(v)),
    {
        let vertex = self.create_vertex();
        vertex.label = label;
        vertex.vertex_type = vertex_type;
        vertex
    }

    pub fn has_vertex_with_id(&self, id: &usize) -> (b: bool)
        ensures
            b == (*id < self.vertices@.len()),
    {
        self.vertices.len() > *id
    }

    /// Checks the invariants of the graph: dense vertex ids, edges stored on
    /// their sources, targets that exist.
    pub fn is_well_formed(&self) -> (b: bool)
        ensures
            b == self.wf(),
    {
        let n = self.vertices.len();
        let mut i: usize = 0;
        while i < n
            invariant
                n == self.vertices@.len(),
                i <= n,
                forall|j: int|
                    0 <= j < i ==> {
                        &&& (#[trigger] self.vertices@[j]).id == j
                        &&& self.vertices@[j].wf()
                        &&& forall|k: int|
                            0 <= k < self.vertices@[j].edges@.len() ==> (#[trigger] self.vertices@[j].edges@[k]).to < n
                    },
            decreases n - i,
        {
            let v = &self.vertices[i];
            if v.id != i || !v.is_well_formed() {
                return false;
            }
            let mut k: usize = 0;
            while k < v.edges.len()
                invariant
                    n == self.vertices@.len(),
                    i < n,
                    *v == self.vertices@[i as int],
                    k <= v.edges@.len(),
                    forall|l: int| 0 <= l < k ==> (#[trigger] v.edges@[l]).to < n,
                decreases v.edges@.len() - k,
            {
                if v.edges[k].to >= n {
                    assert(!((#[trigger] self.vertices@[i as int].edges@[k as int]).to < n));
                    return false;
                }
                k += 1;
            }
            i += 1;
        }
        true
    }

    /// Whether the graph has fewer than `limit` edges.
    pub fn has_fewer_edges_than(&self, limit: usize) -> (b: bool)
        ensures
            b == (self.edge_triples().len() < limit),
    {
        if limit == 0 {
            return false;
        }
        let n = self.vertices.len();
        let mut total: usize = 0;
        let mut i: usize = 0;
        while i < n
            invariant
                n == self.vertices@.len(),
                i <= n,
                total == edge_triples_upto(self.vertices@, i as int).len(),
                total < limit,
            decreases n - i,
        {
            let m = self.vertices[i].edges.len();
            proof {
                lemma_edge_triples_upto_mono(self.vertices@, i as int + 1, n as int);
                assert(edge_triples_upto(self.vertices@, i as int + 1).len() == total + m);
            }
            if m >= limit - total {
                return false;
            }
            total = total + m;
            i += 1;
        }
        true
    }

    /// A copy of the graph: same id, same content.
    pub fn duplicate(&self) -> (c: Graph)
        ensures
            c.id == self.id,
            same_content(self, &c),
            self.wf() ==> c.wf(),
    {
        let mut vertices: Vec<Vertex> = Vec::new();
        let mut i: usize = 0;
        while i < self.vertices.len()
            invariant
                i <= self.vertices@.len(),
                vertices@.len() == i,
                forall|j: int|
                    0 <= j < i ==> {
                        &&& (#[trigger] vertices@[j]).id == self.vertices@[j].id
                        &&& vertices@[j].label == self.vertices@[j].label
                        &&& vertices@[j].vertex_type == self.vertices@[j].vertex_type
                        &&& vertices@[j].edges@ == self.vertices@[j].edges@
                    },
            decreases self.vertices@.len() - i,
        {
            let v = &self.vertices[i];
            let mut edges: Vec<Edge> = Vec::new();
            let mut k: usize = 0;
            while k < v.edges.len()
                invariant
                    k <= v.edges@.len(),
                    edges@ == v.edges@.subrange(0, k as int),
                decreases v.edges@.len() - k,
            {
                edges.push(v.edges[k]);
                k += 1;
                assert(edges@ =~= v.edges@.subrange(0, k as int));
            }
            assert(edges@ =~= v.edges@);
            vertices.push(Vertex { id: v.id, label: v.label, vertex_type: v.vertex_type, edges });
            i += 1;
        }
        Graph { id: self.id, vertices }
    }

    /// The lines of the pattern text: the header, one line per vertex, one
    /// line per edge.
    pub open spec fn lines(&self, frequency_exact: Option<usize>, frequency_relaxed: Option<usize>) -> Seq<Seq<char>> {
        seq![joined(header_words(self.id, frequency_exact, frequency_relaxed), " "@)] + Seq::new(
            self.vertices@.len(),
            |i: int| self.vertices@[i].line(),
        ) + edge_lines_upto(self.vertices@, self.vertices@.len() as int)
    }

    /// Renders the graph as pattern text.
    pub fn to_str_repr(&self, frequency_exact: Option<usize>, frequency_relaxed: Option<usize>) -> (r: String)
        ensures
            r@ == joined(self.lines(frequency_exact, frequency_relaxed), "\n"@),
    {
        let mut words: Vec<String> = Vec::new();
        words.push("t".to_owned());
        words.push("#".to_owned());
        words.push(decimal(self.id));
        assert(views(words@) =~= seq!["t"@, "#"@, decimal_digits(self.id as nat)]);
        let ghost w1 = views(words@);
        if let Some(f) = frequency_exact {
            words.push("*".to_owned());
            words.push(decimal(f));
            assert(views(words@) =~= w1 + seq!["*"@, decimal_digits(f as nat)]);
        } else {
            assert(views(words@) =~= w1 + Seq::<Seq<char>>::empty());
        }
        let ghost w2 = views(words@);
        if let Some(f) = frequency_relaxed {
            words.push("/".to_owned());
            words.push(decimal(f));
            assert(views(words@) =~= w2 + seq!["/"@, decimal_digits(f as nat)]);
        } else {
            assert(views(words@) =~= w2 + Seq::<Seq<char>>::empty());
        }
        let mut lines: Vec<String> = Vec::new();
        lines.push(join(&words, " "));
        let ghost head = seq![joined(header_words(self.id, frequency_exact, frequency_relaxed), " "@)];
        assert(views(lines@) =~= head);
        let n = self.vertices.len();
        let mut i: usize = 0;
        while i < n
            invariant
                n == self.vertices@.len(),
                i <= n,
                views(lines@) == head + Seq::new(i as nat, |j: int| self.vertices@[j].line()),
            decreases n - i,
        {
            let ghost old_lines = lines@;
            let line = self.vertices[i].to_str_repr();
            proof {
                lemma_views_push(old_lines, line);
            }
            lines.push(line);
            i += 1;
            assert(views(lines@) =~= head + Seq::new(i as nat, |j: int| self.vertices@[j].line()));
        }
        let ghost upper = views(lines@);
        let mut i: usize = 0;
        while i < n
            invariant
                n == self.vertices@.len(),
                i <= n,
                views(lines@) == upper + edge_lines_upto(self.vertices@, i as int),
            decreases n - i,
        {
            let v = &self.vertices[i];
            let ghost before = views(lines@);
            let mut k: usize = 0;
            while k < v.edges.len()
                invariant
                    k <= v.edges@.len(),
                    views(lines@) == before + vertex_edge_lines(*v).subrange(0, k as int),
                decreases v.edges@.len() - k,
            {
                let ghost old_lines = lines@;
                let line = v.edges[k].to_str_repr();
                proof {
                    lemma_views_push(old_lines, line);
                }
                lines.push(line);
                k += 1;
                assert(views(lines@) =~= before + vertex_edge_lines(*v).subrange(0, k as int));
            }
            assert(vertex_edge_lines(*v).subrange(0, v.edges@.len() as int) =~= vertex_edge_lines(*v));
            i += 1;
            assert(views(lines@) =~= upper + edge_lines_upto(self.vertices@, i as int));
        }
        join(&lines, "\n")
    }

    /// The vertices of the given type, in id order.
    pub fn get_vertices_by_type(&self, vertex_type: usize) -> (r: Vec<&Vertex>)
        ensures
            r@.len() == type_positions(self.vertices@, vertex_type, self.vertices@.len() as int).len(),
            forall|k: int|
                0 <= k < r@.len() ==> *(#[trigger] r@[k]) == self.vertices@[type_positions(
                    self.vertices@,
                    vertex_type,
                    self.vertices@.len() as int,
                )[k] as int],
    {
        let mut r: Vec<&Vertex> = Vec::new();
        let mut i: usize = 0;
        while i < self.vertices.len()
            invariant
                i <= self.vertices@.len(),
                r@.len() == type_positions(self.vertices@, vertex_type, i as int).len(),
                forall|k: int|
                    0 <= k < r@.len() ==> *(#[trigger] r@[k]) == self.vertices@[type_positions(
                        self.vertices@,
                        vertex_type,
                        i as int,
                    )[k] as int],
            decreases self.vertices@.len() - i,
        {
            if self.vertices[i].vertex_type == vertex_type {
                r.push(&self.vertices[i]);
            }
            i += 1;
        }
        r
    }

    /// The vertex-label histogram: label to number of vertices.
    pub fn get_vertex_vector(&self) -> (result: HashMap<usize, usize>)
        ensures
            is_label_histogram(self, result@, self.vertices@.len() as int),
    {
        crate::data::utils::get_vertex_vector(self)
    }

    /// The edge-signature histogram: signature to number of edges.
    pub fn get_edge_vector(&self) -> (result: EdgeVector)
        requires
            self.wf(),
            self.edge_triples().len() <= usize::MAX,
        ensures
            is_histogram(
                result.entries@,
                |sig: (usize, usize, usize, usize, usize)| signature_count(self, sig, self.vertices@.len() as int),
            ),
    {
        crate::data::utils::get_edge_vector(self)
    }

    /// Builds the adjacency form: one node per vertex, in id order, then
    /// every edge, vertex by vertex in stored order.
    pub fn get_digraph(&self) -> (g: AdjacencyForm)
        requires
            self.wf(),
            self.vertices@.len() < u32::MAX,
            self.edge_triples().len() < u32::MAX,
        ensures
            g.nodes() == self.node_attrs(),
            g.edges() == self.edge_triples(),
    {
        self.build_digraph()
    }

    fn build_digraph(&self) -> (g: AdjacencyForm)
        requires
            self.wf(),
            self.vertices@.len() < u32::MAX,
            self.edge_triples().len() < u32::MAX,
        ensures
            g.nodes() == self.node_attrs(),
            g.edges() == self.edge_triples(),
    {
        let mut g = AdjacencyForm::new();
        let n = self.vertices.len();
        let mut i: usize = 0;
        while i < n
            invariant
                n == self.vertices@.len(),
                n < u32::MAX,
                i <= n,
                g.nodes() == self.node_attrs().subrange(0, i as int),
                g.edges() == Seq::<(usize, usize, usize)>::empty(),
            decreases n - i,
        {
            let v = &self.vertices[i];
            g.add_node(v.label, v.vertex_type);
            i += 1;
            assert(g.nodes() =~= self.node_attrs().subrange(0, i as int));
        }
        assert(g.nodes() =~= self.node_attrs());
        let mut i: usize = 0;
        while i < n
            invariant
                self.wf(),
                n == self.vertices@.len(),
                self.edge_triples().len() < u32::MAX,
                i <= n,
                g.nodes() == self.node_attrs(),
                g.edges() == edge_triples_upto(self.vertices@, i as int),
            decreases n - i,
        {
            let v = &self.vertices[i];
            let m = v.edges.len();
            let mut k: usize = 0;
            proof {
                lemma_edge_triples_upto_mono(self.vertices@, i as int + 1, n as int);
            }
            while k < m
                invariant
                    self.wf(),
                    n == self.vertices@.len(),
                    i < n,
                    *v == self.vertices@[i as int],
                    m == v.edges@.len(),
                    k <= m,
                    edge_triples_upto(self.vertices@, i as int + 1).len() < u32::MAX,
                    g.nodes() == self.node_attrs(),
                    g.edges() == edge_triples_upto(self.vertices@, i as int)
                        + vertex_edge_triples(*v).subrange(0, k as int),
                decreases m - k,
            {
                let e = &v.edges[k];
                g.add_edge(i, e.to, e.e_label);
                k += 1;
                assert(g.edges() =~= edge_triples_upto(self.vertices@, i as int)
                    + vertex_edge_triples(*v).subrange(0, k as int));
            }
            assert(vertex_edge_triples(*v).subrange(0, m as int) =~= vertex_edge_triples(*v));
            i += 1;
        }
        g
    }
}

} // verus!
