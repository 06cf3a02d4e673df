//! Pairwise graph matching: the VF2 isomorphism test and the approximate
//! graph edit distance by bipartite assignment.

use vstd::prelude::*;
use vstd::set_lib::lemma_int_range;
use vstd::set_lib::lemma_map_size;
use vstd::set_lib::lemma_subset_equality;
use vstd::set_lib::set_int_range;
use crate::data::digraph::vf2_isomorphic;
use crate::data::edge::Edge;
use crate::data::graph::Graph;
use crate::data::graph::edge_triples_upto;
use crate::data::graph::vertex_edge_triples;
use crate::data::graph::same_content;

verus! {

/// Result of comparing two graphs.
#[derive(Debug, PartialEq, Eq, Clone, Copy, Structural)]
pub enum MatchingResult {
    /// The graphs are isomorphic.
    ExactMatch,
    /// The graphs are similar enough, but not found isomorphic.
    RelaxedMatch,
    /// The graphs are not similar enough.
    NoMatch,
}

/// The graph fits the index type of the adjacency form.
pub open spec fn fits_adjacency_form(g: &Graph) -> bool {
    &&& g.wf()
    &&& g.vertices@.len() < u32::MAX
    &&& g.edge_triples().len() < u32::MAX
}

/// What the VF2 test answers for two graphs: yes for two graphs with equal
/// adjacency forms; otherwise what `petgraph` finds, which is the same in
/// both directions and asks for the same node attributes, each as often.
pub open spec fn isomorphic(a: &Graph, b: &Graph) -> bool {
    ||| (a.node_attrs() == b.node_attrs() && a.edge_triples() == b.edge_triples())
    ||| {
        &&& vf2_isomorphic(a.node_attrs(), a.edge_triples(), b.node_attrs(), b.edge_triples())
        &&& vf2_isomorphic(b.node_attrs(), b.edge_triples(), a.node_attrs(), a.edge_triples())
        &&& a.node_attrs().to_multiset() == b.node_attrs().to_multiset()
    }
}

/// Runs the VF2 test on the adjacency forms of the two graphs, with node
/// equality on `(label, type)` and edge equality on the label.
pub fn graph_vf2_isomorphism(one_graph: &Graph, other_graph: &Graph) -> (r: bool)
    requires
        fits_adjacency_form(one_graph),
        fits_adjacency_form(other_graph),
    ensures
        r == isomorphic(one_graph, other_graph),
{
    let one_di_graph = one_graph.get_digraph();
    let other_di_graph = other_graph.get_digraph();
    one_di_graph.is_isomorphic(&other_di_graph)
}

/// Graphs with the same content have the same adjacency form.
pub proof fn lemma_same_content_same_form(a: &Graph, b: &Graph)
    requires
        same_content(a, b),
    ensures
        a.node_attrs() == b.node_attrs(),
        a.edge_triples() == b.edge_triples(),
{
    assert(a.node_attrs() =~= b.node_attrs());
    lemma_same_edges_upto(a, b, a.vertices@.len() as int);
}

proof fn lemma_same_edges_upto(a: &Graph, b: &Graph, n: int)
    requires
        same_content(a, b),
        0 <= n <= a.vertices@.len(),
    ensures
        edge_triples_upto(a.vertices@, n) == edge_triples_upto(b.vertices@, n),
    decreases n,
{
    if n > 0 {
        lemma_same_edges_upto(a, b, n - 1);
        assert(a.vertices@[n - 1].edges@ == b.vertices@[n - 1].edges@);
        assert(vertex_edge_triples(a.vertices@[n - 1]) =~= vertex_edge_triples(b.vertices@[n - 1]));
    }
}

/// The VF2 test does not depend on the order of its arguments.
pub proof fn lemma_isomorphic_symmetric(a: &Graph, b: &Graph)
    ensures
        isomorphic(a, b) == isomorphic(b, a),
{
}

/// The VF2 test finds a graph isomorphic to every graph with the same content,
/// itself included.
pub proof fn lemma_isomorphic_reflexive(a: &Graph, b: &Graph)
    requires
        same_content(a, b),
    ensures
        isomorphic(a, b),
        isomorphic(a, a),
{
    lemma_same_content_same_form(a, b);
}

/// Changing the label of one vertex makes the VF2 test fail: `b` is `a` but
/// for the label of vertex `i`.
pub proof fn lemma_relabeled_not_isomorphic(a: &Graph, b: &Graph, i: int)
    requires
        a.vertices@.len() == b.vertices@.len(),
        0 <= i < a.vertices@.len(),
        a.vertices@[i].label != b.vertices@[i].label,
        forall|j: int|
            0 <= j < a.vertices@.len() && j != i ==> (#[trigger] a.vertices@[j]).label == b.vertices@[j].label
                && a.vertices@[j].vertex_type == b.vertices@[j].vertex_type,
    ensures
        !isomorphic(a, b),
{
    let x = a.node_attrs();
    let y = b.node_attrs();
    assert(x[i] != y[i]);
    assert(x.remove(i) =~= y.remove(i));
    x.to_multiset_ensures();
    y.to_multiset_ensures();
    assert(x.remove(i).to_multiset() =~= x.to_multiset().remove(x[i]));
    assert(y.remove(i).to_multiset() =~= y.to_multiset().remove(y[i]));
    assert(x.contains(x[i]));
    if x.to_multiset() == y.to_multiset() {
        let m = x.to_multiset();
        assert(m.remove(x[i]).count(x[i]) == m.remove(y[i]).count(x[i]));
        assert(false);
    }
}

/// Costs of the edit operations of the graph edit distance.
#[derive(Clone, Debug)]
pub struct GEDEditCosts {
    pub node_sub: usize,
    pub node_ins: usize,
    pub node_del: usize,
    pub edge_sub: usize,
    pub edge_ins: usize,
    pub edge_del: usize,
}

impl Default for GEDEditCosts {
    fn default() -> (c: GEDEditCosts)
        ensures
            c.node_sub == 1,
            c.node_ins == 1,
            c.node_del == 1,
            c.edge_sub == 1,
            c.edge_ins == 1,
            c.edge_del == 1,
    {
        GEDEditCosts { node_sub: 1, node_ins: 1, node_del: 1, edge_sub: 1, edge_ins: 1, edge_del: 1 }
    }
}

/// The largest edit cost, vertex count and out-degree for which the edit
/// distance is computed: within it no sum leaves `u64`.
pub const GED_LIMIT: usize = 65535;

impl GEDEditCosts {
    /// No cost is above `GED_LIMIT`.
    pub open spec fn in_range(&self) -> bool {
        &&& self.node_sub <= GED_LIMIT
        &&& self.node_ins <= GED_LIMIT
        &&& self.node_del <= GED_LIMIT
        &&& self.edge_sub <= GED_LIMIT
        &&& self.edge_ins <= GED_LIMIT
        &&& self.edge_del <= GED_LIMIT
    }
}

/// The graph has at most `GED_LIMIT` vertices, each with at most `GED_LIMIT`
/// edges.
pub open spec fn within_ged_limit(g: &Graph) -> bool {
    &&& g.vertices@.len() <= GED_LIMIT
    &&& forall|i: int| 0 <= i < g.vertices@.len() ==> (#[trigger] g.vertices@[i]).edges@.len() <= GED_LIMIT
}

/// Checks the limit of the edit distance on a graph.
pub fn is_within_ged_limit(g: &Graph) -> (b: bool)
    ensures
        b == within_ged_limit(g),
{
    if g.vertices.len() > GED_LIMIT {
        return false;
    }
    let mut i: usize = 0;
    while i < g.vertices.len()
        invariant
            i <= g.vertices@.len(),
            g.vertices@.len() <= GED_LIMIT,
            forall|j: int| 0 <= j < i ==> (#[trigger] g.vertices@[j]).edges@.len() <= GED_LIMIT,
        decreases g.vertices@.len() - i,
    {
        if g.vertices[i].edges.len() > GED_LIMIT {
            assert(!((#[trigger] g.vertices@[i as int]).edges@.len() <= GED_LIMIT));
            return false;
        }
        i += 1;
    }
    true
}

/// Among the first `k` position-aligned pairs of edges, the number of pairs
/// whose labels differ.
pub open spec fn label_mismatches(a: Seq<Edge>, b: Seq<Edge>, k: int) -> int
    decreases k,
{
    if k <= 0 {
        0
    } else if a[k - 1].e_label != b[k - 1].e_label {
        label_mismatches(a, b, k - 1) + 1
    } else {
        label_mismatches(a, b, k - 1)
    }
}

/// The edge penalty between two vertices: the difference of the edge counts
/// at the price of an insertion, and for the position-aligned pairs of edges,
/// in stored order, a substitution for each pair whose labels differ.
pub open spec fn edge_penalty_of(a: Seq<Edge>, b: Seq<Edge>, costs: &GEDEditCosts) -> int {
    let d = if a.len() >= b.len() { a.len() - b.len() } else { b.len() - a.len() };
    let m = if a.len() <= b.len() { a.len() } else { b.len() };
    d * costs.edge_ins + label_mismatches(a, b, m as int) * costs.edge_sub
}

/// The side of the square cost matrix.
pub open spec fn ged_side(a: &Graph, b: &Graph) -> int {
    if a.vertices@.len() >= b.vertices@.len() {
        a.vertices@.len() as int
    } else {
        b.vertices@.len() as int
    }
}

/// The cost of assigning row `i` to column `j`: a substitution with its edge
/// penalty where both are vertices, a deletion where only the row is one, an
/// insertion where only the column is one.
pub open spec fn ged_cell(a: &Graph, b: &Graph, costs: &GEDEditCosts, i: int, j: int) -> int {
    if i < a.vertices@.len() && j < b.vertices@.len() {
        (if a.vertices@[i].label == b.vertices@[j].label && a.vertices@[i].vertex_type
            == b.vertices@[j].vertex_type {
            0int
        } else {
            costs.node_sub as int
        }) + edge_penalty_of(a.vertices@[i].edges@, b.vertices@[j].edges@, costs)
    } else if i < a.vertices@.len() {
        costs.node_del as int
    } else {
        costs.node_ins as int
    }
}

/// Every row gets a column of its own.
pub open spec fn is_assignment(p: Seq<Option<usize>>, n: int) -> bool {
    &&& p.len() == n
    &&& forall|i: int| 0 <= i < n ==> (#[trigger] p[i]) is Some && p[i].unwrap() < n
    &&& forall|i: int, j: int| 0 <= i < j < n ==> p[i] != p[j]
}

/// The cost that the first `k` rows of an assignment take from a row-major
/// square matrix of side `n`.
pub open spec fn assignment_cost(m: Seq<u64>, n: int, p: Seq<Option<usize>>, k: int) -> int
    decreases k,
{
    if k <= 0 {
        0
    } else {
        assignment_cost(m, n, p, k - 1) + m[(k - 1) * n + p[k - 1].unwrap()]
    }
}

/// The edit cost of the first `k` rows of an assignment between two graphs.
pub open spec fn ged_assignment_cost(
    a: &Graph,
    b: &Graph,
    costs: &GEDEditCosts,
    p: Seq<Option<usize>>,
    k: int,
) -> int
    decreases k,
{
    if k <= 0 {
        0
    } else {
        ged_assignment_cost(a, b, costs, p, k - 1) + ged_cell(a, b, costs, k - 1, p[k - 1].unwrap() as int)
    }
}

/// `d` is the least edit cost that an assignment between the two graphs has.
pub open spec fn is_ged(a: &Graph, b: &Graph, costs: &GEDEditCosts, d: int) -> bool {
    &&& exists|p: Seq<Option<usize>>|
        #[trigger] is_assignment(p, ged_side(a, b)) && ged_assignment_cost(a, b, costs, p, ged_side(a, b)) == d
    &&& forall|q: Seq<Option<usize>>|
        #[trigger] is_assignment(q, ged_side(a, b)) ==> d <= ged_assignment_cost(a, b, costs, q, ged_side(a, b))
}

/// The approximate graph edit distance: the least cost of an assignment.
pub open spec fn ged_distance(a: &Graph, b: &Graph, costs: &GEDEditCosts) -> int {
    choose|d: int| is_ged(a, b, costs, d)
}

/// `hungarian::minimize` on a square matrix of side `n` in row-major order:
/// an assignment of every row to a column of its own whose total cost no
/// other assignment undercuts. The cells stay below a quarter of the range,
/// so that no sum inside the solver leaves it.
#[verifier::external_body]
fn hungarian_minimize(matrix: &Vec<u64>, n: usize) -> (r: Vec<Option<usize>>)
    requires
        matrix@.len() == n * n,
        forall|i: int| 0 <= i < matrix@.len() ==> (#[trigger] matrix@[i]) <= u64::MAX / 4,
    ensures
        is_assignment(r@, n as int),
        forall|q: Seq<Option<usize>>|
            #[trigger] is_assignment(q, n as int) ==> assignment_cost(matrix@, n as int, r@, n as int)
                <= assignment_cost(matrix@, n as int, q, n as int),
{
    hungarian::minimize(matrix, n, n)
}

proof fn lemma_mul_le(a: int, b: int, c: int, d: int)
    requires
        0 <= a <= c,
        0 <= b <= d,
    ensures
        0 <= a * b <= c * d,
{
    assert(0 <= a * b <= c * d) by (nonlinear_arith)
        requires
            0 <= a <= c,
            0 <= b <= d,
    ;
}

proof fn lemma_label_mismatches_bound(a: Seq<Edge>, b: Seq<Edge>, k: int)
    requires
        0 <= k,
    ensures
        0 <= label_mismatches(a, b, k) <= k,
    decreases k,
{
    if k > 0 {
        lemma_label_mismatches_bound(a, b, k - 1);
    }
}

/// The edge penalty between vertex `i` of the first graph and vertex `j` of
/// the second.
pub fn edge_penalty(g1: &Graph, g2: &Graph, i: usize, j: usize, edit_costs: &GEDEditCosts) -> (penalty: u64)
    requires
        edit_costs.in_range(),
        within_ged_limit(g1),
        within_ged_limit(g2),
        i < g1.vertices@.len(),
        j < g2.vertices@.len(),
    ensures
        penalty == edge_penalty_of(g1.vertices@[i as int].edges@, g2.vertices@[j as int].edges@, edit_costs),
        penalty <= 2 * GED_LIMIT * GED_LIMIT,
{
    let g1_edges = &g1.vertices[i].edges;
    let g2_edges = &g2.vertices[j].edges;
    let la = g1_edges.len();
    let lb = g2_edges.len();
    let d: usize = if la >= lb { la - lb } else { lb - la };
    let m: usize = if la <= lb { la } else { lb };
    proof {
        lemma_mul_le(d as int, edit_costs.edge_ins as int, GED_LIMIT as int, GED_LIMIT as int);
    }
    let mut penalty: u64 = (d as u64) * (edit_costs.edge_ins as u64);
    let mut k: usize = 0;
    while k < m
        invariant
            edit_costs.in_range(),
            la == g1_edges@.len(),
            lb == g2_edges@.len(),
            m <= la,
            m <= lb,
            m <= GED_LIMIT,
            k <= m,
            0 <= d * edit_costs.edge_ins <= GED_LIMIT * GED_LIMIT,
            0 <= label_mismatches(g1_edges@, g2_edges@, k as int) <= k,
            penalty == d * edit_costs.edge_ins + label_mismatches(g1_edges@, g2_edges@, k as int) * edit_costs.edge_sub,
        decreases m - k,
    {
        let ghost mm = label_mismatches(g1_edges@, g2_edges@, k as int);
        proof {
            lemma_mul_le(mm, edit_costs.edge_sub as int, k as int, GED_LIMIT as int);
            lemma_mul_le(k as int, GED_LIMIT as int, GED_LIMIT as int - 1, GED_LIMIT as int);
            assert((mm + 1) * edit_costs.edge_sub == mm * edit_costs.edge_sub + edit_costs.edge_sub) by (nonlinear_arith);
        }
        if g1_edges[k].e_label != g2_edges[k].e_label {
            penalty = penalty + edit_costs.edge_sub as u64;
        }
        k += 1;
    }
    proof {
        let mm = label_mismatches(g1_edges@, g2_edges@, m as int);
        lemma_mul_le(mm, edit_costs.edge_sub as int, GED_LIMIT as int, GED_LIMIT as int);
    }
    penalty
}

proof fn lemma_row_major(r: int, c: int, i: int, n: int)
    requires
        0 <= r < i,
        0 <= c < n,
    ensures
        0 <= r * n + c < i * n,
        r * n + c < (r + 1) * n,
        (r + 1) * n == r * n + n,
{
    assert(0 <= r * n + c < i * n && (r + 1) * n == r * n + n) by (nonlinear_arith)
        requires
            0 <= r < i,
            0 <= c < n,
    ;
}

/// Where the matrix holds the cell costs of two graphs, an assignment costs
/// in the matrix what it costs between the graphs.
proof fn lemma_costs_agree(
    a: &Graph,
    b: &Graph,
    costs: &GEDEditCosts,
    m: Seq<u64>,
    n: int,
    p: Seq<Option<usize>>,
    k: int,
)
    requires
        is_assignment(p, n),
        0 <= k <= n,
        forall|r: int, c: int| 0 <= r < n && 0 <= c < n ==> #[trigger] m[r * n + c] == ged_cell(a, b, costs, r, c),
    ensures
        assignment_cost(m, n, p, k) == ged_assignment_cost(a, b, costs, p, k),
    decreases k,
{
    if k > 0 {
        lemma_costs_agree(a, b, costs, m, n, p, k - 1);
        let c = p[k - 1].unwrap() as int;
        assert(m[(k - 1) * n + c] == ged_cell(a, b, costs, k - 1, c));
    }
}

/// The least cost of an assignment is determined.
pub proof fn lemma_ged_unique(a: &Graph, b: &Graph, costs: &GEDEditCosts, d: int)
    requires
        is_ged(a, b, costs, d),
    ensures
        ged_distance(a, b, costs) == d,
{
    let e = ged_distance(a, b, costs);
    assert(is_ged(a, b, costs, e));
    let p = choose|p: Seq<Option<usize>>|
        #[trigger] is_assignment(p, ged_side(a, b)) && ged_assignment_cost(a, b, costs, p, ged_side(a, b)) == d;
    let q = choose|q: Seq<Option<usize>>|
        #[trigger] is_assignment(q, ged_side(a, b)) && ged_assignment_cost(a, b, costs, q, ged_side(a, b)) == e;
    assert(is_assignment(p, ged_side(a, b)));
    assert(is_assignment(q, ged_side(a, b)));
}

/// The cost of one cell of the matrix.
fn cell_cost(one_graph: &Graph, other_graph: &Graph, edit_costs: &GEDEditCosts, i: usize, j: usize) -> (cost: u64)
    requires
        edit_costs.in_range(),
        within_ged_limit(one_graph),
        within_ged_limit(other_graph),
    ensures
        cost == ged_cell(one_graph, other_graph, edit_costs, i as int, j as int),
        cost <= GED_LIMIT + 2 * GED_LIMIT * GED_LIMIT,
{
    let n1 = one_graph.vertices.len();
    let n2 = other_graph.vertices.len();
    if i < n1 && j < n2 {
        let v1 = &one_graph.vertices[i];
        let v2 = &other_graph.vertices[j];
        let c: u64 = if v1.label == v2.label && v1.vertex_type == v2.vertex_type {
            0
        } else {
            edit_costs.node_sub as u64
        };
        c + edge_penalty(one_graph, other_graph, i, j, edit_costs)
    } else if i < n1 {
        edit_costs.node_del as u64
    } else {
        edit_costs.node_ins as u64
    }
}

/// The approximate graph edit distance of two graphs: the cost of a cheapest
/// assignment of the vertices of one, padded with dummies, to those of the
/// other.
pub fn fast_ged(one_graph: &Graph, other_graph: &Graph, edit_costs: &GEDEditCosts) -> (total: u64)
    requires
        edit_costs.in_range(),
        within_ged_limit(one_graph),
        within_ged_limit(other_graph),
    ensures
        is_ged(one_graph, other_graph, edit_costs, total as int),
        total == ged_distance(one_graph, other_graph, edit_costs),
{
    let n1 = one_graph.vertices.len();
    let n2 = other_graph.vertices.len();
    let n: usize = if n1 >= n2 { n1 } else { n2 };
    let ghost cell_max = GED_LIMIT + 2 * GED_LIMIT * GED_LIMIT;
    proof {
        lemma_mul_le(n as int, n as int, GED_LIMIT as int, GED_LIMIT as int);
    }
    let mut cost_matrix: Vec<u64> = Vec::new();
    let mut i: usize = 0;
    while i < n
        invariant
            edit_costs.in_range(),
            within_ged_limit(one_graph),
            within_ged_limit(other_graph),
            n == ged_side(one_graph, other_graph),
            n <= GED_LIMIT,
            i <= n,
            cost_matrix@.len() == i * n,
            forall|r: int, c: int|
                0 <= r < i && 0 <= c < n ==> #[trigger] cost_matrix@[r * n + c] == ged_cell(
                    one_graph,
                    other_graph,
                    edit_costs,
                    r,
                    c,
                ),
            forall|x: int| 0 <= x < cost_matrix@.len() ==> (#[trigger] cost_matrix@[x]) <= GED_LIMIT + 2 * GED_LIMIT * GED_LIMIT,
        decreases n - i,
    {
        let mut j: usize = 0;
        while j < n
            invariant
                edit_costs.in_range(),
                within_ged_limit(one_graph),
                within_ged_limit(other_graph),
                n == ged_side(one_graph, other_graph),
                n <= GED_LIMIT,
                i < n,
                j <= n,
                cost_matrix@.len() == i * n + j,
                forall|r: int, c: int|
                    0 <= r < i && 0 <= c < n ==> #[trigger] cost_matrix@[r * n + c] == ged_cell(
                        one_graph,
                        other_graph,
                        edit_costs,
                        r,
                        c,
                    ),
                forall|c: int|
                    0 <= c < j ==> #[trigger] cost_matrix@[i * n + c] == ged_cell(
                        one_graph,
                        other_graph,
                        edit_costs,
                        i as int,
                        c,
                    ),
                forall|x: int| 0 <= x < cost_matrix@.len() ==> (#[trigger] cost_matrix@[x]) <= GED_LIMIT + 2 * GED_LIMIT * GED_LIMIT,
            decreases n - j,
        {
            let cost = cell_cost(one_graph, other_graph, edit_costs, i, j);
            let ghost before = cost_matrix@;
            cost_matrix.push(cost);
            proof {
                assert forall|r: int, c: int| 0 <= r < i && 0 <= c < n implies #[trigger] cost_matrix@[r * n + c]
                    == ged_cell(one_graph, other_graph, edit_costs, r, c) by {
                    lemma_row_major(r, c, i as int, n as int);
                    assert(cost_matrix@[r * n + c] == before[r * n + c]);
                }
                assert forall|c: int| 0 <= c < j + 1 implies #[trigger] cost_matrix@[i * n + c] == ged_cell(
                    one_graph,
                    other_graph,
                    edit_costs,
                    i as int,
                    c,
                ) by {
                    if c < j {
                        assert(cost_matrix@[i * n + c] == before[i * n + c]);
                    }
                }
            }
            j += 1;
        }
        proof {
            lemma_row_major(i as int, 0, i as int + 1, n as int);
        }
        i += 1;
    }
    let assignment = hungarian_minimize(&cost_matrix, n);
    let mut total: u64 = 0;
    let mut i: usize = 0;
    while i < n
        invariant
            n <= GED_LIMIT,
            n * n <= GED_LIMIT * GED_LIMIT,
            i <= n,
            cost_matrix@.len() == n * n,
            is_assignment(assignment@, n as int),
            forall|x: int| 0 <= x < cost_matrix@.len() ==> (#[trigger] cost_matrix@[x]) <= GED_LIMIT + 2 * GED_LIMIT * GED_LIMIT,
            total == assignment_cost(cost_matrix@, n as int, assignment@, i as int),
            total <= i * (GED_LIMIT + 2 * GED_LIMIT * GED_LIMIT),
        decreases n - i,
    {
        match assignment[i] {
            Some(j) => {
                proof {
                    lemma_row_major(i as int, j as int, n as int, n as int);
                    lemma_mul_le(i as int, n as int, GED_LIMIT as int, GED_LIMIT as int);
                    assert((i + 1) * (GED_LIMIT + 2 * GED_LIMIT * GED_LIMIT) == i * (GED_LIMIT + 2 * GED_LIMIT * GED_LIMIT) + (GED_LIMIT + 2 * GED_LIMIT * GED_LIMIT)) by (nonlinear_arith);
                    lemma_mul_le(i as int, (GED_LIMIT + 2 * GED_LIMIT * GED_LIMIT) as int, GED_LIMIT as int, (GED_LIMIT + 2 * GED_LIMIT * GED_LIMIT) as int);
                }
                total = total + cost_matrix[i * n + j];
            },
            None => {},
        }
        i += 1;
    }
    proof {
        let p = assignment@;
        let side = ged_side(one_graph, other_graph);
        lemma_costs_agree(one_graph, other_graph, edit_costs, cost_matrix@, n as int, p, n as int);
        assert forall|q: Seq<Option<usize>>| #[trigger] is_assignment(q, side) implies total <= ged_assignment_cost(
            one_graph,
            other_graph,
            edit_costs,
            q,
            side,
        ) by {
            lemma_costs_agree(one_graph, other_graph, edit_costs, cost_matrix@, n as int, q, n as int);
        }
        assert(is_assignment(p, side) && ged_assignment_cost(one_graph, other_graph, edit_costs, p, side) == total);
        lemma_ged_unique(one_graph, other_graph, edit_costs, total as int);
    }
    total
}

proof fn lemma_edge_count_bound(g: &Graph, n: int)
    requires
        within_ged_limit(g),
        0 <= n <= g.vertices@.len(),
    ensures
        edge_triples_upto(g.vertices@, n).len() <= n * GED_LIMIT,
    decreases n,
{
    if n > 0 {
        lemma_edge_count_bound(g, n - 1);
        assert(g.vertices@[n - 1].edges@.len() <= GED_LIMIT);
        assert(n * GED_LIMIT == (n - 1) * GED_LIMIT + GED_LIMIT) by (nonlinear_arith);
    }
}

/// A well-formed graph within the limit of the edit distance fits the
/// adjacency form.
pub proof fn lemma_within_limit_fits(g: &Graph)
    requires
        g.wf(),
        within_ged_limit(g),
    ensures
        fits_adjacency_form(g),
{
    lemma_edge_count_bound(g, g.vertices@.len() as int);
    lemma_mul_le(g.vertices@.len() as int, GED_LIMIT as int, GED_LIMIT as int, GED_LIMIT as int);
}

proof fn lemma_no_mismatch_with_itself(a: Seq<Edge>, k: int)
    ensures
        label_mismatches(a, a, k) == 0,
    decreases k,
{
    if k > 0 {
        lemma_no_mismatch_with_itself(a, k - 1);
    }
}

proof fn lemma_cell_not_negative(a: &Graph, b: &Graph, costs: &GEDEditCosts, i: int, j: int)
    ensures
        ged_cell(a, b, costs, i, j) >= 0,
{
    if i < a.vertices@.len() && j < b.vertices@.len() && 0 <= i && 0 <= j {
        let x = a.vertices@[i].edges@;
        let y = b.vertices@[j].edges@;
        let d = if x.len() >= y.len() { x.len() - y.len() } else { y.len() - x.len() };
        let m = if x.len() <= y.len() { x.len() } else { y.len() };
        lemma_label_mismatches_bound(x, y, m as int);
        lemma_mul_le(0, 0, d as int, costs.edge_ins as int);
        lemma_mul_le(0, 0, label_mismatches(x, y, m as int), costs.edge_sub as int);
    } else if i < a.vertices@.len() && j < b.vertices@.len() {
        let x = a.vertices@[i].edges@;
        let y = b.vertices@[j].edges@;
        let d = if x.len() >= y.len() { x.len() - y.len() } else { y.len() - x.len() };
        let m = if x.len() <= y.len() { x.len() } else { y.len() };
        lemma_label_mismatches_bound(x, y, m as int);
        lemma_mul_le(0, 0, d as int, costs.edge_ins as int);
        lemma_mul_le(0, 0, label_mismatches(x, y, m as int), costs.edge_sub as int);
    }
}

proof fn lemma_cost_not_negative(a: &Graph, b: &Graph, costs: &GEDEditCosts, p: Seq<Option<usize>>, k: int)
    ensures
        ged_assignment_cost(a, b, costs, p, k) >= 0,
    decreases k,
{
    if k > 0 {
        lemma_cost_not_negative(a, b, costs, p, k - 1);
        lemma_cell_not_negative(a, b, costs, k - 1, p[k - 1].unwrap() as int);
    }
}

proof fn lemma_identity_costs_nothing(a: &Graph, b: &Graph, costs: &GEDEditCosts, p: Seq<Option<usize>>, k: int)
    requires
        same_content(a, b),
        0 <= k <= a.vertices@.len(),
        forall|i: int| 0 <= i < k ==> #[trigger] p[i] == Some(i as usize),
        a.vertices@.len() <= usize::MAX,
    ensures
        ged_assignment_cost(a, b, costs, p, k) == 0,
    decreases k,
{
    if k > 0 {
        lemma_identity_costs_nothing(a, b, costs, p, k - 1);
        assert(p[k - 1] == Some((k - 1) as usize));
        let x = a.vertices@[k - 1].edges@;
        assert(b.vertices@[k - 1].edges@ == x);
        lemma_no_mismatch_with_itself(x, x.len() as int);
        assert(edge_penalty_of(x, x, costs) == 0) by (nonlinear_arith)
            requires
                edge_penalty_of(x, x, costs) == 0 * costs.edge_ins + 0 * costs.edge_sub,
        ;
    }
}

/// The edit distance between a graph and one with the same content, itself
/// included, is 0.
pub proof fn lemma_ged_of_same_content(a: &Graph, b: &Graph, costs: &GEDEditCosts)
    requires
        same_content(a, b),
        a.vertices@.len() <= usize::MAX,
    ensures
        is_ged(a, b, costs, 0),
        ged_distance(a, b, costs) == 0,
{
    let n = ged_side(a, b);
    let p = Seq::new(n as nat, |i: int| Some(i as usize));
    assert(is_assignment(p, n));
    lemma_identity_costs_nothing(a, b, costs, p, n);
    assert forall|q: Seq<Option<usize>>| #[trigger] is_assignment(q, n) implies 0 <= ged_assignment_cost(
        a,
        b,
        costs,
        q,
        n,
    ) by {
        lemma_cost_not_negative(a, b, costs, q, n);
    }
    lemma_ged_unique(a, b, costs, 0);
}

/// Every graph has the same content as itself.
pub proof fn lemma_same_content_reflexive(a: &Graph)
    ensures
        same_content(a, a),
{
}

/// The algorithms for comparing two graphs that work on integers alone.
#[derive(Debug)]
pub enum AlgoGraphMatching {
    /// Exact isomorphism by the VF2 algorithm: `ExactMatch` or `NoMatch`.
    VF2IsomorphismTest,
    /// Approximate graph edit distance by bipartite assignment.
    GEDFastHungarian { edit_costs: GEDEditCosts, matching_threshold: usize },
}

/// The confirmation step of a metric that reports the highest similarity:
/// exact for graphs that the VF2 test finds isomorphic, relaxed otherwise.
pub open spec fn escalated(a: &Graph, b: &Graph) -> MatchingResult {
    if isomorphic(a, b) {
        MatchingResult::ExactMatch
    } else {
        MatchingResult::RelaxedMatch
    }
}

/// The class of a similarity: the confirmation step where it reaches the
/// highest value, relaxed where it reaches the threshold only.
pub open spec fn similarity_class(reaches_one: bool, reaches_threshold: bool, a: &Graph, b: &Graph) -> MatchingResult {
    if reaches_one {
        escalated(a, b)
    } else if reaches_threshold {
        MatchingResult::RelaxedMatch
    } else {
        MatchingResult::NoMatch
    }
}

/// The class of a distance: the confirmation step at distance 0, relaxed up
/// to the threshold.
pub open spec fn distance_class(d: int, threshold: int, a: &Graph, b: &Graph) -> MatchingResult {
    if d == 0 {
        escalated(a, b)
    } else if d <= threshold {
        MatchingResult::RelaxedMatch
    } else {
        MatchingResult::NoMatch
    }
}

/// Confirms a highest similarity by the VF2 test.
pub fn escalate(one_graph: &Graph, other_graph: &Graph) -> (r: MatchingResult)
    requires
        fits_adjacency_form(one_graph),
        fits_adjacency_form(other_graph),
    ensures
        r == escalated(one_graph, other_graph),
{
    if graph_vf2_isomorphism(one_graph, other_graph) {
        MatchingResult::ExactMatch
    } else {
        MatchingResult::RelaxedMatch
    }
}

/// Classifies a similarity of which is known whether it reaches the highest
/// value and whether it reaches the threshold.
pub fn classify_similarity(
    reaches_one: bool,
    reaches_threshold: bool,
    one_graph: &Graph,
    other_graph: &Graph,
) -> (r: MatchingResult)
    requires
        fits_adjacency_form(one_graph),
        fits_adjacency_form(other_graph),
    ensures
        r == similarity_class(reaches_one, reaches_threshold, one_graph, other_graph),
{
    if reaches_one {
        escalate(one_graph, other_graph)
    } else if reaches_threshold {
        MatchingResult::RelaxedMatch
    } else {
        MatchingResult::NoMatch
    }
}

/// Classifies an edit distance against a threshold.
pub fn classify_distance(distance: u64, matching_threshold: usize, one_graph: &Graph, other_graph: &Graph) -> (r:
    MatchingResult)
    requires
        fits_adjacency_form(one_graph),
        fits_adjacency_form(other_graph),
    ensures
        r == distance_class(distance as int, matching_threshold as int, one_graph, other_graph),
{
    if distance == 0 {
        escalate(one_graph, other_graph)
    } else if distance <= matching_threshold as u64 {
        MatchingResult::RelaxedMatch
    } else {
        MatchingResult::NoMatch
    }
}

impl AlgoGraphMatching {
    /// The graphs that the algorithm takes: well-formed ones that fit the
    /// adjacency form and, for the edit distance, its limit.
    pub open spec fn accepts(&self, g: &Graph) -> bool {
        match self {
            AlgoGraphMatching::VF2IsomorphismTest => fits_adjacency_form(g),
            AlgoGraphMatching::GEDFastHungarian { edit_costs, matching_threshold } => {
                &&& edit_costs.in_range()
                &&& g.wf()
                &&& within_ged_limit(g)
            },
        }
    }

    /// Checks whether the algorithm takes the graph.
    pub fn accepts_graph(&self, g: &Graph) -> (b: bool)
        ensures
            b == self.accepts(g),
    {
        match self {
            AlgoGraphMatching::VF2IsomorphismTest => {
                g.is_well_formed() && g.vertices.len() < 0xFFFF_FFFF && g.has_fewer_edges_than(0xFFFF_FFFF)
            },
            AlgoGraphMatching::GEDFastHungarian { edit_costs, matching_threshold: _ } => {
                if !(edit_costs.node_sub <= GED_LIMIT && edit_costs.node_ins <= GED_LIMIT && edit_costs.node_del
                    <= GED_LIMIT && edit_costs.edge_sub <= GED_LIMIT && edit_costs.edge_ins <= GED_LIMIT
                    && edit_costs.edge_del <= GED_LIMIT) {
                    return false;
                }
                g.is_well_formed() && is_within_ged_limit(g)
            },
        }
    }

    /// The score of two graphs: for the VF2 test 1 where it succeeds and 0
    /// where it fails, for the edit distance the distance.
    pub open spec fn distance(&self, a: &Graph, b: &Graph) -> int {
        match self {
            AlgoGraphMatching::VF2IsomorphismTest => if isomorphic(a, b) {
                1
            } else {
                0
            },
            AlgoGraphMatching::GEDFastHungarian { edit_costs, matching_threshold } => ged_distance(a, b, edit_costs),
        }
    }

    /// The class of two graphs under the algorithm.
    pub open spec fn matches(&self, a: &Graph, b: &Graph) -> MatchingResult {
        match self {
            AlgoGraphMatching::VF2IsomorphismTest => if isomorphic(a, b) {
                MatchingResult::ExactMatch
            } else {
                MatchingResult::NoMatch
            },
            AlgoGraphMatching::GEDFastHungarian { edit_costs, matching_threshold } => distance_class(
                ged_distance(a, b, edit_costs),
                *matching_threshold as int,
                a,
                b,
            ),
        }
    }

    /// Computes the score of two graphs.
    pub fn calc_distance(&self, one_graph: &Graph, other_graph: &Graph) -> (d: u64)
        requires
            self.accepts(one_graph),
            self.accepts(other_graph),
        ensures
            d == self.distance(one_graph, other_graph),
    {
        match self {
            AlgoGraphMatching::VF2IsomorphismTest => {
                if graph_vf2_isomorphism(one_graph, other_graph) {
                    1
                } else {
                    0
                }
            },
            AlgoGraphMatching::GEDFastHungarian { edit_costs, matching_threshold: _ } => fast_ged(
                one_graph,
                other_graph,
                edit_costs,
            ),
        }
    }

    /// Determines the class of two graphs: exact, relaxed or no match.
    pub fn match_graphs(&self, one_graph: &Graph, other_graph: &Graph) -> (r: MatchingResult)
        requires
            self.accepts(one_graph),
            self.accepts(other_graph),
        ensures
            r == self.matches(one_graph, other_graph),
            same_content(one_graph, other_graph) ==> r == MatchingResult::ExactMatch,
    {
        let distance = self.calc_distance(one_graph, other_graph);
        proof {
            if same_content(one_graph, other_graph) {
                lemma_isomorphic_reflexive(one_graph, other_graph);
                match self {
                    AlgoGraphMatching::VF2IsomorphismTest => {},
                    AlgoGraphMatching::GEDFastHungarian { edit_costs, matching_threshold } => {
                        lemma_ged_of_same_content(one_graph, other_graph, edit_costs);
                    },
                }
            }
        }
        match self {
            AlgoGraphMatching::VF2IsomorphismTest => {
                if distance == 1 {
                    MatchingResult::ExactMatch
                } else {
                    MatchingResult::NoMatch
                }
            },
            AlgoGraphMatching::GEDFastHungarian { edit_costs: _, matching_threshold } => {
                proof {
                    lemma_within_limit_fits(one_graph);
                    lemma_within_limit_fits(other_graph);
                }
                classify_distance(distance, *matching_threshold, one_graph, other_graph)
            },
        }
    }
}

/// A graph matches every graph with the same content, itself included,
/// exactly, under every algorithm.
pub proof fn lemma_match_of_same_content(algo: &AlgoGraphMatching, a: &Graph, b: &Graph)
    requires
        same_content(a, b),
        a.vertices@.len() <= usize::MAX,
    ensures
        algo.matches(a, b) == MatchingResult::ExactMatch,
        algo.matches(a, a) == MatchingResult::ExactMatch,
{
    lemma_isomorphic_reflexive(a, b);
    lemma_same_content_reflexive(a);
    match algo {
        AlgoGraphMatching::VF2IsomorphismTest => {},
        AlgoGraphMatching::GEDFastHungarian { edit_costs, matching_threshold } => {
            lemma_ged_of_same_content(a, b, edit_costs);
            lemma_ged_of_same_content(a, a, edit_costs);
        },
    }
}

/// Every pair of graphs has a least assignment cost.
pub proof fn lemma_ged_exists(a: &Graph, b: &Graph, costs: &GEDEditCosts)
    requires
        ged_side(a, b) <= usize::MAX,
    ensures
        is_ged(a, b, costs, ged_distance(a, b, costs)),
{
    let n = ged_side(a, b);
    let p = Seq::new(n as nat, |i: int| Some(i as usize));
    assert(is_assignment(p, n));
    lemma_cost_not_negative(a, b, costs, p, n);
    let m = lemma_least_cost(a, b, costs, ged_assignment_cost(a, b, costs, p, n));
    assert forall|q: Seq<Option<usize>>| #[trigger] is_assignment(q, n) implies m <= ged_assignment_cost(
        a,
        b,
        costs,
        q,
        n,
    ) by {
        lemma_cost_not_negative(a, b, costs, q, n);
        assert(has_cost(a, b, costs, ged_assignment_cost(a, b, costs, q, n)));
    }
    assert(is_ged(a, b, costs, m));
}

/// Some assignment has the cost `d`.
spec fn has_cost(a: &Graph, b: &Graph, costs: &GEDEditCosts, d: int) -> bool {
    exists|p: Seq<Option<usize>>|
        #[trigger] is_assignment(p, ged_side(a, b)) && ged_assignment_cost(a, b, costs, p, ged_side(a, b)) == d
}

proof fn lemma_least_cost(a: &Graph, b: &Graph, costs: &GEDEditCosts, d: int) -> (m: int)
    requires
        0 <= d,
        has_cost(a, b, costs, d),
    ensures
        0 <= m <= d,
        has_cost(a, b, costs, m),
        forall|e: int| 0 <= e < m ==> !has_cost(a, b, costs, e),
    decreases d,
{
    if exists|e: int| 0 <= e < d && has_cost(a, b, costs, e) {
        let e = choose|e: int| 0 <= e < d && has_cost(a, b, costs, e);
        lemma_least_cost(a, b, costs, e)
    } else {
        d
    }
}

/// Some row is assigned to column `j`.
spec fn reached(p: Seq<Option<usize>>, n: int, j: int) -> bool {
    exists|i: int| 0 <= i < n && (#[trigger] p[i]).unwrap() == j
}

/// An assignment reaches every column.
proof fn lemma_assignment_onto(p: Seq<Option<usize>>, n: int)
    requires
        is_assignment(p, n),
    ensures
        forall|j: int| 0 <= j < n ==> #[trigger] reached(p, n, j),
{
    let x = set_int_range(0, n);
    let f = |i: int| p[i].unwrap() as int;
    let y = x.map(f);
    lemma_int_range(0, n);
    assert forall|x1: int, x2: int| x.contains(x1) && x.contains(x2) && #[trigger] f(x1) == #[trigger] f(x2) implies x1
        == x2 by {
        if x1 < x2 {
            assert(p[x1] != p[x2]);
        } else if x2 < x1 {
            assert(p[x2] != p[x1]);
        }
    }
    lemma_map_size(x, y, f);
    assert forall|j: int| y.contains(j) implies x.contains(j) by {
        let i = choose|i: int| x.contains(i) && f(i) == j;
        assert(p[i].unwrap() < n);
    }
    lemma_subset_equality(y, x);
    assert forall|j: int| 0 <= j < n implies #[trigger] reached(p, n, j) by {
        assert(x.contains(j));
        assert(y.contains(j));
        let i = choose|i: int| x.contains(i) && f(i) == j;
        assert(0 <= i < n && p[i].unwrap() == j);
    }
}

/// The assignment that gives each column the row that `p` assigns to it.
spec fn inverse(p: Seq<Option<usize>>, n: int) -> Seq<Option<usize>> {
    Seq::new(n as nat, |j: int| Some((choose|i: int| 0 <= i < n && (#[trigger] p[i]).unwrap() == j) as usize))
}

proof fn lemma_inverse(p: Seq<Option<usize>>, n: int)
    requires
        is_assignment(p, n),
        n <= usize::MAX,
    ensures
        is_assignment(inverse(p, n), n),
        forall|j: int| 0 <= j < n ==> p[(#[trigger] inverse(p, n)[j]).unwrap() as int].unwrap() == j,
{
    lemma_assignment_onto(p, n);
    let q = inverse(p, n);
    assert forall|j: int| 0 <= j < n implies (#[trigger] q[j]) is Some && q[j].unwrap() < n && p[q[j].unwrap() as int].unwrap()
        == j by {
        assert(reached(p, n, j));
        let i = choose|i: int| 0 <= i < n && (#[trigger] p[i]).unwrap() == j;
        assert(0 <= i < n && p[i].unwrap() == j);
        assert(q[j] == Some(i as usize));
        assert(p[i] is Some);
    }
    assert forall|j1: int, j2: int| 0 <= j1 < j2 < n implies q[j1] != q[j2] by {
        assert(p[q[j1].unwrap() as int].unwrap() == j1);
        assert(p[q[j2].unwrap() as int].unwrap() == j2);
    }
}

proof fn lemma_label_mismatches_symmetric(x: Seq<Edge>, y: Seq<Edge>, k: int)
    ensures
        label_mismatches(x, y, k) == label_mismatches(y, x, k),
    decreases k,
{
    if k > 0 {
        lemma_label_mismatches_symmetric(x, y, k - 1);
    }
}

/// Where insertion and deletion of a node cost the same, the cost matrix of
/// two graphs is the transposed matrix of the two in the other order.
proof fn lemma_cell_symmetric(a: &Graph, b: &Graph, costs: &GEDEditCosts, i: int, j: int)
    requires
        costs.node_ins == costs.node_del,
        0 <= i,
        0 <= j,
    ensures
        ged_cell(a, b, costs, i, j) == ged_cell(b, a, costs, j, i),
{
    if i < a.vertices@.len() && j < b.vertices@.len() {
        let x = a.vertices@[i].edges@;
        let y = b.vertices@[j].edges@;
        let m = if x.len() <= y.len() { x.len() } else { y.len() };
        lemma_label_mismatches_symmetric(x, y, m as int);
    }
}

/// The cost that the first `r` rows of an assignment take from the columns
/// below `k`.
spec fn cost_below(a: &Graph, b: &Graph, costs: &GEDEditCosts, p: Seq<Option<usize>>, r: int, k: int) -> int
    decreases r,
{
    if r <= 0 {
        0
    } else {
        cost_below(a, b, costs, p, r - 1, k) + (if p[r - 1].unwrap() < k {
            ged_cell(a, b, costs, r - 1, p[r - 1].unwrap() as int)
        } else {
            0int
        })
    }
}

proof fn lemma_cost_below_all(a: &Graph, b: &Graph, costs: &GEDEditCosts, p: Seq<Option<usize>>, n: int, r: int)
    requires
        is_assignment(p, n),
        0 <= r <= n,
    ensures
        cost_below(a, b, costs, p, r, n) == ged_assignment_cost(a, b, costs, p, r),
    decreases r,
{
    if r > 0 {
        lemma_cost_below_all(a, b, costs, p, n, r - 1);
        assert(p[r - 1].unwrap() < n);
    }
}

proof fn lemma_cost_below_next(
    a: &Graph,
    b: &Graph,
    costs: &GEDEditCosts,
    p: Seq<Option<usize>>,
    n: int,
    r: int,
    k: int,
    row: int,
)
    requires
        is_assignment(p, n),
        0 <= r <= n,
        0 <= k < n,
        0 <= row < n,
        p[row].unwrap() == k,
    ensures
        cost_below(a, b, costs, p, r, k + 1) == cost_below(a, b, costs, p, r, k) + (if row < r {
            ged_cell(a, b, costs, row, k)
        } else {
            0int
        }),
    decreases r,
{
    if r > 0 {
        lemma_cost_below_next(a, b, costs, p, n, r - 1, k, row);
        if p[r - 1].unwrap() == k && r - 1 != row {
            if r - 1 < row {
                assert(p[r - 1] != p[row]);
            } else {
                assert(p[row] != p[r - 1]);
            }
            assert(p[r - 1] is Some);
            assert(false);
        }
    }
}

proof fn lemma_inverse_cost(
    a: &Graph,
    b: &Graph,
    costs: &GEDEditCosts,
    p: Seq<Option<usize>>,
    q: Seq<Option<usize>>,
    n: int,
    k: int,
)
    requires
        costs.node_ins == costs.node_del,
        is_assignment(p, n),
        is_assignment(q, n),
        forall|j: int| 0 <= j < n ==> p[(#[trigger] q[j]).unwrap() as int].unwrap() == j,
        0 <= k <= n,
    ensures
        ged_assignment_cost(b, a, costs, q, k) == cost_below(a, b, costs, p, n, k),
    decreases k,
{
    if k > 0 {
        lemma_inverse_cost(a, b, costs, p, q, n, k - 1);
        let row = q[k - 1].unwrap() as int;
        assert(p[row].unwrap() == k - 1);
        lemma_cost_below_next(a, b, costs, p, n, n, k - 1, row);
        lemma_cell_symmetric(a, b, costs, row, k - 1);
    } else {
        lemma_cost_below_zero(a, b, costs, p, n);
    }
}

proof fn lemma_cost_below_zero(a: &Graph, b: &Graph, costs: &GEDEditCosts, p: Seq<Option<usize>>, r: int)
    ensures
        cost_below(a, b, costs, p, r, 0) == 0,
    decreases r,
{
    if r > 0 {
        lemma_cost_below_zero(a, b, costs, p, r - 1);
    }
}

proof fn lemma_ged_not_above(a: &Graph, b: &Graph, costs: &GEDEditCosts, d: int, e: int)
    requires
        costs.node_ins == costs.node_del,
        ged_side(a, b) <= usize::MAX,
        is_ged(a, b, costs, d),
        is_ged(b, a, costs, e),
    ensures
        e <= d,
{
    let n = ged_side(a, b);
    let p = choose|p: Seq<Option<usize>>|
        #[trigger] is_assignment(p, n) && ged_assignment_cost(a, b, costs, p, n) == d;
    assert(is_assignment(p, n));
    lemma_inverse(p, n);
    let q = inverse(p, n);
    lemma_inverse_cost(a, b, costs, p, q, n, n);
    lemma_cost_below_all(a, b, costs, p, n, n);
    assert(ged_side(b, a) == n);
    assert(is_assignment(q, ged_side(b, a)));
}

/// Where insertion and deletion of a node cost the same, the edit distance
/// does not depend on the order of the two graphs.
pub proof fn lemma_ged_symmetric(a: &Graph, b: &Graph, costs: &GEDEditCosts)
    requires
        costs.node_ins == costs.node_del,
        ged_side(a, b) <= usize::MAX,
    ensures
        ged_distance(a, b, costs) == ged_distance(b, a, costs),
{
    lemma_ged_exists(a, b, costs);
    lemma_ged_exists(b, a, costs);
    lemma_ged_not_above(a, b, costs, ged_distance(a, b, costs), ged_distance(b, a, costs));
    lemma_ged_not_above(b, a, costs, ged_distance(b, a, costs), ged_distance(a, b, costs));
}

/// Matching does not depend on the order of the two graphs: under the VF2
/// test always, under the edit distance where insertion and deletion of a
/// node cost the same.
pub proof fn lemma_match_symmetric(algo: &AlgoGraphMatching, a: &Graph, b: &Graph)
    requires
        ged_side(a, b) <= usize::MAX,
        algo is GEDFastHungarian ==> algo->edit_costs.node_ins == algo->edit_costs.node_del,
    ensures
        algo.matches(a, b) == algo.matches(b, a),
        algo.distance(a, b) == algo.distance(b, a),
{
    lemma_isomorphic_symmetric(a, b);
    match algo {
        AlgoGraphMatching::VF2IsomorphismTest => {},
        AlgoGraphMatching::GEDFastHungarian { edit_costs, matching_threshold } => {
            lemma_ged_symmetric(a, b, edit_costs);
        },
    }
}

} // verus!
