//! Vertices with their outgoing edges.

use vstd::prelude::*;
use crate::data::edge::Edge;
use crate::data::text::decimal;
use crate::data::text::decimal_digits;
use crate::data::text::join;
use crate::data::text::joined;
use crate::data::text::views;
use vstd::std_specs::cmp::PartialEqSpecImpl;

verus! {

/// A vertex with its label, its type and its outgoing edges.
#[derive(Debug, Clone)]
pub struct Vertex {
    pub id: usize,
    pub label: usize,
    pub vertex_type: usize,
    pub edges: Vec<Edge>,
}

/// What a vertex holds: id, label, type and the sequence of its edges.
pub struct VertexView {
    pub id: usize,
    pub label: usize,
    pub vertex_type: usize,
    pub edges: Seq<Edge>,
}

impl View for Vertex {
    type V = VertexView;

    open spec fn view(&self) -> VertexView {
        VertexView { id: self.id, label: self.label, vertex_type: self.vertex_type, edges: self.edges@ }
    }
}

impl Vertex {
    /// Every edge starts at this vertex and is numbered by its position.
    pub open spec fn wf(&self) -> bool {
        forall|k: int|
            0 <= k < self.edges@.len() ==> (#[trigger] self.edges@[k]).from == self.id
                && self.edges@[k].id == k
    }

    /// Two vertices are equivalent when label and type agree.
    pub open spec fn equivalent(&self, other: &Vertex) -> bool {
        self.label == other.label && self.vertex_type == other.vertex_type
    }

    pub fn new(id: usize, label: Option<usize>, v_type: Option<usize>) -> (v: Vertex)
        ensures
            v.id == id,
            v.label == (if let Some(l) = label { l } else { 0 }),
            v.vertex_type == (if let Some(t) = v_type { t } else { 0 }),
            v.edges@ == Seq::<Edge>::empty(),
            v.wf(),
    {
        let label: usize = match label {
            Some(l) => l,
            None => 0,
        };
        let vertex_type: usize = match v_type {
            Some(t) => t,
            None => 0,
        };
        Vertex { id, label, vertex_type, edges: Vec::new() }
    }

    /// Checks that every edge starts at this vertex and is numbered by its
    /// position.
    pub fn is_well_formed(&self) -> (b: bool)
        ensures
            b == self.wf(),
    {
        let mut k: usize = 0;
        while k < self.edges.len()
            invariant
                k <= self.edges@.len(),
                forall|j: int| 0 <= j < k ==> (#[trigger] self.edges@[j]).from == self.id && self.edges@[j].id == j,
            decreases self.edges@.len() - k,
        {
            if self.edges[k].from != self.id || self.edges[k].id != k {
                return false;
            }
            k += 1;
        }
        true
    }

    /// The line of the vertex in pattern text: `v`, id, label and type.
    pub open spec fn line(&self) -> Seq<char> {
        joined(
            seq![
                "v"@,
                decimal_digits(self.id as nat),
                decimal_digits(self.label as nat),
                decimal_digits(self.vertex_type as nat),
            ],
            " "@,
        )
    }

    pub fn to_str_repr(&self) -> (r: String)
        ensures
            r@ == self.line(),
    {
        let mut parts: Vec<String> = Vec::new();
        parts.push("v".to_owned());
        parts.push(decimal(self.id));
        parts.push(decimal(self.label));
        parts.push(decimal(self.vertex_type));
        assert(views(parts@) =~= seq![
            "v"@,
            decimal_digits(self.id as nat),
            decimal_digits(self.label as nat),
            decimal_digits(self.vertex_type as nat),
        ]);
        join(&parts, " ")
    }

    /// Appends an edge from this vertex to `to`.
    pub fn push(&mut self, to: usize, e_label: usize)
        ensures
            final(self).id == old(self).id,
            final(self).label == old(self).label,
            final(self).vertex_type == old(self).vertex_type,
            final(self).edges@ == old(self).edges@.push(
                Edge { id: old(self).edges@.len() as usize, from: old(self).id, to, e_label },
            ),
            old(self).wf() ==> final(self).wf(),
    {
        let e = Edge::new(self.edges.len(), self.id, to, e_label);
        self.edges.push(e);
    }
}

/// Two vertices compare equal when they are equivalent: label and type agree.
impl PartialEq for Vertex {
    fn eq(&self, other: &Self) -> (r: bool) {
        self.label == other.label && self.vertex_type == other.vertex_type
    }
}

impl PartialEqSpecImpl for Vertex {
    open spec fn obeys_eq_spec() -> bool {
        true
    }

    open spec fn eq_spec(&self, other: &Self) -> bool {
        self.label == other.label && self.vertex_type == other.vertex_type
    }
}

} // verus!
