//! Edges.

use vstd::prelude::*;
use crate::data::text::decimal;
use crate::data::text::decimal_digits;
use crate::data::text::join;
use crate::data::text::joined;
use crate::data::text::views;

verus! {

/// A directed, labeled edge, stored on its source vertex.
#[derive(Debug, Clone, Copy, PartialEq, Eq, Structural)]
pub struct Edge {
    /// Position of the edge in the edge list of its source vertex.
    pub id: usize,
    /// Id of the source vertex.
    pub from: usize,
    /// Id of the target vertex, in the same graph.
    pub to: usize,
    /// Label of the edge.
    pub e_label: usize,
}

impl Edge {
    pub fn new(id: usize, from: usize, to: usize, e_label: usize) -> (e: Edge)
        ensures
            e == (Edge { id, from, to, e_label }),
    {
        Edge { id, from, to, e_label }
    }

    /// The line of the edge in pattern text: `e`, source, target and label.
    pub open spec fn line(&self) -> Seq<char> {
        joined(
            seq![
                "e"@,
                decimal_digits(self.from as nat),
                decimal_digits(self.to as nat),
                decimal_digits(self.e_label as nat),
            ],
            " "@,
        )
    }

    pub fn to_str_repr(&self) -> (r: String)
        ensures
            r@ == self.line(),
    {
        let mut parts: Vec<String> = Vec::new();
        parts.push("e".to_owned());
        parts.push(decimal(self.from));
        parts.push(decimal(self.to));
        parts.push(decimal(self.e_label));
        assert(views(parts@) =~= seq![
            "e"@,
            decimal_digits(self.from as nat),
            decimal_digits(self.to as nat),
            decimal_digits(self.e_label as nat),
        ]);
        join(&parts, " ")
    }
}

} // verus!
