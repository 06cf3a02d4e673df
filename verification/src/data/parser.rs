//! The reader of the textual graph database.

use vstd::prelude::*;
use crate::data::edge::Edge;
use crate::data::graph::Graph;
use crate::data::graph::GraphView;
use crate::data::text::decimal;
use crate::data::text::decimal_digits;
use crate::data::text::join;
use crate::data::text::joined;
use crate::data::text::views;
use crate::data::vertex::VertexView;

verus! {

/// Why a graph database could not be read.
#[derive(Debug, Clone, Copy, PartialEq, Eq, Structural)]
pub enum ParseErrorKind {
    /// The input could not be read at all.
    FileNotRead,
    /// A `t` record ends after the `t`.
    MissingHash,
    /// A `t` record has no id.
    MissingGraphId,
    /// The id of a `t` record is no number.
    InvalidGraphId,
    /// The id of a `t` record is not the next graph id.
    UnexpectedGraphId { found: usize, expected: usize },
    /// A `v` record has no id.
    MissingVertexId { graph: usize },
    /// The id of a `v` record is no number.
    InvalidVertexId { graph: usize },
    /// The id of a `v` record is not the next vertex id of the graph.
    UnexpectedVertexId { graph: usize, found: usize, expected: usize },
    /// A `v` record has no label.
    MissingVertexLabel { graph: usize },
    /// The label of a `v` record is no number.
    InvalidVertexLabel { graph: usize, vertex: usize },
    /// A `v` record has no type.
    MissingVertexType { graph: usize },
    /// The type of a `v` record is no number.
    InvalidVertexType { graph: usize, vertex: usize },
    /// An `e` record has no source.
    MissingEdgeFrom { graph: usize },
    /// The source of an `e` record is no number.
    InvalidEdgeFrom { graph: usize },
    /// An `e` record has no target.
    MissingEdgeTo { graph: usize },
    /// The target of an `e` record is no number.
    InvalidEdgeTo { graph: usize },
    /// An `e` record has no label.
    MissingEdgeLabel { graph: usize },
    /// The label of an `e` record is no number.
    InvalidEdgeLabel { graph: usize },
    /// An `e` record names a vertex that the graph does not have yet.
    EdgeVertexNotFound { graph: usize },
}

/// `Graph`, the graph id, and the rest of a message.
pub open spec fn graph_message(graph: usize, rest: Seq<char>) -> Seq<char> {
    joined(seq!["Graph "@, decimal_digits(graph as nat), rest], ""@)
}

/// `Graph`, the graph id, `Vertex`, the vertex id, and the rest of a message.
pub open spec fn vertex_message(graph: usize, vertex: usize, rest: Seq<char>) -> Seq<char> {
    joined(seq!["Graph "@, decimal_digits(graph as nat), ", Vertex "@, decimal_digits(vertex as nat), rest], ""@)
}

impl ParseErrorKind {
    /// The message of the error.
    pub open spec fn text(&self) -> Seq<char> {
        match *self {
            ParseErrorKind::FileNotRead => "Error reading file"@,
            ParseErrorKind::MissingHash => "Missing '#' in graph"@,
            ParseErrorKind::MissingGraphId => "Id for graph is missing"@,
            ParseErrorKind::InvalidGraphId => "Id for graph invalid"@,
            ParseErrorKind::UnexpectedGraphId { found, expected } => joined(
                seq![
                    "Graph with graph id "@,
                    decimal_digits(found as nat),
                    ", it should have the id "@,
                    decimal_digits(expected as nat),
                ],
                ""@,
            ),
            ParseErrorKind::MissingVertexId { graph } => graph_message(graph, ", Missing id for a vertex in"@),
            ParseErrorKind::InvalidVertexId { graph } => graph_message(graph, ", Vertex ID invalid"@),
            ParseErrorKind::UnexpectedVertexId { graph, found, expected } => joined(
                seq![
                    "Graph "@,
                    decimal_digits(graph as nat),
                    ", Vertex ID ("@,
                    decimal_digits(found as nat),
                    ") in input file does not fit the expected ID "@,
                    decimal_digits(expected as nat),
                ],
                ""@,
            ),
            ParseErrorKind::MissingVertexLabel { graph } => graph_message(graph, ", Missing label for a vertex"@),
            ParseErrorKind::InvalidVertexLabel { graph, vertex } => vertex_message(graph, vertex, ", Label invalid"@),
            ParseErrorKind::MissingVertexType { graph } => graph_message(
                graph,
                ", Missing vertex type for a vertex"@,
            ),
            ParseErrorKind::InvalidVertexType { graph, vertex } => vertex_message(
                graph,
                vertex,
                ", Vertex type is invalid"@,
            ),
            ParseErrorKind::MissingEdgeFrom { graph } => graph_message(graph, ", Missing from id for an edge"@),
            ParseErrorKind::InvalidEdgeFrom { graph } => graph_message(graph, ", Invalid from id for an edge"@),
            ParseErrorKind::MissingEdgeTo { graph } => graph_message(graph, ", Missing to id for a edge in"@),
            ParseErrorKind::InvalidEdgeTo { graph } => graph_message(graph, ", Invalid to id for a edge"@),
            ParseErrorKind::MissingEdgeLabel { graph } => graph_message(graph, ", Missing edge label for a edge"@),
            ParseErrorKind::InvalidEdgeLabel { graph } => graph_message(graph, ", Invalid e_label for a edge"@),
            ParseErrorKind::EdgeVertexNotFound { graph } => graph_message(
                graph,
                ", Edge invalid, ids of vertices not found"@,
            ),
        }
    }
}

fn graph_text(graph: usize, rest: &str) -> (r: String)
    ensures
        r@ == graph_message(graph, rest@),
{
    let mut parts: Vec<String> = Vec::new();
    parts.push("Graph ".to_owned());
    parts.push(decimal(graph));
    parts.push(rest.to_owned());
    assert(views(parts@) =~= seq!["Graph "@, decimal_digits(graph as nat), rest@]);
    join(&parts, "")
}

fn vertex_text(graph: usize, vertex: usize, rest: &str) -> (r: String)
    ensures
        r@ == vertex_message(graph, vertex, rest@),
{
    let mut parts: Vec<String> = Vec::new();
    parts.push("Graph ".to_owned());
    parts.push(decimal(graph));
    parts.push(", Vertex ".to_owned());
    parts.push(decimal(vertex));
    parts.push(rest.to_owned());
    assert(views(parts@) =~= seq![
        "Graph "@,
        decimal_digits(graph as nat),
        ", Vertex "@,
        decimal_digits(vertex as nat),
        rest@,
    ]);
    join(&parts, "")
}

/// An error of reading a graph database, with its message.
#[derive(Debug)]
pub struct GraphSetParseError {
    pub kind: ParseErrorKind,
    pub message: String,
}

impl GraphSetParseError {
    /// The error of a kind, with the message of that kind.
    pub fn new(kind: ParseErrorKind) -> (e: GraphSetParseError)
        ensures
            e.kind == kind,
            e.message@ == kind.text(),
    {
        let message = match kind {
            ParseErrorKind::FileNotRead => "Error reading file".to_owned(),
            ParseErrorKind::MissingHash => "Missing '#' in graph".to_owned(),
            ParseErrorKind::MissingGraphId => "Id for graph is missing".to_owned(),
            ParseErrorKind::InvalidGraphId => "Id for graph invalid".to_owned(),
            ParseErrorKind::UnexpectedGraphId { found, expected } => {
                let mut parts: Vec<String> = Vec::new();
                parts.push("Graph with graph id ".to_owned());
                parts.push(decimal(found));
                parts.push(", it should have the id ".to_owned());
                parts.push(decimal(expected));
                assert(views(parts@) =~= seq![
                    "Graph with graph id "@,
                    decimal_digits(found as nat),
                    ", it should have the id "@,
                    decimal_digits(expected as nat),
                ]);
                join(&parts, "")
            },
            ParseErrorKind::MissingVertexId { graph } => graph_text(graph, ", Missing id for a vertex in"),
            ParseErrorKind::InvalidVertexId { graph } => graph_text(graph, ", Vertex ID invalid"),
            ParseErrorKind::UnexpectedVertexId { graph, found, expected } => {
                let mut parts: Vec<String> = Vec::new();
                parts.push("Graph ".to_owned());
                parts.push(decimal(graph));
                parts.push(", Vertex ID (".to_owned());
                parts.push(decimal(found));
                parts.push(") in input file does not fit the expected ID ".to_owned());
                parts.push(decimal(expected));
                assert(views(parts@) =~= seq![
                    "Graph "@,
                    decimal_digits(graph as nat),
                    ", Vertex ID ("@,
                    decimal_digits(found as nat),
                    ") in input file does not fit the expected ID "@,
                    decimal_digits(expected as nat),
                ]);
                join(&parts, "")
            },
            ParseErrorKind::MissingVertexLabel { graph } => graph_text(graph, ", Missing label for a vertex"),
            ParseErrorKind::InvalidVertexLabel { graph, vertex } => vertex_text(graph, vertex, ", Label invalid"),
            ParseErrorKind::MissingVertexType { graph } => graph_text(graph, ", Missing vertex type for a vertex"),
            ParseErrorKind::InvalidVertexType { graph, vertex } => vertex_text(
                graph,
                vertex,
                ", Vertex type is invalid",
            ),
            ParseErrorKind::MissingEdgeFrom { graph } => graph_text(graph, ", Missing from id for an edge"),
            ParseErrorKind::InvalidEdgeFrom { graph } => graph_text(graph, ", Invalid from id for an edge"),
            ParseErrorKind::MissingEdgeTo { graph } => graph_text(graph, ", Missing to id for a edge in"),
            ParseErrorKind::InvalidEdgeTo { graph } => graph_text(graph, ", Invalid to id for a edge"),
            ParseErrorKind::MissingEdgeLabel { graph } => graph_text(graph, ", Missing edge label for a edge"),
            ParseErrorKind::InvalidEdgeLabel { graph } => graph_text(graph, ", Invalid e_label for a edge"),
            ParseErrorKind::EdgeVertexNotFound { graph } => graph_text(
                graph,
                ", Edge invalid, ids of vertices not found",
            ),
        };
        GraphSetParseError { kind, message }
    }

    /// The message of the error.
    pub fn to_string(&self) -> (r: String)
        ensures
            r@ == self.message@,
    {
        self.message.clone()
    }
}

/// The number that a word stands for, if it stands for one.
pub uninterp spec fn parsed_usize(word: Seq<char>) -> Option<usize>;

/// `str::parse::<usize>`: the number that the word stands for; none where
/// the word is no number or the number does not fit.
#[verifier::external_body]
fn parse_usize(word: &String) -> (r: Option<usize>)
    ensures
        r == parsed_usize(word@),
{
    word.parse::<usize>().ok()
}

/// `str::split` at single spaces: the words between the spaces, empty ones
/// included; at least one word, no word with a space in it, and the words
/// joined by spaces give the line.
#[verifier::external_body]
fn split_words(line: &String) -> (r: Vec<String>)
    ensures
        r@.len() >= 1,
        forall|k: int| 0 <= k < r@.len() ==> !(#[trigger] r@[k])@.contains(' '),
        joined(views(r@), " "@) == line@,
{
    line.split(" ").map(String::from).collect()
}

/// Where the reader stands: the graphs that are complete, the graph that
/// records are added to, and the id that the next graph must have. Before
/// the first graph the current graph has the id `usize::MAX` and is not kept.
pub struct ParseState {
    pub done: Seq<GraphView>,
    pub current: GraphView,
    pub expected: usize,
}

/// What a record does to the reader.
pub enum Step {
    /// The reader goes on.
    Next(ParseState),
    /// The end mark `t # -1`: the rest of the input is not read.
    Stop,
    /// The record is refused.
    Fail(ParseErrorKind),
}

/// The state before the first record.
pub open spec fn initial_state() -> ParseState {
    ParseState { done: Seq::empty(), current: GraphView { id: usize::MAX, vertices: Seq::empty() }, expected: 0 }
}

/// The complete graphs and, if one was begun, the current graph.
pub open spec fn finished(st: ParseState) -> Seq<GraphView> {
    if st.current.id != usize::MAX {
        st.done.push(st.current)
    } else {
        st.done
    }
}

/// A record `t # <id>` begins the graph with the next id; `t # -1` ends the
/// input.
pub open spec fn graph_step(st: ParseState, r: Seq<Seq<char>>) -> Step {
    if r.len() < 2 {
        Step::Fail(ParseErrorKind::MissingHash)
    } else if r.len() < 3 {
        Step::Fail(ParseErrorKind::MissingGraphId)
    } else if r[2] == "-1"@ {
        Step::Stop
    } else {
        match parsed_usize(r[2]) {
            None => Step::Fail(ParseErrorKind::InvalidGraphId),
            Some(id) => if id != st.expected || id == usize::MAX {
                Step::Fail(ParseErrorKind::UnexpectedGraphId { found: id, expected: st.expected })
            } else {
                Step::Next(
                    ParseState {
                        done: finished(st),
                        current: GraphView { id, vertices: Seq::empty() },
                        expected: (st.expected + 1) as usize,
                    },
                )
            },
        }
    }
}

/// A record `v <id> <label> <type>` adds the vertex with the next id to the
/// current graph.
pub open spec fn vertex_step(st: ParseState, r: Seq<Seq<char>>) -> Step {
    let graph = st.current.id;
    if r.len() < 2 {
        Step::Fail(ParseErrorKind::MissingVertexId { graph })
    } else {
        match parsed_usize(r[1]) {
            None => Step::Fail(ParseErrorKind::InvalidVertexId { graph }),
            Some(id) => if id != st.current.vertices.len() {
                Step::Fail(
                    ParseErrorKind::UnexpectedVertexId {
                        graph,
                        found: id,
                        expected: st.current.vertices.len() as usize,
                    },
                )
            } else if r.len() < 3 {
                Step::Fail(ParseErrorKind::MissingVertexLabel { graph })
            } else {
                match parsed_usize(r[2]) {
                    None => Step::Fail(ParseErrorKind::InvalidVertexLabel { graph, vertex: id }),
                    Some(label) => if r.len() < 4 {
                        Step::Fail(ParseErrorKind::MissingVertexType { graph })
                    } else {
                        match parsed_usize(r[3]) {
                            None => Step::Fail(ParseErrorKind::InvalidVertexType { graph, vertex: id }),
                            Some(vertex_type) => Step::Next(
                                ParseState {
                                    done: st.done,
                                    current: GraphView {
                                        id: graph,
                                        vertices: st.current.vertices.push(
                                            VertexView { id, label, vertex_type, edges: Seq::empty() },
                                        ),
                                    },
                                    expected: st.expected,
                                },
                            ),
                        }
                    },
                }
            },
        }
    }
}

/// The vertices with one more edge on the vertex `from`.
pub open spec fn with_edge(vertices: Seq<VertexView>, from: usize, to: usize, e_label: usize) -> Seq<VertexView> {
    vertices.update(
        from as int,
        VertexView {
            id: vertices[from as int].id,
            label: vertices[from as int].label,
            vertex_type: vertices[from as int].vertex_type,
            edges: vertices[from as int].edges.push(
                Edge { id: vertices[from as int].edges.len() as usize, from: vertices[from as int].id, to, e_label },
            ),
        },
    )
}

/// A record `e <from> <to> <label>` adds an edge between two vertices that
/// the current graph has already.
pub open spec fn edge_step(st: ParseState, r: Seq<Seq<char>>) -> Step {
    let graph = st.current.id;
    if r.len() < 2 {
        Step::Fail(ParseErrorKind::MissingEdgeFrom { graph })
    } else {
        match parsed_usize(r[1]) {
            None => Step::Fail(ParseErrorKind::InvalidEdgeFrom { graph }),
            Some(from) => if r.len() < 3 {
                Step::Fail(ParseErrorKind::MissingEdgeTo { graph })
            } else {
                match parsed_usize(r[2]) {
                    None => Step::Fail(ParseErrorKind::InvalidEdgeTo { graph }),
                    Some(to) => if r.len() < 4 {
                        Step::Fail(ParseErrorKind::MissingEdgeLabel { graph })
                    } else {
                        match parsed_usize(r[3]) {
                            None => Step::Fail(ParseErrorKind::InvalidEdgeLabel { graph }),
                            Some(e_label) => if from >= st.current.vertices.len() || to
                                >= st.current.vertices.len() {
                                Step::Fail(ParseErrorKind::EdgeVertexNotFound { graph })
                            } else {
                                Step::Next(
                                    ParseState {
                                        done: st.done,
                                        current: GraphView {
                                            id: graph,
                                            vertices: with_edge(st.current.vertices, from, to, e_label),
                                        },
                                        expected: st.expected,
                                    },
                                )
                            },
                        }
                    },
                }
            },
        }
    }
}

/// What a record, given by its words, does to the reader. A record that
/// begins with another word than `t`, `v` or `e` is passed over.
pub open spec fn step(st: ParseState, r: Seq<Seq<char>>) -> Step {
    if r.len() == 0 {
        Step::Next(st)
    } else if r[0] == "t"@ {
        graph_step(st, r)
    } else if r[0] == "v"@ {
        vertex_step(st, r)
    } else if r[0] == "e"@ {
        edge_step(st, r)
    } else {
        Step::Next(st)
    }
}

/// The graphs that the records from `i` on give in state `st`, or the first
/// error.
pub open spec fn parse_from(records: Seq<Seq<Seq<char>>>, i: int, st: ParseState) -> Result<
    Seq<GraphView>,
    ParseErrorKind,
>
    decreases records.len() - i,
{
    if i < 0 || i >= records.len() {
        Ok(finished(st))
    } else {
        match step(st, records[i]) {
            Step::Next(next) => parse_from(records, i + 1, next),
            Step::Stop => Ok(finished(st)),
            Step::Fail(kind) => Err(kind),
        }
    }
}

/// The graphs that the records give, or the first error.
pub open spec fn parse(records: Seq<Seq<Seq<char>>>) -> Result<Seq<GraphView>, ParseErrorKind> {
    parse_from(records, 0, initial_state())
}

/// The words of the records.
pub open spec fn record_views(records: Seq<Vec<String>>) -> Seq<Seq<Seq<char>>> {
    Seq::new(records.len(), |i: int| views(records[i]@))
}

/// What the graphs hold.
pub open spec fn graph_views(graphs: Seq<Graph>) -> Seq<GraphView> {
    Seq::new(graphs.len(), |i: int| graphs[i]@)
}

/// Reads a `v` record into the current graph.
fn read_vertex(current_graph: &mut Graph, record: &Vec<String>, Ghost(st): Ghost<ParseState>) -> (r: Result<
    (),
    GraphSetParseError,
>)
    requires
        old(current_graph)@ == st.current,
    ensures
        match vertex_step(st, views(record@)) {
            Step::Next(next) => r is Ok && final(current_graph)@ == next.current && next.done == st.done
                && next.expected == st.expected,
            Step::Stop => false,
            Step::Fail(kind) => r is Err && r->Err_0.kind == kind,
        },
        old(current_graph).wf() && r is Ok ==> final(current_graph).wf(),
{
    let graph = current_graph.id;
    let ghost words = views(record@);
    if record.len() < 2 {
        return Err(GraphSetParseError::new(ParseErrorKind::MissingVertexId { graph }));
    }
    assert(words[1] == record@[1]@);
    let id = match parse_usize(&record[1]) {
        Some(id) => id,
        None => {
            return Err(GraphSetParseError::new(ParseErrorKind::InvalidVertexId { graph }));
        },
    };
    let expected = current_graph.vertices.len();
    if id != expected {
        return Err(GraphSetParseError::new(ParseErrorKind::UnexpectedVertexId { graph, found: id, expected }));
    }
    if record.len() < 3 {
        return Err(GraphSetParseError::new(ParseErrorKind::MissingVertexLabel { graph }));
    }
    assert(words[2] == record@[2]@);
    let label = match parse_usize(&record[2]) {
        Some(label) => label,
        None => {
            return Err(GraphSetParseError::new(ParseErrorKind::InvalidVertexLabel { graph, vertex: id }));
        },
    };
    if record.len() < 4 {
        return Err(GraphSetParseError::new(ParseErrorKind::MissingVertexType { graph }));
    }
    assert(words[3] == record@[3]@);
    let vertex_type = match parse_usize(&record[3]) {
        Some(vertex_type) => vertex_type,
        None => {
            return Err(GraphSetParseError::new(ParseErrorKind::InvalidVertexType { graph, vertex: id }));
        },
    };
    current_graph.create_vertex_with_data(label, vertex_type);
    assert(current_graph@.vertices =~= st.current.vertices.push(
        VertexView { id, label, vertex_type, edges: Seq::empty() },
    ));
    Ok(())
}

/// Reads an `e` record into the current graph.
fn read_edge(current_graph: &mut Graph, record: &Vec<String>, Ghost(st): Ghost<ParseState>) -> (r: Result<
    (),
    GraphSetParseError,
>)
    requires
        old(current_graph)@ == st.current,
    ensures
        match edge_step(st, views(record@)) {
            Step::Next(next) => r is Ok && final(current_graph)@ == next.current && next.done == st.done
                && next.expected == st.expected,
            Step::Stop => false,
            Step::Fail(kind) => r is Err && r->Err_0.kind == kind,
        },
        old(current_graph).wf() && r is Ok ==> final(current_graph).wf(),
{
    let graph = current_graph.id;
    let ghost words = views(record@);
    if record.len() < 2 {
        return Err(GraphSetParseError::new(ParseErrorKind::MissingEdgeFrom { graph }));
    }
    assert(words[1] == record@[1]@);
    let from_id = match parse_usize(&record[1]) {
        Some(value) => value,
        None => {
            return Err(GraphSetParseError::new(ParseErrorKind::InvalidEdgeFrom { graph }));
        },
    };
    if record.len() < 3 {
        return Err(GraphSetParseError::new(ParseErrorKind::MissingEdgeTo { graph }));
    }
    assert(words[2] == record@[2]@);
    let to_id = match parse_usize(&record[2]) {
        Some(value) => value,
        None => {
            return Err(GraphSetParseError::new(ParseErrorKind::InvalidEdgeTo { graph }));
        },
    };
    if record.len() < 4 {
        return Err(GraphSetParseError::new(ParseErrorKind::MissingEdgeLabel { graph }));
    }
    assert(words[3] == record@[3]@);
    let e_label = match parse_usize(&record[3]) {
        Some(value) => value,
        None => {
            return Err(GraphSetParseError::new(ParseErrorKind::InvalidEdgeLabel { graph }));
        },
    };
    if !current_graph.has_vertex_with_id(&from_id) || !current_graph.has_vertex_with_id(&to_id) {
        return Err(GraphSetParseError::new(ParseErrorKind::EdgeVertexNotFound { graph }));
    }
    let ghost before = current_graph.vertices@;
    let ghost graph_before = *current_graph;
    current_graph.vertices[from_id].push(to_id, e_label);
    proof {
        if graph_before.wf() {
            assert(before[from_id as int].wf());
            assert(current_graph.vertices@[from_id as int].wf());
            assert(current_graph.wf());
        }
        assert(current_graph.vertices@.len() == before.len());
        assert(forall|i: int| 0 <= i < before.len() && i != from_id ==> current_graph.vertices@[i] == before[i]);
        assert(current_graph@.vertices =~= with_edge(st.current.vertices, from_id, to_id, e_label));
    }
    Ok(())
}

/// The graphs read so far are well-formed and have the ids 0, 1, 2 and so
/// on; the current graph, if one was begun, is the next of them.
pub open spec fn numbered(graph_list: Seq<Graph>, current_graph: Graph, graph_id: usize) -> bool {
    &&& forall|k: int| 0 <= k < graph_list.len() ==> (#[trigger] graph_list[k]).wf() && graph_list[k].id == k
    &&& current_graph.wf()
    &&& if current_graph.id == usize::MAX {
        graph_list.len() == 0 && graph_id == 0
    } else {
        current_graph.id == graph_list.len() && graph_id == graph_list.len() + 1
    }
}

/// Reads a `t` record: ends the input at the end mark, or closes the
/// current graph and begins the next.
fn read_graph(
    graph_list: &mut Vec<Graph>,
    current_graph: &mut Graph,
    graph_id: &mut usize,
    record: &Vec<String>,
    Ghost(st): Ghost<ParseState>,
) -> (r: Result<bool, GraphSetParseError>)
    requires
        graph_views(old(graph_list)@) == st.done,
        old(current_graph)@ == st.current,
        *old(graph_id) == st.expected,
        numbered(old(graph_list)@, *old(current_graph), *old(graph_id)),
    ensures
        r is Ok ==> numbered(final(graph_list)@, *final(current_graph), *final(graph_id)),
        match graph_step(st, views(record@)) {
            Step::Next(next) => r == Ok::<bool, GraphSetParseError>(false) && graph_views(final(graph_list)@)
                == next.done && final(current_graph)@ == next.current && *final(graph_id) == next.expected,
            Step::Stop => r == Ok::<bool, GraphSetParseError>(true) && graph_views(final(graph_list)@) == st.done
                && final(current_graph)@ == st.current && *final(graph_id) == st.expected,
            Step::Fail(kind) => r is Err && r->Err_0.kind == kind,
        },
{
    let ghost words = views(record@);
    if record.len() < 2 {
        return Err(GraphSetParseError::new(ParseErrorKind::MissingHash));
    }
    if record.len() < 3 {
        return Err(GraphSetParseError::new(ParseErrorKind::MissingGraphId));
    }
    assert(words[2] == record@[2]@);
    let end_mark = "-1".to_owned();
    if record[2] == end_mark {
        return Ok(true);
    }
    let id = match parse_usize(&record[2]) {
        Some(id) => id,
        None => {
            return Err(GraphSetParseError::new(ParseErrorKind::InvalidGraphId));
        },
    };
    if id != *graph_id || id == usize::MAX {
        return Err(GraphSetParseError::new(ParseErrorKind::UnexpectedGraphId { found: id, expected: *graph_id }));
    }
    let mut closed = Graph::new(id);
    assert(closed@.vertices =~= Seq::<VertexView>::empty());
    core::mem::swap(current_graph, &mut closed);
    if closed.id != usize::MAX {
        let ghost before = graph_list@;
        graph_list.push(closed);
        assert(graph_views(graph_list@) =~= graph_views(before).push(closed@));
    }
    *graph_id = *graph_id + 1;
    Ok(false)
}

/// The words of the lines of a text: each line split at its spaces.
pub open spec fn is_split(records: Seq<Seq<Seq<char>>>, lines: Seq<String>) -> bool {
    &&& records.len() == lines.len()
    &&& forall|i: int|
        0 <= i < lines.len() ==> {
            &&& (#[trigger] records[i]).len() >= 1
            &&& forall|k: int| 0 <= k < records[i].len() ==> !(#[trigger] records[i][k]).contains(' ')
            &&& joined(records[i], " "@) == lines[i]@
        }
}

impl Graph {
    /// Reads a graph database from its records, each given by its words: a `t`
    /// record begins a graph, `v` and `e` records fill it, the end mark
    /// `t # -1` ends the input, other records are passed over. The result is the
    /// list of the graphs, or the error of the first record that is refused.
    pub fn graphs_set_from_records(records: &Vec<Vec<String>>) -> (r: Result<Vec<Graph>, GraphSetParseError>)
        ensures
            match parse(record_views(records@)) {
                Ok(graphs) => r is Ok && graph_views(r->Ok_0@) == graphs,
                Err(kind) => r is Err && r->Err_0.kind == kind && r->Err_0.message@ == kind.text(),
            },
            r is Ok ==> forall|k: int| 0 <= k < r->Ok_0@.len() ==> (#[trigger] r->Ok_0@[k]).wf() && r->Ok_0@[k].id == k,
    {
        let mut graph_list: Vec<Graph> = Vec::new();
        let mut graph_id: usize = 0;
        let mut current_graph: Graph = Graph::new(usize::MAX);
        let ghost all = record_views(records@);
        let ghost mut st = initial_state();
        proof {
            assert(graph_views(graph_list@) =~= st.done);
            assert(current_graph@.vertices =~= Seq::<VertexView>::empty());
        }
        let t_word = "t".to_owned();
        let v_word = "v".to_owned();
        let e_word = "e".to_owned();
        let n = records.len();
        let mut i: usize = 0;
        let mut stopped = false;
        while i < n && !stopped
            invariant
                n == records@.len(),
                all == record_views(records@),
                i <= n,
                t_word@ == "t"@,
                v_word@ == "v"@,
                e_word@ == "e"@,
                graph_views(graph_list@) == st.done,
                current_graph@ == st.current,
                graph_id == st.expected,
                numbered(graph_list@, current_graph, graph_id),
                !stopped ==> parse(all) == parse_from(all, i as int, st),
                stopped ==> parse(all) == Ok::<Seq<GraphView>, ParseErrorKind>(finished(st)),
            decreases n - i,
        {
            let record = &records[i];
            assert(all[i as int] == views(record@));
            if record.len() > 0 {
                assert(views(record@)[0] == record@[0]@);
                proof {
                    reveal_strlit("t");
                    reveal_strlit("v");
                    reveal_strlit("e");
                }
                if record[0] == t_word {
                    match read_graph(&mut graph_list, &mut current_graph, &mut graph_id, record, Ghost(st)) {
                        Ok(stop) => {
                            stopped = stop;
                            proof {
                                if !stop {
                                    st = graph_step(st, views(record@))->Next_0;
                                }
                            }
                        },
                        Err(e) => {
                            return Err(GraphSetParseError::new(e.kind));
                        },
                    }
                } else if record[0] == v_word {
                    match read_vertex(&mut current_graph, record, Ghost(st)) {
                        Ok(_) => {
                            proof {
                                st = vertex_step(st, views(record@))->Next_0;
                            }
                        },
                        Err(e) => {
                            return Err(GraphSetParseError::new(e.kind));
                        },
                    }
                } else if record[0] == e_word {
                    match read_edge(&mut current_graph, record, Ghost(st)) {
                        Ok(_) => {
                            proof {
                                st = edge_step(st, views(record@))->Next_0;
                            }
                        },
                        Err(e) => {
                            return Err(GraphSetParseError::new(e.kind));
                        },
                    }
                }
            }
            i += 1;
        }
        if current_graph.id != usize::MAX {
            let ghost before = graph_list@;
            graph_list.push(current_graph);
            assert(graph_views(graph_list@) =~= graph_views(before).push(st.current));
        }
        Ok(graph_list)
    }

    /// Reads a graph database from its lines, one record per line, the words of
    /// a record separated by single spaces.
    pub fn graphs_set_from_lines(lines: &Vec<String>) -> (r: Result<Vec<Graph>, GraphSetParseError>)
        ensures
            exists|records: Seq<Seq<Seq<char>>>|
                #[trigger] is_split(records, lines@) && match parse(records) {
                    Ok(graphs) => r is Ok && graph_views(r->Ok_0@) == graphs,
                    Err(kind) => r is Err && r->Err_0.kind == kind && r->Err_0.message@ == kind.text(),
                },
            r is Ok ==> forall|k: int| 0 <= k < r->Ok_0@.len() ==> (#[trigger] r->Ok_0@[k]).wf() && r->Ok_0@[k].id == k,
    {
        let mut records: Vec<Vec<String>> = Vec::new();
        let mut i: usize = 0;
        while i < lines.len()
            invariant
                i <= lines@.len(),
                is_split(record_views(records@), lines@.subrange(0, i as int)),
            decreases lines@.len() - i,
        {
            let words = split_words(&lines[i]);
            let ghost before = records@;
            records.push(words);
            proof {
                let rv = record_views(records@);
                let ls = lines@.subrange(0, i as int + 1);
                assert forall|j: int| 0 <= j < ls.len() implies {
                    &&& (#[trigger] rv[j]).len() >= 1
                    &&& forall|k: int| 0 <= k < rv[j].len() ==> !(#[trigger] rv[j][k]).contains(' ')
                    &&& joined(rv[j], " "@) == ls[j]@
                } by {
                    if j < i {
                        assert(rv[j] == record_views(before)[j]);
                        assert(ls[j] == lines@.subrange(0, i as int)[j]);
                    } else {
                        assert(rv[j] == views(words@));
                        assert forall|k: int| 0 <= k < rv[j].len() implies !(#[trigger] rv[j][k]).contains(' ') by {
                            assert(rv[j][k] == words@[k]@);
                        }
                    }
                }
            }
            i += 1;
        }
        assert(lines@.subrange(0, lines@.len() as int) =~= lines@);
        Graph::graphs_set_from_records(&records)
    }
}

} // verus!
