use cpd::data::graph::Graph;
use cpd::data::parser::GraphSetParseError;
use cpd::data::parser::ParseErrorKind;

fn lines(text: &str) -> Vec<String> {
    text.lines().map(String::from).collect()
}

fn read(text: &str) -> Result<Vec<Graph>, GraphSetParseError> {
    Graph::graphs_set_from_lines(&lines(text))
}

fn error_of(text: &str) -> (ParseErrorKind, String) {
    let e = read(text).unwrap_err();
    (e.kind, e.to_string())
}

#[test]
fn a_database_is_read_graph_by_graph() {
    let graphs = read("t # 0\nv 0 1 2\nv 1 3 4\ne 0 1 5\ne 1 0 6\ne 0 0 7\nt # 1\nv 0 9 9\nt # -1\n").unwrap();
    assert_eq!(graphs.len(), 2);
    assert_eq!(graphs[0].to_str_repr(None, None), "t # 0\nv 0 1 2\nv 1 3 4\ne 0 1 5\ne 0 0 7\ne 1 0 6");
    assert_eq!(graphs[1].to_str_repr(None, None), "t # 1\nv 0 9 9");
    assert!(graphs.iter().all(|g| g.is_well_formed()));
    let e = &graphs[0].vertices[0].edges[1];
    assert_eq!((e.id, e.from, e.to, e.e_label), (1, 0, 0, 7));
}

#[test]
fn the_end_mark_stops_the_reader() {
    let graphs = read("t # 0\nv 0 1 2\nt # -1\nt # 7\nv x\n").unwrap();
    assert_eq!(graphs.len(), 1);
    assert_eq!(graphs[0].vertices.len(), 1);
    // without an end mark the last graph is kept as well
    assert_eq!(read("t # 0\nt # 1\nv 0 1 1").unwrap().len(), 2);
    assert!(read("").unwrap().is_empty());
    assert!(read("t # -1").unwrap().is_empty());
}

#[test]
fn other_records_are_passed_over() {
    let graphs = read("# a comment\n\nt # 0\nx 1 2 3\nv 0 1 2\nvertex 9\n").unwrap();
    assert_eq!(graphs.len(), 1);
    assert_eq!(graphs[0].vertices.len(), 1);
    // vertices before the first graph belong to no graph
    let graphs = read("v 0 1 1\nt # 0\nv 0 2 2").unwrap();
    assert_eq!(graphs.len(), 1);
    assert_eq!(graphs[0].vertices[0].label, 2);
}

#[test]
fn graph_records_are_checked() {
    assert_eq!(error_of("t"), (ParseErrorKind::MissingHash, "Missing '#' in graph".to_string()));
    assert_eq!(error_of("t #"), (ParseErrorKind::MissingGraphId, "Id for graph is missing".to_string()));
    assert_eq!(error_of("t # x"), (ParseErrorKind::InvalidGraphId, "Id for graph invalid".to_string()));
    assert_eq!(error_of("t # -2").0, ParseErrorKind::InvalidGraphId);
    assert_eq!(
        error_of("t # 1"),
        (
            ParseErrorKind::UnexpectedGraphId { found: 1, expected: 0 },
            "Graph with graph id 1, it should have the id 0".to_string()
        )
    );
    assert_eq!(error_of("t # 0\nt # 1\nt # 1").0, ParseErrorKind::UnexpectedGraphId { found: 1, expected: 2 });
    assert_eq!(error_of("t # 0\nt # 0").0, ParseErrorKind::UnexpectedGraphId { found: 0, expected: 1 });
}

#[test]
fn vertex_records_are_checked() {
    assert_eq!(
        error_of("t # 0\nv"),
        (ParseErrorKind::MissingVertexId { graph: 0 }, "Graph 0, Missing id for a vertex in".to_string())
    );
    assert_eq!(
        error_of("t # 0\nv a 1 1"),
        (ParseErrorKind::InvalidVertexId { graph: 0 }, "Graph 0, Vertex ID invalid".to_string())
    );
    assert_eq!(
        error_of("t # 0\nv 0 1 1\nv 2 1 1"),
        (
            ParseErrorKind::UnexpectedVertexId { graph: 0, found: 2, expected: 1 },
            "Graph 0, Vertex ID (2) in input file does not fit the expected ID 1".to_string()
        )
    );
    assert_eq!(
        error_of("t # 0\nv 0"),
        (ParseErrorKind::MissingVertexLabel { graph: 0 }, "Graph 0, Missing label for a vertex".to_string())
    );
    assert_eq!(
        error_of("t # 0\nv 0 l 1"),
        (ParseErrorKind::InvalidVertexLabel { graph: 0, vertex: 0 }, "Graph 0, Vertex 0, Label invalid".to_string())
    );
    assert_eq!(
        error_of("t # 0\nv 0 1"),
        (ParseErrorKind::MissingVertexType { graph: 0 }, "Graph 0, Missing vertex type for a vertex".to_string())
    );
    assert_eq!(
        error_of("t # 0\nt # 1\nv 0 1 1\nv 1 1 -1"),
        (
            ParseErrorKind::InvalidVertexType { graph: 1, vertex: 1 },
            "Graph 1, Vertex 1, Vertex type is invalid".to_string()
        )
    );
    // before the first graph the current graph has the largest id there is
    assert_eq!(
        error_of("v 3 1 1"),
        (
            ParseErrorKind::UnexpectedVertexId { graph: usize::MAX, found: 3, expected: 0 },
            format!("Graph {}, Vertex ID (3) in input file does not fit the expected ID 0", usize::MAX)
        )
    );
}

#[test]
fn edge_records_are_checked() {
    let head = "t # 0\nv 0 1 1\nv 1 1 1\n";
    let check = |record: &str, kind: ParseErrorKind, message: &str| {
        assert_eq!(error_of(&format!("{}{}", head, record)), (kind, message.to_string()));
    };
    check("e", ParseErrorKind::MissingEdgeFrom { graph: 0 }, "Graph 0, Missing from id for an edge");
    check("e x 1 1", ParseErrorKind::InvalidEdgeFrom { graph: 0 }, "Graph 0, Invalid from id for an edge");
    check("e 0", ParseErrorKind::MissingEdgeTo { graph: 0 }, "Graph 0, Missing to id for a edge in");
    check("e 0 y 1", ParseErrorKind::InvalidEdgeTo { graph: 0 }, "Graph 0, Invalid to id for a edge");
    check("e 0 1", ParseErrorKind::MissingEdgeLabel { graph: 0 }, "Graph 0, Missing edge label for a edge");
    check("e 0 1 z", ParseErrorKind::InvalidEdgeLabel { graph: 0 }, "Graph 0, Invalid e_label for a edge");
    check(
        "e 0 2 1",
        ParseErrorKind::EdgeVertexNotFound { graph: 0 },
        "Graph 0, Edge invalid, ids of vertices not found",
    );
    check(
        "e 2 0 1",
        ParseErrorKind::EdgeVertexNotFound { graph: 0 },
        "Graph 0, Edge invalid, ids of vertices not found",
    );
    // an edge to a vertex that is declared later
    assert_eq!(error_of("t # 0\nv 0 1 1\ne 0 1 1\nv 1 1 1").0, ParseErrorKind::EdgeVertexNotFound { graph: 0 });
}

#[test]
fn words_are_separated_by_single_spaces() {
    // two spaces give an empty word
    assert_eq!(error_of("t # 0\nv  0 1 1").0, ParseErrorKind::InvalidVertexId { graph: 0 });
    assert_eq!(error_of("t  # 0").0, ParseErrorKind::InvalidGraphId);
    // a record that does not begin with the word itself is passed over
    assert!(read(" t # 5").unwrap().is_empty());
    // words behind the last one are not looked at
    let graphs = read("t # 0 * 3 / 4\nv 0 1 2 extra").unwrap();
    assert_eq!(graphs[0].vertices[0].vertex_type, 2);
    // numbers are read as `usize`
    let graphs = read("t # 0\nv 0 +7 007").unwrap();
    assert_eq!((graphs[0].vertices[0].label, graphs[0].vertices[0].vertex_type), (7, 7));
    assert_eq!(error_of("t # 0\nv 0 99999999999999999999999 1").0, ParseErrorKind::InvalidVertexLabel { graph: 0, vertex: 0 });
}

#[test]
fn records_can_be_given_by_their_words() {
    let words = |record: &[&str]| -> Vec<String> { record.iter().map(|w| w.to_string()).collect() };
    let records = vec![words(&["t", "#", "0"]), words(&[]), words(&["v", "0", "4", "5"]), words(&["e", "0", "0", "6"])];
    let graphs = Graph::graphs_set_from_records(&records).unwrap();
    assert_eq!(graphs[0].to_str_repr(Some(1), Some(2)), "t # 0 * 1 / 2\nv 0 4 5\ne 0 0 6");
    let e = Graph::graphs_set_from_records(&vec![words(&["t", "#", "0"]), words(&["e", "0", "0", "6"])]).unwrap_err();
    assert_eq!(e.kind, ParseErrorKind::EdgeVertexNotFound { graph: 0 });
    assert_eq!(GraphSetParseError::new(ParseErrorKind::FileNotRead).to_string(), "Error reading file");
}

#[test]
fn pattern_text_can_be_read_back() {
    let mut g = Graph::new(0);
    g.create_vertex_with_data(10, 20);
    g.create_vertex_with_data(30, 40);
    g.vertices.get_mut(1).unwrap().push(0, 50);
    g.vertices.get_mut(1).unwrap().push(1, 60);
    let text = g.to_str_repr(Some(2), Some(3));
    let graphs = read(&text).unwrap();
    assert_eq!(graphs.len(), 1);
    assert_eq!(graphs[0].to_str_repr(Some(2), Some(3)), text);
}
