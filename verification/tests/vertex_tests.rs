use cpd::data::vertex::Vertex;

#[test]
fn test_create_vertex() {
    let v1 = Vertex::new(1, None, None);
    assert_eq!(v1.id, 1);
}

#[test]
fn test_add_edge() {
    let mut v1 = Vertex::new(1, Some(2), Some(3));
    assert_eq!(v1.edges.len(), 0);
    assert_eq!(v1.label, 2);
    assert_eq!(v1.vertex_type, 3);
    v1.push(2, 2);
    assert_eq!(v1.edges.len(), 1);
    let e = v1.edges.pop().unwrap();
    assert_eq!(v1.edges.len(), 0);
    assert_eq!(e.to, 2);
    assert_eq!(e.from, 1);
    assert_eq!(e.e_label, 2);
}
