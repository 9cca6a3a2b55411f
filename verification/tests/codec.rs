use graph_lib::error::{EdgeParseError, GraphParseError, SerializationError, VertexParseError};
use graph_lib::edge::OrientedEdge;
use graph_lib::graph::OrientedGraph;
use graph_lib::vertex::Vertex;

type G = OrientedGraph<String, String>;

fn failure(text: &str) -> GraphParseError {
    G::deserialize(text).err().unwrap()
}

fn rows(g: &G) -> (Vec<(usize, String)>, Vec<(usize, usize, Option<String>)>) {
    let vs = g.get_vertexes().iter().map(|v| (v.id(), v.value().clone())).collect();
    let es = g
        .get_edges()
        .iter()
        .map(|e| (e.start_id().unwrap(), e.end_id().unwrap(), e.value().cloned()))
        .collect();
    (vs, es)
}

#[test]
fn text_gives_vertices_and_edges_in_order() {
    let g = G::deserialize("2 two\n1 one\n#\n1 2 down\n2 1 up").unwrap();
    let (vs, es) = rows(&g);
    assert_eq!(vs, vec![(2, "two".to_string()), (1, "one".to_string())]);
    assert_eq!(
        es,
        vec![(1, 2, Some("down".to_string())), (2, 1, Some("up".to_string()))]
    );
}

#[test]
fn empty_text_is_the_empty_graph() {
    let g = G::deserialize("").unwrap();
    assert_eq!(g.vertex_count(), 0);
    assert_eq!(g.edges_count(), 0);
    assert_eq!(g.serialize().unwrap(), "#");
    assert_eq!(G::deserialize("#").unwrap().vertex_count(), 0);
}

#[test]
fn vertices_alone_are_a_graph() {
    let g = G::deserialize("1 a\n2 b\n").unwrap();
    assert_eq!(g.vertex_count(), 2);
    assert_eq!(g.serialize().unwrap(), "1 a\n2 b\n#");
}

#[test]
fn payload_keeps_its_inner_whitespace() {
    let g = G::deserialize("1  two  spaces \n2\ttab\n#\n1 2  wide value").unwrap();
    let (vs, es) = rows(&g);
    assert_eq!(vs, vec![(1, " two  spaces ".to_string()), (2, "tab".to_string())]);
    assert_eq!(es, vec![(1, 2, Some(" wide value".to_string()))]);
}

#[test]
fn payload_may_be_empty() {
    let g = G::deserialize("1 \n#\n1 1 ").unwrap();
    let (vs, es) = rows(&g);
    assert_eq!(vs, vec![(1, String::new())]);
    assert_eq!(es, vec![(1, 1, Some(String::new()))]);
}

#[test]
fn line_ends_may_carry_a_carriage_return() {
    let g = G::deserialize("1 a\r\n2 b\r\n#\r\n1 2 e\r\n").unwrap();
    let (vs, es) = rows(&g);
    assert_eq!(vs, vec![(1, "a".to_string()), (2, "b".to_string())]);
    assert_eq!(es, vec![(1, 2, Some("e".to_string()))]);
}

#[test]
fn carriage_return_stays_at_the_end_of_the_text() {
    let g = G::deserialize("1 a\n#\n1 1 e\r").unwrap();
    let (_, es) = rows(&g);
    assert_eq!(es, vec![(1, 1, Some("e\r".to_string()))]);
}

#[test]
fn id_may_carry_a_plus_sign_and_zeros() {
    let g = G::deserialize("+7 a\n007 b").err();
    assert_eq!(g, Some(GraphParseError::VertexParsingError));
    let g = G::deserialize("+7 a\n08 b\n#\n7 +8 e").unwrap();
    let (vs, es) = rows(&g);
    assert_eq!(vs, vec![(7, "a".to_string()), (8, "b".to_string())]);
    assert_eq!(es, vec![(7, 8, Some("e".to_string()))]);
}

#[test]
fn second_hash_line_is_passed_over() {
    let g = G::deserialize("1 a\n#\n#\n1 1 e\n#").unwrap();
    assert_eq!(g.edges_count(), 1);
}

#[test]
fn vertex_line_without_separator_fails() {
    assert_eq!(failure("1"), GraphParseError::VertexParsingError);
    assert_eq!(failure("1 a\nword\n#"), GraphParseError::VertexParsingError);
    assert_eq!(failure("1 a\n\n#"), GraphParseError::VertexParsingError);
    assert_eq!(failure("#x"), GraphParseError::VertexParsingError);
}

#[test]
fn repeated_vertex_id_fails() {
    assert_eq!(failure("1 a\n1 b\n#"), GraphParseError::VertexParsingError);
}

#[test]
fn vertex_id_must_be_a_number() {
    assert_eq!(failure("one a"), GraphParseError::VertexIndexParsingError);
    assert_eq!(failure("-1 a"), GraphParseError::VertexIndexParsingError);
    assert_eq!(failure("1.5 a"), GraphParseError::VertexIndexParsingError);
    assert_eq!(failure(" 1 a"), GraphParseError::VertexIndexParsingError);
    assert_eq!(failure("+ a"), GraphParseError::VertexIndexParsingError);
    assert_eq!(failure("# comment"), GraphParseError::VertexIndexParsingError);
    assert_eq!(
        failure("340282366920938463463374607431768211456 a"),
        GraphParseError::VertexIndexParsingError
    );
}

#[test]
fn largest_id_is_read() {
    let text = format!("{} a\n#", usize::MAX);
    let g = G::deserialize(&text).unwrap();
    assert_eq!(g.get_vertexes()[0].id(), usize::MAX);
    assert_eq!(g.serialize().unwrap(), text);
}

#[test]
fn edge_line_needs_three_parts() {
    assert_eq!(failure("1 a\n#\n1"), GraphParseError::EdgeParsingError);
    assert_eq!(failure("1 a\n#\n1 1"), GraphParseError::EdgeParsingError);
    assert_eq!(failure("1 a\n#\n\n"), GraphParseError::EdgeParsingError);
}

#[test]
fn repeated_edge_fails() {
    assert_eq!(failure("1 a\n2 b\n#\n1 2 x\n1 2 y"), GraphParseError::EdgeParsingError);
}

#[test]
fn edge_start_must_be_a_number() {
    assert_eq!(failure("1 a\n#\nx 1 v"), GraphParseError::EdgeStartParsingError);
}

#[test]
fn edge_end_must_be_a_number() {
    assert_eq!(failure("1 a\n#\n1 y v"), GraphParseError::EdgeEndParsingError);
    assert_eq!(failure("1 a\n#\n1  1 v"), GraphParseError::EdgeEndParsingError);
}

#[test]
fn edge_needs_known_vertices() {
    assert_eq!(failure("1 a\n#\n2 1 v"), GraphParseError::VertexForEdgeIndexNotFound);
    assert_eq!(failure("1 a\n#\n1 2 v"), GraphParseError::VertexForEdgeIndexNotFound);
    assert_eq!(failure("1 a\n#\n2"), GraphParseError::EdgeParsingError);
    assert_eq!(failure("1 a\n#\n2 x"), GraphParseError::VertexForEdgeIndexNotFound);
}

#[test]
fn first_bad_line_decides() {
    assert_eq!(failure("x a\n1\n#"), GraphParseError::VertexIndexParsingError);
    assert_eq!(failure("1 a\n#\n1 1 v\nx\n1 z"), GraphParseError::EdgeParsingError);
}

#[test]
fn vertex_line_is_read_alone() {
    let v = G::deserialize_vertex("15 some value").unwrap();
    assert_eq!(v.id(), 15);
    assert_eq!(v.value(), "some value");
    assert!(v.get_edges().is_empty());
    assert_eq!(G::deserialize_vertex("15").err(), Some(VertexParseError::VertexParsingError));
    assert_eq!(
        G::deserialize_vertex("id value").err(),
        Some(VertexParseError::VertexIndexParsingError)
    );
}

#[test]
fn edge_line_is_read_alone() {
    let known = vec![Vertex::new(1, "a".to_string()), Vertex::new(2, "b".to_string())];
    let e = G::deserialize_edge("2 1 the value", &known).unwrap();
    assert_eq!(e.start_id(), Some(2));
    assert_eq!(e.end_id(), Some(1));
    assert_eq!(e.value().unwrap(), "the value");
    let fails = |line: &str| G::deserialize_edge(line, &known).err().unwrap();
    assert_eq!(fails("21"), EdgeParseError::EdgeParsingError);
    assert_eq!(fails("a 1 v"), EdgeParseError::EdgeStartParsingError);
    assert_eq!(fails("3 1 v"), EdgeParseError::VertexForEdgeIndexNotFound);
    assert_eq!(fails("2 1"), EdgeParseError::EdgeParsingError);
    assert_eq!(fails("2 b v"), EdgeParseError::EdgeEndParsingError);
    assert_eq!(fails("2 3 v"), EdgeParseError::VertexForEdgeIndexNotFound);
    assert_eq!(fails("a"), EdgeParseError::EdgeParsingError);
}

#[test]
fn lines_are_written_as_they_are_read() {
    let v = Vertex::new(30, "thirty".to_string());
    assert_eq!(G::serialize_vertex(&v), "30 thirty");
    let a = Vertex::new(1, ());
    let b = Vertex::new(20, ());
    let e = OrientedEdge::new(&a, &b, "pay load".to_string());
    assert_eq!(G::serialize_edge(&e), Ok("1 20 pay load".to_string()));
    let bare = OrientedEdge::<String>::between(20, 1, None);
    assert_eq!(G::serialize_edge(&bare), Ok("20 1 ".to_string()));
}

#[test]
fn edge_without_endpoint_has_no_line() {
    let unset = OrientedEdge::<String>::default();
    assert_eq!(G::serialize_edge(&unset), Err(SerializationError::EdgeVertexNotFound));
    let mut half = OrientedEdge::new_with_value("v".to_string());
    half.set_start(&Vertex::new(1, ()));
    assert_eq!(G::serialize_edge(&half), Err(SerializationError::EdgeVertexNotFound));
}

#[test]
fn written_graph_reads_back() {
    let mut g = G::default();
    g.add_raw_vertex(10, "ten".to_string()).unwrap();
    g.add_raw_vertex(0, "".to_string()).unwrap();
    g.add_raw_vertex(7, " seven\twith spaces ".to_string()).unwrap();
    g.add_edge_with_vertex_id(10, 0, Some("a".to_string())).unwrap();
    g.add_edge_with_vertex_id(0, 10, Some("".to_string())).unwrap();
    g.add_edge_with_vertex_id(7, 7, Some("ends in a carriage return\r".to_string())).unwrap();
    let text = g.serialize().unwrap();
    assert_eq!(
        text,
        "10 ten\n0 \n7  seven\twith spaces \n#\n10 0 a\n0 10 \n7 7 ends in a carriage return\r"
    );
    let back = G::deserialize(&text).unwrap();
    assert_eq!(rows(&back), rows(&g));
    assert_eq!(back.serialize().unwrap(), text);
}

#[test]
fn edge_without_payload_reads_back_with_an_empty_one() {
    let mut g = G::default();
    g.add_raw_vertex(1, "a".to_string()).unwrap();
    g.add_edge_with_vertex_id(1, 1, None).unwrap();
    let text = g.serialize().unwrap();
    assert_eq!(text, "1 a\n#\n1 1 ");
    let back = G::deserialize(&text).unwrap();
    assert_eq!(rows(&back).1, vec![(1, 1, Some(String::new()))]);
    assert_eq!(back.serialize().unwrap(), text);
}

#[test]
fn payload_with_a_line_feed_does_not_read_back() {
    let mut g = G::default();
    g.add_raw_vertex(1, "two\n2 lines".to_string()).unwrap();
    let back = G::deserialize(&g.serialize().unwrap()).unwrap();
    assert_eq!(back.vertex_count(), 2);
}
