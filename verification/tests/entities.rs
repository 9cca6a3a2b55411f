use graph_lib::edge::OrientedEdge;
use graph_lib::error::{
    EdgeParseError, GraphError, GraphParseError, SerializationError, VertexParseError,
};
use graph_lib::vertex::{EdgeHandle, Vertex};

fn h(start: usize, end: usize) -> EdgeHandle {
    EdgeHandle { start, end }
}

#[test]
fn new_vertex_has_no_edges() {
    let v = Vertex::new(7, "seven".to_string());
    assert_eq!(v.id(), 7);
    assert_eq!(v.value(), "seven");
    assert!(v.get_edges().is_empty());
    assert_eq!(v.into_parts(), (7, "seven".to_string()));
}

#[test]
fn add_neighbor_appends() {
    let mut v = Vertex::new(1, ());
    v.add_neighbor(h(1, 2));
    v.add_neighbor(h(3, 1));
    v.add_neighbor(h(1, 2));
    assert_eq!(v.get_edges(), &vec![h(1, 2), h(3, 1), h(1, 2)]);
}

#[test]
fn neighbor_is_found_by_its_id() {
    let mut v = Vertex::new(1, ());
    v.add_neighbor(h(1, 5));
    v.add_neighbor(h(0, 1));
    v.add_neighbor(h(1, 0));
    assert_eq!(v.find_neighbor_index(5), Some(0));
    assert_eq!(v.find_neighbor_index(0), Some(1));
    assert_eq!(v.find_neighbor_index(1), None);
    assert_eq!(v.find_neighbor_index(2), None);
}

#[test]
fn neighbor_is_removed_by_id_not_by_position() {
    let mut v = Vertex::new(1, ());
    v.add_neighbor(h(1, 5));
    v.add_neighbor(h(1, 0));
    v.add_neighbor(h(2, 1));
    // Position 0 holds the edge to vertex 5; the edge to vertex 0 stands at position 1.
    assert_eq!(v.remove_neighbor_by_position(0), Ok(h(1, 0)));
    assert_eq!(v.get_edges(), &vec![h(1, 5), h(2, 1)]);
    assert_eq!(v.remove_neighbor_by_position(2), Ok(h(2, 1)));
    assert_eq!(v.get_edges(), &vec![h(1, 5)]);
    assert_eq!(v.remove_neighbor_by_position(0), Err(GraphError::EdgeNotFound));
    assert_eq!(v.remove_neighbor_by_position(1), Err(GraphError::EdgeNotFound));
    assert_eq!(v.get_edges(), &vec![h(1, 5)]);
}

#[test]
fn first_of_two_edges_to_one_neighbor_leaves() {
    let mut v = Vertex::new(1, ());
    v.add_neighbor(h(2, 1));
    v.add_neighbor(h(1, 2));
    assert_eq!(v.remove_neighbor_by_position(2), Ok(h(2, 1)));
    assert_eq!(v.get_edges(), &vec![h(1, 2)]);
}

#[test]
fn edges_for_a_vertex_are_dropped() {
    let mut v = Vertex::new(1, ());
    v.add_neighbor(h(1, 2));
    v.add_neighbor(h(3, 1));
    v.add_neighbor(h(2, 1));
    v.add_neighbor(h(1, 4));
    v.remove_edges_for_vertex(2);
    assert_eq!(v.get_edges(), &vec![h(3, 1), h(1, 4)]);
    v.remove_edges_for_vertex(9);
    assert_eq!(v.get_edges(), &vec![h(3, 1), h(1, 4)]);
    v.remove_edges_for_vertex(1);
    assert!(v.get_edges().is_empty());
}

#[test]
fn one_incident_edge_is_dropped() {
    let mut v = Vertex::new(1, ());
    v.add_neighbor(h(1, 2));
    v.add_neighbor(h(2, 1));
    v.remove_incident(h(2, 1));
    assert_eq!(v.get_edges(), &vec![h(1, 2)]);
    v.remove_incident(h(2, 1));
    assert_eq!(v.get_edges(), &vec![h(1, 2)]);
}

#[test]
fn far_end_is_the_other_vertex() {
    assert_eq!(h(1, 2).far_end(1), 2);
    assert_eq!(h(1, 2).far_end(2), 1);
    assert_eq!(h(3, 3).far_end(3), 3);
}

#[test]
fn default_edge_is_unset() {
    let e = OrientedEdge::<String>::default();
    assert_eq!(e.start_id(), None);
    assert_eq!(e.end_id(), None);
    assert!(e.value().is_none());
    assert_eq!(e.handle(), None);
}

#[test]
fn edge_with_value_has_no_endpoints() {
    let e = OrientedEdge::new_with_value(5u8);
    assert_eq!(e.start_id(), None);
    assert_eq!(e.end_id(), None);
    assert_eq!(e.value(), Some(&5));
}

#[test]
fn edge_endpoints_can_be_set() {
    let a = Vertex::new(4, ());
    let b = Vertex::new(6, ());
    let mut e = OrientedEdge::new_with_value("v".to_string());
    e.set_start(&a);
    assert_eq!(e.start_id(), Some(4));
    assert_eq!(e.handle(), None);
    e.set_end(&b);
    assert_eq!(e.end_id(), Some(6));
    assert_eq!(e.handle(), Some(h(4, 6)));
    e.set_start(&b);
    assert_eq!(e.handle(), Some(h(6, 6)));
}

#[test]
fn edge_value_can_be_changed() {
    let a = Vertex::new(1, ());
    let mut e = OrientedEdge::new(&a, &a, 1u32);
    *e.value_mut().unwrap() = 9;
    assert_eq!(e.value(), Some(&9));
    assert_eq!(e.into_value(), Some(9));
    let mut none = OrientedEdge::<u32>::between(1, 2, None);
    assert!(none.value_mut().is_none());
    assert_eq!(none.handle(), Some(h(1, 2)));
}

#[test]
fn errors_say_what_went_wrong() {
    assert_eq!(VertexParseError::VertexParsingError.to_string(), "Failed to parse vertex");
    assert_eq!(
        VertexParseError::VertexIndexParsingError.to_string(),
        "Failed to parse vertex index"
    );
    assert_eq!(
        VertexParseError::VertexValueParsingError.to_string(),
        "Failed to parse vertex value"
    );
    assert_eq!(EdgeParseError::EdgeParsingError.to_string(), "Failed to parse vertex");
    assert_eq!(EdgeParseError::EdgeStartParsingError.to_string(), "Failed to parse edge start");
    assert_eq!(EdgeParseError::EdgeEndParsingError.to_string(), "Failed to parse edge end");
    assert_eq!(EdgeParseError::VertexForEdgeIndexNotFound.to_string(), "Vertex not found");
    assert_eq!(EdgeParseError::EdgeValueParsingError.to_string(), "Failed to parse edge value");
    assert_eq!(GraphParseError::VertexParsingError.to_string(), "Failed to parse index");
    assert_eq!(GraphParseError::EdgeParsingError.to_string(), "Failed to parse value");
    assert_eq!(GraphParseError::VertexForEdgeIndexNotFound.to_string(), "Vertex not found");
    assert_eq!(GraphError::VertexNotFound.to_string(), "Vertex is not found");
    assert_eq!(GraphError::EdgeNotFound.to_string(), "Edge is not found");
    assert_eq!(GraphError::EdgeRemovingError.to_string(), "Removing edge failed");
    assert_eq!(GraphError::VertexRemovingError.to_string(), "Removing vertex failed");
    assert_eq!(GraphError::EdgeExistsError.to_string(), "Edge already exists");
    assert_eq!(GraphError::VertexExistsError.to_string(), "Vertex already exists");
    assert_eq!(
        SerializationError::EdgeVertexNotFound.to_string(),
        "Edge has no one of the vertexes"
    );
}

#[test]
fn cloned_vertex_is_the_same_vertex() {
    let mut v = Vertex::new(3, "three".to_string());
    v.add_neighbor(h(3, 4));
    let w = v.clone();
    assert_eq!(w.id(), 3);
    assert_eq!(w.value(), "three");
    assert_eq!(w.get_edges(), &vec![h(3, 4)]);
}
