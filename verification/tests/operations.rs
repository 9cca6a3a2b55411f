use graph_lib::edge::OrientedEdge;
use graph_lib::error::GraphError;
use graph_lib::graph::OrientedGraph;
use graph_lib::vertex::{EdgeHandle, Vertex};

fn sample() -> OrientedGraph<String, String> {
    OrientedGraph::<String, String>::deserialize("1 First vertex\n2 Second vertex\n#\n1 2 Edge 1-2")
        .unwrap()
}

fn handles(g: &OrientedGraph<String, String>, id: usize) -> Vec<(usize, usize)> {
    g.get_vertex_by_id(id).unwrap().get_edges().iter().map(|h| (h.start, h.end)).collect()
}

fn pairs(g: &OrientedGraph<String, String>) -> Vec<(usize, usize)> {
    g.get_edges().iter().map(|e| (e.start_id().unwrap(), e.end_id().unwrap())).collect()
}

fn ids(g: &OrientedGraph<String, String>) -> Vec<usize> {
    g.get_vertexes().iter().map(|v| v.id()).collect()
}

#[test]
fn empty_graph_has_nothing() {
    let g: OrientedGraph<u8, u8> = OrientedGraph::default();
    assert_eq!(g.vertex_count(), 0);
    assert_eq!(g.edges_count(), 0);
    assert!(g.get_vertex_by_id(0).is_none());
    assert!(g.get_edge_by_vertexes_id(0, 0).is_none());
}

#[test]
fn vertex_id_is_added_once() {
    let mut g = sample();
    assert_eq!(g.add_raw_vertex(3, "a".to_string()), Ok(()));
    assert_eq!(g.add_raw_vertex(3, "b".to_string()), Err(GraphError::VertexExistsError));
    assert_eq!(g.vertex_count(), 3);
    assert_eq!(g.get_vertex_by_id(3).unwrap().value(), "a");
}

#[test]
fn ordered_pair_is_joined_once() {
    let mut g = sample();
    assert_eq!(g.add_edge_with_vertex_id(2, 1, None), Ok(()));
    assert_eq!(
        g.add_edge_with_vertex_id(2, 1, Some("again".to_string())),
        Err(GraphError::EdgeExistsError)
    );
    assert_eq!(g.add_edge_with_vertex_id(1, 2, None), Err(GraphError::EdgeExistsError));
    assert_eq!(pairs(&g), vec![(1, 2), (2, 1)]);
}

#[test]
fn edge_without_endpoint_is_rejected() {
    let mut g = sample();
    assert_eq!(g.add_edge_with_vertex_id(1, 9, None), Err(GraphError::VertexNotFound));
    assert_eq!(g.add_edge_with_vertex_id(9, 1, None), Err(GraphError::VertexNotFound));
    assert_eq!(g.add_edge_with_vertex_id(8, 9, None), Err(GraphError::VertexNotFound));
    assert_eq!(pairs(&g), vec![(1, 2)]);
    assert_eq!(handles(&g, 1), vec![(1, 2)]);
    assert_eq!(handles(&g, 2), vec![(1, 2)]);
}

#[test]
fn edge_is_noted_at_both_endpoints() {
    let mut g = sample();
    g.add_raw_vertex(3, "c".to_string()).unwrap();
    g.add_edge_with_vertex_id(3, 1, None).unwrap();
    g.add_edge_with_vertex_id(2, 3, None).unwrap();
    assert_eq!(handles(&g, 1), vec![(1, 2), (3, 1)]);
    assert_eq!(handles(&g, 2), vec![(1, 2), (2, 3)]);
    assert_eq!(handles(&g, 3), vec![(3, 1), (2, 3)]);
}

#[test]
fn self_loop_is_listed_once() {
    let mut g = sample();
    g.add_edge_with_vertex_id(1, 1, None).unwrap();
    assert_eq!(handles(&g, 1), vec![(1, 2), (1, 1)]);
    assert_eq!(g.remove_edge_by_vertexes(1, 1), Ok(()));
    assert_eq!(handles(&g, 1), vec![(1, 2)]);
}

#[test]
fn add_edge_takes_a_built_edge() {
    let mut g = sample();
    let a = Vertex::new(2, ());
    let b = Vertex::new(1, ());
    let e = OrientedEdge::new(&a, &b, "back".to_string());
    assert_eq!(g.add_edge(e), Ok(()));
    assert_eq!(pairs(&g), vec![(1, 2), (2, 1)]);
    assert_eq!(g.get_edge_by_vertexes_id(2, 1).unwrap().value().unwrap(), "back");
    let again = OrientedEdge::new(&a, &b, "twice".to_string());
    assert_eq!(g.add_edge(again), Err(GraphError::EdgeExistsError));
    let c = Vertex::new(7, ());
    let dangling = OrientedEdge::new(&a, &c, "x".to_string());
    assert_eq!(g.add_edge(dangling), Err(GraphError::VertexNotFound));
    assert_eq!(g.edges_count(), 2);
}

#[test]
fn add_vertex_drops_foreign_handles() {
    let mut g = sample();
    let mut v = Vertex::new(3, "c".to_string());
    v.add_neighbor(EdgeHandle { start: 3, end: 1 });
    assert_eq!(g.add_vertex(v), Ok(()));
    assert_eq!(handles(&g, 3), Vec::<(usize, usize)>::new());
    assert_eq!(g.edges_count(), 1);
    let twin = Vertex::new(3, "d".to_string());
    assert_eq!(g.add_vertex(twin), Err(GraphError::VertexExistsError));
}

#[test]
fn removing_an_edge_clears_both_lists() {
    let mut g = sample();
    g.add_edge_with_vertex_id(2, 1, None).unwrap();
    assert_eq!(g.remove_edge_by_vertexes(1, 2), Ok(()));
    assert_eq!(pairs(&g), vec![(2, 1)]);
    assert_eq!(handles(&g, 1), vec![(2, 1)]);
    assert_eq!(handles(&g, 2), vec![(2, 1)]);
    assert_eq!(g.remove_edge_by_vertexes(1, 2), Err(GraphError::EdgeNotFound));
    assert_eq!(g.remove_edge_by_vertexes(5, 6), Err(GraphError::EdgeNotFound));
    assert_eq!(g.edges_count(), 1);
}

#[test]
fn remove_edge_goes_by_endpoints() {
    let mut g = sample();
    let a = Vertex::new(1, ());
    let b = Vertex::new(2, ());
    let named = OrientedEdge::<String>::new(&a, &b, "other payload".to_string());
    assert_eq!(g.remove_edge(&named), Ok(()));
    assert_eq!(g.edges_count(), 0);
    assert_eq!(handles(&g, 1), Vec::<(usize, usize)>::new());
    assert_eq!(g.remove_edge(&named), Ok(()));
    let unset = OrientedEdge::<String>::default();
    assert_eq!(g.remove_edge(&unset), Err(GraphError::EdgeRemovingError));
    let half = OrientedEdge::<String>::new_with_value("v".to_string());
    assert_eq!(g.remove_edge(&half), Err(GraphError::EdgeRemovingError));
    let c = Vertex::new(9, ());
    let stray = OrientedEdge::<String>::new(&a, &c, "x".to_string());
    assert_eq!(g.remove_edge(&stray), Err(GraphError::EdgeRemovingError));
}

#[test]
fn removing_a_vertex_takes_its_edges() {
    let mut g = sample();
    g.add_raw_vertex(3, "c".to_string()).unwrap();
    g.add_edge_with_vertex_id(2, 3, None).unwrap();
    g.add_edge_with_vertex_id(3, 1, None).unwrap();
    g.add_edge_with_vertex_id(2, 1, None).unwrap();
    g.add_edge_with_vertex_id(3, 3, None).unwrap();
    assert_eq!(g.edges_count(), 5);
    assert_eq!(g.remove_vertex_by_id(3), Ok(()));
    assert_eq!(ids(&g), vec![1, 2]);
    assert_eq!(pairs(&g), vec![(1, 2), (2, 1)]);
    assert_eq!(g.edges_count(), 5 - 3);
    assert_eq!(handles(&g, 1), vec![(1, 2), (2, 1)]);
    assert_eq!(handles(&g, 2), vec![(1, 2), (2, 1)]);
    assert_eq!(g.remove_vertex_by_id(3), Err(GraphError::VertexNotFound));
    assert_eq!(g.vertex_count(), 2);
}

#[test]
fn removing_the_first_vertex_keeps_order() {
    let mut g = sample();
    g.add_raw_vertex(3, "c".to_string()).unwrap();
    g.add_edge_with_vertex_id(2, 3, Some("kept".to_string())).unwrap();
    assert_eq!(g.remove_vertex_by_id(1), Ok(()));
    assert_eq!(ids(&g), vec![2, 3]);
    assert_eq!(pairs(&g), vec![(2, 3)]);
    assert_eq!(handles(&g, 2), vec![(2, 3)]);
    assert_eq!(g.serialize().unwrap(), "2 Second vertex\n3 c\n#\n2 3 kept");
}

#[test]
fn added_then_removed_vertex_leaves_no_trace() {
    let mut g = sample();
    assert!(g.add_raw_vertex(3, "Test".to_string()).is_ok());
    assert!(g.remove_vertex_by_id(3).is_ok());
    assert_eq!(g.vertex_count(), 2);
    assert_eq!(g.edges_count(), 1);
    assert_eq!(g.serialize().unwrap(), "1 First vertex\n2 Second vertex\n#\n1 2 Edge 1-2");
}

#[test]
fn lookups_return_what_was_stored() {
    let g = sample();
    let v = g.get_vertex_by_id(2).unwrap();
    assert_eq!(v.id(), 2);
    assert_eq!(v.value(), "Second vertex");
    let e = g.get_edge_by_vertexes_id(1, 2).unwrap();
    assert_eq!(e.start_id(), Some(1));
    assert_eq!(e.end_id(), Some(2));
    assert_eq!(e.value().unwrap(), "Edge 1-2");
    assert!(g.get_edge_by_vertexes_id(2, 1).is_none());
    assert_eq!(e.start(&g).unwrap().id(), 1);
    assert_eq!(e.end(&g).unwrap().value(), "Second vertex");
}

#[test]
fn edge_endpoints_resolve_against_a_graph() {
    let g = sample();
    let a = Vertex::new(1, ());
    let c = Vertex::new(9, ());
    let e = OrientedEdge::<String>::new(&a, &c, "x".to_string());
    assert_eq!(e.start(&g).unwrap().value(), "First vertex");
    assert!(e.end(&g).is_none());
    let unset = OrientedEdge::<String>::default();
    assert!(unset.start(&g).is_none());
    assert!(unset.end(&g).is_none());
}

#[test]
fn graph_works_for_other_payloads() {
    let mut g: OrientedGraph<u32, (u8, u8)> = OrientedGraph::default();
    g.add_raw_vertex(10, 100).unwrap();
    g.add_raw_vertex(20, 200).unwrap();
    g.add_edge_with_vertex_id(10, 20, Some((1, 2))).unwrap();
    assert_eq!(*g.get_vertex_by_id(20).unwrap().value(), 200);
    assert_eq!(g.get_edge_by_vertexes_id(10, 20).unwrap().value(), Some(&(1, 2)));
    let found = g.depth_first_search(10).unwrap();
    let order: Vec<usize> = found.vertices().iter().map(|v| v.id()).collect();
    assert_eq!(order, vec![10, 20]);
}

#[test]
fn edge_with_unset_endpoint_names_no_vertex() {
    let mut g = sample();
    let unset = OrientedEdge::<String>::default();
    assert_eq!(g.add_edge(unset), Err(GraphError::VertexNotFound));
    let mut half = OrientedEdge::new_with_value("v".to_string());
    half.set_end(&Vertex::new(1, ()));
    assert_eq!(g.add_edge(half), Err(GraphError::VertexNotFound));
    assert_eq!(g.edges_count(), 1);
}

#[test]
fn sample_text_scenario() {
    let text = "1 First vertex\n2 Second vertex\n#\n1 2 Edge 1-2";
    let mut g = OrientedGraph::<String, String>::deserialize(text).unwrap();
    assert_eq!(g.vertex_count(), 2);
    assert_eq!(g.edges_count(), 1);
    assert_eq!(
        g.depth_first_search(1).unwrap().to_string(),
        "1 First vertex [2]\n2 Second vertex [1]\n"
    );
    assert_eq!(g.serialize().unwrap(), text);
    assert!(g.add_raw_vertex(3, "Test".to_string()).is_ok());
    assert!(g.remove_vertex_by_id(3).is_ok());
    assert_eq!(g.vertex_count(), 2);
    assert_eq!(g.edges_count(), 1);
}
