use graph_lib::error::GraphError;
use graph_lib::graph::OrientedGraph;

fn graph(text: &str) -> OrientedGraph<String, String> {
    OrientedGraph::<String, String>::deserialize(text).unwrap()
}

fn order(g: &OrientedGraph<String, String>, start: usize) -> Vec<usize> {
    g.depth_first_search(start).unwrap().vertices().iter().map(|v| v.id()).collect()
}

#[test]
fn search_from_unknown_vertex_fails() {
    let g = graph("1 a\n2 b\n#\n1 2 e");
    assert_eq!(g.depth_first_search(3).err(), Some(GraphError::VertexNotFound));
}

#[test]
fn search_follows_edges_forward_only() {
    let g = graph("1 a\n2 b\n#\n1 2 e");
    assert_eq!(order(&g, 1), vec![1, 2]);
    assert_eq!(order(&g, 2), vec![2]);
}

#[test]
fn search_stops_on_a_cycle() {
    let g = graph("1 a\n2 b\n3 c\n4 d\n#\n1 2 x\n2 3 x\n3 1 x\n3 4 x");
    assert_eq!(order(&g, 1), vec![1, 2, 3, 4]);
    assert_eq!(order(&g, 3), vec![3, 1, 2, 4]);
    assert_eq!(order(&g, 4), vec![4]);
}

#[test]
fn search_goes_deep_before_wide() {
    // 1 has the edges 1->2 and 1->3 in this order; 2 leads on to 4, 4 to 3.
    let g = graph("1 a\n2 b\n3 c\n4 d\n5 e\n#\n1 2 x\n1 3 x\n2 4 x\n4 3 x\n5 1 x");
    assert_eq!(order(&g, 1), vec![1, 2, 4, 3]);
    assert_eq!(order(&g, 5), vec![5, 1, 2, 4, 3]);
}

#[test]
fn search_takes_edges_in_list_order() {
    let g = graph("1 a\n2 b\n3 c\n#\n1 3 x\n1 2 x");
    assert_eq!(order(&g, 1), vec![1, 3, 2]);
}

#[test]
fn search_visits_each_reachable_vertex_once() {
    let g = graph("1 a\n2 b\n3 c\n4 d\n#\n1 2 x\n1 3 x\n2 3 x\n3 2 x\n2 1 x\n1 1 x");
    let seen = order(&g, 1);
    assert_eq!(seen, vec![1, 2, 3]);
    let mut sorted = seen.clone();
    sorted.sort();
    sorted.dedup();
    assert_eq!(sorted.len(), seen.len());
    assert!(!seen.contains(&4));
}

#[test]
fn result_lists_neighbors_in_both_directions() {
    let g = graph("1 First vertex\n2 Second vertex\n#\n1 2 Edge 1-2");
    assert_eq!(
        g.depth_first_search(1).unwrap().to_string(),
        "1 First vertex [2]\n2 Second vertex [1]\n"
    );
    assert_eq!(g.depth_first_search(2).unwrap().to_string(), "2 Second vertex [1]\n");
}

#[test]
fn result_names_each_neighbor_once() {
    // The incident list of 1 leads to 2, 3, 2: the second 2 does not follow the first directly.
    let g = graph("1 a\n2 b\n3 c\n#\n1 2 x\n1 3 x\n2 1 x");
    assert_eq!(g.depth_first_search(1).unwrap().to_string(), "1 a [2, 3]\n2 b [1]\n3 c [1]\n");
}

#[test]
fn result_of_a_lonely_vertex_has_an_empty_list() {
    let g = graph("12 only\n#");
    assert_eq!(g.depth_first_search(12).unwrap().to_string(), "12 only []\n");
}

#[test]
fn result_shows_a_self_loop_once() {
    let g = graph("7 me\n#\n7 7 loop");
    assert_eq!(g.depth_first_search(7).unwrap().to_string(), "7 me [7]\n");
}

#[test]
fn neighbor_ids_keep_first_occurrence() {
    let g = graph("1 a\n2 b\n3 c\n#\n3 1 x\n1 2 x\n1 3 x\n2 1 x");
    let v = g.get_vertex_by_id(1).unwrap();
    assert_eq!(graph_lib::report::neighbor_ids(v), vec![3, 2]);
}
