//! What holds of every graph, whatever was done to it before.

use vstd::prelude::*;
use crate::codec::{as_text, lemma_as_text, parse_graph, render};
use crate::error::{GraphError, GraphParseError};
use crate::model::{entry_avoiding, entry_touching, EdgeEntry, GraphView};
use crate::round_trip::{lemma_round_trip, text_safe};
use crate::sequences::{lemma_filter_members, lemma_filter_split_len};
use crate::vertex::EdgeHandle;

verus! {

impl<T, V> GraphView<T, V> {
    /// The graph after an attempt to add vertex `id`: with the vertex
    /// appended where the attempt succeeds, unchanged where it fails.
    pub open spec fn after_add_vertex(self, id: usize, value: T) -> Self {
        if self.add_vertex_outcome(id) is Ok {
            self.add_vertex(id, value)
        } else {
            self
        }
    }

    /// The graph after an attempt to add an edge from `start` to `end`.
    pub open spec fn after_add_edge(self, start: usize, end: usize, value: Option<V>) -> Self {
        if self.add_edge_outcome(start, end) is Ok {
            self.add_edge(start, end, value)
        } else {
            self
        }
    }
}

/// A vertex id can be added once: whatever the first attempt to add `id`
/// came to, a second attempt fails because the vertex exists.
pub proof fn lemma_vertex_added_once<T, V>(g: GraphView<T, V>, id: usize, first: T)
    ensures
        g.after_add_vertex(id, first).add_vertex_outcome(id) == Err::<(), GraphError>(
            GraphError::VertexExistsError,
        ),
{
    if g.add_vertex_outcome(id) is Ok {
        let h = g.add_vertex(id, first);
        assert(h.ids()[g.vertices.len() as int] == id);
    }
}

/// An ordered pair can be joined once: where both endpoints are vertices
/// of the graph, whatever the first attempt to add an edge from `start` to
/// `end` came to, a second attempt fails because the edge exists.
pub proof fn lemma_edge_added_once<T, V>(
    g: GraphView<T, V>,
    start: usize,
    end: usize,
    first: Option<V>,
)
    requires
        g.has_vertex(start),
        g.has_vertex(end),
    ensures
        g.after_add_edge(start, end, first).add_edge_outcome(start, end) == Err::<(), GraphError>(
            GraphError::EdgeExistsError,
        ),
{
    if g.add_edge_outcome(start, end) is Ok {
        let h = g.add_edge(start, end, first);
        assert(h.keys()[g.edges.len() as int] == (EdgeHandle { start, end }));
    }
}

/// Removing a vertex takes with it every edge that touched it: no edge of
/// the graph that remains has `id` at either side, the vertex is gone, and
/// the number of edges went down by the number of edges that touched `id`.
pub proof fn lemma_cascading_delete<T, V>(g: GraphView<T, V>, id: usize)
    ensures
        forall|i: int|
            0 <= i < g.remove_vertex(id).edges.len() ==> !(#[trigger] g.remove_vertex(
                id,
            ).edges[i]).key().touches(id),
        !g.remove_vertex(id).has_vertex(id),
        g.remove_vertex(id).edges.len() == g.edges.len() - g.edges.filter(
            entry_touching::<V>(id),
        ).len(),
{
    let h = g.remove_vertex(id);
    lemma_filter_members(g.edges, entry_avoiding::<V>(id));
    assert forall|i: int| 0 <= i < h.edges.len() implies !(#[trigger] h.edges[i]).key().touches(
        id,
    ) by {
        assert(h.edges.contains(h.edges[i]));
    }
    lemma_filter_members(g.vertices, crate::model::vertex_other_than::<T>(id));
    if h.has_vertex(id) {
        let i = choose|i: int| 0 <= i < h.ids().len() && h.ids()[i] == id;
        assert(h.vertices.contains(h.vertices[i]));
    }
    assert forall|e: EdgeEntry<V>| #[trigger]
        entry_avoiding::<V>(id)(e) == !entry_touching::<V>(id)(e) by {}
    lemma_filter_split_len(g.edges, entry_touching::<V>(id), entry_avoiding::<V>(id));
}

/// An edge needs both its endpoints: in a well-formed graph that lacks
/// `start` or `end`, adding an edge from `start` to `end` fails because a
/// vertex is not found, and leaves the graph as it was.
pub proof fn lemma_missing_endpoint<T, V>(
    g: GraphView<T, V>,
    start: usize,
    end: usize,
    value: Option<V>,
)
    requires
        g.wf(),
        !g.has_vertex(start) || !g.has_vertex(end),
    ensures
        g.add_edge_outcome(start, end) == Err::<(), GraphError>(GraphError::VertexNotFound),
        g.after_add_edge(start, end, value) == g,
{
    if g.has_edge(start, end) {
        let i = choose|i: int|
            0 <= i < g.keys().len() && g.keys()[i] == (EdgeHandle { start, end });
        assert(g.edges[i].key() == (EdgeHandle { start, end }));
        assert(g.has_vertex(g.edges[i].start) && g.has_vertex(g.edges[i].end));
    }
}

/// The text of a graph of strings reads as that graph: the same ids and
/// payloads, the same edges, in the same order. This holds of every
/// well-formed graph whose payloads are [`text_safe`].
pub proof fn lemma_text_round_trip(g: GraphView<String, String>)
    requires
        g.wf(),
        text_safe(as_text(g)),
    ensures
        parse_graph(render(as_text(g))) == Ok::<GraphView<Seq<char>, Seq<char>>, GraphParseError>(
            as_text(g),
        ),
{
    lemma_as_text(g);
    let t = as_text(g);
    assert forall|i: int| 0 <= i < t.edges.len() implies t.has_vertex((#[trigger] t.edges[i]).start)
        && t.has_vertex(t.edges[i].end) by {
        assert(t.edges[i].start == g.edges[i].start);
        assert(t.edges[i].end == g.edges[i].end);
    }
    lemma_round_trip(t);
}

} // verus!
