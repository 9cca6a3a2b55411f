//! The graph as a mathematical value: what it holds, when it is well
//! formed, and what each operation makes of it.

use vstd::prelude::*;
use crate::error::GraphError;
use crate::sequences::{lemma_filter_map, lemma_filter_members};
use crate::vertex::{avoiding, other_than, touching, EdgeHandle, VertexView};

verus! {

/// A vertex of the model: its id and payload.
pub struct VertexEntry<T> {
    pub id: usize,
    pub value: T,
}

/// An edge of the model: its endpoints and payload.
pub struct EdgeEntry<V> {
    pub start: usize,
    pub end: usize,
    pub value: Option<V>,
}

impl<V> EdgeEntry<V> {
    /// The ordered pair of endpoint ids.
    pub open spec fn key(self) -> EdgeHandle {
        EdgeHandle { start: self.start, end: self.end }
    }
}

/// Maps a vertex entry to its id.
pub open spec fn entry_id<T>() -> spec_fn(VertexEntry<T>) -> usize {
    |v: VertexEntry<T>| v.id
}

/// Maps an edge entry to its ordered pair.
pub open spec fn entry_key<V>() -> spec_fn(EdgeEntry<V>) -> EdgeHandle {
    |e: EdgeEntry<V>| e.key()
}

/// Keeps the vertex entries whose id is not `id`.
pub open spec fn vertex_other_than<T>(id: usize) -> spec_fn(VertexEntry<T>) -> bool {
    |v: VertexEntry<T>| v.id != id
}

/// Keeps the edge entries whose ordered pair is not `k`.
pub open spec fn entry_other_than<V>(k: EdgeHandle) -> spec_fn(EdgeEntry<V>) -> bool {
    |e: EdgeEntry<V>| e.key() != k
}

/// Keeps the edge entries that have `id` at neither side.
pub open spec fn entry_avoiding<V>(id: usize) -> spec_fn(EdgeEntry<V>) -> bool {
    |e: EdgeEntry<V>| !e.key().touches(id)
}

/// Keeps the edge entries that have `id` at either side.
pub open spec fn entry_touching<V>(id: usize) -> spec_fn(EdgeEntry<V>) -> bool {
    |e: EdgeEntry<V>| e.key().touches(id)
}

/// A graph as two sequences, each in insertion order.
pub struct GraphView<T, V> {
    pub vertices: Seq<VertexEntry<T>>,
    pub edges: Seq<EdgeEntry<V>>,
}

impl<T, V> GraphView<T, V> {
    /// The graph with no vertices and no edges.
    pub open spec fn empty() -> Self {
        GraphView { vertices: Seq::empty(), edges: Seq::empty() }
    }

    /// The vertex ids, in insertion order.
    pub open spec fn ids(self) -> Seq<usize> {
        self.vertices.map_values(entry_id::<T>())
    }

    /// The ordered pairs of the edges, in insertion order.
    pub open spec fn keys(self) -> Seq<EdgeHandle> {
        self.edges.map_values(entry_key::<V>())
    }

    pub open spec fn has_vertex(self, id: usize) -> bool {
        self.ids().contains(id)
    }

    pub open spec fn has_edge(self, start: usize, end: usize) -> bool {
        self.keys().contains(EdgeHandle { start, end })
    }

    /// Ids are unique, every edge joins two vertices of the graph, and no
    /// ordered pair carries two edges.
    pub open spec fn wf(self) -> bool {
        &&& self.ids().no_duplicates()
        &&& self.keys().no_duplicates()
        &&& forall|i: int|
            0 <= i < self.edges.len() ==> self.has_vertex((#[trigger] self.edges[i]).start)
                && self.has_vertex(self.edges[i].end)
    }

    /// The handles of the edges that have `id` at either side, oldest first.
    /// This is what the incident list of vertex `id` holds.
    pub open spec fn incident(self, id: usize) -> Seq<EdgeHandle> {
        self.keys().filter(touching(id))
    }

    /// Position of vertex `id` in insertion order.
    pub open spec fn vertex_index(self, id: usize) -> int {
        self.ids().index_of(id)
    }

    /// What the stored vertex `id` looks like: its payload, and the edges
    /// that touch it.
    pub open spec fn vertex_view(self, id: usize) -> VertexView<T> {
        VertexView {
            id,
            value: self.vertices[self.vertex_index(id)].value,
            edges: self.incident(id),
        }
    }

    /// Position of the edge from `start` to `end` in insertion order.
    pub open spec fn edge_index(self, start: usize, end: usize) -> int {
        self.keys().index_of(EdgeHandle { start, end })
    }

    /// The graph after vertex `id` with payload `value` was appended.
    pub open spec fn add_vertex(self, id: usize, value: T) -> Self {
        GraphView { vertices: self.vertices.push(VertexEntry { id, value }), ..self }
    }

    /// The graph after an edge from `start` to `end` was appended.
    pub open spec fn add_edge(self, start: usize, end: usize, value: Option<V>) -> Self {
        GraphView { edges: self.edges.push(EdgeEntry { start, end, value }), ..self }
    }

    /// The graph without the edge from `start` to `end`.
    pub open spec fn remove_edge(self, start: usize, end: usize) -> Self {
        GraphView {
            edges: self.edges.filter(entry_other_than::<V>(EdgeHandle { start, end })),
            ..self
        }
    }

    /// The graph without vertex `id` and without every edge that had `id`
    /// at either side.
    pub open spec fn remove_vertex(self, id: usize) -> Self {
        GraphView {
            vertices: self.vertices.filter(vertex_other_than::<T>(id)),
            edges: self.edges.filter(entry_avoiding::<V>(id)),
        }
    }

    /// Whether a vertex with `id` can be added.
    pub open spec fn add_vertex_outcome(self, id: usize) -> Result<(), GraphError> {
        if self.has_vertex(id) {
            Err(GraphError::VertexExistsError)
        } else {
            Ok(())
        }
    }

    /// Whether an edge from `start` to `end` can be added.
    pub open spec fn add_edge_outcome(self, start: usize, end: usize) -> Result<(), GraphError> {
        if self.has_edge(start, end) {
            Err(GraphError::EdgeExistsError)
        } else if !self.has_vertex(start) || !self.has_vertex(end) {
            Err(GraphError::VertexNotFound)
        } else {
            Ok(())
        }
    }

    /// Whether the edge from `start` to `end` can be removed.
    pub open spec fn remove_edge_outcome(self, start: usize, end: usize) -> Result<
        (),
        GraphError,
    > {
        if self.has_edge(start, end) {
            Ok(())
        } else {
            Err(GraphError::EdgeNotFound)
        }
    }

    /// Whether an edge given by its endpoints, set or not, can be added: an
    /// endpoint that is not set names no vertex.
    pub open spec fn attach_outcome(self, start: Option<usize>, end: Option<usize>) -> Result<
        (),
        GraphError,
    > {
        if start is Some && end is Some {
            self.add_edge_outcome(start.unwrap(), end.unwrap())
        } else {
            Err(GraphError::VertexNotFound)
        }
    }

    /// Whether an edge given by its endpoints, set or not, can be removed:
    /// both endpoints must be set and name vertices of the graph.
    pub open spec fn detach_outcome(self, start: Option<usize>, end: Option<usize>) -> Result<
        (),
        GraphError,
    > {
        if start is Some && end is Some && self.has_vertex(start.unwrap()) && self.has_vertex(
            end.unwrap(),
        ) {
            Ok(())
        } else {
            Err(GraphError::EdgeRemovingError)
        }
    }

    /// Whether vertex `id` can be removed.
    pub open spec fn remove_vertex_outcome(self, id: usize) -> Result<(), GraphError> {
        if self.has_vertex(id) {
            Ok(())
        } else {
            Err(GraphError::VertexNotFound)
        }
    }
}

/// Keeps every id but `id`.
pub open spec fn id_other_than(id: usize) -> spec_fn(usize) -> bool {
    |x: usize| x != id
}

impl<T, V> GraphView<T, V> {
    /// After a vertex was added the graph has the vertices it had, and
    /// the new one.
    pub proof fn lemma_add_vertex_members(self, id: usize, value: T)
        ensures
            self.add_vertex(id, value).keys() == self.keys(),
            forall|x: usize| #[trigger]
                self.add_vertex(id, value).has_vertex(x) <==> self.has_vertex(x) || x == id,
    {
        let after = self.add_vertex(id, value);
        assert(after.ids() =~= self.ids().push(id));
        assert forall|x: usize| #[trigger]
            after.has_vertex(x) <==> self.has_vertex(x) || x == id by {
            if self.has_vertex(x) {
                let i = choose|i: int| 0 <= i < self.ids().len() && self.ids()[i] == x;
                assert(after.ids()[i] == x);
            }
            if x == id {
                assert(after.ids()[self.ids().len() as int] == x);
            }
        }
    }

    /// After an edge was added the graph has the edges it had, and the
    /// new one.
    pub proof fn lemma_add_edge_members(self, start: usize, end: usize, value: Option<V>)
        ensures
            self.add_edge(start, end, value).ids() == self.ids(),
            forall|a: usize, b: usize| #[trigger]
                self.add_edge(start, end, value).has_edge(a, b) <==> self.has_edge(a, b) || (a
                    == start && b == end),
    {
        let after = self.add_edge(start, end, value);
        assert(after.keys() =~= self.keys().push(EdgeHandle { start, end }));
        assert forall|a: usize, b: usize| #[trigger]
            after.has_edge(a, b) <==> self.has_edge(a, b) || (a == start && b == end) by {
            let h = EdgeHandle { start: a, end: b };
            if self.has_edge(a, b) {
                let i = choose|i: int| 0 <= i < self.keys().len() && self.keys()[i] == h;
                assert(after.keys()[i] == h);
            }
            if a == start && b == end {
                assert(after.keys()[self.keys().len() as int] == h);
            }
        }
    }

    /// After an edge was removed the graph has the edges it had, but for
    /// that one.
    pub proof fn lemma_remove_edge_members(self, start: usize, end: usize)
        ensures
            self.remove_edge(start, end).ids() == self.ids(),
            forall|a: usize, b: usize| #[trigger]
                self.remove_edge(start, end).has_edge(a, b) <==> self.has_edge(a, b) && !(a
                    == start && b == end),
    {
        let k = EdgeHandle { start, end };
        let p = entry_other_than::<V>(k);
        assert forall|x: EdgeEntry<V>| #[trigger] p(x) == other_than(k)(entry_key::<V>()(x)) by {}
        lemma_filter_map(self.edges, entry_key::<V>(), p, other_than(k));
        lemma_filter_members(self.keys(), other_than(k));
    }

    /// After a vertex was removed the graph has the vertices it had, but
    /// for that one, and the edges it had, but for those that touched it.
    pub proof fn lemma_remove_vertex_members(self, id: usize)
        ensures
            forall|x: usize| #[trigger]
                self.remove_vertex(id).has_vertex(x) <==> self.has_vertex(x) && x != id,
            forall|a: usize, b: usize| #[trigger]
                self.remove_vertex(id).has_edge(a, b) <==> self.has_edge(a, b) && a != id && b
                    != id,
    {
        let p = vertex_other_than::<T>(id);
        assert forall|v: VertexEntry<T>| #[trigger]
            p(v) == id_other_than(id)(entry_id::<T>()(v)) by {}
        lemma_filter_map(self.vertices, entry_id::<T>(), p, id_other_than(id));
        lemma_filter_members(self.ids(), id_other_than(id));
        let q = entry_avoiding::<V>(id);
        assert forall|x: EdgeEntry<V>| #[trigger] q(x) == avoiding(id)(entry_key::<V>()(x)) by {}
        lemma_filter_map(self.edges, entry_key::<V>(), q, avoiding(id));
        lemma_filter_members(self.keys(), avoiding(id));
    }
}

} // verus!
