//! A graph node: identity, payload, and the ordered list of incident edges.

use vstd::prelude::*;
use crate::error::GraphError;

verus! {

/// Names an edge by its ordered pair of endpoint ids. Within one graph no two
/// edges share a pair, so a handle identifies at most one edge.
#[derive(Clone, Copy, Debug, PartialEq, Eq, Structural)]
pub struct EdgeHandle {
    pub start: usize,
    pub end: usize,
}

impl EdgeHandle {
    /// The edge has `id` as its start or as its end.
    pub open spec fn touches(self, id: usize) -> bool {
        self.start == id || self.end == id
    }

    /// Seen from vertex `id`, the id at the far side of the edge.
    pub open spec fn other_end(self, id: usize) -> usize {
        if self.start != id {
            self.start
        } else {
            self.end
        }
    }

    /// Executable form of [`EdgeHandle::other_end`].
    pub fn far_end(&self, id: usize) -> (r: usize)
        ensures
            r == self.other_end(id),
    {
        if self.start != id {
            self.start
        } else {
            self.end
        }
    }
}

/// Keeps the handles that do not touch `id`.
pub open spec fn avoiding(id: usize) -> spec_fn(EdgeHandle) -> bool {
    |h: EdgeHandle| !h.touches(id)
}

/// Keeps the handles that touch `id`.
pub open spec fn touching(id: usize) -> spec_fn(EdgeHandle) -> bool {
    |h: EdgeHandle| h.touches(id)
}

/// Keeps every handle but `k`.
pub open spec fn other_than(k: EdgeHandle) -> spec_fn(EdgeHandle) -> bool {
    |h: EdgeHandle| h != k
}

/// First position in `edges` whose far side, seen from `id`, is `target`;
/// `edges.len()` when there is none.
pub open spec fn first_toward(edges: Seq<EdgeHandle>, id: usize, target: usize) -> int
    decreases edges.len(),
{
    if edges.len() == 0 {
        0
    } else if edges[0].other_end(id) == target {
        0
    } else {
        1 + first_toward(edges.drop_first(), id, target)
    }
}

/// `first_toward` stays within bounds, points at a match when it is below the
/// length, and nothing before it matches.
pub proof fn lemma_first_toward(edges: Seq<EdgeHandle>, id: usize, target: usize)
    ensures
        0 <= first_toward(edges, id, target) <= edges.len(),
        first_toward(edges, id, target) < edges.len() ==> edges[first_toward(edges, id, target)]
            .other_end(id) == target,
        forall|j: int|
            0 <= j < first_toward(edges, id, target) ==> (#[trigger] edges[j]).other_end(id)
                != target,
    decreases edges.len(),
{
    if edges.len() > 0 && edges[0].other_end(id) != target {
        let rest = edges.drop_first();
        lemma_first_toward(rest, id, target);
        assert forall|j: int| 0 <= j < first_toward(edges, id, target) implies (#[trigger] edges[j])
            .other_end(id) != target by {
            if j > 0 {
                assert(edges[j] == rest[j - 1]);
            }
        }
    }
}

/// What a vertex is, as a mathematical value.
pub struct VertexView<T> {
    pub id: usize,
    pub value: T,
    pub edges: Seq<EdgeHandle>,
}

/// One node of a graph.
#[derive(Debug)]
pub struct Vertex<T> {
    id: usize,
    value: T,
    edges: Vec<EdgeHandle>,
}

impl<T> View for Vertex<T> {
    type V = VertexView<T>;

    closed spec fn view(&self) -> VertexView<T> {
        VertexView { id: self.id, value: self.value, edges: self.edges@ }
    }
}

impl<T: Clone> Clone for Vertex<T> {
    /// A vertex with the same id and incident edges, and a clone of the
    /// payload.
    fn clone(&self) -> (r: Self)
        ensures
            r@.id == self@.id,
            r@.edges == self@.edges,
            cloned::<T>(self@.value, r@.value),
    {
        let edges = self.edges.clone();
        assert(edges@ =~= self.edges@);
        Vertex { id: self.id, value: self.value.clone(), edges }
    }
}

impl<T> Vertex<T> {
    /// A vertex with no incident edges.
    pub fn new(id: usize, value: T) -> (v: Self)
        ensures
            v@ == (VertexView { id, value, edges: Seq::<EdgeHandle>::empty() }),
    {
        Vertex { id, value, edges: Vec::new() }
    }

    /// The id of the vertex.
    pub fn id(&self) -> (r: usize)
        ensures
            r == self@.id,
    {
        self.id
    }

    /// The payload of the vertex.
    pub fn value(&self) -> (r: &T)
        ensures
            *r == self@.value,
    {
        &self.value
    }

    /// The incident edges, oldest first.
    pub fn get_edges(&self) -> (r: &Vec<EdgeHandle>)
        ensures
            r@ == self@.edges,
    {
        &self.edges
    }

    /// Gives up the vertex for its id and payload.
    pub fn into_parts(self) -> (r: (usize, T))
        ensures
            r.0 == self@.id,
            r.1 == self@.value,
    {
        (self.id, self.value)
    }

    /// Appends `edge` to the incident list. Whether the edge belongs there is
    /// the caller's concern.
    pub fn add_neighbor(&mut self, edge: EdgeHandle)
        ensures
            final(self)@ == (VertexView { edges: old(self)@.edges.push(edge), ..old(self)@ }),
    {
        self.edges.push(edge);
    }

    /// Position of the first incident edge that leads to, or comes from,
    /// `target`.
    pub fn find_neighbor_index(&self, target: usize) -> (r: Option<usize>)
        ensures
            match r {
                Some(i) => i == first_toward(self@.edges, self@.id, target) && i
                    < self@.edges.len(),
                None => first_toward(self@.edges, self@.id, target) == self@.edges.len(),
            },
    {
        let mut i: usize = 0;
        proof {
            lemma_first_toward(self.edges@, self.id, target);
        }
        while i < self.edges.len()
            invariant
                0 <= i <= self.edges.len(),
                i <= first_toward(self.edges@, self.id, target) <= self.edges.len(),
                first_toward(self.edges@, self.id, target) < self.edges.len()
                    ==> self.edges@[first_toward(self.edges@, self.id, target)].other_end(self.id)
                    == target,
                forall|j: int|
                    0 <= j < first_toward(self.edges@, self.id, target) ==> (
                    #[trigger] self.edges@[j]).other_end(self.id) != target,
            decreases self.edges.len() - i,
        {
            if self.edges[i].far_end(self.id) == target {
                return Some(i);
            }
            i += 1;
        }
        None
    }

    /// Removes the first incident edge that connects this vertex with
    /// `target` and returns it. The match is on the id at the far side of
    /// each edge, never on a list position.
    pub fn remove_neighbor_by_position(&mut self, target: usize) -> (r: Result<
        EdgeHandle,
        GraphError,
    >)
        ensures
            match r {
                Ok(h) => {
                    let i = first_toward(old(self)@.edges, old(self)@.id, target);
                    &&& i < old(self)@.edges.len()
                    &&& h == old(self)@.edges[i]
                    &&& h.other_end(old(self)@.id) == target
                    &&& final(self)@ == (VertexView {
                        edges: old(self)@.edges.remove(i),
                        ..old(self)@
                    })
                },
                Err(e) => {
                    &&& e == GraphError::EdgeNotFound
                    &&& first_toward(old(self)@.edges, old(self)@.id, target)
                        == old(self)@.edges.len()
                    &&& final(self)@ == old(self)@
                },
            },
    {
        proof {
            lemma_first_toward(self.edges@, self.id, target);
        }
        match self.find_neighbor_index(target) {
            Some(i) => {
                let h = self.edges.remove(i);
                Ok(h)
            },
            None => Err(GraphError::EdgeNotFound),
        }
    }

    /// Drops every incident edge that has `vertex_id` at either side.
    pub fn remove_edges_for_vertex(&mut self, vertex_id: usize)
        ensures
            final(self)@ == (VertexView {
                edges: old(self)@.edges.filter(avoiding(vertex_id)),
                ..old(self)@
            }),
    {
        let mut kept: Vec<EdgeHandle> = Vec::new();
        let mut i: usize = 0;
        while i < self.edges.len()
            invariant
                0 <= i <= self.edges.len(),
                kept@ == self.edges@.take(i as int).filter(avoiding(vertex_id)),
            decreases self.edges.len() - i,
        {
            let h = self.edges[i];
            proof {
                let prefix = self.edges@.take(i as int);
                assert(self.edges@.take(i + 1) == prefix.push(h));
                prefix.lemma_filter_push(h, avoiding(vertex_id));
            }
            if h.start != vertex_id && h.end != vertex_id {
                kept.push(h);
            }
            i += 1;
        }
        assert(self.edges@.take(i as int) == self.edges@);
        self.edges = kept;
    }

    /// Drops the incident edge named by `edge`, wherever it stands.
    pub fn remove_incident(&mut self, edge: EdgeHandle)
        ensures
            final(self)@ == (VertexView {
                edges: old(self)@.edges.filter(other_than(edge)),
                ..old(self)@
            }),
    {
        let mut kept: Vec<EdgeHandle> = Vec::new();
        let mut i: usize = 0;
        while i < self.edges.len()
            invariant
                0 <= i <= self.edges.len(),
                kept@ == self.edges@.take(i as int).filter(other_than(edge)),
            decreases self.edges.len() - i,
        {
            let h = self.edges[i];
            proof {
                let prefix = self.edges@.take(i as int);
                assert(self.edges@.take(i + 1) == prefix.push(h));
                prefix.lemma_filter_push(h, other_than(edge));
            }
            if !(h.start == edge.start && h.end == edge.end) {
                kept.push(h);
            }
            i += 1;
        }
        assert(self.edges@.take(i as int) == self.edges@);
        self.edges = kept;
    }
}

} // verus!
