//! The graph: owner of all vertices and edges, keeper of the invariants.

use vstd::prelude::*;
use crate::edge::{EdgeView, OrientedEdge};
use crate::error::GraphError;
use crate::model::{
    entry_avoiding, entry_key, entry_other_than, entry_touching, vertex_other_than, EdgeEntry,
    GraphView, VertexEntry,
};
use crate::sequences::{
    lemma_filter_all, lemma_filter_commute, lemma_filter_map, lemma_filter_members,
    lemma_filter_no_duplicates, lemma_filter_none, lemma_filter_one_out,
};
use crate::vertex::{avoiding, other_than, touching, EdgeHandle, Vertex, VertexView};

verus! {

/// The model entry that a stored vertex stands for.
pub open spec fn vertex_entry<T>() -> spec_fn(Vertex<T>) -> VertexEntry<T> {
    |v: Vertex<T>| VertexEntry { id: v@.id, value: v@.value }
}

/// The model entry that a stored edge stands for.
pub open spec fn edge_entry<V>() -> spec_fn(OrientedEdge<V>) -> EdgeEntry<V> {
    |e: OrientedEdge<V>|
        EdgeEntry { start: e@.start.unwrap(), end: e@.end.unwrap(), value: e@.value }
}

/// The model of a vertex list and an edge list.
pub open spec fn model_of<T, V>(vs: Seq<Vertex<T>>, es: Seq<OrientedEdge<V>>) -> GraphView<T, V> {
    GraphView {
        vertices: vs.map_values(vertex_entry::<T>()),
        edges: es.map_values(edge_entry::<V>()),
    }
}

/// The lists agree with each other: every edge has both endpoints set, the
/// model is well formed, and each vertex lists exactly the edges that touch
/// it, in the order of the edge list.
pub open spec fn consistent<T, V>(vs: Seq<Vertex<T>>, es: Seq<OrientedEdge<V>>) -> bool {
    &&& forall|i: int|
        0 <= i < es.len() ==> (#[trigger] es[i])@.start is Some && es[i]@.end is Some
    &&& model_of(vs, es).wf()
    &&& forall|i: int|
        0 <= i < vs.len() ==> (#[trigger] vs[i])@.edges == model_of(vs, es).incident(vs[i]@.id)
}

/// Appending a fresh vertex without incident edges keeps the lists
/// consistent.
proof fn lemma_push_vertex<T, V>(vs: Seq<Vertex<T>>, es: Seq<OrientedEdge<V>>, v: Vertex<T>)
    requires
        consistent(vs, es),
        v@.edges.len() == 0,
        !model_of(vs, es).has_vertex(v@.id),
    ensures
        consistent(vs.push(v), es),
        model_of(vs.push(v), es) == model_of(vs, es).add_vertex(v@.id, v@.value),
{
    let m = model_of(vs, es);
    let n = model_of(vs.push(v), es);
    assert(n.vertices =~= m.vertices.push(VertexEntry { id: v@.id, value: v@.value }));
    assert(n.ids() =~= m.ids().push(v@.id));
    assert forall|i: int| 0 <= i < n.edges.len() implies n.has_vertex((#[trigger] n.edges[i]).start)
        && n.has_vertex(n.edges[i].end) by {
        let a = m.edges[i].start;
        let b = m.edges[i].end;
        assert(m.has_vertex(a) && m.has_vertex(b));
        let ia = m.ids().index_of(a);
        let ib = m.ids().index_of(b);
        assert(n.ids()[ia] == a);
        assert(n.ids()[ib] == b);
    }
    assert forall|i: int| 0 <= i < m.keys().len() implies !touching(v@.id)(
        #[trigger] m.keys()[i],
    ) by {
        assert(m.has_vertex(m.edges[i].start) && m.has_vertex(m.edges[i].end));
    }
    lemma_filter_none(m.keys(), touching(v@.id));
    assert(v@.edges =~= Seq::<EdgeHandle>::empty());
}

/// Appending an edge and noting it at both endpoints keeps the lists
/// consistent.
proof fn lemma_push_edge<T, V>(
    vs: Seq<Vertex<T>>,
    es: Seq<OrientedEdge<V>>,
    ws: Seq<Vertex<T>>,
    e: OrientedEdge<V>,
    h: EdgeHandle,
)
    requires
        consistent(vs, es),
        e@.start == Some(h.start),
        e@.end == Some(h.end),
        model_of(vs, es).has_vertex(h.start),
        model_of(vs, es).has_vertex(h.end),
        !model_of(vs, es).has_edge(h.start, h.end),
        ws.len() == vs.len(),
        forall|i: int|
            0 <= i < vs.len() ==> (#[trigger] ws[i])@ == (VertexView {
                edges: if h.touches(vs[i]@.id) {
                    vs[i]@.edges.push(h)
                } else {
                    vs[i]@.edges
                },
                ..vs[i]@
            }),
    ensures
        consistent(ws, es.push(e)),
        model_of(ws, es.push(e)) == model_of(vs, es).add_edge(h.start, h.end, e@.value),
{
    let m = model_of(vs, es);
    let n = model_of(ws, es.push(e));
    assert(n.vertices =~= m.vertices);
    assert(n.edges =~= m.edges.push(EdgeEntry { start: h.start, end: h.end, value: e@.value }));
    assert(n.keys() =~= m.keys().push(h));
    assert forall|i: int| 0 <= i < ws.len() implies (#[trigger] ws[i])@.edges == n.incident(
        ws[i]@.id,
    ) by {
        m.keys().lemma_filter_push(h, touching(vs[i]@.id));
    }
}

/// Dropping the edge at `pos` and striking its handle from every incident
/// list keeps the lists consistent.
proof fn lemma_drop_edge<T, V>(
    vs: Seq<Vertex<T>>,
    es: Seq<OrientedEdge<V>>,
    ws: Seq<Vertex<T>>,
    pos: int,
    h: EdgeHandle,
)
    requires
        consistent(vs, es),
        0 <= pos < es.len(),
        model_of(vs, es).edges[pos].key() == h,
        ws.len() == vs.len(),
        forall|i: int|
            0 <= i < vs.len() ==> (#[trigger] ws[i])@ == (VertexView {
                edges: vs[i]@.edges.filter(other_than(h)),
                ..vs[i]@
            }),
    ensures
        consistent(ws, es.remove(pos)),
        model_of(ws, es.remove(pos)) == model_of(vs, es).remove_edge(h.start, h.end),
{
    let m = model_of(vs, es);
    let n = model_of(ws, es.remove(pos));
    let p = entry_other_than::<V>(h);
    assert(n.vertices =~= m.vertices);
    assert(n.edges =~= m.edges.remove(pos));
    assert forall|j: int| 0 <= j < m.edges.len() implies (p(#[trigger] m.edges[j]) <==> j
        != pos) by {
        assert(m.keys()[j] == m.edges[j].key());
        assert(m.keys()[pos] == h);
    }
    lemma_filter_one_out(m.edges, p, pos);
    assert forall|x: EdgeEntry<V>| #[trigger] p(x) == other_than(h)(entry_key::<V>()(x)) by {}
    lemma_filter_map(m.edges, entry_key::<V>(), p, other_than(h));
    assert(n.keys() == m.keys().filter(other_than(h)));
    lemma_filter_no_duplicates(m.keys(), other_than(h));
    assert forall|i: int| 0 <= i < n.edges.len() implies n.has_vertex((#[trigger] n.edges[i]).start)
        && n.has_vertex(n.edges[i].end) by {
        let j = if i < pos {
            i
        } else {
            i + 1
        };
        assert(n.edges[i] == m.edges[j]);
        assert(m.has_vertex(m.edges[j].start) && m.has_vertex(m.edges[j].end));
    }
    assert forall|i: int| 0 <= i < ws.len() implies (#[trigger] ws[i])@.edges == n.incident(
        ws[i]@.id,
    ) by {
        lemma_filter_commute(m.keys(), touching(vs[i]@.id), other_than(h));
    }
}

/// An incident list that `h` does not touch holds no copy of `h`.
proof fn lemma_untouched<T, V>(m: GraphView<T, V>, id: usize, h: EdgeHandle)
    requires
        !h.touches(id),
    ensures
        m.incident(id).filter(other_than(h)) == m.incident(id),
{
    lemma_filter_members(m.keys(), touching(id));
    assert forall|i: int| 0 <= i < m.incident(id).len() implies other_than(h)(
        #[trigger] m.incident(id)[i],
    ) by {
        assert(m.incident(id).contains(m.incident(id)[i]));
    }
    lemma_filter_all(m.incident(id), other_than(h));
}

/// Dropping the vertex at `pos`, every edge that touches it, and the
/// handles of those edges everywhere keeps the lists consistent.
proof fn lemma_drop_vertex<T, V>(
    vs: Seq<Vertex<T>>,
    es: Seq<OrientedEdge<V>>,
    ws: Seq<Vertex<T>>,
    fs: Seq<OrientedEdge<V>>,
    pos: int,
    id: usize,
)
    requires
        consistent(vs, es),
        0 <= pos < vs.len(),
        vs[pos]@.id == id,
        ws.len() == vs.len() - 1,
        forall|i: int|
            0 <= i < ws.len() ==> (#[trigger] ws[i])@ == (VertexView {
                edges: vs.remove(pos)[i]@.edges.filter(avoiding(id)),
                ..vs.remove(pos)[i]@
            }),
        fs.map_values(edge_entry::<V>()) == es.map_values(edge_entry::<V>()).filter(
            entry_avoiding::<V>(id),
        ),
        forall|i: int|
            0 <= i < fs.len() ==> (#[trigger] fs[i])@.start is Some && fs[i]@.end is Some,
    ensures
        consistent(ws, fs),
        model_of(ws, fs) == model_of(vs, es).remove_vertex(id),
{
    let m = model_of(vs, es);
    let n = model_of(ws, fs);
    let p = vertex_other_than::<T>(id);
    let q = entry_avoiding::<V>(id);
    assert(n.vertices =~= m.vertices.remove(pos));
    assert forall|j: int| 0 <= j < m.vertices.len() implies (p(#[trigger] m.vertices[j]) <==> j
        != pos) by {
        assert(m.ids()[j] == m.vertices[j].id);
        assert(m.ids()[pos] == id);
    }
    lemma_filter_one_out(m.vertices, p, pos);
    assert(n.ids() =~= m.ids().remove(pos));
    assert forall|x: EdgeEntry<V>| #[trigger] q(x) == avoiding(id)(entry_key::<V>()(x)) by {}
    lemma_filter_map(m.edges, entry_key::<V>(), q, avoiding(id));
    assert(n.keys() == m.keys().filter(avoiding(id)));
    lemma_filter_no_duplicates(m.keys(), avoiding(id));
    lemma_filter_members(m.edges, q);
    assert forall|i: int| 0 <= i < n.edges.len() implies n.has_vertex((#[trigger] n.edges[i]).start)
        && n.has_vertex(n.edges[i].end) by {
        let x = n.edges[i];
        assert(m.edges.filter(q).contains(x));
        assert(m.edges.contains(x) && q(x));
        let j = choose|j: int| 0 <= j < m.edges.len() && m.edges[j] == x;
        assert(m.has_vertex(m.edges[j].start) && m.has_vertex(m.edges[j].end));
        let ia = m.ids().index_of(x.start);
        let ib = m.ids().index_of(x.end);
        assert(ia != pos && ib != pos);
        let ka = if ia < pos {
            ia
        } else {
            ia - 1
        };
        let kb = if ib < pos {
            ib
        } else {
            ib - 1
        };
        assert(n.ids()[ka] == x.start);
        assert(n.ids()[kb] == x.end);
    }
    assert forall|i: int| 0 <= i < ws.len() implies (#[trigger] ws[i])@.edges == n.incident(
        ws[i]@.id,
    ) by {
        let j = if i < pos {
            i
        } else {
            i + 1
        };
        assert(vs.remove(pos)[i] == vs[j]);
        lemma_filter_commute(m.keys(), touching(vs[j]@.id), avoiding(id));
    }
}

/// A directed graph over vertex payloads `T` and edge payloads `V`.
#[derive(Debug)]
pub struct OrientedGraph<T, V> {
    vertexes: Vec<Vertex<T>>,
    edges: Vec<OrientedEdge<V>>,
}

impl<T, V> View for OrientedGraph<T, V> {
    type V = GraphView<T, V>;

    closed spec fn view(&self) -> GraphView<T, V> {
        model_of(self.vertexes@, self.edges@)
    }
}

impl<T, V> Default for OrientedGraph<T, V> {
    /// The empty graph.
    fn default() -> (g: Self)
        ensures
            g@ == GraphView::<T, V>::empty(),
    {
        let vertexes: Vec<Vertex<T>> = Vec::new();
        let edges: Vec<OrientedEdge<V>> = Vec::new();
        proof {
            let m = model_of(vertexes@, edges@);
            assert(m.vertices =~= Seq::empty());
            assert(m.edges =~= Seq::empty());
            assert(m.keys() =~= Seq::empty());
            assert(m.ids() =~= Seq::empty());
        }
        OrientedGraph { vertexes, edges }
    }
}

impl<T, V> OrientedGraph<T, V> {
    /// Holds of every graph at all times.
    #[verifier::type_invariant]
    closed spec fn inv(&self) -> bool {
        consistent(self.vertexes@, self.edges@)
    }

    /// The number of vertices.
    pub fn vertex_count(&self) -> (n: usize)
        ensures
            n == self@.vertices.len(),
    {
        self.vertexes.len()
    }

    /// The number of edges.
    pub fn edges_count(&self) -> (n: usize)
        ensures
            n == self@.edges.len(),
    {
        self.edges.len()
    }

    /// The vertices in insertion order. Each lists the edges that touch it.
    pub fn get_vertexes(&self) -> (r: &Vec<Vertex<T>>)
        ensures
            self@.wf(),
            r@.len() == self@.vertices.len(),
            forall|i: int|
                0 <= i < r@.len() ==> (#[trigger] r@[i])@ == (VertexView {
                    id: self@.vertices[i].id,
                    value: self@.vertices[i].value,
                    edges: self@.incident(self@.vertices[i].id),
                }),
    {
        proof {
            use_type_invariant(self);
        }
        &self.vertexes
    }

    /// The edges in insertion order. Each has both endpoints set.
    pub fn get_edges(&self) -> (r: &Vec<OrientedEdge<V>>)
        ensures
            self@.wf(),
            r@.len() == self@.edges.len(),
            forall|i: int|
                0 <= i < r@.len() ==> (#[trigger] r@[i])@ == (EdgeView {
                    start: Some(self@.edges[i].start),
                    end: Some(self@.edges[i].end),
                    value: self@.edges[i].value,
                }),
    {
        proof {
            use_type_invariant(self);
        }
        &self.edges
    }

    /// Position of vertex `id` in insertion order.
    pub(crate) fn vertex_position(&self, id: usize) -> (r: Option<usize>)
        ensures
            match r {
                Some(i) => i < self@.vertices.len() && self@.vertices[i as int].id == id
                    && self@.has_vertex(id) && i == self@.vertex_index(id),
                None => !self@.has_vertex(id),
            },
    {
        proof {
            use_type_invariant(self);
        }
        let mut i: usize = 0;
        while i < self.vertexes.len()
            invariant
                0 <= i <= self.vertexes.len(),
                self@.wf(),
                forall|j: int| 0 <= j < i ==> self@.ids()[j] != id,
            decreases self.vertexes.len() - i,
        {
            if self.vertexes[i].id() == id {
                proof {
                    assert(self@.ids()[i as int] == id);
                    let k = self@.vertex_index(id);
                    assert(self@.ids()[k] == id);
                }
                return Some(i);
            }
            i += 1;
        }
        None
    }

    /// Position of the edge from `start` to `end` in insertion order.
    fn edge_position(&self, start: usize, end: usize) -> (r: Option<usize>)
        ensures
            match r {
                Some(i) => i < self@.edges.len() && self@.edges[i as int].key() == (EdgeHandle {
                    start,
                    end,
                }) && self@.has_edge(start, end) && i == self@.edge_index(start, end),
                None => !self@.has_edge(start, end),
            },
    {
        proof {
            use_type_invariant(self);
        }
        let mut i: usize = 0;
        while i < self.edges.len()
            invariant
                0 <= i <= self.edges.len(),
                self@.wf(),
                forall|j: int| 0 <= j < i ==> self@.keys()[j] != (EdgeHandle { start, end }),
                forall|j: int|
                    0 <= j < self.edges.len() ==> (#[trigger] self.edges@[j])@.start is Some
                        && self.edges@[j]@.end is Some,
            decreases self.edges.len() - i,
        {
            let e = &self.edges[i];
            if e.start_id() == Some(start) && e.end_id() == Some(end) {
                proof {
                    let h = EdgeHandle { start, end };
                    assert(self@.keys()[i as int] == h);
                    let k = self@.edge_index(start, end);
                    assert(self@.keys()[k] == h);
                }
                return Some(i);
            }
            proof {
                assert(self@.keys()[i as int] == self@.edges[i as int].key());
            }
            i += 1;
        }
        None
    }

    /// Moves both lists out and leaves the graph empty.
    fn take_parts(&mut self) -> (r: (Vec<Vertex<T>>, Vec<OrientedEdge<V>>))
        ensures
            r.0 == old(self).vertexes,
            r.1 == old(self).edges,
            consistent(r.0@, r.1@),
    {
        proof {
            use_type_invariant(&*self);
        }
        let mut g = OrientedGraph::default();
        std::mem::swap(&mut g, self);
        let OrientedGraph { vertexes, edges } = g;
        (vertexes, edges)
    }

    /// The vertex with the given id, if the graph has one.
    pub fn get_vertex_by_id(&self, id: usize) -> (r: Option<&Vertex<T>>)
        ensures
            match r {
                Some(v) => self@.has_vertex(id) && v@ == self@.vertex_view(id),
                None => !self@.has_vertex(id),
            },
    {
        proof {
            use_type_invariant(self);
        }
        match self.vertex_position(id) {
            Some(i) => Some(&self.vertexes[i]),
            None => None,
        }
    }

    /// The edge from `start` to `end`, if the graph has one.
    pub fn get_edge_by_vertexes_id(&self, start: usize, end: usize) -> (r: Option<
        &OrientedEdge<V>,
    >)
        ensures
            match r {
                Some(e) => self@.has_edge(start, end) && e@ == (EdgeView {
                    start: Some(start),
                    end: Some(end),
                    value: self@.edges[self@.edge_index(start, end)].value,
                }),
                None => !self@.has_edge(start, end),
            },
    {
        proof {
            use_type_invariant(self);
        }
        match self.edge_position(start, end) {
            Some(i) => Some(&self.edges[i]),
            None => None,
        }
    }

    /// Adds `vertex` under its id with its payload. The graph alone keeps
    /// the incident lists, so any handles the vertex carries are dropped.
    pub fn add_vertex(&mut self, vertex: Vertex<T>) -> (r: Result<(), GraphError>)
        ensures
            r == old(self)@.add_vertex_outcome(vertex@.id),
            r is Ok ==> final(self)@ == old(self)@.add_vertex(vertex@.id, vertex@.value),
            r is Err ==> *final(self) == *old(self),
            forall|x: usize| #[trigger]
                final(self)@.has_vertex(x) <==> old(self)@.has_vertex(x) || x == vertex@.id,
            final(self)@.wf(),
    {
        let (id, value) = vertex.into_parts();
        self.add_raw_vertex(id, value)
    }

    /// Adds a vertex with the given id and payload.
    pub fn add_raw_vertex(&mut self, id: usize, value: T) -> (r: Result<(), GraphError>)
        ensures
            r == old(self)@.add_vertex_outcome(id),
            r is Ok ==> final(self)@ == old(self)@.add_vertex(id, value),
            r is Err ==> *final(self) == *old(self),
            forall|x: usize| #[trigger]
                final(self)@.has_vertex(x) <==> old(self)@.has_vertex(x) || x == id,
            final(self)@.wf(),
    {
        proof {
            use_type_invariant(&*self);
            self@.lemma_add_vertex_members(id, value);
        }
        if self.vertex_position(id).is_some() {
            return Err(GraphError::VertexExistsError);
        }
        let (mut vs, es) = self.take_parts();
        let v = Vertex::new(id, value);
        proof {
            lemma_push_vertex(vs@, es@, v);
        }
        vs.push(v);
        *self = OrientedGraph { vertexes: vs, edges: es };
        Ok(())
    }

    /// Adds an edge from vertex `start` to vertex `end` and notes it in the
    /// incident list of each endpoint.
    pub fn add_edge_with_vertex_id(&mut self, start: usize, end: usize, value: Option<V>) -> (r:
        Result<(), GraphError>)
        ensures
            r == old(self)@.add_edge_outcome(start, end),
            r is Ok ==> final(self)@ == old(self)@.add_edge(start, end, value),
            r is Err ==> *final(self) == *old(self),
            !old(self)@.has_vertex(start) || !old(self)@.has_vertex(end) ==> r == Err::<
                (),
                GraphError,
            >(GraphError::VertexNotFound),
            r is Ok ==> forall|a: usize, b: usize| #[trigger]
                final(self)@.has_edge(a, b) <==> old(self)@.has_edge(a, b) || (a == start && b
                    == end),
            final(self)@.wf(),
    {
        proof {
            use_type_invariant(&*self);
            self@.lemma_add_edge_members(start, end, value);
            if !self@.has_vertex(start) || !self@.has_vertex(end) {
                crate::laws::lemma_missing_endpoint(self@, start, end, value);
            }
        }
        if self.edge_position(start, end).is_some() {
            return Err(GraphError::EdgeExistsError);
        }
        let si = match self.vertex_position(start) {
            Some(i) => i,
            None => {
                return Err(GraphError::VertexNotFound);
            },
        };
        let ei = match self.vertex_position(end) {
            Some(i) => i,
            None => {
                return Err(GraphError::VertexNotFound);
            },
        };
        let (mut vs, mut es) = self.take_parts();
        let ghost before = vs@;
        let h = EdgeHandle { start, end };
        let e = OrientedEdge::between(start, end, value);
        vs[si].add_neighbor(h);
        if ei != si {
            vs[ei].add_neighbor(h);
        }
        proof {
            let m = model_of(before, es@);
            assert forall|i: int| 0 <= i < before.len() implies (#[trigger] vs@[i])@
                == (VertexView {
                edges: if h.touches(before[i]@.id) {
                    before[i]@.edges.push(h)
                } else {
                    before[i]@.edges
                },
                ..before[i]@
            }) by {
                assert(m.ids()[i] == before[i]@.id);
                assert(m.ids()[si as int] == start);
                assert(m.ids()[ei as int] == end);
            }
            lemma_push_edge(before, es@, vs@, e, h);
        }
        es.push(e);
        *self = OrientedGraph { vertexes: vs, edges: es };
        Ok(())
    }

    /// Adds an edge with the endpoints and the payload of `edge`, as
    /// [`OrientedGraph::add_edge_with_vertex_id`] does. An endpoint that
    /// is not set names no vertex.
    pub fn add_edge(&mut self, edge: OrientedEdge<V>) -> (r: Result<(), GraphError>)
        ensures
            r == old(self)@.attach_outcome(edge@.start, edge@.end),
            r is Ok ==> final(self)@ == old(self)@.add_edge(
                edge@.start.unwrap(),
                edge@.end.unwrap(),
                edge@.value,
            ),
            r is Ok ==> forall|a: usize, b: usize| #[trigger]
                final(self)@.has_edge(a, b) <==> old(self)@.has_edge(a, b) || (Some(a)
                    == edge@.start && Some(b) == edge@.end),
            r is Err ==> *final(self) == *old(self),
            final(self)@.wf(),
    {
        proof {
            use_type_invariant(&*self);
        }
        match edge.handle() {
            Some(h) => self.add_edge_with_vertex_id(h.start, h.end, edge.into_value()),
            None => Err(GraphError::VertexNotFound),
        }
    }

    /// Removes the edge from `start_vertex_id` to `end_vertex_id` from the
    /// edge list and from the incident lists of both endpoints.
    pub fn remove_edge_by_vertexes(&mut self, start_vertex_id: usize, end_vertex_id: usize) -> (r:
        Result<(), GraphError>)
        ensures
            r == old(self)@.remove_edge_outcome(start_vertex_id, end_vertex_id),
            r is Ok ==> final(self)@ == old(self)@.remove_edge(start_vertex_id, end_vertex_id),
            r is Ok ==> final(self)@.edges.len() == old(self)@.edges.len() - 1,
            r is Ok ==> forall|a: usize, b: usize| #[trigger]
                final(self)@.has_edge(a, b) <==> old(self)@.has_edge(a, b) && !(a
                    == start_vertex_id && b == end_vertex_id),
            r is Err ==> *final(self) == *old(self),
            final(self)@.wf(),
    {
        proof {
            use_type_invariant(&*self);
            self@.lemma_remove_edge_members(start_vertex_id, end_vertex_id);
        }
        let pos = match self.edge_position(start_vertex_id, end_vertex_id) {
            Some(i) => i,
            None => {
                return Err(GraphError::EdgeNotFound);
            },
        };
        let h = EdgeHandle { start: start_vertex_id, end: end_vertex_id };
        proof {
            let m = self@;
            let e = m.edges[pos as int];
            assert(m.has_vertex(e.start) && m.has_vertex(e.end));
        }
        let si = self.vertex_position(start_vertex_id).unwrap();
        let ei = self.vertex_position(end_vertex_id).unwrap();
        let (mut vs, mut es) = self.take_parts();
        let ghost before = vs@;
        vs[si].remove_incident(h);
        if ei != si {
            vs[ei].remove_incident(h);
        }
        proof {
            let m = model_of(before, es@);
            assert forall|i: int| 0 <= i < before.len() implies (#[trigger] vs@[i])@
                == (VertexView { edges: before[i]@.edges.filter(other_than(h)), ..before[i]@ }) by {
                assert(m.ids()[i] == before[i]@.id);
                assert(m.ids()[si as int] == h.start);
                assert(m.ids()[ei as int] == h.end);
                if i != si && i != ei {
                    lemma_untouched(m, before[i]@.id, h);
                }
            }
            lemma_drop_edge(before, es@, vs@, pos as int, h);
        }
        es.remove(pos);
        *self = OrientedGraph { vertexes: vs, edges: es };
        Ok(())
    }

    /// Removes the edge that joins the endpoints of `edge`, if the graph
    /// holds one. Fails when an endpoint of `edge` is not set or names no
    /// vertex of the graph.
    pub fn remove_edge(&mut self, edge: &OrientedEdge<V>) -> (r: Result<(), GraphError>)
        ensures
            r == old(self)@.detach_outcome(edge@.start, edge@.end),
            r is Ok ==> final(self)@ == old(self)@.remove_edge(
                edge@.start.unwrap(),
                edge@.end.unwrap(),
            ),
            r is Ok ==> forall|a: usize, b: usize| #[trigger]
                final(self)@.has_edge(a, b) <==> old(self)@.has_edge(a, b) && !(Some(a)
                    == edge@.start && Some(b) == edge@.end),
            r is Err ==> *final(self) == *old(self),
            final(self)@.wf(),
    {
        proof {
            use_type_invariant(&*self);
            if edge@.start is Some && edge@.end is Some {
                self@.lemma_remove_edge_members(edge@.start.unwrap(), edge@.end.unwrap());
            }
        }
        let h = match edge.handle() {
            Some(h) => h,
            None => {
                return Err(GraphError::EdgeRemovingError);
            },
        };
        if self.vertex_position(h.start).is_none() || self.vertex_position(h.end).is_none() {
            return Err(GraphError::EdgeRemovingError);
        }
        match self.remove_edge_by_vertexes(h.start, h.end) {
            Ok(()) => Ok(()),
            Err(_) => {
                proof {
                    let m = self@;
                    let p = entry_other_than::<V>(h);
                    assert forall|i: int| 0 <= i < m.edges.len() implies p(
                        #[trigger] m.edges[i],
                    ) by {
                        assert(m.keys()[i] == m.edges[i].key());
                    }
                    lemma_filter_all(m.edges, p);
                }
                Ok(())
            },
        }
    }

    /// Removes vertex `id`, every edge that has `id` at either side, and
    /// the handles of those edges from the incident lists that remain.
    pub fn remove_vertex_by_id(&mut self, id: usize) -> (r: Result<(), GraphError>)
        ensures
            r == old(self)@.remove_vertex_outcome(id),
            r is Ok ==> final(self)@ == old(self)@.remove_vertex(id),
            r is Ok ==> forall|i: int|
                0 <= i < final(self)@.edges.len() ==> !(#[trigger] final(self)@.edges[i])
                    .key().touches(id),
            r is Ok ==> final(self)@.edges.len() == old(self)@.edges.len()
                - old(self)@.edges.filter(entry_touching::<V>(id)).len(),
            r is Ok ==> final(self)@.vertices.len() == old(self)@.vertices.len() - 1,
            r is Ok ==> forall|x: usize| #[trigger]
                final(self)@.has_vertex(x) <==> old(self)@.has_vertex(x) && x != id,
            r is Ok ==> forall|a: usize, b: usize| #[trigger]
                final(self)@.has_edge(a, b) <==> old(self)@.has_edge(a, b) && a != id && b != id,
            r is Err ==> *final(self) == *old(self),
            final(self)@.wf(),
    {
        proof {
            use_type_invariant(&*self);
            crate::laws::lemma_cascading_delete(self@, id);
            self@.lemma_remove_vertex_members(id);
        }
        let pos = match self.vertex_position(id) {
            Some(i) => i,
            None => {
                return Err(GraphError::VertexNotFound);
            },
        };
        let (mut vs, es) = self.take_parts();
        let ghost before = vs@;
        let ghost edges_before = es@;
        vs.remove(pos);
        let ghost rest = vs@;
        let mut i: usize = 0;
        while i < vs.len()
            invariant
                0 <= i <= vs.len(),
                vs@.len() == rest.len(),
                forall|j: int|
                    0 <= j < i ==> (#[trigger] vs@[j])@ == (VertexView {
                        edges: rest[j]@.edges.filter(avoiding(id)),
                        ..rest[j]@
                    }),
                forall|j: int| i <= j < vs.len() ==> vs@[j] == rest[j],
            decreases vs.len() - i,
        {
            vs[i].remove_edges_for_vertex(id);
            i += 1;
        }
        let mut kept: Vec<OrientedEdge<V>> = Vec::new();
        for e in it: es
            invariant
                it.seq() == edges_before,
                forall|j: int|
                    0 <= j < edges_before.len() ==> (#[trigger] edges_before[j])@.start is Some
                        && edges_before[j]@.end is Some,
                forall|j: int|
                    0 <= j < kept.len() ==> (#[trigger] kept@[j])@.start is Some
                        && kept@[j]@.end is Some,
                kept@.map_values(edge_entry::<V>()) == edges_before.take(
                    it.index() as int,
                ).map_values(edge_entry::<V>()).filter(entry_avoiding::<V>(id)),
        {
            proof {
                let k = it.index() as int;
                let prefix = edges_before.take(k);
                assert(edges_before.take(k + 1) =~= prefix.push(e));
                assert(prefix.push(e).map_values(edge_entry::<V>()) =~= prefix.map_values(
                    edge_entry::<V>(),
                ).push(edge_entry::<V>()(e)));
                prefix.map_values(edge_entry::<V>()).lemma_filter_push(
                    edge_entry::<V>()(e),
                    entry_avoiding::<V>(id),
                );
                assert(e == edges_before[k]);
            }
            let keep = match e.handle() {
                Some(h) => h.start != id && h.end != id,
                None => true,
            };
            if keep {
                proof {
                    assert(kept@.push(e).map_values(edge_entry::<V>()) =~= kept@.map_values(
                        edge_entry::<V>(),
                    ).push(edge_entry::<V>()(e)));
                }
                kept.push(e);
            }
        }
        proof {
            assert(edges_before.take(edges_before.len() as int) =~= edges_before);
            assert(rest == before.remove(pos as int));
            lemma_drop_vertex(before, edges_before, vs@, kept@, pos as int, id);
        }
        *self = OrientedGraph { vertexes: vs, edges: kept };
        Ok(())
    }
}

} // verus!
