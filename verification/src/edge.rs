//! A directed connection between two vertices, with an optional payload.

use vstd::prelude::*;
use crate::graph::OrientedGraph;
use crate::vertex::{EdgeHandle, Vertex};

verus! {

/// What an edge is, as a mathematical value.
pub struct EdgeView<V> {
    pub start: Option<usize>,
    pub end: Option<usize>,
    pub value: Option<V>,
}

/// A directed edge. It names its endpoints by vertex id and owns neither.
#[derive(Debug)]
pub struct OrientedEdge<V> {
    start: Option<usize>,
    end: Option<usize>,
    value: Option<V>,
}

impl<V> View for OrientedEdge<V> {
    type V = EdgeView<V>;

    closed spec fn view(&self) -> EdgeView<V> {
        EdgeView { start: self.start, end: self.end, value: self.value }
    }
}

impl<V> Default for OrientedEdge<V> {
    /// An edge with no endpoints and no payload.
    fn default() -> (e: Self)
        ensures
            e@ == (EdgeView::<V> { start: None, end: None, value: None }),
    {
        OrientedEdge { start: None, end: None, value: None }
    }
}

impl<V> OrientedEdge<V> {
    /// An edge from `start` to `end` carrying `value`.
    pub fn new<T>(start: &Vertex<T>, end: &Vertex<T>, value: V) -> (e: Self)
        ensures
            e@ == (EdgeView { start: Some(start@.id), end: Some(end@.id), value: Some(value) }),
    {
        OrientedEdge { start: Some(start.id()), end: Some(end.id()), value: Some(value) }
    }

    /// An edge from vertex `start` to vertex `end`, named by their ids.
    pub fn between(start: usize, end: usize, value: Option<V>) -> (e: Self)
        ensures
            e@ == (EdgeView { start: Some(start), end: Some(end), value }),
    {
        OrientedEdge { start: Some(start), end: Some(end), value }
    }

    /// An edge that carries `value` and has no endpoints yet.
    pub fn new_with_value(value: V) -> (e: Self)
        ensures
            e@ == (EdgeView { start: None, end: None, value: Some(value) }),
    {
        OrientedEdge { start: None, end: None, value: Some(value) }
    }

    /// The vertex of `graph` at which this edge starts. `None` tells that
    /// the edge has no start, or one that `graph` does not hold.
    pub fn start<'a, T>(&self, graph: &'a OrientedGraph<T, V>) -> (r: Option<&'a Vertex<T>>)
        ensures
            match r {
                Some(v) => self@.start is Some && graph@.has_vertex(self@.start.unwrap()) && v@
                    == graph@.vertex_view(self@.start.unwrap()),
                None => self@.start is None || !graph@.has_vertex(self@.start.unwrap()),
            },
    {
        match self.start {
            Some(id) => graph.get_vertex_by_id(id),
            None => None,
        }
    }

    /// The vertex of `graph` at which this edge ends. `None` tells that
    /// the edge has no end, or one that `graph` does not hold.
    pub fn end<'a, T>(&self, graph: &'a OrientedGraph<T, V>) -> (r: Option<&'a Vertex<T>>)
        ensures
            match r {
                Some(v) => self@.end is Some && graph@.has_vertex(self@.end.unwrap()) && v@
                    == graph@.vertex_view(self@.end.unwrap()),
                None => self@.end is None || !graph@.has_vertex(self@.end.unwrap()),
            },
    {
        match self.end {
            Some(id) => graph.get_vertex_by_id(id),
            None => None,
        }
    }

    /// The id of the vertex at which this edge starts, once set.
    pub fn start_id(&self) -> (r: Option<usize>)
        ensures
            r == self@.start,
    {
        self.start
    }

    /// The id of the vertex at which this edge ends, once set.
    pub fn end_id(&self) -> (r: Option<usize>)
        ensures
            r == self@.end,
    {
        self.end
    }

    /// The handle that names this edge, once both endpoints are set.
    pub fn handle(&self) -> (r: Option<EdgeHandle>)
        ensures
            r == match (self@.start, self@.end) {
                (Some(a), Some(b)) => Some(EdgeHandle { start: a, end: b }),
                _ => None,
            },
    {
        match (self.start, self.end) {
            (Some(a), Some(b)) => Some(EdgeHandle { start: a, end: b }),
            _ => None,
        }
    }

    /// The payload of the edge, if it has one.
    pub fn value(&self) -> (r: Option<&V>)
        ensures
            match r {
                Some(v) => self@.value == Some(*v),
                None => self@.value is None,
            },
    {
        self.value.as_ref()
    }

    /// The payload of the edge, if it has one, to be changed in place.
    pub fn value_mut(&mut self) -> (r: Option<&mut V>)
        ensures
            match r {
                Some(v) => {
                    &&& old(self)@.value == Some(*v)
                    &&& final(self)@ == (EdgeView { value: Some(*final(v)), ..old(self)@ })
                },
                None => old(self)@.value is None && final(self)@ == old(self)@,
            },
    {
        self.value.as_mut()
    }

    /// Makes `vertex` the start of this edge.
    pub fn set_start<T>(&mut self, vertex: &Vertex<T>)
        ensures
            final(self)@ == (EdgeView { start: Some(vertex@.id), ..old(self)@ }),
    {
        self.start = Some(vertex.id());
    }

    /// Makes `vertex` the end of this edge.
    pub fn set_end<T>(&mut self, vertex: &Vertex<T>)
        ensures
            final(self)@ == (EdgeView { end: Some(vertex@.id), ..old(self)@ }),
    {
        self.end = Some(vertex.id());
    }

    /// Gives up the edge for its payload.
    pub fn into_value(self) -> (r: Option<V>)
        ensures
            r == self@.value,
    {
        self.value
    }
}

} // verus!
