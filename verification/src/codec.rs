//! The text form of a graph: one line per vertex, a line `#`, one line per
//! edge.

use vstd::prelude::*;
use crate::edge::OrientedEdge;
use crate::error::{EdgeParseError, GraphParseError, SerializationError, VertexParseError};
use crate::graph::OrientedGraph;
use crate::model::{EdgeEntry, GraphView, VertexEntry};
use crate::text::{
    block, chars_of, decimal, join, lemma_join_push, lines, next_line, parse_number, parse_usize,
    push_decimal, split_at_space, split_once, string_of,
};
use crate::vertex::Vertex;

verus! {

/// The line that parts the vertex lines from the edge lines.
pub open spec fn hash_line() -> Seq<char> {
    seq!['#']
}

/// A vertex entry with its payload as text.
pub open spec fn vertex_as_text() -> spec_fn(VertexEntry<String>) -> VertexEntry<Seq<char>> {
    |v: VertexEntry<String>| VertexEntry { id: v.id, value: v.value@ }
}

/// An edge entry with its payload as text.
pub open spec fn edge_as_text() -> spec_fn(EdgeEntry<String>) -> EdgeEntry<Seq<char>> {
    |e: EdgeEntry<String>|
        EdgeEntry {
            start: e.start,
            end: e.end,
            value: match e.value {
                Some(s) => Some(s@),
                None => None,
            },
        }
}

/// A graph of strings as a graph of character sequences.
pub open spec fn as_text(m: GraphView<String, String>) -> GraphView<Seq<char>, Seq<char>> {
    GraphView {
        vertices: m.vertices.map_values(vertex_as_text()),
        edges: m.edges.map_values(edge_as_text()),
    }
}

/// The line that stands for a vertex: its id, a space, its payload.
pub open spec fn vertex_line(v: VertexEntry<Seq<char>>) -> Seq<char> {
    decimal(v.id as nat) + seq![' '] + v.value
}

/// The line that stands for an edge: the id of its start, a space, the
/// id of its end, a space, its payload, or nothing where it has none.
pub open spec fn edge_line(e: EdgeEntry<Seq<char>>) -> Seq<char> {
    decimal(e.start as nat) + seq![' '] + decimal(e.end as nat) + seq![' '] + match e.value {
        Some(v) => v,
        None => Seq::empty(),
    }
}

/// Maps a vertex entry to its line.
pub open spec fn to_vertex_line() -> spec_fn(VertexEntry<Seq<char>>) -> Seq<char> {
    |v: VertexEntry<Seq<char>>| vertex_line(v)
}

/// Maps an edge entry to its line.
pub open spec fn to_edge_line() -> spec_fn(EdgeEntry<Seq<char>>) -> Seq<char> {
    |e: EdgeEntry<Seq<char>>| edge_line(e)
}

/// The lines of a graph: the vertex lines, the line `#`, the edge lines.
pub open spec fn text_lines(g: GraphView<Seq<char>, Seq<char>>) -> Seq<Seq<char>> {
    g.vertices.map_values(to_vertex_line()).push(hash_line()) + g.edges.map_values(to_edge_line())
}

/// The text of a graph: its lines with a line feed between each two.
pub open spec fn render(g: GraphView<Seq<char>, Seq<char>>) -> Seq<char> {
    join(text_lines(g))
}

/// What a vertex line says: an id and a payload.
pub open spec fn parse_vertex(line: Seq<char>) -> Result<(usize, Seq<char>), VertexParseError> {
    match split_once(line) {
        None => Err(VertexParseError::VertexParsingError),
        Some((id, value)) => match parse_number(id) {
            None => Err(VertexParseError::VertexIndexParsingError),
            Some(n) => Ok((n, value)),
        },
    }
}

/// What an edge line says, given the ids of the vertices known so far: the
/// ids of two of them, and a payload.
pub open spec fn parse_edge(line: Seq<char>, ids: Seq<usize>) -> Result<
    (usize, usize, Seq<char>),
    EdgeParseError,
> {
    match split_once(line) {
        None => Err(EdgeParseError::EdgeParsingError),
        Some((start, rest)) => match parse_number(start) {
            None => Err(EdgeParseError::EdgeStartParsingError),
            Some(a) => if !ids.contains(a) {
                Err(EdgeParseError::VertexForEdgeIndexNotFound)
            } else {
                match split_once(rest) {
                    None => Err(EdgeParseError::EdgeParsingError),
                    Some((end, value)) => match parse_number(end) {
                        None => Err(EdgeParseError::EdgeEndParsingError),
                        Some(b) => if !ids.contains(b) {
                            Err(EdgeParseError::VertexForEdgeIndexNotFound)
                        } else {
                            Ok((a, b, value))
                        },
                    },
                }
            },
        },
    }
}

/// The failure of a graph text that a failed vertex line stands for.
pub open spec fn vertex_failure(e: VertexParseError) -> GraphParseError {
    match e {
        VertexParseError::VertexParsingError => GraphParseError::VertexParsingError,
        VertexParseError::VertexIndexParsingError => GraphParseError::VertexIndexParsingError,
        VertexParseError::VertexValueParsingError => GraphParseError::VertexValueParsingError,
    }
}

/// The failure of a graph text that a failed edge line stands for.
pub open spec fn edge_failure(e: EdgeParseError) -> GraphParseError {
    match e {
        EdgeParseError::EdgeParsingError => GraphParseError::EdgeParsingError,
        EdgeParseError::EdgeStartParsingError => GraphParseError::EdgeStartParsingError,
        EdgeParseError::EdgeEndParsingError => GraphParseError::EdgeEndParsingError,
        EdgeParseError::VertexForEdgeIndexNotFound => GraphParseError::VertexForEdgeIndexNotFound,
        EdgeParseError::EdgeValueParsingError => GraphParseError::EdgeParsingError,
    }
}

/// The graph that `g` becomes when the lines `ls` are read one after the
/// other. Before the first line `#` a line gives a vertex, after it an
/// edge; a line `#` itself gives nothing. The first line that cannot be
/// read, or that repeats a vertex id or an ordered pair, fails the whole.
pub open spec fn read_lines(
    ls: Seq<Seq<char>>,
    g: GraphView<Seq<char>, Seq<char>>,
    edges: bool,
) -> Result<GraphView<Seq<char>, Seq<char>>, GraphParseError>
    decreases ls.len(),
{
    if ls.len() == 0 {
        Ok(g)
    } else if ls[0] == hash_line() {
        read_lines(ls.drop_first(), g, true)
    } else if edges {
        match parse_edge(ls[0], g.ids()) {
            Err(e) => Err(edge_failure(e)),
            Ok((a, b, v)) => if g.has_edge(a, b) {
                Err(GraphParseError::EdgeParsingError)
            } else {
                read_lines(ls.drop_first(), g.add_edge(a, b, Some(v)), true)
            },
        }
    } else {
        match parse_vertex(ls[0]) {
            Err(e) => Err(vertex_failure(e)),
            Ok((id, v)) => if g.has_vertex(id) {
                Err(GraphParseError::VertexParsingError)
            } else {
                read_lines(ls.drop_first(), g.add_vertex(id, v), false)
            },
        }
    }
}

/// The graph that a text stands for, or why it stands for none.
pub open spec fn parse_graph(text: Seq<char>) -> Result<
    GraphView<Seq<char>, Seq<char>>,
    GraphParseError,
> {
    read_lines(lines(text), GraphView::empty(), false)
}

/// Ids and ordered pairs do not depend on how the payloads are written.
pub proof fn lemma_as_text(m: GraphView<String, String>)
    ensures
        as_text(m).ids() == m.ids(),
        as_text(m).keys() == m.keys(),
{
    assert(as_text(m).ids() =~= m.ids());
    assert(as_text(m).keys() =~= m.keys());
}

/// Whether a failed vertex line fails the text in the same way.
fn lift_vertex_failure(e: VertexParseError) -> (r: GraphParseError)
    ensures
        r == vertex_failure(e),
{
    match e {
        VertexParseError::VertexParsingError => GraphParseError::VertexParsingError,
        VertexParseError::VertexIndexParsingError => GraphParseError::VertexIndexParsingError,
        VertexParseError::VertexValueParsingError => GraphParseError::VertexValueParsingError,
    }
}

/// Whether a failed edge line fails the text in the same way.
fn lift_edge_failure(e: EdgeParseError) -> (r: GraphParseError)
    ensures
        r == edge_failure(e),
{
    match e {
        EdgeParseError::EdgeParsingError => GraphParseError::EdgeParsingError,
        EdgeParseError::EdgeStartParsingError => GraphParseError::EdgeStartParsingError,
        EdgeParseError::EdgeEndParsingError => GraphParseError::EdgeEndParsingError,
        EdgeParseError::VertexForEdgeIndexNotFound => GraphParseError::VertexForEdgeIndexNotFound,
        EdgeParseError::EdgeValueParsingError => GraphParseError::EdgeParsingError,
    }
}

/// The ids of a list of vertices.
pub open spec fn listed_ids(vs: Seq<Vertex<String>>) -> Seq<usize> {
    vs.map_values(|v: Vertex<String>| v@.id)
}

/// Whether one of `vertexes` has the id `id`.
fn knows(vertexes: &Vec<Vertex<String>>, id: usize) -> (r: bool)
    ensures
        r == listed_ids(vertexes@).contains(id),
{
    let mut i: usize = 0;
    while i < vertexes.len()
        invariant
            0 <= i <= vertexes.len(),
            forall|j: int| 0 <= j < i ==> listed_ids(vertexes@)[j] != id,
        decreases vertexes.len() - i,
    {
        if vertexes[i].id() == id {
            assert(listed_ids(vertexes@)[i as int] == id);
            return true;
        }
        i += 1;
    }
    false
}

/// Reads one vertex line.
fn read_vertex(line: &[char]) -> (r: Result<Vertex<String>, VertexParseError>)
    ensures
        match r {
            Ok(v) => parse_vertex(line@) == Ok::<(usize, Seq<char>), VertexParseError>(
                (v@.id, v@.value@),
            ) && v@.edges.len() == 0,
            Err(e) => parse_vertex(line@) == Err::<(usize, Seq<char>), VertexParseError>(e),
        },
{
    match split_at_space(line) {
        None => Err(VertexParseError::VertexParsingError),
        Some((id, value)) => match parse_usize(id) {
            None => Err(VertexParseError::VertexIndexParsingError),
            Some(n) => Ok(Vertex::new(n, string_of(value))),
        },
    }
}

/// Reads one edge line against the vertices known so far.
fn read_edge(line: &[char], vertexes: &Vec<Vertex<String>>) -> (r: Result<
    OrientedEdge<String>,
    EdgeParseError,
>)
    ensures
        match r {
            Ok(e) => {
                &&& e@.start is Some
                &&& e@.end is Some
                &&& e@.value is Some
                &&& parse_edge(line@, listed_ids(vertexes@)) == Ok::<
                    (usize, usize, Seq<char>),
                    EdgeParseError,
                >((e@.start.unwrap(), e@.end.unwrap(), e@.value.unwrap()@))
            },
            Err(e) => parse_edge(line@, listed_ids(vertexes@)) == Err::<
                (usize, usize, Seq<char>),
                EdgeParseError,
            >(e),
        },
{
    let (start, rest) = match split_at_space(line) {
        None => {
            return Err(EdgeParseError::EdgeParsingError);
        },
        Some(parts) => parts,
    };
    let a = match parse_usize(start) {
        None => {
            return Err(EdgeParseError::EdgeStartParsingError);
        },
        Some(n) => n,
    };
    if !knows(vertexes, a) {
        return Err(EdgeParseError::VertexForEdgeIndexNotFound);
    }
    let (end, value) = match split_at_space(rest) {
        None => {
            return Err(EdgeParseError::EdgeParsingError);
        },
        Some(parts) => parts,
    };
    let b = match parse_usize(end) {
        None => {
            return Err(EdgeParseError::EdgeEndParsingError);
        },
        Some(n) => n,
    };
    if !knows(vertexes, b) {
        return Err(EdgeParseError::VertexForEdgeIndexNotFound);
    }
    Ok(OrientedEdge::between(a, b, Some(string_of(value))))
}

/// Appends the line of a vertex to `out`.
fn write_vertex(out: &mut Vec<char>, vertex: &Vertex<String>)
    ensures
        final(out)@ == old(out)@ + vertex_line(
            VertexEntry { id: vertex@.id, value: vertex@.value@ },
        ),
{
    push_decimal(out, vertex.id());
    out.push(' ');
    let value = chars_of(vertex.value().as_str());
    let mut i: usize = 0;
    let ghost before = out@;
    while i < value.len()
        invariant
            0 <= i <= value.len(),
            out@ == before + value@.take(i as int),
        decreases value.len() - i,
    {
        out.push(value[i]);
        proof {
            assert(value@.take(i + 1) =~= value@.take(i as int).push(value@[i as int]));
        }
        i += 1;
    }
    proof {
        assert(value@.take(i as int) =~= value@);
        assert(out@ =~= old(out)@ + vertex_line(
            VertexEntry { id: vertex@.id, value: vertex@.value@ },
        ));
    }
}

/// Appends the line of an edge with the given endpoints to `out`.
fn write_edge(out: &mut Vec<char>, start: usize, end: usize, payload: Option<&String>)
    ensures
        final(out)@ == old(out)@ + edge_line(
            EdgeEntry {
                start,
                end,
                value: match payload {
                    Some(s) => Some(s@),
                    None => None,
                },
            },
        ),
{
    push_decimal(out, start);
    out.push(' ');
    push_decimal(out, end);
    out.push(' ');
    let ghost before = out@;
    let value = match payload {
        Some(s) => chars_of(s.as_str()),
        None => Vec::new(),
    };
    let mut i: usize = 0;
    while i < value.len()
        invariant
            0 <= i <= value.len(),
            out@ == before + value@.take(i as int),
        decreases value.len() - i,
    {
        out.push(value[i]);
        proof {
            assert(value@.take(i + 1) =~= value@.take(i as int).push(value@[i as int]));
        }
        i += 1;
    }
    proof {
        assert(value@.take(i as int) =~= value@);
        let e = EdgeEntry {
            start,
            end,
            value: match payload {
                Some(s) => Some(s@),
                None => None,
            },
        };
        assert(out@ =~= old(out)@ + edge_line(e));
    }
}

impl OrientedGraph<String, String> {
    /// Reads one vertex line: an id, one whitespace character, a payload.
    pub fn deserialize_vertex(vertex: &str) -> (r: Result<Vertex<String>, VertexParseError>)
        ensures
            match r {
                Ok(v) => parse_vertex(vertex@) == Ok::<(usize, Seq<char>), VertexParseError>(
                    (v@.id, v@.value@),
                ) && v@.edges.len() == 0,
                Err(e) => parse_vertex(vertex@) == Err::<(usize, Seq<char>), VertexParseError>(e),
            },
    {
        let line = chars_of(vertex);
        read_vertex(line.as_slice())
    }

    /// Reads one edge line: the id of the start, one whitespace character,
    /// the id of the end, one whitespace character, a payload. Both ids
    /// must belong to one of `vertexes`.
    pub fn deserialize_edge(edge: &str, vertexes: &Vec<Vertex<String>>) -> (r: Result<
        OrientedEdge<String>,
        EdgeParseError,
    >)
        ensures
            match r {
                Ok(e) => {
                    &&& e@.start is Some
                    &&& e@.end is Some
                    &&& e@.value is Some
                    &&& parse_edge(edge@, listed_ids(vertexes@)) == Ok::<
                        (usize, usize, Seq<char>),
                        EdgeParseError,
                    >((e@.start.unwrap(), e@.end.unwrap(), e@.value.unwrap()@))
                },
                Err(e) => parse_edge(edge@, listed_ids(vertexes@)) == Err::<
                    (usize, usize, Seq<char>),
                    EdgeParseError,
                >(e),
            },
    {
        let line = chars_of(edge);
        read_edge(line.as_slice(), vertexes)
    }

    /// Reads a graph from its text. Nothing is returned of a text that
    /// fails at some line.
    pub fn deserialize(graph: &str) -> (r: Result<Self, GraphParseError>)
        ensures
            match r {
                Ok(g) => parse_graph(graph@) == Ok::<
                    GraphView<Seq<char>, Seq<char>>,
                    GraphParseError,
                >(as_text(g@)) && g@.wf(),
                Err(e) => parse_graph(graph@) == Err::<
                    GraphView<Seq<char>, Seq<char>>,
                    GraphParseError,
                >(e),
            },
    {
        let text = chars_of(graph);
        let n = text.len();
        let mut g: OrientedGraph<String, String> = OrientedGraph::default();
        let mut edges = false;
        let mut at: usize = 0;
        proof {
            assert(text@.skip(0) =~= text@);
            assert(as_text(g@).vertices =~= Seq::empty());
            assert(as_text(g@).edges =~= Seq::empty());
        }
        while at < n
            invariant
                0 <= at <= n,
                n == text@.len(),
                text@ == graph@,
                read_lines(lines(text@.skip(at as int)), as_text(g@), edges) == parse_graph(
                    graph@,
                ),
                g@.wf(),
            decreases n - at,
        {
            let (line, next) = next_line(text.as_slice(), at);
            let ghost ls = lines(text@.skip(at as int));
            let ghost before = g@;
            proof {
                assert(ls[0] == line@);
                assert(ls.drop_first() =~= lines(text@.skip(next as int)));
                lemma_as_text(before);
            }
            if line.len() == 1 && line[0] == '#' {
                proof {
                    assert(line@ =~= hash_line());
                }
                edges = true;
            } else if edges {
                proof {
                    if line@ == hash_line() {
                        assert(line@.len() == 1 && line@[0] == '#');
                    }
                }
                let known = g.get_vertexes();
                proof {
                    assert(listed_ids(known@) =~= before.ids());
                }
                let edge = match read_edge(line, known) {
                    Ok(e) => e,
                    Err(e) => {
                        return Err(lift_edge_failure(e));
                    },
                };
                let ghost a = edge@.start.unwrap();
                let ghost b = edge@.end.unwrap();
                let ghost v = edge@.value;
                if g.add_edge(edge).is_err() {
                    return Err(GraphParseError::EdgeParsingError);
                }
                proof {
                    assert(as_text(g@).vertices =~= as_text(before).vertices);
                    assert(as_text(g@).edges =~= as_text(before).add_edge(
                        a,
                        b,
                        Some(v.unwrap()@),
                    ).edges);
                }
            } else {
                proof {
                    if line@ == hash_line() {
                        assert(line@.len() == 1 && line@[0] == '#');
                    }
                }
                let vertex = match read_vertex(line) {
                    Ok(v) => v,
                    Err(e) => {
                        return Err(lift_vertex_failure(e));
                    },
                };
                let ghost id = vertex@.id;
                let ghost value = vertex@.value;
                if g.add_vertex(vertex).is_err() {
                    return Err(GraphParseError::VertexParsingError);
                }
                proof {
                    assert(as_text(g@).vertices =~= as_text(before).add_vertex(
                        id,
                        value@,
                    ).vertices);
                    assert(as_text(g@).edges =~= as_text(before).edges);
                }
            }
            at = next;
        }
        proof {
            assert(text@.skip(n as int) =~= Seq::<char>::empty());
        }
        Ok(g)
    }

    /// The line of a vertex: its id, a space, its payload.
    pub fn serialize_vertex(vertex: &Vertex<String>) -> (r: String)
        ensures
            r@ == vertex_line(VertexEntry { id: vertex@.id, value: vertex@.value@ }),
    {
        let mut out: Vec<char> = Vec::new();
        write_vertex(&mut out, vertex);
        string_of(out.as_slice())
    }

    /// The line of an edge: the ids of its start and end and its payload,
    /// with a space after each id. An edge that lacks an endpoint has no
    /// line.
    pub fn serialize_edge(edge: &OrientedEdge<String>) -> (r: Result<String, SerializationError>)
        ensures
            match r {
                Ok(s) => edge@.start is Some && edge@.end is Some && s@ == edge_line(
                    edge_as_text()(
                        EdgeEntry {
                            start: edge@.start.unwrap(),
                            end: edge@.end.unwrap(),
                            value: edge@.value,
                        },
                    ),
                ),
                Err(e) => e == SerializationError::EdgeVertexNotFound && (edge@.start is None
                    || edge@.end is None),
            },
    {
        match edge.handle() {
            Some(h) => {
                let mut out: Vec<char> = Vec::new();
                write_edge(&mut out, h.start, h.end, edge.value());
                Ok(string_of(out.as_slice()))
            },
            None => Err(SerializationError::EdgeVertexNotFound),
        }
    }

    /// The text of the graph: the vertex lines in insertion order, a line
    /// `#`, the edge lines in insertion order, with a line feed between
    /// each two lines. Every edge of a graph has both endpoints, so this
    /// never fails.
    pub fn serialize(&self) -> (r: Result<String, SerializationError>)
        ensures
            r is Ok,
            r.unwrap()@ == render(as_text(self@)),
    {
        let ghost g = as_text(self@);
        let ghost vlines = g.vertices.map_values(to_vertex_line());
        let ghost elines = g.edges.map_values(to_edge_line());
        let mut out: Vec<char> = Vec::new();
        let vs = self.get_vertexes();
        let mut i: usize = 0;
        proof {
            assert(vlines.take(0) =~= Seq::<Seq<char>>::empty());
        }
        while i < vs.len()
            invariant
                0 <= i <= vs.len(),
                vs@.len() == vlines.len(),
                forall|j: int|
                    0 <= j < vs@.len() ==> vlines[j] == vertex_line(
                        VertexEntry { id: (#[trigger] vs@[j])@.id, value: vs@[j]@.value@ },
                    ),
                out@ == block(vlines.take(i as int)),
            decreases vs.len() - i,
        {
            write_vertex(&mut out, &vs[i]);
            out.push('\n');
            proof {
                let done = vlines.take(i + 1);
                assert(done.drop_last() =~= vlines.take(i as int));
                assert(done.last() == vlines[i as int]);
                assert(out@ =~= block(done));
            }
            i += 1;
        }
        out.push('#');
        let ghost head = vlines.push(hash_line());
        proof {
            assert(vlines.take(i as int) =~= vlines);
            lemma_join_push(vlines, hash_line());
            assert(out@ =~= join(head));
            assert(head + elines.take(0) =~= head);
        }
        let es = self.get_edges();
        let mut k: usize = 0;
        while k < es.len()
            invariant
                0 <= k <= es.len(),
                es@.len() == elines.len(),
                head.len() > 0,
                forall|j: int|
                    0 <= j < es@.len() ==> (#[trigger] es@[j])@.start is Some && es@[j]@.end is Some
                        && elines[j] == edge_line(
                        edge_as_text()(
                            EdgeEntry {
                                start: es@[j]@.start.unwrap(),
                                end: es@[j]@.end.unwrap(),
                                value: es@[j]@.value,
                            },
                        ),
                    ),
                out@ == join(head + elines.take(k as int)),
            decreases es.len() - k,
        {
            let e = &es[k];
            match e.handle() {
                Some(h) => {
                    out.push('\n');
                    write_edge(&mut out, h.start, h.end, e.value());
                },
                None => {
                    return Err(SerializationError::EdgeVertexNotFound);
                },
            }
            proof {
                let done = head + elines.take(k + 1);
                assert(done.drop_last() =~= head + elines.take(k as int));
                assert(done.last() == elines[k as int]);
                assert(out@ =~= join(done));
            }
            k += 1;
        }
        proof {
            assert(elines.take(k as int) =~= elines);
            assert(head + elines =~= text_lines(g));
        }
        Ok(string_of(out.as_slice()))
    }
}

} // verus!
