//! Writing a graph as text and reading the text again gives the graph back.

use vstd::prelude::*;
use crate::codec::{
    edge_line, hash_line, parse_edge, parse_graph, parse_vertex, read_lines, render, text_lines,
    vertex_line,
};
use crate::error::{EdgeParseError, GraphParseError, VertexParseError};
use crate::model::{EdgeEntry, GraphView, VertexEntry};
use crate::text::{
    all_digits, decimal, is_digit, join, lemma_decimal, lemma_decimal_parses, lemma_first_such_is,
    lines, newline, space, split_once, strip_cr, whitespace,
};

verus! {

/// `s` holds no line feed.
pub open spec fn one_line(s: Seq<char>) -> bool {
    forall|i: int| 0 <= i < s.len() ==> #[trigger] s[i] != '\n'
}

/// `s` does not end in a carriage return.
pub open spec fn no_cr_at_end(s: Seq<char>) -> bool {
    s.len() > 0 ==> s.last() != '\r'
}

/// What an edge payload is written as: itself, or nothing where the edge
/// has none.
pub open spec fn written(value: Option<Seq<char>>) -> Seq<char> {
    match value {
        Some(v) => v,
        None => Seq::empty(),
    }
}

/// The payloads of `g` stay whole when written as lines: none holds a line
/// feed, and none but that of the last edge ends in a carriage return.
pub open spec fn lines_safe(g: GraphView<Seq<char>, Seq<char>>) -> bool {
    &&& forall|i: int|
        0 <= i < g.vertices.len() ==> one_line((#[trigger] g.vertices[i]).value) && no_cr_at_end(
            g.vertices[i].value,
        )
    &&& forall|i: int| 0 <= i < g.edges.len() ==> one_line(written((#[trigger] g.edges[i]).value))
    &&& forall|i: int|
        0 <= i < g.edges.len() - 1 ==> no_cr_at_end(written((#[trigger] g.edges[i]).value))
}

/// The payloads of `g` survive being written and read: they are
/// [`lines_safe`], and every edge has one.
pub open spec fn text_safe(g: GraphView<Seq<char>, Seq<char>>) -> bool {
    &&& lines_safe(g)
    &&& forall|i: int| 0 <= i < g.edges.len() ==> (#[trigger] g.edges[i]).value is Some
}

/// An edge entry with the empty payload in place of none.
pub open spec fn fill() -> spec_fn(EdgeEntry<Seq<char>>) -> EdgeEntry<Seq<char>> {
    |e: EdgeEntry<Seq<char>>| EdgeEntry { value: Some(written(e.value)), ..e }
}

/// `g` with the empty payload on every edge that has none: what a reader
/// of the text of `g` sees.
pub open spec fn filled(g: GraphView<Seq<char>, Seq<char>>) -> GraphView<Seq<char>, Seq<char>> {
    GraphView { edges: g.edges.map_values(fill()), ..g }
}

/// Joined lines begin with the first line; a line feed and the other
/// lines, joined, follow.
pub proof fn lemma_join_front(ls: Seq<Seq<char>>)
    requires
        ls.len() >= 2,
    ensures
        join(ls) == ls[0] + seq!['\n'] + join(ls.drop_first()),
    decreases ls.len(),
{
    let init = ls.drop_last();
    let tail = ls.drop_first();
    if ls.len() == 2 {
        assert(init.len() == 1 && tail.len() == 1);
        assert(join(init) == ls[0]);
        assert(join(tail) == ls[1]);
    } else {
        lemma_join_front(init);
        assert(init.drop_first() =~= tail.drop_last());
        assert(init[0] == ls[0]);
        assert(tail.last() == ls.last());
        assert(join(ls) =~= ls[0] + seq!['\n'] + join(tail));
    }
}

/// Lines that hold no line feed come back from their joined text, given
/// that the last is not empty and none before it ends in a carriage
/// return.
pub proof fn lemma_lines_of_join(ls: Seq<Seq<char>>)
    requires
        ls.len() > 0,
        forall|i: int| 0 <= i < ls.len() ==> one_line(#[trigger] ls[i]),
        forall|i: int| 0 <= i < ls.len() - 1 ==> no_cr_at_end(#[trigger] ls[i]),
        ls.last().len() > 0,
    ensures
        lines(join(ls)) == ls,
    decreases ls.len(),
{
    let first = ls[0];
    if ls.len() == 1 {
        assert(join(ls) == first);
        lemma_first_such_is(first, newline(), first.len() as int);
        assert(lines(first) =~= ls);
    } else {
        let tail = ls.drop_first();
        lemma_join_front(ls);
        let text = join(ls);
        let k = first.len() as int;
        assert(text[k] == '\n');
        assert forall|j: int| 0 <= j < k implies !newline()(#[trigger] text[j]) by {
            assert(text[j] == first[j]);
        }
        lemma_first_such_is(text, newline(), k);
        assert(text.take(k) =~= first);
        assert(text.skip(k + 1) =~= join(tail));
        assert(no_cr_at_end(ls[0]));
        assert(strip_cr(first) == first);
        assert forall|i: int| 0 <= i < tail.len() implies one_line(#[trigger] tail[i]) by {
            assert(tail[i] == ls[i + 1]);
        }
        assert forall|i: int| 0 <= i < tail.len() - 1 implies no_cr_at_end(#[trigger] tail[i]) by {
            assert(tail[i] == ls[i + 1]);
        }
        assert(tail.last() == ls.last());
        lemma_lines_of_join(tail);
        assert(lines(text) =~= ls);
    }
}

/// Digits, a space and any text split into the digits and the text.
pub proof fn lemma_split_after_digits(digits: Seq<char>, tail: Seq<char>)
    requires
        all_digits(digits),
    ensures
        split_once(digits + seq![' '] + tail) == Some((digits, tail)),
{
    let s = digits + seq![' '] + tail;
    let k = digits.len() as int;
    assert(s[k] == ' ');
    assert(whitespace(' '));
    assert forall|j: int| 0 <= j < k implies !space()(#[trigger] s[j]) by {
        assert(s[j] == digits[j]);
        assert(is_digit(digits[j]));
    }
    lemma_first_such_is(s, space(), k);
    assert(s.take(k) =~= digits);
    assert(s.skip(k + 1) =~= tail);
}

/// The line of a vertex reads as that vertex.
pub proof fn lemma_vertex_line_parses(v: VertexEntry<Seq<char>>)
    ensures
        parse_vertex(vertex_line(v)) == Ok::<(usize, Seq<char>), VertexParseError>(
            (v.id, v.value),
        ),
        vertex_line(v) != hash_line(),
        vertex_line(v).len() > 0,
        one_line(v.value) ==> one_line(vertex_line(v)),
        no_cr_at_end(v.value) ==> no_cr_at_end(vertex_line(v)),
{
    let d = decimal(v.id as nat);
    let line = vertex_line(v);
    lemma_decimal(v.id as nat);
    lemma_decimal_parses(v.id);
    assert(line =~= d + seq![' '] + v.value);
    lemma_split_after_digits(d, v.value);
    assert(line[0] == d[0]);
    assert(is_digit(d[0]));
    assert(hash_line()[0] == '#');
    if one_line(v.value) {
        assert forall|i: int| 0 <= i < line.len() implies #[trigger] line[i] != '\n' by {
            if i < d.len() {
                assert(line[i] == d[i]);
                assert(is_digit(d[i]));
            } else if i > d.len() {
                assert(line[i] == v.value[i - d.len() - 1]);
            }
        }
    }
    if v.value.len() > 0 {
        assert(line.last() == v.value.last());
    } else {
        assert(line.last() == ' ');
    }
}

/// The line of an edge with a payload reads as that edge, given that the
/// ids of both endpoints are known.
pub proof fn lemma_edge_line_parses(e: EdgeEntry<Seq<char>>, ids: Seq<usize>)
    requires
        e.value is Some,
        ids.contains(e.start),
        ids.contains(e.end),
    ensures
        parse_edge(edge_line(e), ids) == Ok::<(usize, usize, Seq<char>), EdgeParseError>(
            (e.start, e.end, e.value.unwrap()),
        ),
        edge_line(e) != hash_line(),
        edge_line(e).len() > 0,
        one_line(written(e.value)) ==> one_line(edge_line(e)),
        no_cr_at_end(written(e.value)) ==> no_cr_at_end(edge_line(e)),
{
    let a = decimal(e.start as nat);
    let b = decimal(e.end as nat);
    let v = e.value.unwrap();
    let line = edge_line(e);
    let rest = b + seq![' '] + v;
    lemma_decimal(e.start as nat);
    lemma_decimal(e.end as nat);
    lemma_decimal_parses(e.start);
    lemma_decimal_parses(e.end);
    assert(line =~= a + seq![' '] + rest);
    lemma_split_after_digits(a, rest);
    lemma_split_after_digits(b, v);
    assert(line[0] == a[0]);
    assert(is_digit(a[0]));
    assert(hash_line()[0] == '#');
    if one_line(v) {
        assert forall|i: int| 0 <= i < line.len() implies #[trigger] line[i] != '\n' by {
            if i < a.len() {
                assert(line[i] == a[i]);
                assert(is_digit(a[i]));
            } else if i > a.len() && i < a.len() + 1 + b.len() {
                assert(line[i] == b[i - a.len() - 1]);
                assert(is_digit(b[i - a.len() - 1]));
            } else if i > a.len() + 1 + b.len() {
                assert(line[i] == v[i - a.len() - b.len() - 2]);
            }
        }
    }
    if v.len() > 0 {
        assert(line.last() == v.last());
    } else {
        assert(line.last() == ' ');
    }
}

/// The graph made of the first `k` vertices of `g` and the first `j` of
/// its edges.
pub open spec fn part_of(g: GraphView<Seq<char>, Seq<char>>, k: int, j: int) -> GraphView<
    Seq<char>,
    Seq<char>,
> {
    GraphView { vertices: g.vertices.take(k), edges: g.edges.take(j) }
}

/// Reading the lines of `g` from its vertex `k` on, with the vertices
/// before it already read, gives `g`.
proof fn lemma_read_vertices(g: GraphView<Seq<char>, Seq<char>>, k: int)
    requires
        g.wf(),
        text_safe(g),
        0 <= k <= g.vertices.len(),
    ensures
        read_lines(text_lines(g).skip(k), part_of(g, k, 0), false) == Ok::<
            GraphView<Seq<char>, Seq<char>>,
            GraphParseError,
        >(g),
    decreases g.vertices.len() - k,
{
    let all = text_lines(g);
    let n = g.vertices.len() as int;
    let ls = all.skip(k);
    let now = part_of(g, k, 0);
    assert(all.len() == n + 1 + g.edges.len());
    if k < n {
        let v = g.vertices[k];
        assert(ls[0] == vertex_line(v));
        lemma_vertex_line_parses(v);
        assert(!now.has_vertex(v.id)) by {
            if now.has_vertex(v.id) {
                let i = choose|i: int| 0 <= i < now.ids().len() && now.ids()[i] == v.id;
                assert(g.ids()[i] == v.id);
                assert(g.ids()[k] == v.id);
            }
        }
        assert(now.add_vertex(v.id, v.value) =~= part_of(g, k + 1, 0)) by {
            assert(g.vertices.take(k).push(v) =~= g.vertices.take(k + 1));
        }
        assert(ls.drop_first() =~= all.skip(k + 1));
        lemma_read_vertices(g, k + 1);
    } else {
        assert(ls[0] == hash_line());
        assert(ls.drop_first() =~= all.skip(n + 1));
        assert(g.vertices.take(n) =~= g.vertices);
        lemma_read_edges(g, 0);
    }
}

/// Reading the lines of `g` from its edge `j` on, with all vertices and
/// the edges before it already read, gives `g`.
proof fn lemma_read_edges(g: GraphView<Seq<char>, Seq<char>>, j: int)
    requires
        g.wf(),
        text_safe(g),
        0 <= j <= g.edges.len(),
    ensures
        read_lines(
            text_lines(g).skip(g.vertices.len() + 1 + j),
            part_of(g, g.vertices.len() as int, j),
            true,
        ) == Ok::<GraphView<Seq<char>, Seq<char>>, GraphParseError>(g),
    decreases g.edges.len() - j,
{
    let all = text_lines(g);
    let n = g.vertices.len() as int;
    let m = g.edges.len() as int;
    let ls = all.skip(n + 1 + j);
    let now = part_of(g, n, j);
    assert(all.len() == n + 1 + m);
    assert(g.vertices.take(n) =~= g.vertices);
    if j < m {
        let e = g.edges[j];
        assert(ls[0] == edge_line(e));
        assert(now.ids() =~= g.ids());
        assert(g.has_vertex(e.start) && g.has_vertex(e.end));
        lemma_edge_line_parses(e, now.ids());
        assert(!now.has_edge(e.start, e.end)) by {
            if now.has_edge(e.start, e.end) {
                let i = choose|i: int| 0 <= i < now.keys().len() && now.keys()[i] == e.key();
                assert(g.keys()[i] == e.key());
                assert(g.keys()[j] == e.key());
            }
        }
        assert(now.add_edge(e.start, e.end, Some(e.value.unwrap())) =~= part_of(g, n, j + 1)) by {
            assert(g.edges.take(j).push(e) =~= g.edges.take(j + 1));
        }
        assert(ls.drop_first() =~= all.skip(n + 1 + j + 1));
        lemma_read_edges(g, j + 1);
    } else {
        assert(ls =~= Seq::<Seq<char>>::empty());
        assert(g.edges.take(m) =~= g.edges);
        assert(now =~= g);
    }
}

/// Reading what was written gives the graph back: the same vertices with
/// the same ids and payloads, the same edges with the same endpoints and
/// payloads, each in the same order. This holds of every well-formed graph
/// whose payloads are [`text_safe`].
pub proof fn lemma_round_trip(g: GraphView<Seq<char>, Seq<char>>)
    requires
        g.wf(),
        text_safe(g),
    ensures
        parse_graph(render(g)) == Ok::<GraphView<Seq<char>, Seq<char>>, GraphParseError>(g),
{
    let all = text_lines(g);
    let n = g.vertices.len() as int;
    let m = g.edges.len() as int;
    assert(all.len() == n + 1 + m);
    assert forall|i: int| 0 <= i < all.len() implies one_line(#[trigger] all[i]) by {
        if i < n {
            assert(all[i] == vertex_line(g.vertices[i]));
            lemma_vertex_line_parses(g.vertices[i]);
        } else if i == n {
            assert(all[i] == hash_line());
        } else {
            let e = g.edges[i - n - 1];
            assert(all[i] == edge_line(e));
            assert(g.has_vertex(e.start) && g.has_vertex(e.end));
            lemma_edge_line_parses(e, g.ids());
        }
    }
    assert forall|i: int| 0 <= i < all.len() - 1 implies no_cr_at_end(#[trigger] all[i]) by {
        if i < n {
            assert(all[i] == vertex_line(g.vertices[i]));
            lemma_vertex_line_parses(g.vertices[i]);
        } else if i == n {
            assert(all[i] == hash_line());
        } else {
            let e = g.edges[i - n - 1];
            assert(all[i] == edge_line(e));
            assert(g.has_vertex(e.start) && g.has_vertex(e.end));
            lemma_edge_line_parses(e, g.ids());
        }
    }
    assert(all.last().len() > 0) by {
        if m == 0 {
            assert(all.last() == hash_line());
        } else {
            let e = g.edges[m - 1];
            assert(all.last() == edge_line(e));
            assert(g.has_vertex(e.start) && g.has_vertex(e.end));
            lemma_edge_line_parses(e, g.ids());
        }
    }
    lemma_lines_of_join(all);
    assert(all.skip(0) =~= all);
    assert(g.vertices.take(0) =~= Seq::empty());
    assert(g.edges.take(0) =~= Seq::empty());
    assert(part_of(g, 0, 0) == GraphView::<Seq<char>, Seq<char>>::empty());
    lemma_read_vertices(g, 0);
}

/// The text of a graph reads as that graph with the empty payload on the
/// edges that had none, and writing what was read gives the same text
/// again. This holds of every well-formed graph whose payloads are
/// [`lines_safe`].
pub proof fn lemma_written_text_is_stable(g: GraphView<Seq<char>, Seq<char>>)
    requires
        g.wf(),
        lines_safe(g),
    ensures
        parse_graph(render(g)) == Ok::<GraphView<Seq<char>, Seq<char>>, GraphParseError>(
            filled(g),
        ),
        render(filled(g)) == render(g),
{
    let f = filled(g);
    assert(f.ids() =~= g.ids());
    assert(f.keys() =~= g.keys());
    assert forall|i: int| 0 <= i < f.edges.len() implies f.has_vertex((#[trigger] f.edges[i]).start)
        && f.has_vertex(f.edges[i].end) by {
        assert(f.edges[i].start == g.edges[i].start);
        assert(f.edges[i].end == g.edges[i].end);
    }
    assert forall|i: int| 0 <= i < f.edges.len() implies one_line(
        written((#[trigger] f.edges[i]).value),
    ) by {
        assert(written(f.edges[i].value) == written(g.edges[i].value));
    }
    assert forall|i: int| 0 <= i < f.edges.len() - 1 implies no_cr_at_end(
        written((#[trigger] f.edges[i]).value),
    ) by {
        assert(written(f.edges[i].value) == written(g.edges[i].value));
    }
    assert(text_lines(f) =~= text_lines(g)) by {
        assert forall|i: int| 0 <= i < g.edges.len() implies edge_line(f.edges[i]) == edge_line(
            g.edges[i],
        ) by {}
    }
    lemma_round_trip(f);
}

} // verus!
