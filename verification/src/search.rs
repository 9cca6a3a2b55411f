//! Depth-first traversal: what it visits, in which order, and why it stops.

use vstd::prelude::*;
use crate::error::GraphError;
use crate::graph::OrientedGraph;
use crate::model::GraphView;
use crate::sequences::lemma_filter_members;
use crate::vertex::{touching, EdgeHandle, Vertex, VertexView};

verus! {

/// `longer` begins with `shorter`.
pub open spec fn extends(longer: Seq<usize>, shorter: Seq<usize>) -> bool {
    &&& shorter.len() <= longer.len()
    &&& forall|i: int| 0 <= i < shorter.len() ==> longer[i] == shorter[i]
}

impl<T, V> GraphView<T, V> {
    /// `p` walks along edges, each from its start to its end.
    pub open spec fn is_path(self, p: Seq<usize>) -> bool {
        &&& p.len() > 0
        &&& forall|i: int| 0 <= i < p.len() - 1 ==> self.has_edge(#[trigger] p[i], p[i + 1])
    }

    /// Some walk along edges leads from `from` to `to`. Every id reaches
    /// itself.
    pub open spec fn reachable(self, from: usize, to: usize) -> bool {
        exists|p: Seq<usize>| self.is_path(p) && p[0] == from && #[trigger] p.last() == to
    }

    /// The visiting order after `id` was visited on top of `seen`: `id`
    /// comes next, then whatever its incident edges lead to. `depth` bounds
    /// the nesting of visits; the number of vertices not yet seen is always
    /// enough.
    pub open spec fn visit(self, id: usize, seen: Seq<usize>, depth: nat) -> Seq<usize>
        decreases depth, 0nat, 0nat,
    {
        if depth == 0 {
            seen.push(id)
        } else {
            self.explore(self.incident(id), seen.push(id), (depth - 1) as nat)
        }
    }

    /// The visiting order after the edges `hs` were followed one by one,
    /// each to its end, visiting that end unless it was seen before.
    pub open spec fn explore(self, hs: Seq<EdgeHandle>, seen: Seq<usize>, depth: nat) -> Seq<
        usize,
    >
        decreases depth, 1nat, hs.len(),
    {
        if hs.len() == 0 {
            seen
        } else {
            let next = if seen.contains(hs[0].end) {
                seen
            } else {
                self.visit(hs[0].end, seen, depth)
            };
            self.explore(hs.drop_first(), next, depth)
        }
    }

    /// The ids in the order in which a depth-first search from `start`
    /// visits them.
    pub open spec fn dfs_order(self, start: usize) -> Seq<usize> {
        self.visit(start, Seq::empty(), self.vertices.len())
    }

    /// `seen` names vertices of the graph, none of them twice.
    pub open spec fn visited_ok(self, seen: Seq<usize>) -> bool {
        &&& seen.no_duplicates()
        &&& forall|i: int| 0 <= i < seen.len() ==> self.has_vertex(#[trigger] seen[i])
    }

    /// Every edge that starts at a vertex of `out` not in `seen` ends in
    /// `out`.
    pub open spec fn closed_beyond(self, seen: Seq<usize>, out: Seq<usize>) -> bool {
        forall|u: usize, w: usize|
            out.contains(u) && !seen.contains(u) && #[trigger] self.has_edge(u, w)
                ==> out.contains(w)
    }

    /// Every vertex of `out` not in `seen` can be reached from `src`.
    pub open spec fn reached_from(self, src: usize, seen: Seq<usize>, out: Seq<usize>) -> bool {
        forall|w: usize|
            #[trigger] out.contains(w) && !seen.contains(w) ==> self.reachable(src, w)
    }
}

/// A sequence that begins with another contains what the other contains.
pub proof fn lemma_extends_contains(longer: Seq<usize>, shorter: Seq<usize>, x: usize)
    requires
        extends(longer, shorter),
        shorter.contains(x),
    ensures
        longer.contains(x),
{
    let i = choose|i: int| 0 <= i < shorter.len() && shorter[i] == x;
    assert(longer[i] == x);
}

/// A list of distinct vertices that misses one vertex is shorter than the
/// vertex list.
pub proof fn lemma_room<T, V>(m: GraphView<T, V>, seen: Seq<usize>, id: usize)
    requires
        m.ids().no_duplicates(),
        m.visited_ok(seen),
        m.has_vertex(id),
        !seen.contains(id),
    ensures
        seen.len() < m.vertices.len(),
{
    let all = m.ids().to_set();
    let some = seen.to_set();
    m.ids().unique_seq_to_set();
    seen.unique_seq_to_set();
    assert(some.subset_of(all.remove(id))) by {
        assert forall|x: usize| some.contains(x) implies all.remove(id).contains(x) by {
            let i = choose|i: int| 0 <= i < seen.len() && seen[i] == x;
            assert(m.has_vertex(seen[i]));
        }
    }
    vstd::set_lib::lemma_len_subset(some, all.remove(id));
}

/// An edge followed by a walk is a walk.
pub proof fn lemma_reach_step<T, V>(m: GraphView<T, V>, a: usize, b: usize, c: usize)
    requires
        m.has_edge(a, b),
        m.reachable(b, c),
    ensures
        m.reachable(a, c),
{
    let p = choose|p: Seq<usize>| m.is_path(p) && p[0] == b && #[trigger] p.last() == c;
    let q = seq![a] + p;
    assert forall|i: int| 0 <= i < q.len() - 1 implies m.has_edge(#[trigger] q[i], q[i + 1]) by {
        if i > 0 {
            assert(q[i] == p[i - 1]);
            assert(q[i + 1] == p[i]);
        }
    }
    assert(q.last() == c);
    assert(m.is_path(q) && q[0] == a && q.last() == c);
}

/// Every id reaches itself.
pub proof fn lemma_reach_self<T, V>(m: GraphView<T, V>, a: usize)
    ensures
        m.reachable(a, a),
{
    let p = seq![a];
    assert(m.is_path(p) && p[0] == a && p.last() == a);
}

/// What one visit adds: the visited vertex first, then only vertices that
/// it reaches, and with them all their successors.
pub proof fn lemma_visit<T, V>(m: GraphView<T, V>, id: usize, seen: Seq<usize>, depth: nat)
    requires
        m.wf(),
        m.visited_ok(seen),
        m.has_vertex(id),
        !seen.contains(id),
        depth >= m.vertices.len() - seen.len(),
    ensures
        m.visited_ok(m.visit(id, seen, depth)),
        extends(m.visit(id, seen, depth), seen.push(id)),
        m.closed_beyond(seen, m.visit(id, seen, depth)),
        m.reached_from(id, seen, m.visit(id, seen, depth)),
    decreases depth, 0nat, 0nat,
{
    lemma_room(m, seen, id);
    let first = seen.push(id);
    let hs = m.incident(id);
    let out = m.visit(id, seen, depth);
    assert(out == m.explore(hs, first, (depth - 1) as nat));
    assert(first.contains(id)) by {
        assert(first[seen.len() as int] == id);
    }
    assert(m.visited_ok(first)) by {
        assert forall|i: int| 0 <= i < first.len() implies m.has_vertex(#[trigger] first[i]) by {
            if i < seen.len() {
                assert(first[i] == seen[i]);
            }
        }
        assert forall|i: int, j: int|
            0 <= i < first.len() && 0 <= j < first.len() && i != j implies first[i] != first[j] by {
            if i < seen.len() && j < seen.len() {
                assert(first[i] == seen[i] && first[j] == seen[j]);
            } else if i < seen.len() {
                assert(seen.contains(first[i]));
            } else {
                assert(seen.contains(first[j]));
            }
        }
    }
    lemma_filter_members(m.keys(), touching(id));
    assert forall|i: int| 0 <= i < hs.len() implies m.keys().contains(#[trigger] hs[i])
        && hs[i].touches(id) by {
        assert(hs.contains(hs[i]));
    }
    lemma_explore(m, id, hs, first, (depth - 1) as nat);
    assert(extends(out, first));
    assert forall|u: usize, w: usize|
        out.contains(u) && !seen.contains(u) && #[trigger] m.has_edge(u, w) implies out.contains(
        w,
    ) by {
        if first.contains(u) {
            let i = choose|i: int| 0 <= i < first.len() && first[i] == u;
            if i < seen.len() {
                assert(seen[i] == u);
            }
            assert(u == id);
            let h = EdgeHandle { start: u, end: w };
            assert(m.keys().contains(h) && touching(id)(h));
            assert(hs.contains(h));
            let k = choose|k: int| 0 <= k < hs.len() && hs[k] == h;
            assert(out.contains(hs[k].end));
        }
    }
    assert forall|w: usize| #[trigger] out.contains(w) && !seen.contains(w) implies m.reachable(
        id,
        w,
    ) by {
        if first.contains(w) {
            let i = choose|i: int| 0 <= i < first.len() && first[i] == w;
            if i < seen.len() {
                assert(seen[i] == w);
            }
            lemma_reach_self(m, id);
        }
    }
}

/// What following a run of edges of `src` adds: only vertices that `src`
/// reaches, with them all their successors, and the end of every edge of
/// the run.
pub proof fn lemma_explore<T, V>(
    m: GraphView<T, V>,
    src: usize,
    hs: Seq<EdgeHandle>,
    seen: Seq<usize>,
    depth: nat,
)
    requires
        m.wf(),
        m.visited_ok(seen),
        seen.contains(src),
        forall|i: int|
            0 <= i < hs.len() ==> m.keys().contains(#[trigger] hs[i]) && hs[i].touches(src),
        depth >= m.vertices.len() - seen.len(),
    ensures
        m.visited_ok(m.explore(hs, seen, depth)),
        extends(m.explore(hs, seen, depth), seen),
        m.closed_beyond(seen, m.explore(hs, seen, depth)),
        m.reached_from(src, seen, m.explore(hs, seen, depth)),
        forall|i: int|
            0 <= i < hs.len() ==> m.explore(hs, seen, depth).contains((#[trigger] hs[i]).end),
    decreases depth, 1nat, hs.len(),
{
    let out = m.explore(hs, seen, depth);
    if hs.len() > 0 {
        let h = hs[0];
        let n = h.end;
        let rest = hs.drop_first();
        assert(m.keys().contains(h) && h.touches(src));
        let k = choose|k: int| 0 <= k < m.keys().len() && m.keys()[k] == h;
        assert(m.edges[k].key() == h);
        assert(m.has_vertex(m.edges[k].start) && m.has_vertex(m.edges[k].end));
        let next = if seen.contains(n) {
            seen
        } else {
            m.visit(n, seen, depth)
        };
        if !seen.contains(n) {
            lemma_visit(m, n, seen, depth);
            assert(n != src);
            assert(m.has_edge(src, n));
            assert(next.contains(n)) by {
                assert(next[seen.len() as int] == seen.push(n)[seen.len() as int]);
            }
            assert(extends(next, seen));
            assert forall|w: usize| #[trigger]
                next.contains(w) && !seen.contains(w) implies m.reachable(src, w) by {
                lemma_reach_step(m, src, n, w);
            }
        }
        assert(next.contains(src)) by {
            lemma_extends_contains(next, seen, src);
        }
        assert forall|i: int| 0 <= i < rest.len() implies m.keys().contains(#[trigger] rest[i])
            && rest[i].touches(src) by {
            assert(rest[i] == hs[i + 1]);
        }
        lemma_explore(m, src, rest, next, depth);
        assert(out == m.explore(rest, next, depth));
        assert(out.contains(n)) by {
            lemma_extends_contains(out, next, n);
        }
        assert forall|i: int| 0 <= i < hs.len() implies out.contains((#[trigger] hs[i]).end) by {
            if i > 0 {
                assert(hs[i] == rest[i - 1]);
            }
        }
        assert forall|u: usize, w: usize|
            out.contains(u) && !seen.contains(u) && #[trigger] m.has_edge(u, w)
                implies out.contains(w) by {
            if next.contains(u) {
                assert(next.contains(w));
                lemma_extends_contains(out, next, w);
            }
        }
        assert forall|w: usize| #[trigger] out.contains(w) && !seen.contains(w) implies m.reachable(
            src,
            w,
        ) by {
            if next.contains(w) {
            }
        }
    }
}

/// A set of vertices that holds the first vertex of a walk, and with each
/// of its vertices all their successors, holds the whole walk.
pub proof fn lemma_closed_holds_walk<T, V>(
    m: GraphView<T, V>,
    out: Seq<usize>,
    p: Seq<usize>,
    i: int,
)
    requires
        m.closed_beyond(Seq::empty(), out),
        m.is_path(p),
        out.contains(p[0]),
        0 <= i < p.len(),
    ensures
        out.contains(p[i]),
    decreases i,
{
    if i > 0 {
        lemma_closed_holds_walk(m, out, p, i - 1);
        assert(m.has_edge(p[i - 1], p[i - 1 + 1]));
    }
}

/// A depth-first search from a vertex of a well-formed graph visits that
/// vertex first, visits no vertex twice, and visits exactly the vertices
/// that can be reached from it, whether or not the graph has cycles.
pub proof fn lemma_dfs_visits_reachable<T, V>(m: GraphView<T, V>, start: usize)
    requires
        m.wf(),
        m.has_vertex(start),
    ensures
        m.dfs_order(start).len() > 0,
        m.dfs_order(start)[0] == start,
        m.dfs_order(start).no_duplicates(),
        forall|id: usize| #[trigger] m.dfs_order(start).contains(id) <==> m.reachable(start, id),
{
    let none = Seq::<usize>::empty();
    let out = m.dfs_order(start);
    lemma_visit(m, start, none, m.vertices.len());
    assert(out[0] == none.push(start)[0]);
    assert forall|id: usize| #[trigger] out.contains(id) <==> m.reachable(start, id) by {
        if m.reachable(start, id) {
            let p = choose|p: Seq<usize>|
                m.is_path(p) && p[0] == start && #[trigger] p.last() == id;
            lemma_closed_holds_walk(m, out, p, p.len() - 1);
        }
    }
}

/// The ids of a run of vertices.
pub open spec fn ids_of<T>(vs: Seq<&Vertex<T>>) -> Seq<usize> {
    vs.map_values(|v: &Vertex<T>| v@.id)
}

/// `marks` flags, position by position, the vertices that `seen` names.
pub open spec fn marks_ok<T, V>(m: GraphView<T, V>, marks: Seq<bool>, seen: Seq<usize>) -> bool {
    &&& marks.len() == m.vertices.len()
    &&& forall|i: int| 0 <= i < marks.len() ==> (#[trigger] marks[i] <==> seen.contains(m.ids()[i]))
}

/// Every entry of `vs` is the vertex that the graph stores under its id.
pub open spec fn drawn_from<T, V>(m: GraphView<T, V>, vs: Seq<&Vertex<T>>) -> bool {
    forall|i: int| 0 <= i < vs.len() ==> (#[trigger] vs[i])@ == m.vertex_view(vs[i]@.id)
}

/// The vertices that a depth-first search visited, in visiting order. It
/// borrows them from the graph that was searched.
pub struct DFSResult<'a, T>(Vec<&'a Vertex<T>>);

impl<'a, T> View for DFSResult<'a, T> {
    type V = Seq<VertexView<T>>;

    closed spec fn view(&self) -> Seq<VertexView<T>> {
        self.0@.map_values(|v: &Vertex<T>| v@)
    }
}

impl<'a, T> DFSResult<'a, T> {
    /// The ids of the visited vertices, in visiting order.
    pub open spec fn ids(&self) -> Seq<usize> {
        self@.map_values(|v: VertexView<T>| v.id)
    }

    /// The visited vertices, in visiting order.
    pub fn vertices(&self) -> (r: &Vec<&'a Vertex<T>>)
        ensures
            r@.len() == self@.len(),
            forall|i: int| 0 <= i < r@.len() ==> (#[trigger] r@[i])@ == self@[i],
    {
        &self.0
    }
}

impl<T, V> OrientedGraph<T, V> {
    /// Visits the vertices that can be reached from `start_vertex_id`
    /// along edges, each from its start to its end. A vertex enters the
    /// result when it is first met, before anything that its own edges lead
    /// to; the edges of a vertex are followed in the order of its incident
    /// list.
    pub fn depth_first_search<'a>(&'a self, start_vertex_id: usize) -> (r: Result<
        DFSResult<'a, T>,
        GraphError,
    >)
        ensures
            match r {
                Ok(found) => {
                    &&& self@.has_vertex(start_vertex_id)
                    &&& found.ids() == self@.dfs_order(start_vertex_id)
                    &&& forall|i: int|
                        0 <= i < found@.len() ==> #[trigger] found@[i] == self@.vertex_view(
                            found@[i].id,
                        )
                    &&& found.ids()[0] == start_vertex_id
                    &&& found.ids().no_duplicates()
                    &&& forall|id: usize| #[trigger]
                        found.ids().contains(id) <==> self@.reachable(start_vertex_id, id)
                },
                Err(e) => e == GraphError::VertexNotFound && !self@.has_vertex(start_vertex_id),
            },
    {
        let pos = match self.vertex_position(start_vertex_id) {
            Some(i) => i,
            None => {
                return Err(GraphError::VertexNotFound);
            },
        };
        let vs = self.get_vertexes();
        let mut visited: Vec<bool> = Vec::new();
        let mut i: usize = 0;
        while i < vs.len()
            invariant
                0 <= i <= vs.len(),
                visited@.len() == i,
                forall|j: int| 0 <= j < i ==> !visited@[j],
            decreases vs.len() - i,
        {
            visited.push(false);
            i += 1;
        }
        let mut result: Vec<&'a Vertex<T>> = Vec::new();
        proof {
            assert(ids_of(result@) =~= Seq::<usize>::empty());
            lemma_dfs_visits_reachable(self@, start_vertex_id);
        }
        self.dfs_helper(pos, &mut visited, &mut result, Ghost(vs@.len()));
        let found = DFSResult(result);
        proof {
            assert(found.ids() =~= ids_of(result@));
            assert forall|i: int| 0 <= i < found@.len() implies #[trigger] found@[i]
                == self@.vertex_view(found@[i].id) by {
                assert(found@[i] == result@[i]@);
            }
        }
        Ok(found)
    }

    /// Visits the vertex at position `pos`, then what its edges lead to.
    fn dfs_helper<'a>(
        &'a self,
        pos: usize,
        visited: &mut Vec<bool>,
        result: &mut Vec<&'a Vertex<T>>,
        Ghost(depth): Ghost<nat>,
    )
        requires
            pos < self@.vertices.len(),
            !old(visited)@[pos as int],
            marks_ok(self@, old(visited)@, ids_of(old(result)@)),
            self@.visited_ok(ids_of(old(result)@)),
            drawn_from(self@, old(result)@),
            depth >= self@.vertices.len() - old(result)@.len(),
        ensures
            ids_of(final(result)@) == self@.visit(
                self@.vertices[pos as int].id,
                ids_of(old(result)@),
                depth,
            ),
            marks_ok(self@, final(visited)@, ids_of(final(result)@)),
            drawn_from(self@, final(result)@),
        decreases depth,
    {
        let vs = self.get_vertexes();
        let v = &vs[pos];
        let ghost m = self@;
        let ghost id = m.vertices[pos as int].id;
        let ghost seen = ids_of(result@);
        let ghost target = m.visit(id, seen, depth);
        proof {
            assert(m.ids()[pos as int] == id);
            assert(m.has_vertex(id));
            lemma_room(m, seen, id);
            lemma_visit(m, id, seen, depth);
            assert(m.vertex_index(id) == pos) by {
                let k = m.vertex_index(id);
                assert(m.ids()[k] == id);
            }
        }
        visited.set(pos, true);
        result.push(v);
        let hs = v.get_edges();
        proof {
            assert(ids_of(result@) =~= seen.push(id));
            assert(ids_of(result@)[seen.len() as int] == id);
            assert(hs@.skip(0) =~= hs@);
            assert forall|i: int| 0 <= i < visited@.len() implies (#[trigger] visited@[i]
                <==> ids_of(result@).contains(m.ids()[i])) by {
                if seen.contains(m.ids()[i]) {
                    lemma_extends_contains(ids_of(result@), seen, m.ids()[i]);
                }
                if ids_of(result@).contains(m.ids()[i]) && !seen.contains(m.ids()[i]) {
                    let k = choose|k: int|
                        0 <= k < ids_of(result@).len() && ids_of(result@)[k] == m.ids()[i];
                    if k < seen.len() {
                        assert(seen[k] == m.ids()[i]);
                    }
                }
            }
            lemma_filter_members(m.keys(), touching(id));
        }
        let mut k: usize = 0;
        while k < hs.len()
            invariant
                0 <= k <= hs.len(),
                m == self@,
                m.wf(),
                depth > 0,
                hs@ == m.incident(id),
                forall|h: EdgeHandle| #[trigger]
                    m.incident(id).contains(h) <==> m.keys().contains(h) && touching(id)(h),
                m.explore(hs@.skip(k as int), ids_of(result@), (depth - 1) as nat) == target,
                marks_ok(m, visited@, ids_of(result@)),
                m.visited_ok(ids_of(result@)),
                drawn_from(m, result@),
                depth - 1 >= m.vertices.len() - result@.len(),
            decreases hs.len() - k,
        {
            let n = hs[k].end;
            let ghost now = ids_of(result@);
            proof {
                let run = hs@.skip(k as int);
                assert(run[0] == hs@[k as int]);
                assert(run.drop_first() =~= hs@.skip(k + 1));
                assert(m.incident(id).contains(hs@[k as int]));
                let h = hs@[k as int];
                let j = choose|j: int| 0 <= j < m.keys().len() && m.keys()[j] == h;
                assert(m.edges[j].key() == h);
                assert(m.has_vertex(m.edges[j].end));
            }
            match self.vertex_position(n) {
                Some(np) => {
                    proof {
                        assert(m.ids()[np as int] == n);
                    }
                    if !visited[np] {
                        proof {
                            lemma_visit(m, n, now, (depth - 1) as nat);
                        }
                        self.dfs_helper(np, visited, result, Ghost((depth - 1) as nat));
                    }
                },
                None => {},
            }
            k += 1;
        }
        proof {
            assert(hs@.skip(k as int) =~= Seq::<EdgeHandle>::empty());
        }
    }
}

} // verus!
