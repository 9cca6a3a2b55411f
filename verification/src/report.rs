//! The text rendering of a search result: one line per visited vertex.

use vstd::prelude::*;
use crate::search::DFSResult;
use crate::text::{chars_of, decimal, push_decimal, string_of};
use crate::vertex::{EdgeHandle, Vertex, VertexView};

verus! {

/// `s` without repeats: of equal items the first stays.
pub open spec fn dedup(s: Seq<usize>) -> Seq<usize>
    decreases s.len(),
{
    if s.len() == 0 {
        Seq::empty()
    } else {
        let before = dedup(s.drop_last());
        if before.contains(s.last()) {
            before
        } else {
            before.push(s.last())
        }
    }
}

/// The far ends of the edges `edges`, seen from vertex `id`.
pub open spec fn far_ends(edges: Seq<EdgeHandle>, id: usize) -> Seq<usize> {
    edges.map_values(|h: EdgeHandle| h.other_end(id))
}

/// The ids next to vertex `id` over any of its incident edges `edges`,
/// whatever their direction, each once, in order of first occurrence.
pub open spec fn adjacent(edges: Seq<EdgeHandle>, id: usize) -> Seq<usize> {
    dedup(far_ends(edges, id))
}

/// The numbers `xs` in decimal, with a comma and a space between each two.
pub open spec fn items_text(xs: Seq<usize>) -> Seq<char>
    decreases xs.len(),
{
    if xs.len() == 0 {
        Seq::empty()
    } else if xs.len() == 1 {
        decimal(xs[0] as nat)
    } else {
        items_text(xs.drop_last()) + seq![',', ' '] + decimal(xs.last() as nat)
    }
}

/// The numbers `xs` as a bracketed list.
pub open spec fn list_text(xs: Seq<usize>) -> Seq<char> {
    seq!['['] + items_text(xs) + seq![']']
}

/// The line of a visited vertex: its id, its payload and the list of the
/// ids next to it, with a space between each two, and a line feed.
pub open spec fn visit_line(v: VertexView<String>) -> Seq<char> {
    decimal(v.id as nat) + seq![' '] + v.value@ + seq![' '] + list_text(adjacent(v.edges, v.id))
        + seq!['\n']
}

/// The lines of the visited vertices `vs`, one after the other.
pub open spec fn report(vs: Seq<VertexView<String>>) -> Seq<char>
    decreases vs.len(),
{
    if vs.len() == 0 {
        Seq::empty()
    } else {
        report(vs.drop_last()) + visit_line(vs.last())
    }
}

/// A sequence without repeats holds what the sequence it was made from
/// holds, and nothing twice.
pub proof fn lemma_dedup(s: Seq<usize>)
    ensures
        dedup(s).no_duplicates(),
        forall|x: usize| #[trigger] dedup(s).contains(x) <==> s.contains(x),
    decreases s.len(),
{
    if s.len() > 0 {
        let rest = s.drop_last();
        let before = dedup(rest);
        lemma_dedup(rest);
        assert forall|x: usize| #[trigger] dedup(s).contains(x) <==> s.contains(x) by {
            if s.contains(x) {
                let i = choose|i: int| 0 <= i < s.len() && s[i] == x;
                if i < rest.len() {
                    assert(rest[i] == x);
                    assert(rest.contains(x));
                    assert(before.contains(x));
                    let j = choose|j: int| 0 <= j < before.len() && before[j] == x;
                    assert(dedup(s)[j] == x);
                } else if !before.contains(x) {
                    assert(dedup(s)[before.len() as int] == x);
                }
            }
            if dedup(s).contains(x) {
                let j = choose|j: int| 0 <= j < dedup(s).len() && dedup(s)[j] == x;
                if j < before.len() {
                    assert(before[j] == x);
                    assert(before.contains(x));
                    assert(rest.contains(x));
                    let i = choose|i: int| 0 <= i < rest.len() && rest[i] == x;
                    assert(s[i] == x);
                } else {
                    assert(s[s.len() - 1] == x);
                }
            }
        }
    }
}

/// The ids next to a vertex, each once, in order of first occurrence.
pub fn neighbor_ids<T>(vertex: &Vertex<T>) -> (r: Vec<usize>)
    ensures
        r@ == adjacent(vertex@.edges, vertex@.id),
        r@.no_duplicates(),
        forall|x: usize| #[trigger]
            r@.contains(x) <==> far_ends(vertex@.edges, vertex@.id).contains(x),
{
    let hs = vertex.get_edges();
    let id = vertex.id();
    let ghost ends = far_ends(hs@, id);
    proof {
        lemma_dedup(ends);
    }
    let mut out: Vec<usize> = Vec::new();
    let mut i: usize = 0;
    proof {
        assert(ends.take(0) =~= Seq::<usize>::empty());
    }
    while i < hs.len()
        invariant
            0 <= i <= hs.len(),
            ends == far_ends(hs@, id),
            out@ == dedup(ends.take(i as int)),
        decreases hs.len() - i,
    {
        let x = hs[i].far_end(id);
        let mut known = false;
        let mut j: usize = 0;
        while j < out.len()
            invariant
                0 <= j <= out.len(),
                known <==> exists|k: int| 0 <= k < j && out@[k] == x,
            decreases out.len() - j,
        {
            if out[j] == x {
                known = true;
            }
            j += 1;
        }
        proof {
            let done = ends.take(i + 1);
            assert(done.drop_last() =~= ends.take(i as int));
            assert(done.last() == x);
        }
        if !known {
            out.push(x);
        }
        i += 1;
    }
    proof {
        assert(ends.take(i as int) =~= ends);
    }
    out
}

/// Appends the bracketed list of `xs` to `out`.
fn push_list(out: &mut Vec<char>, xs: &Vec<usize>)
    ensures
        final(out)@ == old(out)@ + list_text(xs@),
{
    out.push('[');
    let ghost before = out@;
    let mut i: usize = 0;
    proof {
        assert(xs@.take(0) =~= Seq::<usize>::empty());
        assert(before + items_text(xs@.take(0)) =~= before);
    }
    while i < xs.len()
        invariant
            0 <= i <= xs.len(),
            out@ == before + items_text(xs@.take(i as int)),
        decreases xs.len() - i,
    {
        if i > 0 {
            out.push(',');
            out.push(' ');
        }
        push_decimal(out, xs[i]);
        proof {
            let done = xs@.take(i + 1);
            assert(done.drop_last() =~= xs@.take(i as int));
            assert(done.last() == xs@[i as int]);
            if i == 0 {
                assert(done[0] == xs@[0]);
                assert(items_text(xs@.take(0)) =~= Seq::<char>::empty());
            }
            assert(out@ =~= before + items_text(done));
        }
        i += 1;
    }
    out.push(']');
    proof {
        assert(xs@.take(i as int) =~= xs@);
        assert(out@ =~= old(out)@ + list_text(xs@));
    }
}

impl<'a> DFSResult<'a, String> {
    /// The visited vertices as text, one line each: the id, the payload
    /// and, in brackets, the ids next to the vertex over any incident
    /// edge, whichever way the edge points.
    pub fn to_string(&self) -> (r: String)
        ensures
            r@ == report(self@),
    {
        let vs = self.vertices();
        let mut out: Vec<char> = Vec::new();
        let mut i: usize = 0;
        proof {
            assert(self@.take(0) =~= Seq::<VertexView<String>>::empty());
        }
        while i < vs.len()
            invariant
                0 <= i <= vs.len(),
                vs@.len() == self@.len(),
                forall|j: int| 0 <= j < vs@.len() ==> (#[trigger] vs@[j])@ == self@[j],
                out@ == report(self@.take(i as int)),
            decreases vs.len() - i,
        {
            let v = vs[i];
            let ghost before = out@;
            push_decimal(&mut out, v.id());
            out.push(' ');
            let value = chars_of(v.value().as_str());
            let ghost mid = out@;
            let mut k: usize = 0;
            while k < value.len()
                invariant
                    0 <= k <= value.len(),
                    out@ == mid + value@.take(k as int),
                decreases value.len() - k,
            {
                out.push(value[k]);
                proof {
                    assert(value@.take(k + 1) =~= value@.take(k as int).push(value@[k as int]));
                }
                k += 1;
            }
            out.push(' ');
            let next = neighbor_ids(v);
            push_list(&mut out, &next);
            out.push('\n');
            proof {
                assert(value@.take(k as int) =~= value@);
                let done = self@.take(i + 1);
                assert(done.drop_last() =~= self@.take(i as int));
                assert(done.last() == v@);
                assert(out@ =~= before + visit_line(v@));
            }
            i += 1;
        }
        proof {
            assert(self@.take(i as int) =~= self@);
        }
        string_of(out.as_slice())
    }
}

} // verus!
