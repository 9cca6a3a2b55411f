//! Facts about filtering sequences that the graph bookkeeping rests on.

use vstd::prelude::*;

verus! {

/// Every element of a filtered sequence satisfies the predicate and occurs
/// in the sequence it was filtered from.
pub proof fn lemma_filter_members<A>(s: Seq<A>, p: spec_fn(A) -> bool)
    ensures
        forall|x: A| #[trigger] s.filter(p).contains(x) <==> s.contains(x) && p(x),
    decreases s.len(),
{
    reveal(Seq::filter);
    if s.len() > 0 {
        let rest = s.drop_last();
        lemma_filter_members(rest, p);
        assert forall|x: A| #[trigger] s.filter(p).contains(x) <==> s.contains(x) && p(x) by {
            if s.filter(p).contains(x) {
                let i = choose|i: int| 0 <= i < s.filter(p).len() && s.filter(p)[i] == x;
                if i < rest.filter(p).len() {
                    assert(rest.filter(p)[i] == x);
                    assert(rest.filter(p).contains(x));
                    assert(rest.contains(x));
                    let j = choose|j: int| 0 <= j < rest.len() && rest[j] == x;
                    assert(s[j] == x);
                } else {
                    assert(x == s.last());
                    assert(s[s.len() - 1] == x);
                }
            }
            if s.contains(x) && p(x) {
                let j = choose|j: int| 0 <= j < s.len() && s[j] == x;
                if j < rest.len() {
                    assert(rest[j] == x);
                    assert(rest.contains(x));
                    assert(rest.filter(p).contains(x));
                    let i = choose|i: int| 0 <= i < rest.filter(p).len() && rest.filter(p)[i] == x;
                    assert(s.filter(p)[i] == x);
                } else {
                    assert(s.filter(p)[s.filter(p).len() - 1] == x);
                }
            }
        }
    }
}

/// Filtering twice gives the same result in either order.
pub proof fn lemma_filter_commute<A>(s: Seq<A>, p: spec_fn(A) -> bool, q: spec_fn(A) -> bool)
    ensures
        s.filter(p).filter(q) == s.filter(q).filter(p),
    decreases s.len(),
{
    reveal(Seq::filter);
    if s.len() > 0 {
        let rest = s.drop_last();
        let x = s.last();
        lemma_filter_commute(rest, p, q);
        rest.filter(p).lemma_filter_push(x, q);
        rest.filter(q).lemma_filter_push(x, p);
    }
}

/// Filtering commutes with mapping when the two predicates agree through
/// the map.
pub proof fn lemma_filter_map<A, B>(
    s: Seq<A>,
    f: spec_fn(A) -> B,
    p: spec_fn(A) -> bool,
    q: spec_fn(B) -> bool,
)
    requires
        forall|x: A| #[trigger] p(x) == q(f(x)),
    ensures
        s.filter(p).map_values(f) == s.map_values(f).filter(q),
    decreases s.len(),
{
    reveal(Seq::filter);
    if s.len() == 0 {
        assert(s.filter(p).map_values(f) =~= s.map_values(f).filter(q));
    } else {
        let rest = s.drop_last();
        let x = s.last();
        lemma_filter_map(rest, f, p, q);
        assert(s.map_values(f) =~= rest.map_values(f).push(f(x)));
        rest.map_values(f).lemma_filter_push(f(x), q);
        assert(p(x) == q(f(x)));
        if p(x) {
            assert(rest.filter(p).push(x).map_values(f) =~= rest.filter(p).map_values(f).push(
                f(x),
            ));
        }
    }
}

/// A filter that every element passes changes nothing.
pub proof fn lemma_filter_all<A>(s: Seq<A>, p: spec_fn(A) -> bool)
    requires
        forall|i: int| 0 <= i < s.len() ==> p(#[trigger] s[i]),
    ensures
        s.filter(p) == s,
    decreases s.len(),
{
    reveal(Seq::filter);
    if s.len() > 0 {
        let rest = s.drop_last();
        assert forall|i: int| 0 <= i < rest.len() implies p(#[trigger] rest[i]) by {
            assert(rest[i] == s[i]);
        }
        lemma_filter_all(rest, p);
        assert(rest.push(s.last()) =~= s);
    }
}

/// A filter that no element passes leaves the empty sequence.
pub proof fn lemma_filter_none<A>(s: Seq<A>, p: spec_fn(A) -> bool)
    requires
        forall|i: int| 0 <= i < s.len() ==> !p(#[trigger] s[i]),
    ensures
        s.filter(p) == Seq::<A>::empty(),
    decreases s.len(),
{
    reveal(Seq::filter);
    if s.len() > 0 {
        let rest = s.drop_last();
        assert forall|i: int| 0 <= i < rest.len() implies !p(#[trigger] rest[i]) by {
            assert(rest[i] == s[i]);
        }
        lemma_filter_none(rest, p);
    } else {
        assert(s =~= Seq::<A>::empty());
    }
}

/// A filter that rejects exactly the element at position `i` removes it.
pub proof fn lemma_filter_one_out<A>(s: Seq<A>, p: spec_fn(A) -> bool, i: int)
    requires
        0 <= i < s.len(),
        forall|j: int| 0 <= j < s.len() ==> (p(#[trigger] s[j]) <==> j != i),
    ensures
        s.filter(p) == s.remove(i),
    decreases s.len(),
{
    reveal(Seq::filter);
    let rest = s.drop_last();
    if i == s.len() - 1 {
        assert forall|j: int| 0 <= j < rest.len() implies p(#[trigger] rest[j]) by {
            assert(rest[j] == s[j]);
        }
        lemma_filter_all(rest, p);
        assert(s.remove(i) =~= rest);
    } else {
        assert forall|j: int| 0 <= j < rest.len() implies (p(#[trigger] rest[j]) <==> j != i) by {
            assert(rest[j] == s[j]);
        }
        lemma_filter_one_out(rest, p, i);
        assert(p(s[s.len() - 1]));
        assert(rest.remove(i).push(s.last()) =~= s.remove(i));
    }
}

/// Filtering a sequence without repeats leaves no repeats.
pub proof fn lemma_filter_no_duplicates<A>(s: Seq<A>, p: spec_fn(A) -> bool)
    requires
        s.no_duplicates(),
    ensures
        s.filter(p).no_duplicates(),
    decreases s.len(),
{
    reveal(Seq::filter);
    if s.len() > 0 {
        let rest = s.drop_last();
        lemma_filter_no_duplicates(rest, p);
        lemma_filter_members(rest, p);
        if p(s.last()) {
            if rest.filter(p).contains(s.last()) {
                let j = choose|j: int| 0 <= j < rest.len() && rest[j] == s.last();
                assert(s[j] == s[s.len() - 1]);
            }
            let out = rest.filter(p).push(s.last());
            assert forall|a: int, b: int|
                0 <= a < out.len() && 0 <= b < out.len() && a != b implies out[a] != out[b] by {
                if a == out.len() - 1 {
                    assert(rest.filter(p)[b] == out[b]);
                    assert(rest.filter(p).contains(out[b]));
                } else if b == out.len() - 1 {
                    assert(rest.filter(p)[a] == out[a]);
                    assert(rest.filter(p).contains(out[a]));
                }
            }
        }
    }
}

/// A predicate and its negation split a sequence into two parts whose
/// lengths add up to the whole.
pub proof fn lemma_filter_split_len<A>(s: Seq<A>, p: spec_fn(A) -> bool, q: spec_fn(A) -> bool)
    requires
        forall|x: A| #[trigger] q(x) == !p(x),
    ensures
        s.filter(p).len() + s.filter(q).len() == s.len(),
    decreases s.len(),
{
    reveal(Seq::filter);
    if s.len() > 0 {
        lemma_filter_split_len(s.drop_last(), p, q);
        assert(q(s.last()) == !p(s.last()));
    }
}

} // verus!
