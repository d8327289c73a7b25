//! Lemmas on filtered sequences.

use vstd::prelude::*;

verus! {

/// A filter that selects every element changes nothing.
pub proof fn lemma_filter_all<A>(s: Seq<A>, p: spec_fn(A) -> bool)
    requires
        forall|i: int| 0 <= i < s.len() ==> p(#[trigger] s[i]),
    ensures
        s.filter(p) == s,
    decreases s.len(),
{
    reveal(Seq::filter);
    if s.len() > 0 {
        lemma_filter_all(s.drop_last(), p);
        assert(s.drop_last().push(s.last()) =~= s);
    }
}

/// A filter that selects no element leaves nothing.
pub proof fn lemma_filter_none<A>(s: Seq<A>, p: spec_fn(A) -> bool)
    requires
        forall|i: int| 0 <= i < s.len() ==> !p(#[trigger] s[i]),
    ensures
        s.filter(p) == Seq::<A>::empty(),
    decreases s.len(),
{
    reveal(Seq::filter);
    if s.len() > 0 {
        lemma_filter_none(s.drop_last(), p);
    } else {
        assert(s =~= Seq::<A>::empty());
    }
}

/// A filter that selects exactly the first `n` elements is `take(n)`.
pub proof fn lemma_filter_prefix<A>(s: Seq<A>, p: spec_fn(A) -> bool, n: int)
    requires
        0 <= n <= s.len(),
        forall|i: int| 0 <= i < n ==> p(#[trigger] s[i]),
        forall|i: int| n <= i < s.len() ==> !p(#[trigger] s[i]),
    ensures
        s.filter(p) == s.take(n),
{
    assert(s =~= s.take(n) + s.skip(n));
    Seq::filter_distributes_over_add(s.take(n), s.skip(n), p);
    lemma_filter_all(s.take(n), p);
    lemma_filter_none(s.skip(n), p);
    assert(s.take(n) + Seq::<A>::empty() =~= s.take(n));
}

/// A filter that selects exactly the elements from index `n` on is `skip(n)`.
pub proof fn lemma_filter_suffix<A>(s: Seq<A>, p: spec_fn(A) -> bool, n: int)
    requires
        0 <= n <= s.len(),
        forall|i: int| 0 <= i < n ==> !p(#[trigger] s[i]),
        forall|i: int| n <= i < s.len() ==> p(#[trigger] s[i]),
    ensures
        s.filter(p) == s.skip(n),
{
    assert(s =~= s.take(n) + s.skip(n));
    Seq::filter_distributes_over_add(s.take(n), s.skip(n), p);
    lemma_filter_none(s.take(n), p);
    lemma_filter_all(s.skip(n), p);
    assert(Seq::<A>::empty() + s.skip(n) =~= s.skip(n));
}

/// Filtering one element more of a sequence.
pub proof fn lemma_filter_step<A>(s: Seq<A>, p: spec_fn(A) -> bool, i: int)
    requires
        0 <= i < s.len(),
    ensures
        s.take(i + 1).filter(p) == if p(s[i]) {
            s.take(i).filter(p).push(s[i])
        } else {
            s.take(i).filter(p)
        },
{
    assert(s.take(i + 1) =~= s.take(i).push(s[i]));
    s.take(i).lemma_filter_push(s[i], p);
}

/// Every element that a filter keeps is an element of the sequence and is
/// selected, and the kept elements stand in their former order.
pub proof fn lemma_filter_keeps_order<A>(s: Seq<A>, p: spec_fn(A) -> bool)
    ensures
        forall|i: int|
            0 <= i < s.filter(p).len() ==> p(#[trigger] s.filter(p)[i]) && s.contains(
                s.filter(p)[i],
            ),
        forall|i: int, j: int|
            0 <= i < j < s.filter(p).len() ==> exists|a: int, b: int|
                0 <= a < b < s.len() && s[a] == #[trigger] s.filter(p)[i] && s[b]
                    == #[trigger] s.filter(p)[j],
        forall|a: int| 0 <= a < s.len() && p(s[a]) ==> s.filter(p).contains(#[trigger] s[a]),
    decreases s.len(),
{
    reveal(Seq::filter);
    let f = s.filter(p);
    if s.len() > 0 {
        let t = s.drop_last();
        let g = t.filter(p);
        lemma_filter_keeps_order(t, p);
        assert forall|i: int| 0 <= i < f.len() implies p(#[trigger] f[i]) && s.contains(f[i]) by {
            if i < g.len() {
                assert(f[i] == g[i]);
                assert(t.contains(g[i]));
                let a = choose|a: int| 0 <= a < t.len() && t[a] == g[i];
                assert(s[a] == g[i]);
            } else {
                assert(f[i] == s[s.len() - 1]);
            }
        }
        assert forall|i: int, j: int| 0 <= i < j < f.len() implies exists|a: int, b: int|
            0 <= a < b < s.len() && s[a] == #[trigger] f[i] && s[b] == #[trigger] f[j] by {
            if j < g.len() {
                assert(f[i] == g[i] && f[j] == g[j]);
                let (a, b) = choose|a: int, b: int|
                    0 <= a < b < t.len() && t[a] == g[i] && t[b] == g[j];
                assert(s[a] == f[i] && s[b] == f[j]);
            } else {
                assert(f[i] == g[i]);
                assert(t.contains(g[i]));
                let a = choose|a: int| 0 <= a < t.len() && t[a] == g[i];
                assert(s[a] == f[i] && s[s.len() - 1] == f[j]);
            }
        }
        assert forall|a: int| 0 <= a < s.len() && p(s[a]) implies f.contains(#[trigger] s[a]) by {
            if a < t.len() {
                assert(t[a] == s[a]);
                assert(g.contains(t[a]));
                let i = choose|i: int| 0 <= i < g.len() && g[i] == t[a];
                assert(f[i] == s[a]);
            } else {
                assert(f[f.len() - 1] == s[a]);
            }
        }
    }
}

} // verus!
