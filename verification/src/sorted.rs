//! Strictly ascending sequences of identifiers.

use crate::order::{before, is_before, lemma_before_is_strict_total_order};
use vstd::prelude::*;

verus! {

/// The identifiers held by a vector of strings, in order.
pub open spec fn texts(v: Seq<String>) -> Seq<Seq<char>> {
    Seq::new(v.len(), |i: int| v[i]@)
}

/// Every element sorts strictly before each later one.
pub open spec fn ascending(s: Seq<Seq<char>>) -> bool {
    forall|i: int, j: int| 0 <= i < j < s.len() ==> before(#[trigger] s[i], #[trigger] s[j])
}

/// How many elements of `s` sort strictly before `x`.
pub open spec fn rank(s: Seq<Seq<char>>, x: Seq<char>) -> nat
    decreases s.len(),
{
    if s.len() == 0 {
        0
    } else {
        rank(s.drop_last(), x) + if before(s.last(), x) {
            1nat
        } else {
            0nat
        }
    }
}

/// If the elements before `x` are exactly the first `k`, the rank of `x` is `k`.
pub proof fn lemma_rank_at_split(s: Seq<Seq<char>>, x: Seq<char>, k: int)
    requires
        0 <= k <= s.len(),
        forall|i: int| 0 <= i < k ==> before(#[trigger] s[i], x),
        forall|i: int| k <= i < s.len() ==> !before(#[trigger] s[i], x),
    ensures
        rank(s, x) == k,
    decreases s.len(),
{
    if s.len() > 0 {
        let t = s.drop_last();
        if k == s.len() {
            lemma_rank_at_split(t, x, k - 1);
        } else {
            lemma_rank_at_split(t, x, k);
        }
    }
}

/// In an ascending sequence the elements before `x` are exactly the first
/// `rank(s, x)`, and `x` occurs, if at all, at that index.
pub proof fn lemma_rank_splits(s: Seq<Seq<char>>, x: Seq<char>)
    requires
        ascending(s),
    ensures
        rank(s, x) <= s.len(),
        forall|i: int| 0 <= i < rank(s, x) ==> before(#[trigger] s[i], x),
        forall|i: int| rank(s, x) <= i < s.len() ==> !before(#[trigger] s[i], x),
        s.contains(x) <==> (rank(s, x) < s.len() && s[rank(s, x) as int] == x),
    decreases s.len(),
{
    lemma_before_is_strict_total_order();
    if s.len() > 0 {
        let t = s.drop_last();
        lemma_rank_splits(t, x);
        let r = rank(s, x) as int;
        assert forall|i: int| 0 <= i < r implies before(#[trigger] s[i], x) by {
            if i < s.len() - 1 {
                assert(s[i] == t[i]);
                if !before(s.last(), x) {
                } else if i >= rank(t, x) {
                    assert(before(s[i], s.last()));
                }
            }
        }
        assert forall|i: int| r <= i < s.len() implies !before(#[trigger] s[i], x) by {
            if i < s.len() - 1 {
                assert(s[i] == t[i]);
            }
        }
        if s.contains(x) {
            let i = choose|i: int| 0 <= i < s.len() && s[i] == x;
            if i < r {
                assert(before(s[i], x));
            }
            if i > r {
                assert(before(s[r], s[i]));
                assert(!before(s[r], x));
            }
        }
    }
}

/// Inserting an absent identifier at its rank keeps the sequence ascending.
pub proof fn lemma_insert_keeps_ascending(s: Seq<Seq<char>>, x: Seq<char>)
    requires
        ascending(s),
        !s.contains(x),
    ensures
        ascending(s.insert(rank(s, x) as int, x)),
        rank(s.insert(rank(s, x) as int, x), x) == rank(s, x),
{
    lemma_before_is_strict_total_order();
    lemma_rank_splits(s, x);
    let r = rank(s, x) as int;
    let t = s.insert(r, x);
    assert forall|i: int, j: int| 0 <= i < j < t.len() implies before(
        #[trigger] t[i],
        #[trigger] t[j],
    ) by {
        if j == r {
            assert(t[i] == s[i]);
        } else if i == r {
            assert(t[j] == s[j - 1]);
            assert(s.contains(s[j - 1]));
        } else {
            let a = if i < r { i } else { i - 1 };
            let b = if j < r { j } else { j - 1 };
            assert(t[i] == s[a] && t[j] == s[b]);
        }
    }
    lemma_rank_splits(t, x);
    assert(t[r] == x);
    assert(t.contains(x));
}

/// Removing an element keeps the sequence ascending.
pub proof fn lemma_remove_keeps_ascending(s: Seq<Seq<char>>, i: int)
    requires
        ascending(s),
        0 <= i < s.len(),
    ensures
        ascending(s.remove(i)),
        !s.remove(i).contains(s[i]),
{
    lemma_before_is_strict_total_order();
    let t = s.remove(i);
    assert forall|a: int, b: int| 0 <= a < b < t.len() implies before(
        #[trigger] t[a],
        #[trigger] t[b],
    ) by {
        let a0 = if a < i { a } else { a + 1 };
        let b0 = if b < i { b } else { b + 1 };
        assert(t[a] == s[a0] && t[b] == s[b0]);
    }
    if t.contains(s[i]) {
        let a = choose|a: int| 0 <= a < t.len() && t[a] == s[i];
        let a0 = if a < i { a } else { a + 1 };
        assert(t[a] == s[a0]);
        if a0 < i {
            assert(before(s[a0], s[i]));
        } else {
            assert(before(s[i], s[a0]));
        }
    }
}

/// The number of elements of an ascending vector that sort before `x`: the
/// index at which `x` stands, or would have to be inserted.
pub fn rank_of(v: &Vec<String>, x: &str) -> (r: usize)
    requires
        ascending(texts(v@)),
    ensures
        r == rank(texts(v@), x@),
        r <= v@.len(),
{
    let ghost s = texts(v@);
    let mut lo: usize = 0;
    let mut hi: usize = v.len();
    proof {
        lemma_before_is_strict_total_order();
    }
    while lo < hi
        invariant
            0 <= lo <= hi <= v@.len(),
            s == texts(v@),
            ascending(s),
            forall|i: int| 0 <= i < lo ==> before(#[trigger] s[i], x@),
            forall|i: int| hi <= i < s.len() ==> !before(#[trigger] s[i], x@),
        decreases hi - lo,
    {
        let mid = lo + (hi - lo) / 2;
        proof {
            lemma_before_is_strict_total_order();
        }
        if is_before(v[mid].as_str(), x) {
            assert forall|i: int| 0 <= i < mid + 1 implies before(#[trigger] s[i], x@) by {
                if i < mid {
                    assert(before(s[i], s[mid as int]));
                }
            }
            lo = mid + 1;
        } else {
            assert forall|i: int| mid <= i < s.len() implies !before(#[trigger] s[i], x@) by {
                if i > mid {
                    assert(before(s[mid as int], s[i]));
                }
            }
            hi = mid;
        }
    }
    proof {
        lemma_rank_at_split(s, x@, lo as int);
    }
    lo
}

} // verus!
