//! Positions on the ring of members.
//!
//! The members stand in ascending order; the ring closes from the last member
//! back to the first. The owner of an identifier is its ring successor, the
//! backup is the member after the owner.

use crate::order::{before, lemma_before_is_strict_total_order};
use crate::seqs::{lemma_filter_keeps_order, lemma_filter_none, lemma_filter_step};
use crate::sorted::{ascending, lemma_rank_splits, rank, rank_of, texts};
use vstd::prelude::*;

verus! {

/// The position before `i` on a ring of `n` positions.
pub open spec fn back(i: int, n: int) -> int {
    if i == 0 {
        n - 1
    } else {
        i - 1
    }
}

/// The position after `i` on a ring of `n` positions.
pub open spec fn forth(i: int, n: int) -> int {
    if i + 1 >= n {
        0
    } else {
        i + 1
    }
}

/// `k` lies on the arc that leaves `a` and arrives at `b`, walking upwards
/// and wrapping past the largest identifier: `a` itself is excluded, `b` is
/// included. Where `a` and `b` coincide the arc is the whole ring.
pub open spec fn on_arc(a: Seq<char>, b: Seq<char>, k: Seq<char>) -> bool {
    if a == b {
        true
    } else if before(a, b) {
        before(a, k) && !before(b, k)
    } else {
        before(a, k) || !before(b, k)
    }
}

/// The position of the owner of `target`: the first member that is `target`
/// or sorts after it, or the first member of all where there is none.
pub open spec fn owner_index(members: Seq<Seq<char>>, target: Seq<char>) -> int {
    if rank(members, target) < members.len() {
        rank(members, target) as int
    } else {
        0
    }
}

/// The members responsible for `target`: its owner, then the backup where
/// that is another member.
pub open spec fn closest(members: Seq<Seq<char>>, target: Seq<char>) -> Seq<Seq<char>> {
    if members.len() == 0 {
        Seq::empty()
    } else {
        let owner = members[owner_index(members, target)];
        let backup = members[forth(owner_index(members, target), members.len() as int)];
        if backup == owner {
            seq![owner]
        } else {
            seq![owner, backup]
        }
    }
}

/// Selects the identifiers other than `x`.
pub open spec fn other_than(x: Seq<char>) -> spec_fn(Seq<char>) -> bool {
    |m: Seq<char>| m != x
}

/// The members responsible for `target` when `target` itself is no candidate.
pub open spec fn closest_other(members: Seq<Seq<char>>, target: Seq<char>) -> Seq<Seq<char>> {
    closest(members.filter(other_than(target)), target)
}

/// Whether the member `own` holds `k` as owner or as backup: `k` lies on the
/// arc from the member two positions before `own` up to `own`.
pub open spec fn responsible(members: Seq<Seq<char>>, own: Seq<char>, k: Seq<char>) -> bool {
    let n = members.len() as int;
    let i = rank(members, own) as int;
    on_arc(members[back(back(i, n), n)], own, k)
}

/// The owner of an identifier is a member, and the answer names one or two
/// members, never the same one twice.
pub proof fn lemma_closest_is_of_members(members: Seq<Seq<char>>, target: Seq<char>)
    requires
        ascending(members),
        members.len() > 0,
    ensures
        1 <= closest(members, target).len() <= 2,
        forall|i: int|
            0 <= i < closest(members, target).len() ==> members.contains(
                #[trigger] closest(members, target)[i],
            ),
        closest(members, target).len() == 2 ==> closest(members, target)[0] != closest(
            members,
            target,
        )[1],
        closest(members, target).len() == 2 <==> members.len() >= 2,
        members.contains(target) ==> closest(members, target)[0] == target,
        !before(closest(members, target)[0], target) || forall|j: int|
            0 <= j < members.len() ==> before(#[trigger] members[j], target),
        forall|j: int|
            0 <= j < members.len() && !before(#[trigger] members[j], target) ==> !before(
                members[j],
                closest(members, target)[0],
            ),
{
    lemma_before_is_strict_total_order();
    lemma_rank_splits(members, target);
    let o = owner_index(members, target);
    let b = forth(o, members.len() as int);
    assert(members.contains(members[o]));
    assert(members.contains(members[b]));
    if b != o {
        if b < o {
            assert(before(members[b], members[o]));
        } else {
            assert(before(members[o], members[b]));
        }
    }
    assert forall|j: int|
        0 <= j < members.len() && !before(#[trigger] members[j], target) implies !before(
        members[j],
        members[o],
    ) by {
        if j > o {
            assert(before(members[o], members[j]));
        }
    }
}

/// One step back on a ring of `n` positions.
pub fn step_back(i: usize, n: usize) -> (r: usize)
    requires
        i < n,
    ensures
        r == back(i as int, n as int),
        r < n,
{
    if i == 0 {
        n - 1
    } else {
        i - 1
    }
}

/// One step forth on a ring of `n` positions.
pub fn step_forth(i: usize, n: usize) -> (r: usize)
    requires
        i < n,
    ensures
        r == forth(i as int, n as int),
        r < n,
{
    if i + 1 >= n {
        0
    } else {
        i + 1
    }
}

/// The members responsible for `target` on an ascending ring.
pub fn closest_members(members: &Vec<String>, target: &String) -> (r: Vec<String>)
    requires
        ascending(texts(members@)),
    ensures
        texts(r@) == closest(texts(members@), target@),
{
    let mut list: Vec<String> = Vec::new();
    let n = members.len();
    if n == 0 {
        assert(texts(list@) =~= closest(texts(members@), target@));
        return list;
    }
    let at = rank_of(members, target.as_str());
    let owner = if at < n {
        at
    } else {
        0
    };
    let next = step_forth(owner, n);
    list.push(members[owner].clone());
    if members[next] != members[owner] {
        list.push(members[next].clone());
    }
    assert(texts(list@) =~= closest(texts(members@), target@));
    list
}

/// The members other than `target`, in their order.
pub fn members_other_than(members: &Vec<String>, target: &String) -> (r: Vec<String>)
    ensures
        texts(r@) == texts(members@).filter(other_than(target@)),
{
    let ghost s = texts(members@);
    let mut out: Vec<String> = Vec::new();
    let mut i: usize = 0;
    assert(s.take(0) =~= Seq::<Seq<char>>::empty());
    proof {
        lemma_filter_none(s.take(0), other_than(target@));
    }
    assert(texts(out@) =~= s.take(0).filter(other_than(target@)));
    while i < members.len()
        invariant
            s == texts(members@),
            i <= members@.len(),
            texts(out@) == s.take(i as int).filter(other_than(target@)),
        decreases members@.len() - i,
    {
        proof {
            lemma_filter_step(s, other_than(target@), i as int);
        }
        if members[i] != *target {
            let ghost before_push = texts(out@);
            out.push(members[i].clone());
            assert(texts(out@) =~= before_push.push(s[i as int]));
        }
        i += 1;
    }
    assert(s.take(s.len() as int) =~= s);
    out
}

/// Leaving members out keeps the others ascending.
pub proof fn lemma_filter_ascending(s: Seq<Seq<char>>, p: spec_fn(Seq<char>) -> bool)
    requires
        ascending(s),
    ensures
        ascending(s.filter(p)),
{
    let f = s.filter(p);
    lemma_filter_keeps_order(s, p);
    assert forall|i: int, j: int| 0 <= i < j < f.len() implies before(
        #[trigger] f[i],
        #[trigger] f[j],
    ) by {
        let (a, b) = choose|a: int, b: int| 0 <= a < b < s.len() && s[a] == f[i] && s[b] == f[j];
        assert(before(s[a], s[b]));
    }
}

/// The answer to `closest_other` names members only, and never `target`.
pub proof fn lemma_closest_other_is_of_others(members: Seq<Seq<char>>, target: Seq<char>)
    requires
        ascending(members),
    ensures
        forall|i: int|
            0 <= i < closest_other(members, target).len() ==> members.contains(
                #[trigger] closest_other(members, target)[i],
            ) && closest_other(members, target)[i] != target,
        closest_other(members, target).len() == 0 <==> forall|j: int|
            0 <= j < members.len() ==> #[trigger] members[j] == target,
{
    let others = members.filter(other_than(target));
    lemma_filter_ascending(members, other_than(target));
    lemma_filter_keeps_order(members, other_than(target));
    if others.len() > 0 {
        lemma_closest_is_of_members(others, target);
        assert forall|i: int| 0 <= i < closest_other(members, target).len() implies members.contains(
            #[trigger] closest_other(members, target)[i],
        ) && closest_other(members, target)[i] != target by {
            let c = closest_other(members, target)[i];
            assert(others.contains(c));
            let j = choose|j: int| 0 <= j < others.len() && others[j] == c;
            assert(other_than(target)(others[j]));
        }
        assert(members.contains(others[0]));
        assert(other_than(target)(others[0]));
    } else {
        assert forall|j: int| 0 <= j < members.len() implies #[trigger] members[j] == target by {
            if members[j] != target {
                assert(other_than(target)(members[j]));
                assert(others.contains(members[j]));
            }
        }
    }
}

/// The members responsible for `target` when `target` itself is no candidate.
pub fn closest_other_members(members: &Vec<String>, target: &String) -> (r: Vec<String>)
    requires
        ascending(texts(members@)),
    ensures
        texts(r@) == closest_other(texts(members@), target@),
{
    let others = members_other_than(members, target);
    proof {
        lemma_filter_ascending(texts(members@), other_than(target@));
    }
    closest_members(&others, target)
}

} // verus!
