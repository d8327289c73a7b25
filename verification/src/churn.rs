//! Membership churn and responsibility.
//!
//! A member holds an identifier as owner or as backup when the identifier
//! lies on the arc from the member two positions before it up to itself.
//! This file proves that joins and leaves never leave an entry in the
//! mailbox that lies outside that arc.

use crate::dht::DhtView;
use crate::mailbox::{lemma_filter_listed, not_within, owners, within};
use crate::order::{before, lemma_before_is_strict_total_order};
use crate::ring::{back, closest, lemma_closest_is_of_members, on_arc, responsible};
use crate::seqs::lemma_filter_keeps_order;
use crate::sorted::{
    ascending, lemma_insert_keeps_ascending, lemma_rank_splits, lemma_remove_keeps_ascending, rank,
};
use vstd::prelude::*;

verus! {

/// The position `y` is met strictly between `x` and `z` when walking the
/// ring upwards from `x`.
pub open spec fn met_between(x: int, y: int, z: int) -> bool {
    (x < y < z) || (y < z < x) || (z < x < y)
}

/// On an ascending ring, a member met between two others lies on the arc
/// from the one to the other.
pub proof fn lemma_arc_of_positions(s: Seq<Seq<char>>, x: int, y: int, z: int)
    requires
        ascending(s),
        0 <= x < s.len(),
        0 <= y < s.len(),
        0 <= z < s.len(),
        met_between(x, y, z),
    ensures
        on_arc(s[x], s[z], s[y]),
        s[y] != s[z],
        s[x] != s[y],
        s[x] != s[z],
{
    lemma_before_is_strict_total_order();
    if x < y < z {
        assert(before(s[x], s[y]) && before(s[y], s[z]));
    } else if y < z < x {
        assert(before(s[y], s[z]) && before(s[z], s[x]));
    } else {
        assert(before(s[z], s[x]) && before(s[x], s[y]));
    }
}

/// Where `b` lies on the arc from `a` to `c`, short of `c`, what lies on that
/// arc and not in the closed interval from `a` to `b` lies on the arc from
/// `b` to `c`.
pub proof fn lemma_arc_cut(a: Seq<char>, b: Seq<char>, c: Seq<char>, k: Seq<char>)
    requires
        a != b,
        b != c,
        on_arc(a, c, b),
        on_arc(a, c, k),
        !within(a, b, k),
    ensures
        on_arc(b, c, k),
{
    lemma_before_is_strict_total_order();
}

/// Where `a` lies on the arc from `z` to `c`, the arc from `a` to `c` is part
/// of the arc from `z` to `c`.
pub proof fn lemma_arc_grows(z: Seq<char>, a: Seq<char>, c: Seq<char>, k: Seq<char>)
    requires
        a != c,
        on_arc(z, c, a),
        on_arc(a, c, k),
    ensures
        on_arc(z, c, k),
{
    lemma_before_is_strict_total_order();
}

impl DhtView {
    /// No entry of the mailbox lies outside what the local member holds as
    /// owner or as backup.
    pub open spec fn holds_only_own_share(self) -> bool {
        forall|i: int|
            0 <= i < self.entries.len() ==> responsible(
                self.members,
                self.own,
                #[trigger] self.entries[i].0,
            )
    }
}

/// The ring after a join: `peer` stands at its rank, the members before it
/// keep their positions, the members after it move up by one.
pub proof fn lemma_ring_with(v: DhtView, peer: Seq<char>)
    requires
        v.wf(),
        !v.members.contains(peer),
    ensures
        ascending(v.ring_with(peer)),
        v.ring_with(peer).len() == v.members.len() + 1,
        rank(v.ring_with(peer), peer) == rank(v.members, peer),
        rank(v.members, peer) <= v.members.len(),
        v.ring_with(peer)[rank(v.members, peer) as int] == peer,
        rank(v.members, v.own) < v.members.len(),
        v.members[rank(v.members, v.own) as int] == v.own,
        rank(v.ring_with(peer), v.own) == if rank(v.members, v.own) < rank(v.members, peer) {
            rank(v.members, v.own)
        } else {
            rank(v.members, v.own) + 1
        },
        v.ring_with(peer).contains(v.own),
        forall|x: int|
            0 <= x < v.ring_with(peer).len() && x != rank(v.members, peer) ==> #[trigger] v.ring_with(
                peer,
            )[x] == v.members[if x < rank(v.members, peer) {
                x
            } else {
                x - 1
            }],
{
    lemma_before_is_strict_total_order();
    let ring = v.ring_with(peer);
    let r = rank(v.members, peer) as int;
    lemma_rank_splits(v.members, peer);
    lemma_rank_splits(v.members, v.own);
    lemma_insert_keeps_ascending(v.members, peer);
    let i0 = rank(v.members, v.own) as int;
    let i = if i0 < r {
        i0
    } else {
        i0 + 1
    };
    assert(ring[i] == v.own);
    lemma_rank_splits(ring, v.own);
    let ri = rank(ring, v.own) as int;
    if ri < i {
        assert(before(ring[ri], ring[i]));
    }
    if i < ri {
        assert(before(ring[i], ring[ri]));
    }
}

/// The ring after a leave: the members before `peer` keep their positions,
/// the members after it move down by one.
pub proof fn lemma_ring_without(v: DhtView, peer: Seq<char>)
    requires
        v.wf(),
        v.can_part(peer),
    ensures
        ascending(v.ring_without(peer)),
        v.ring_without(peer).len() == v.members.len() - 1,
        rank(v.members, peer) < v.members.len(),
        rank(v.members, v.own) < v.members.len(),
        rank(v.members, v.own) != rank(v.members, peer),
        v.members[rank(v.members, v.own) as int] == v.own,
        v.members[rank(v.members, peer) as int] == peer,
        rank(v.ring_without(peer), v.own) == if rank(v.members, v.own) < rank(v.members, peer) {
            rank(v.members, v.own) as int
        } else {
            rank(v.members, v.own) - 1
        },
        v.ring_without(peer).contains(v.own),
        forall|x: int|
            0 <= x < v.ring_without(peer).len() ==> #[trigger] v.ring_without(peer)[x]
                == v.members[if x < rank(v.members, peer) {
                x
            } else {
                x + 1
            }],
{
    lemma_before_is_strict_total_order();
    let ring = v.ring_without(peer);
    let j = rank(v.members, peer) as int;
    lemma_rank_splits(v.members, peer);
    lemma_rank_splits(v.members, v.own);
    lemma_remove_keeps_ascending(v.members, j);
    let i0 = rank(v.members, v.own) as int;
    let i = if i0 < j {
        i0
    } else {
        i0 - 1
    };
    assert(ring[i] == v.own);
    lemma_rank_splits(ring, v.own);
    let ri = rank(ring, v.own) as int;
    if ri < i {
        assert(before(ring[ri], ring[i]));
    }
    if i < ri {
        assert(before(ring[i], ring[ri]));
    }
}

/// A join keeps the store well formed.
pub proof fn lemma_joined_wf(v: DhtView, peer: Seq<char>)
    requires
        v.wf(),
    ensures
        v.joined(peer).wf(),
{
    if !v.members.contains(peer) {
        lemma_ring_with(v, peer);
        if v.members.len() >= 2 {
            match v.yielded(peer) {
                Some((a, b)) => {
                    lemma_filter_listed(v.entries, not_within(a, b));
                },
                None => {},
            }
        }
    }
}

/// A leave keeps the store well formed.
pub proof fn lemma_parted_wf(v: DhtView, peer: Seq<char>)
    requires
        v.wf(),
    ensures
        v.parted(peer).wf(),
{
    if v.can_part(peer) {
        lemma_ring_without(v, peer);
    }
}

/// On a ring of one or two members the local member holds every identifier.
pub proof fn law_small_ring_holds_all(v: DhtView)
    requires
        v.wf(),
        v.members.len() <= 2,
    ensures
        v.holds_only_own_share(),
{
    lemma_rank_splits(v.members, v.own);
}

/// When a member joins, no entry stays behind that the local member is no
/// longer responsible for.
pub proof fn law_join_leaves_no_stray_entry(v: DhtView, peer: Seq<char>)
    requires
        v.wf(),
        v.holds_only_own_share(),
    ensures
        v.joined(peer).wf(),
        v.joined(peer).holds_only_own_share(),
{
    lemma_joined_wf(v, peer);
    lemma_before_is_strict_total_order();
    let w = v.joined(peer);
    if v.members.contains(peer) {
    } else if v.members.len() < 2 {
        lemma_ring_with(v, peer);
        law_small_ring_holds_all(w);
    } else {
        lemma_ring_with(v, peer);
        lemma_rank_splits(v.members, v.own);
        let ring = v.ring_with(peer);
        let n = ring.len() as int;
        let n0 = v.members.len() as int;
        let at = rank(ring, peer) as int;
        let i = rank(ring, v.own) as int;
        let i0 = rank(v.members, v.own) as int;
        let first = back(i, n);
        let second = back(first, n);
        let third = back(second, n);
        let old_second = back(back(i0, n0), n0);
        assert(ring[i] == v.own);
        if at == first || at == second {
            let a = ring[third];
            let b = ring[second];
            assert(v.members[old_second] == a);
            assert(v.yielded(peer) == Some((a, if at == first { b } else { peer })));
            assert(at == second ==> b == peer);
            if third != i {
                lemma_arc_of_positions(ring, third, second, i);
            } else {
                assert(n == 3);
                assert(second != i);
                if second < i {
                    assert(before(ring[second], ring[i]));
                } else {
                    assert(before(ring[i], ring[second]));
                }
            }
            lemma_filter_keeps_order(v.entries, not_within(a, b));
            assert forall|x: int| 0 <= x < w.entries.len() implies responsible(
                w.members,
                w.own,
                #[trigger] w.entries[x].0,
            ) by {
                let k = w.entries[x].0;
                assert(v.entries.contains(w.entries[x]));
                let y = choose|y: int| 0 <= y < v.entries.len() && v.entries[y] == w.entries[x];
                assert(responsible(v.members, v.own, v.entries[y].0));
                assert(not_within(a, b)(w.entries[x]));
                assert(on_arc(a, v.own, k));
                lemma_arc_cut(a, b, v.own, k);
            }
        } else {
            assert(v.yielded(peer) is None);
            assert(ring[second] == v.members[old_second]);
        }
    }
}

/// When a member leaves, every entry stays within what the local member is
/// responsible for.
pub proof fn law_part_leaves_no_stray_entry(v: DhtView, peer: Seq<char>)
    requires
        v.wf(),
        v.holds_only_own_share(),
    ensures
        v.parted(peer).wf(),
        v.parted(peer).holds_only_own_share(),
{
    lemma_parted_wf(v, peer);
    lemma_before_is_strict_total_order();
    let w = v.parted(peer);
    if !v.can_part(peer) {
    } else if w.members.len() <= 2 {
        law_small_ring_holds_all(w);
    } else {
        lemma_ring_without(v, peer);
        let ring = w.members;
        let n = ring.len() as int;
        let n0 = v.members.len() as int;
        let j = rank(v.members, peer) as int;
        let i = rank(ring, v.own) as int;
        let i0 = rank(v.members, v.own) as int;
        let second = back(back(i, n), n);
        let old_first = back(i0, n0);
        let old_second = back(old_first, n0);
        let old_third = back(old_second, n0);
        assert(ring[i] == v.own);
        if j == old_first || j == old_second {
            assert(ring[second] == v.members[old_third]);
            lemma_arc_of_positions(v.members, old_third, old_second, i0);
            assert forall|x: int| 0 <= x < w.entries.len() implies responsible(
                w.members,
                w.own,
                #[trigger] w.entries[x].0,
            ) by {
                assert(responsible(v.members, v.own, v.entries[x].0));
                lemma_arc_grows(
                    v.members[old_third],
                    v.members[old_second],
                    v.own,
                    w.entries[x].0,
                );
            }
        } else {
            assert(ring[second] == v.members[old_second]);
            assert forall|x: int| 0 <= x < w.entries.len() implies responsible(
                w.members,
                w.own,
                #[trigger] w.entries[x].0,
            ) by {
                assert(responsible(v.members, v.own, v.entries[x].0));
            }
        }
    }
}

/// A change of membership as the local member observes it.
pub enum Churn {
    /// The named peer joins the ring.
    Join(Seq<char>),
    /// The named peer leaves the ring.
    Part(Seq<char>),
}

/// The store after a sequence of membership changes.
pub open spec fn after_churn(v: DhtView, changes: Seq<Churn>) -> DhtView
    decreases changes.len(),
{
    if changes.len() == 0 {
        v
    } else {
        let w = after_churn(v, changes.drop_last());
        match changes.last() {
            Churn::Join(peer) => w.joined(peer),
            Churn::Part(peer) => w.parted(peer),
        }
    }
}

/// Starting from a ring that holds the local member alone, whatever its
/// mailbox holds, no sequence of joins and leaves leaves an entry in the
/// mailbox that the local member is not responsible for as owner or backup.
pub proof fn law_churn_never_leaks(v: DhtView, changes: Seq<Churn>)
    requires
        v.wf(),
        v.members.len() == 1,
    ensures
        after_churn(v, changes).wf(),
        after_churn(v, changes).holds_only_own_share(),
    decreases changes.len(),
{
    if changes.len() == 0 {
        law_small_ring_holds_all(v);
    } else {
        law_churn_never_leaks(v, changes.drop_last());
        let w = after_churn(v, changes.drop_last());
        match changes.last() {
            Churn::Join(peer) => law_join_leaves_no_stray_entry(w, peer),
            Churn::Part(peer) => law_part_leaves_no_stray_entry(w, peer),
        }
    }
}

/// The owner that `closest` names is a current member, and the answer is
/// never empty while the local member is on the ring.
pub proof fn law_owner_is_a_member(v: DhtView, target: Seq<char>)
    requires
        v.wf(),
    ensures
        closest(v.members, target).len() >= 1,
        v.members.contains(closest(v.members, target)[0]),
{
    lemma_closest_is_of_members(v.members, target);
}

/// A broadcast supersedes what was stored before: after `p` was stored for
/// `x` and `b` was broadcast, `b` is held for `x`.
pub proof fn law_broadcast_supersedes(v: DhtView, x: Seq<char>, p: Seq<char>, b: Seq<char>)
    requires
        v.wf(),
    ensures
        v.stored(x, p).broadcasted(b).content(x) == Some(b),
        forall|k: Seq<char>| v.stored(x, p).broadcasted(b).content(k) == Some(b),
{
    let e = v.stored(x, p).entries;
    let f = v.stored(x, p).broadcasted(b).entries;
    crate::mailbox::lemma_put(v.entries, x, p);
    assert(owners(f) =~= owners(e));
    assert forall|k: Seq<char>| v.stored(x, p).broadcasted(b).content(k) == Some(b) by {
        if crate::mailbox::as_map(f).contains_key(k) {
            lemma_rank_splits(owners(f), k);
        }
    }
}

} // verus!
