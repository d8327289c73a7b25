//! The ring store: the sorted membership of the ring, the mailbox of
//! undelivered payloads, and the hand-off of mailbox ranges when members
//! join or leave.

use crate::mailbox::{
    as_map, listed, lookup, outside, overwritten, pairs, put, span, text_of, Mailbox,
};
use crate::order::lemma_before_is_strict_total_order;
use crate::ring::{
    back, closest, closest_members, closest_other, closest_other_members, forth, step_back,
    step_forth,
};
use crate::sorted::{
    ascending, lemma_insert_keeps_ascending, lemma_rank_splits, lemma_remove_keeps_ascending, rank,
    rank_of, texts,
};
use vstd::prelude::*;

verus! {

/// The ring store as a mathematical value.
pub struct DhtView {
    /// The local identifier.
    pub own: Seq<char>,
    /// The members of the ring, ascending.
    pub members: Seq<Seq<char>>,
    /// The mailbox, listed in ascending order of the owners.
    pub entries: Seq<(Seq<char>, Seq<char>)>,
    /// The last broadcast payload.
    pub broadcast: Option<Seq<char>>,
}

/// Mailbox entries as they travel in a hand-off to a joining member: each
/// tagged with its owner.
pub open spec fn tagged(e: Seq<(Seq<char>, Seq<char>)>) -> Seq<(Option<Seq<char>>, Seq<char>)> {
    Seq::new(e.len(), |i: int| (Some(e[i].0), e[i].1))
}

/// The views of a vector of hand-off entries.
pub open spec fn tagged_pairs(v: Seq<(Option<String>, String)>) -> Seq<
    (Option<Seq<char>>, Seq<char>),
> {
    Seq::new(v.len(), |i: int| (text_of(v[i].0), v[i].1@))
}

/// The view of the plan that `add_peer` returns.
pub open spec fn join_plan_view(p: Option<(String, Vec<(Option<String>, String)>)>) -> Option<
    (Seq<char>, Seq<(Option<Seq<char>>, Seq<char>)>),
> {
    match p {
        Some((to, content)) => Some((to@, tagged_pairs(content@))),
        None => None,
    }
}

/// The view of the plan that `remove_peer` returns.
pub open spec fn part_plan_view(p: Option<(String, Vec<(String, String)>)>) -> Option<
    (Seq<char>, Seq<(Seq<char>, Seq<char>)>),
> {
    match p {
        Some((to, content)) => Some((to@, pairs(content@))),
        None => None,
    }
}

impl DhtView {
    /// The members ascend strictly and include the local identifier, and the
    /// mailbox is listed in ascending order.
    pub open spec fn wf(self) -> bool {
        &&& ascending(self.members)
        &&& self.members.contains(self.own)
        &&& listed(self.entries)
    }

    /// The store of a node that knows no other member.
    pub open spec fn initial(own: Seq<char>) -> DhtView {
        DhtView { own, members: seq![own], entries: Seq::empty(), broadcast: None }
    }

    /// The mailbox as a map from owner to payload.
    pub open spec fn mailbox(self) -> Map<Seq<char>, Seq<char>> {
        as_map(self.entries)
    }

    /// What is held for `k`: its mailbox entry, else the last broadcast.
    pub open spec fn content(self, k: Seq<char>) -> Option<Seq<char>> {
        match lookup(self.entries, k) {
            Some(v) => Some(v),
            None => self.broadcast,
        }
    }

    /// The store after `v` has been stored for `k`.
    pub open spec fn stored(self, k: Seq<char>, v: Seq<char>) -> DhtView {
        DhtView { entries: put(self.entries, k, v), ..self }
    }

    /// The store after `v` has been broadcast.
    pub open spec fn broadcasted(self, v: Seq<char>) -> DhtView {
        DhtView { entries: overwritten(self.entries, v), broadcast: Some(v), ..self }
    }

    /// The position of the local member on the ring.
    pub open spec fn own_index(self) -> int {
        rank(self.members, self.own) as int
    }

    /// The content of a hand-off to a joining member: the entries, each
    /// tagged with its owner, then the last broadcast without an owner.
    pub open spec fn with_broadcast(self, e: Seq<(Seq<char>, Seq<char>)>) -> Seq<
        (Option<Seq<char>>, Seq<char>),
    > {
        match self.broadcast {
            Some(b) => tagged(e).push((None, b)),
            None => tagged(e),
        }
    }

    /// The ring after `peer` has joined.
    pub open spec fn ring_with(self, peer: Seq<char>) -> Seq<Seq<char>> {
        if self.members.contains(peer) {
            self.members
        } else {
            self.members.insert(rank(self.members, peer) as int, peer)
        }
    }

    /// The interval of the mailbox that the local member gives up when `peer`
    /// joins a ring that then has three members or more: `peer` became its
    /// predecessor, or the member before that. No interval is given up where
    /// `peer` stands elsewhere.
    pub open spec fn yielded(self, peer: Seq<char>) -> Option<(Seq<char>, Seq<char>)> {
        let ring = self.ring_with(peer);
        let n = ring.len() as int;
        let at = rank(ring, peer) as int;
        let first = back(rank(ring, self.own) as int, n);
        let second = back(first, n);
        let third = back(second, n);
        if at == first {
            Some((ring[third], ring[second]))
        } else if at == second {
            Some((ring[third], peer))
        } else {
            None
        }
    }

    /// The store after `peer` has joined the ring.
    pub open spec fn joined(self, peer: Seq<char>) -> DhtView {
        if self.members.contains(peer) {
            self
        } else if self.members.len() < 2 {
            DhtView { members: self.ring_with(peer), ..self }
        } else {
            match self.yielded(peer) {
                Some((a, b)) => DhtView {
                    members: self.ring_with(peer),
                    entries: outside(self.entries, a, b),
                    ..self
                },
                None => DhtView { members: self.ring_with(peer), ..self },
            }
        }
    }

    /// What the local member hands to `peer` when it joins: nothing where
    /// `peer` is a member already; the whole mailbox where the ring then has
    /// two members at most; else the interval given up, if there is one.
    pub open spec fn join_plan(self, peer: Seq<char>) -> Option<
        (Seq<char>, Seq<(Option<Seq<char>>, Seq<char>)>),
    > {
        if self.members.contains(peer) {
            None
        } else if self.members.len() < 2 {
            Some((peer, self.with_broadcast(self.entries)))
        } else {
            match self.yielded(peer) {
                Some((a, b)) => Some((peer, self.with_broadcast(span(self.entries, a, b)))),
                None => None,
            }
        }
    }

    /// Whether `peer` can leave: it is a member other than the local one.
    pub open spec fn can_part(self, peer: Seq<char>) -> bool {
        self.members.contains(peer) && peer != self.own
    }

    /// The ring after `peer` has left.
    pub open spec fn ring_without(self, peer: Seq<char>) -> Seq<Seq<char>> {
        if self.can_part(peer) {
            self.members.remove(rank(self.members, peer) as int)
        } else {
            self.members
        }
    }

    /// The store after `peer` has left the ring. The local member never leaves.
    pub open spec fn parted(self, peer: Seq<char>) -> DhtView {
        DhtView { members: self.ring_without(peer), ..self }
    }

    /// What the local member forwards when `peer` leaves, and to whom: to its
    /// new successor, the interval from its new predecessor up to `peer`
    /// where `peer` was its predecessor, and the interval from its new
    /// predecessor up to itself where `peer` was its successor. Nothing where
    /// `peer` stood elsewhere or no other member is left.
    pub open spec fn part_plan(self, peer: Seq<char>) -> Option<
        (Seq<char>, Seq<(Seq<char>, Seq<char>)>),
    > {
        let n0 = self.members.len() as int;
        let at = rank(self.members, peer) as int;
        let ring = self.ring_without(peer);
        let n = ring.len() as int;
        let i = rank(ring, self.own) as int;
        if !self.can_part(peer) || n < 2 {
            None
        } else if at == back(self.own_index(), n0) {
            Some((ring[forth(i, n)], span(self.entries, ring[back(i, n)], peer)))
        } else if at == forth(self.own_index(), n0) {
            Some((ring[forth(i, n)], span(self.entries, ring[back(i, n)], self.own)))
        } else {
            None
        }
    }
}

/// Tags each entry with its owner and appends the last broadcast, if any,
/// without an owner.
fn tag_for_joiner(content: &Vec<(String, String)>, broadcast: &Option<String>) -> (r: Vec<
    (Option<String>, String),
>)
    ensures
        tagged_pairs(r@) == match text_of(*broadcast) {
            Some(b) => tagged(pairs(content@)).push((None, b)),
            None => tagged(pairs(content@)),
        },
{
    let ghost e = pairs(content@);
    let mut out: Vec<(Option<String>, String)> = Vec::new();
    let mut i: usize = 0;
    assert(tagged_pairs(out@) =~= tagged(e).take(0));
    while i < content.len()
        invariant
            e == pairs(content@),
            i <= content@.len(),
            tagged_pairs(out@) == tagged(e).take(i as int),
        decreases content@.len() - i,
    {
        let ghost before_push = tagged_pairs(out@);
        out.push((Some(content[i].0.clone()), content[i].1.clone()));
        assert(tagged_pairs(out@) =~= before_push.push(tagged(e)[i as int]));
        assert(tagged(e).take(i as int + 1) =~= before_push.push(tagged(e)[i as int]));
        i += 1;
    }
    assert(tagged(e).take(i as int) =~= tagged(e));
    match broadcast {
        Some(b) => {
            let ghost before_push = tagged_pairs(out@);
            out.push((None, b.clone()));
            assert(tagged_pairs(out@) =~= before_push.push((None, b@)));
        },
        None => {},
    }
    out
}

/// The ring store of one node.
pub struct Dht {
    own_id: String,
    /// The members of the ring, ascending; the local node is one of them.
    online_peers: Vec<String>,
    /// The pending payload of each owner.
    peer_content: Mailbox,
    /// The last broadcast payload.
    broadcast_content: Option<String>,
}

impl View for Dht {
    type V = DhtView;

    closed spec fn view(&self) -> DhtView {
        DhtView {
            own: self.own_id@,
            members: texts(self.online_peers@),
            entries: self.peer_content.entries(),
            broadcast: text_of(self.broadcast_content),
        }
    }
}

impl Dht {
    /// The invariant of the store: its view is well formed.
    pub closed spec fn wf(&self) -> bool {
        self@.wf() && self.peer_content.wf()
    }

    /// The view of a well-formed store is well formed.
    pub proof fn lemma_view_wf(&self)
        requires
            self.wf(),
        ensures
            self@.wf(),
    {
    }

    /// The store of a node that knows no other member yet.
    pub fn new(own_id: String) -> (dht: Dht)
        ensures
            dht.wf(),
            dht@ == DhtView::initial(own_id@),
    {
        let mut online_peers: Vec<String> = Vec::new();
        online_peers.push(own_id.clone());
        let dht = Dht {
            own_id,
            online_peers,
            peer_content: Mailbox::new(),
            broadcast_content: None,
        };
        assert(dht@.members =~= seq![own_id@]);
        assert(dht@.members[0] == own_id@);
        dht
    }

    /// Adds `peer` to the ring and returns what has to be handed to it: the
    /// recipient and the entries, each with its owner, the last broadcast
    /// without one. The entries of an interval that the local member gives up
    /// leave the mailbox.
    pub fn add_peer(&mut self, peer: String) -> (plan: Option<
        (String, Vec<(Option<String>, String)>),
    >)
        requires
            old(self).wf(),
        ensures
            final(self).wf(),
            final(self)@ == old(self)@.joined(peer@),
            join_plan_view(plan) == old(self)@.join_plan(peer@),
    {
        let ghost before_all = self@;
        proof {
            lemma_before_is_strict_total_order();
            lemma_rank_splits(self@.members, peer@);
            self.peer_content.lemma_listed();
        }
        let peer_index = rank_of(&self.online_peers, peer.as_str());
        if peer_index < self.online_peers.len() && self.online_peers[peer_index] == peer {
            return None;
        }
        proof {
            lemma_insert_keeps_ascending(self@.members, peer@);
        }
        self.online_peers.insert(peer_index, peer.clone());
        proof {
            assert(texts(self.online_peers@) =~= before_all.ring_with(peer@));
            let ring = texts(self.online_peers@);
            assert(ring[peer_index as int] == peer@);
            let i = choose|i: int| 0 <= i < before_all.members.len() && before_all.members[i] == before_all.own;
            let j = if i < peer_index { i } else { i + 1 };
            assert(ring[j] == before_all.own);
            lemma_rank_splits(ring, before_all.own);
        }
        let own_index = rank_of(&self.online_peers, self.own_id.as_str());
        let online_count = self.online_peers.len();
        if online_count <= 2 {
            let content = self.peer_content.listing();
            return Some((peer, tag_for_joiner(&content, &self.broadcast_content)));
        }
        let prev_index = step_back(own_index, online_count);
        let prev_prev_index = step_back(prev_index, online_count);
        let prev_prev_prev_index = step_back(prev_prev_index, online_count);
        if peer_index == prev_index {
            let a_id = self.online_peers[prev_prev_prev_index].clone();
            let b_id = self.online_peers[prev_prev_index].clone();
            let content = self.peer_content.span(&a_id, &b_id);
            self.peer_content.remove_span(&a_id, &b_id);
            proof {
                crate::mailbox::lemma_filter_listed(
                    before_all.entries,
                    crate::mailbox::not_within(a_id@, b_id@),
                );
            }
            Some((peer, tag_for_joiner(&content, &self.broadcast_content)))
        } else if peer_index == prev_prev_index {
            let a_id = self.online_peers[prev_prev_prev_index].clone();
            let content = self.peer_content.span(&a_id, &peer);
            self.peer_content.remove_span(&a_id, &peer);
            proof {
                crate::mailbox::lemma_filter_listed(
                    before_all.entries,
                    crate::mailbox::not_within(a_id@, peer@),
                );
            }
            Some((peer, tag_for_joiner(&content, &self.broadcast_content)))
        } else {
            None
        }
    }

    /// Removes `peer` from the ring and returns what has to be forwarded, and
    /// to whom. The mailbox stays as it is, and the local member never leaves.
    pub fn remove_peer(&mut self, peer: &String) -> (plan: Option<(String, Vec<(String, String)>)>)
        requires
            old(self).wf(),
        ensures
            final(self).wf(),
            final(self)@ == old(self)@.parted(peer@),
            part_plan_view(plan) == old(self)@.part_plan(peer@),
    {
        let ghost before_all = self@;
        proof {
            lemma_before_is_strict_total_order();
            lemma_rank_splits(self@.members, peer@);
            lemma_rank_splits(self@.members, self@.own);
        }
        let peer_index = rank_of(&self.online_peers, peer.as_str());
        if peer_index >= self.online_peers.len() || self.online_peers[peer_index] != *peer {
            return None;
        }
        if *peer == self.own_id {
            return None;
        }
        let old_count = self.online_peers.len();
        let old_own_index = rank_of(&self.online_peers, self.own_id.as_str());
        let was_prev = peer_index == step_back(old_own_index, old_count);
        let was_next = peer_index == step_forth(old_own_index, old_count);
        proof {
            lemma_remove_keeps_ascending(self@.members, peer_index as int);
        }
        self.online_peers.remove(peer_index);
        proof {
            assert(texts(self.online_peers@) =~= before_all.ring_without(peer@));
            let ring = texts(self.online_peers@);
            let j = if old_own_index < peer_index { old_own_index as int } else { old_own_index - 1 };
            assert(ring[j] == before_all.own);
            lemma_rank_splits(ring, before_all.own);
        }
        let online_count = self.online_peers.len();
        if online_count < 2 {
            return None;
        }
        let own_index = rank_of(&self.online_peers, self.own_id.as_str());
        let prev_index = step_back(own_index, online_count);
        let next_index = step_forth(own_index, online_count);
        if was_prev {
            let a_id = self.online_peers[prev_index].clone();
            let content = self.peer_content.span(&a_id, peer);
            Some((self.online_peers[next_index].clone(), content))
        } else if was_next {
            let b_id = self.online_peers[prev_index].clone();
            let content = self.peer_content.span(&b_id, &self.own_id);
            Some((self.online_peers[next_index].clone(), content))
        } else {
            None
        }
    }

    /// The entries whose owner lies in the closed interval from `start`
    /// upwards to `end`, wrapping past the largest identifier where `end`
    /// sorts before `start`; in ring order, starting at `start`.
    pub fn get_content_between(&mut self, start: &String, end: &String) -> (r: Vec<
        (String, String),
    >)
        requires
            old(self).wf(),
        ensures
            *final(self) == *old(self),
            pairs(r@) == span(old(self)@.entries, start@, end@),
    {
        self.peer_content.span(start, end)
    }

    /// Stores `data` for `target`, replacing what was pending for it.
    pub fn store(&mut self, target: String, data: String)
        requires
            old(self).wf(),
        ensures
            final(self).wf(),
            final(self)@ == old(self)@.stored(target@, data@),
            final(self)@.mailbox() == old(self)@.mailbox().insert(target@, data@),
    {
        self.peer_content.store(target, data);
        proof {
            self.peer_content.lemma_listed();
        }
    }

    /// Records `data` as the last broadcast and overwrites every pending
    /// payload with it.
    pub fn store_broadcast_content(&mut self, data: String)
        requires
            old(self).wf(),
        ensures
            final(self).wf(),
            final(self)@ == old(self)@.broadcasted(data@),
            forall|k: Seq<char>| final(self)@.content(k) == Some(data@),
    {
        self.peer_content.overwrite_all(&data);
        self.broadcast_content = Some(data);
        proof {
            let e = old(self)@.entries;
            let f = overwritten(e, data@);
            assert(crate::mailbox::owners(f) =~= crate::mailbox::owners(e));
            assert forall|k: Seq<char>| self@.content(k) == Some(data@) by {
                if as_map(f).contains_key(k) {
                    lemma_rank_splits(crate::mailbox::owners(f), k);
                }
            }
        }
    }

    /// The members responsible for `target`: the owner, the smallest member
    /// that is `target` or sorts after it, or the first member where there is
    /// none; then the backup, the next member on the ring, where that is
    /// another one.
    pub fn get_closest_peers(&mut self, target: &String) -> (r: Vec<String>)
        requires
            old(self).wf(),
        ensures
            *final(self) == *old(self),
            texts(r@) == closest(old(self)@.members, target@),
            1 <= r@.len() <= 2,
            old(self)@.members.contains(r@[0]@),
    {
        proof {
            crate::ring::lemma_closest_is_of_members(self@.members, target@);
                    }
        let r = closest_members(&self.online_peers, target);
        assert(texts(r@)[0] == r@[0]@);
        r
    }

    /// The members responsible for `target` when `target` itself is no
    /// candidate: the answer never names `target`.
    pub fn get_closest_other(&self, target: &String) -> (r: Vec<String>)
        requires
            self.wf(),
        ensures
            texts(r@) == closest_other(self@.members, target@),
            r@.len() <= 2,
            forall|i: int|
                0 <= i < r@.len() ==> self@.members.contains(#[trigger] r@[i]@) && r@[i]@
                    != target@,
    {
        proof {
            crate::ring::lemma_closest_other_is_of_others(self@.members, target@);
        }
        let r = closest_other_members(&self.online_peers, target);
        assert forall|i: int| 0 <= i < r@.len() implies self@.members.contains(
            #[trigger] r@[i]@,
        ) && r@[i]@ != target@ by {
            assert(texts(r@)[i] == r@[i]@);
        }
        r
    }

    /// What is held for `target`: its pending payload, else the last
    /// broadcast, else nothing.
    pub fn get_content(&self, target: &String) -> (r: Option<String>)
        requires
            self.wf(),
        ensures
            text_of(r) == self@.content(target@),
    {
        match self.peer_content.get(target) {
            Some(v) => Some(v),
            None => self.broadcast_content.clone(),
        }
    }

    /// The members of the ring, ascending.
    pub fn get_online_peers(&self) -> (r: &Vec<String>)
        requires
            self.wf(),
        ensures
            texts(r@) == self@.members,
    {
        &self.online_peers
    }

    /// A copy of the members of the ring, ascending.
    pub fn get_peers(&self) -> (r: Vec<String>)
        requires
            self.wf(),
        ensures
            texts(r@) == self@.members,
    {
        let r = self.online_peers.clone();
        assert(texts(r@) =~= self@.members);
        r
    }
}

} // verus!
