//! The connection gate of the network layer: which peers may connect.

use crate::peers::{add_member, copy_of, drop_member, holds, with_member, without_member};
use crate::sorted::texts;
use vstd::prelude::*;

verus! {

/// Whether a gate with the given whitelist lets `peer` connect: every peer
/// while the whitelist is empty, else the listed ones.
pub open spec fn lets_in(whitelisted: Seq<Seq<char>>, peer: Seq<char>) -> bool {
    whitelisted.len() == 0 || whitelisted.contains(peer)
}

/// The list without repetitions: each text where it occurs first.
pub open spec fn distinct(s: Seq<Seq<char>>) -> Seq<Seq<char>>
    decreases s.len(),
{
    if s.len() == 0 {
        s
    } else {
        with_member(distinct(s.drop_last()), s.last())
    }
}

/// The connection whitelist.
pub struct Whitelist {
    peers: Vec<String>,
}

impl View for Whitelist {
    type V = Seq<Seq<char>>;

    closed spec fn view(&self) -> Seq<Seq<char>> {
        texts(self.peers@)
    }
}

impl Whitelist {
    /// An empty whitelist: every peer may connect.
    pub fn new() -> (w: Whitelist)
        ensures
            w@ == Seq::<Seq<char>>::empty(),
    {
        let w = Whitelist { peers: Vec::new() };
        assert(w@ =~= Seq::<Seq<char>>::empty());
        w
    }

    /// Lists `peer`, unless it is listed already.
    pub fn add(&mut self, peer: String)
        ensures
            final(self)@ == with_member(old(self)@, peer@),
    {
        add_member(&mut self.peers, peer);
    }

    /// Takes `peer` off the list.
    pub fn remove(&mut self, peer: &String)
        ensures
            final(self)@ == without_member(old(self)@, peer@),
    {
        drop_member(&mut self.peers, peer);
    }

    /// Whether `peer` is listed.
    pub fn contains(&self, peer: &String) -> (r: bool)
        ensures
            r == self@.contains(peer@),
    {
        holds(&self.peers, peer)
    }

    /// Whether `peer` may connect.
    pub fn admits(&self, peer: &String) -> (r: bool)
        ensures
            r == lets_in(self@, peer@),
    {
        self.peers.len() == 0 || holds(&self.peers, peer)
    }

    /// The listed peers, in the order in which they were listed.
    pub fn peers(&self) -> (r: Vec<String>)
        ensures
            texts(r@) == self@,
    {
        copy_of(&self.peers)
    }
}

/// The peers of a list, each once, in the order of their first occurrence.
pub fn distinct_peers(found: &Vec<String>) -> (r: Vec<String>)
    ensures
        texts(r@) == distinct(texts(found@)),
{
    let mut out: Vec<String> = Vec::new();
    let mut i: usize = 0;
    assert(texts(found@).take(0) =~= Seq::<Seq<char>>::empty());
    assert(texts(out@) =~= distinct(texts(found@).take(0)));
    while i < found.len()
        invariant
            i <= found@.len(),
            texts(out@) == distinct(texts(found@).take(i as int)),
        decreases found@.len() - i,
    {
        proof {
            assert(texts(found@).take(i as int + 1).drop_last() =~= texts(found@).take(i as int));
            assert(texts(found@).take(i as int + 1).last() == found@[i as int]@);
        }
        add_member(&mut out, found[i].clone());
        i += 1;
    }
    assert(texts(found@).take(i as int) =~= texts(found@));
    out
}

} // verus!
