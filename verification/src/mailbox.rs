//! The mailbox: at most one pending payload per owner, listed in key order.
//!
//! A mailbox is modelled by its listing, a sequence of `(owner, payload)`
//! pairs whose owners ascend strictly. The listing determines the map from
//! owner to payload, and it fixes the order in which ranges of entries are
//! handed out.

use crate::order::{before, is_before, lemma_before_is_strict_total_order};
use crate::seqs::{lemma_filter_keeps_order, lemma_filter_prefix, lemma_filter_step, lemma_filter_suffix};
use crate::sorted::{ascending, lemma_insert_keeps_ascending, lemma_rank_splits, rank, rank_of, texts};
use vstd::prelude::*;

verus! {

/// The owners of a listing, in order.
pub open spec fn owners(e: Seq<(Seq<char>, Seq<char>)>) -> Seq<Seq<char>> {
    Seq::new(e.len(), |i: int| e[i].0)
}

/// A listing is well formed when its owners ascend strictly.
pub open spec fn listed(e: Seq<(Seq<char>, Seq<char>)>) -> bool {
    ascending(owners(e))
}

/// The map from owner to payload that a listing stands for.
pub open spec fn as_map(e: Seq<(Seq<char>, Seq<char>)>) -> Map<Seq<char>, Seq<char>> {
    Map::new(|k: Seq<char>| owners(e).contains(k), |k: Seq<char>| e[rank(owners(e), k) as int].1)
}

/// The views of a vector of owned pairs.
pub open spec fn pairs(v: Seq<(String, String)>) -> Seq<(Seq<char>, Seq<char>)> {
    Seq::new(v.len(), |i: int| (v[i].0@, v[i].1@))
}

/// `k` lies in the closed interval that starts at `a` and runs upwards to `b`,
/// wrapping past the largest identifier to the smallest when `b` sorts before `a`.
pub open spec fn within(a: Seq<char>, b: Seq<char>, k: Seq<char>) -> bool {
    if before(b, a) {
        !before(k, a) || !before(b, k)
    } else {
        !before(k, a) && !before(b, k)
    }
}

/// Selects the entries whose owner sorts before `k`.
pub open spec fn owner_before(k: Seq<char>) -> spec_fn((Seq<char>, Seq<char>)) -> bool {
    |x: (Seq<char>, Seq<char>)| before(x.0, k)
}

/// Selects the entries whose owner sorts after `k`.
pub open spec fn owner_after(k: Seq<char>) -> spec_fn((Seq<char>, Seq<char>)) -> bool {
    |x: (Seq<char>, Seq<char>)| before(k, x.0)
}

/// Selects the entries of the interval from `a` to `b` whose owner is `a` or sorts after it.
pub open spec fn upper_part(a: Seq<char>, b: Seq<char>) -> spec_fn((Seq<char>, Seq<char>)) -> bool {
    |x: (Seq<char>, Seq<char>)| !before(x.0, a) && within(a, b, x.0)
}

/// Selects the entries of the interval from `a` to `b` whose owner sorts before `a`.
pub open spec fn lower_part(a: Seq<char>, b: Seq<char>) -> spec_fn((Seq<char>, Seq<char>)) -> bool {
    |x: (Seq<char>, Seq<char>)| before(x.0, a) && within(a, b, x.0)
}

/// Selects the entries outside the interval from `a` to `b`.
pub open spec fn not_within(a: Seq<char>, b: Seq<char>) -> spec_fn((Seq<char>, Seq<char>)) -> bool {
    |x: (Seq<char>, Seq<char>)| !within(a, b, x.0)
}

/// The listing after `v` has been stored for `k`: the entries before `k`,
/// the new entry, the entries after `k`.
pub open spec fn put(e: Seq<(Seq<char>, Seq<char>)>, k: Seq<char>, v: Seq<char>) -> Seq<
    (Seq<char>, Seq<char>),
> {
    e.filter(owner_before(k)) + seq![(k, v)] + e.filter(owner_after(k))
}

/// The listing with every payload replaced by `v`.
pub open spec fn overwritten(e: Seq<(Seq<char>, Seq<char>)>, v: Seq<char>) -> Seq<
    (Seq<char>, Seq<char>),
> {
    Seq::new(e.len(), |i: int| (e[i].0, v))
}

/// The entries of the interval from `a` to `b`, in ring order starting at `a`:
/// first those from `a` upwards, then, where the interval wraps, those up to `b`.
pub open spec fn span(e: Seq<(Seq<char>, Seq<char>)>, a: Seq<char>, b: Seq<char>) -> Seq<
    (Seq<char>, Seq<char>),
> {
    e.filter(upper_part(a, b)) + e.filter(lower_part(a, b))
}

/// The listing without the entries of the interval from `a` to `b`.
pub open spec fn outside(e: Seq<(Seq<char>, Seq<char>)>, a: Seq<char>, b: Seq<char>) -> Seq<
    (Seq<char>, Seq<char>),
> {
    e.filter(not_within(a, b))
}

/// The payload that a listing holds for `k`, if any.
pub open spec fn lookup(e: Seq<(Seq<char>, Seq<char>)>, k: Seq<char>) -> Option<Seq<char>> {
    if as_map(e).contains_key(k) {
        Some(as_map(e)[k])
    } else {
        None
    }
}

/// The view of an optional string.
pub open spec fn text_of(o: Option<String>) -> Option<Seq<char>> {
    match o {
        Some(s) => Some(s@),
        None => None,
    }
}

/// In a listing each owner stands at its rank, and the map gives its payload.
pub proof fn lemma_listing_entry(e: Seq<(Seq<char>, Seq<char>)>, i: int)
    requires
        listed(e),
        0 <= i < e.len(),
    ensures
        rank(owners(e), e[i].0) == i,
        as_map(e).contains_key(e[i].0),
        as_map(e)[e[i].0] == e[i].1,
{
    lemma_before_is_strict_total_order();
    let s = owners(e);
    lemma_rank_splits(s, e[i].0);
    assert(s[i] == e[i].0);
    let r = rank(s, e[i].0) as int;
    if r < i {
        assert(before(s[r], s[i]));
    }
    if i < r {
        assert(before(s[i], s[r]));
    }
}

/// Filtering a listing leaves a listing.
pub proof fn lemma_filter_listed(
    e: Seq<(Seq<char>, Seq<char>)>,
    p: spec_fn((Seq<char>, Seq<char>)) -> bool,
)
    requires
        listed(e),
    ensures
        listed(e.filter(p)),
{
    let f = e.filter(p);
    lemma_filter_keeps_order(e, p);
    assert forall|i: int, j: int| 0 <= i < j < owners(f).len() implies before(
        #[trigger] owners(f)[i],
        #[trigger] owners(f)[j],
    ) by {
        let (a, b) = choose|a: int, b: int|
            0 <= a < b < e.len() && e[a] == f[i] && e[b] == f[j];
        assert(before(owners(e)[a], owners(e)[b]));
    }
}

/// Storing replaces the entry at the rank of `k` where `k` has one, and
/// inserts a new entry there where it has none.
pub proof fn lemma_put_shape(e: Seq<(Seq<char>, Seq<char>)>, k: Seq<char>, v: Seq<char>)
    requires
        listed(e),
    ensures
        rank(owners(e), k) <= e.len(),
        owners(e).contains(k) ==> put(e, k, v) == e.update(rank(owners(e), k) as int, (k, v)),
        !owners(e).contains(k) ==> put(e, k, v) == e.insert(rank(owners(e), k) as int, (k, v)),
{
    lemma_before_is_strict_total_order();
    let s = owners(e);
    lemma_rank_splits(s, k);
    let r = rank(s, k) as int;
    assert forall|i: int| 0 <= i < e.len() implies (owner_before(k)(#[trigger] e[i]) <==> i < r) by {
        assert(s[i] == e[i].0);
    }
    lemma_filter_prefix(e, owner_before(k), r);
    if s.contains(k) {
        assert forall|i: int| 0 <= i < e.len() implies (owner_after(k)(#[trigger] e[i]) <==> r + 1
            <= i) by {
            assert(s[i] == e[i].0);
            if i > r {
                assert(before(s[r], s[i]));
            }
        }
        lemma_filter_suffix(e, owner_after(k), r + 1);
        assert(put(e, k, v) =~= e.update(r, (k, v)));
    } else {
        assert forall|i: int| 0 <= i < e.len() implies (owner_after(k)(#[trigger] e[i]) <==> r
            <= i) by {
            assert(s[i] == e[i].0);
            assert(s.contains(s[i]));
        }
        lemma_filter_suffix(e, owner_after(k), r);
        assert(put(e, k, v) =~= e.insert(r, (k, v)));
    }
}

/// Storing keeps a listing a listing, and on the map it is an insertion.
pub proof fn lemma_put(e: Seq<(Seq<char>, Seq<char>)>, k: Seq<char>, v: Seq<char>)
    requires
        listed(e),
    ensures
        listed(put(e, k, v)),
        as_map(put(e, k, v)) == as_map(e).insert(k, v),
{
    lemma_before_is_strict_total_order();
    lemma_put_shape(e, k, v);
    let s = owners(e);
    let r = rank(s, k) as int;
    let f = put(e, k, v);
    lemma_rank_splits(s, k);
    if s.contains(k) {
        assert(owners(f) =~= s);
    } else {
        lemma_insert_keeps_ascending(s, k);
        assert(owners(f) =~= s.insert(r, k));
    }
    assert(owners(f)[r] == k);
    lemma_listing_entry(f, r);
    assert forall|x: Seq<char>| #[trigger] as_map(e).insert(k, v).dom().contains(x) implies as_map(
        f,
    ).dom().contains(x) && as_map(f)[x] == as_map(e).insert(k, v)[x] by {
        if x != k {
            let i = choose|i: int| 0 <= i < s.len() && s[i] == x;
            lemma_listing_entry(e, i);
            let j = if s.contains(k) || i < r {
                i
            } else {
                i + 1
            };
            assert(f[j] == e[i]);
            lemma_listing_entry(f, j);
        }
    }
    assert forall|x: Seq<char>| #[trigger] as_map(f).dom().contains(x) implies as_map(e).insert(
        k,
        v,
    ).dom().contains(x) by {
        let j = choose|j: int| 0 <= j < owners(f).len() && owners(f)[j] == x;
        if j != r {
            let i = if s.contains(k) || j < r {
                j
            } else {
                j - 1
            };
            assert(f[j] == e[i]);
            assert(s[i] == x);
        }
    }
    assert(as_map(f) =~= as_map(e).insert(k, v));
}

/// The listing held by two vectors of equal length, owners and payloads.
pub open spec fn zipped(keys: Seq<String>, values: Seq<String>) -> Seq<(Seq<char>, Seq<char>)> {
    Seq::new(keys.len(), |i: int| (keys[i]@, values[i]@))
}

/// Whether `k` lies in the closed interval from `a` upwards to `b`, wrapping
/// where `b` sorts before `a`.
pub fn is_within(a: &str, b: &str, k: &str) -> (r: bool)
    ensures
        r == within(a@, b@, k@),
{
    let from_a = !is_before(k, a);
    let up_to_b = !is_before(b, k);
    if is_before(b, a) {
        from_a || up_to_b
    } else {
        from_a && up_to_b
    }
}

/// A mailbox: owners in ascending order, each with its pending payload.
pub struct Mailbox {
    keys: Vec<String>,
    values: Vec<String>,
}

impl Mailbox {
    /// The entries, in ascending order of their owners.
    pub closed spec fn entries(&self) -> Seq<(Seq<char>, Seq<char>)> {
        zipped(self.keys@, self.values@)
    }

    /// Every owner has one payload, and the owners ascend strictly.
    pub closed spec fn wf(&self) -> bool {
        self.keys@.len() == self.values@.len() && ascending(texts(self.keys@))
    }

    /// The entries of a well-formed mailbox form a listing.
    pub proof fn lemma_listed(&self)
        requires
            self.wf(),
        ensures
            listed(self.entries()),
    {
        assert(owners(self.entries()) =~= texts(self.keys@));
    }

    /// An empty mailbox.
    pub fn new() -> (m: Mailbox)
        ensures
            m.wf(),
            m.entries() == Seq::<(Seq<char>, Seq<char>)>::empty(),
    {
        let m = Mailbox { keys: Vec::new(), values: Vec::new() };
        assert(m.entries() =~= Seq::<(Seq<char>, Seq<char>)>::empty());
        m
    }

    /// The payload stored for `k`, if there is one.
    pub fn get(&self, k: &String) -> (r: Option<String>)
        requires
            self.wf(),
        ensures
            text_of(r) == lookup(self.entries(), k@),
    {
        let i = rank_of(&self.keys, k.as_str());
        proof {
            self.lemma_listed();
            lemma_rank_splits(texts(self.keys@), k@);
            assert(owners(self.entries()) =~= texts(self.keys@));
        }
        if i < self.keys.len() && self.keys[i] == *k {
            Some(self.values[i].clone())
        } else {
            None
        }
    }

    /// Stores `v` for `k`, replacing what was stored for `k` before.
    pub fn store(&mut self, k: String, v: String)
        requires
            old(self).wf(),
        ensures
            final(self).wf(),
            final(self).entries() == put(old(self).entries(), k@, v@),
            as_map(final(self).entries()) == as_map(old(self).entries()).insert(k@, v@),
    {
        let i = rank_of(&self.keys, k.as_str());
        proof {
            self.lemma_listed();
            lemma_rank_splits(texts(self.keys@), k@);
            lemma_put_shape(self.entries(), k@, v@);
            lemma_put(self.entries(), k@, v@);
            assert(owners(self.entries()) =~= texts(self.keys@));
        }
        if i < self.keys.len() && self.keys[i] == k {
            self.values.set(i, v);
            assert(self.entries() =~= old(self).entries().update(i as int, (k@, v@)));
        } else {
            self.keys.insert(i, k);
            self.values.insert(i, v);
            assert(self.entries() =~= old(self).entries().insert(i as int, (k@, v@)));
            assert(texts(self.keys@) =~= owners(self.entries()));
        }
    }

    /// Replaces every payload by `v`.
    pub fn overwrite_all(&mut self, v: &String)
        requires
            old(self).wf(),
        ensures
            final(self).wf(),
            final(self).entries() == overwritten(old(self).entries(), v@),
    {
        let mut i: usize = 0;
        while i < self.values.len()
            invariant
                i <= self.values@.len(),
                self.keys@ == old(self).keys@,
                self.values@.len() == old(self).values@.len(),
                self.keys@.len() == self.values@.len(),
                forall|j: int| 0 <= j < i ==> (#[trigger] self.values@[j])@ == v@,
                forall|j: int|
                    i <= j < self.values@.len() ==> #[trigger] self.values@[j] == old(
                        self,
                    ).values@[j],
            decreases self.values@.len() - i,
        {
            self.values.set(i, v.clone());
            i += 1;
        }
        assert(self.entries() =~= overwritten(old(self).entries(), v@));
    }

    /// All entries, in ascending order of their owners.
    pub fn listing(&self) -> (r: Vec<(String, String)>)
        requires
            self.wf(),
        ensures
            pairs(r@) == self.entries(),
    {
        let mut out: Vec<(String, String)> = Vec::new();
        let mut i: usize = 0;
        assert(pairs(out@) =~= self.entries().take(0));
        while i < self.keys.len()
            invariant
                self.wf(),
                i <= self.keys@.len(),
                pairs(out@) == self.entries().take(i as int),
            decreases self.keys@.len() - i,
        {
            let ghost before_push = pairs(out@);
            out.push((self.keys[i].clone(), self.values[i].clone()));
            assert(pairs(out@) =~= before_push.push(self.entries()[i as int]));
            assert(self.entries().take(i as int + 1) =~= before_push.push(self.entries()[i as int]));
            i += 1;
        }
        assert(self.entries().take(i as int) =~= self.entries());
        out
    }

    /// The entries of the interval from `a` to `b`, in ring order starting at `a`.
    pub fn span(&self, a: &String, b: &String) -> (r: Vec<(String, String)>)
        requires
            self.wf(),
        ensures
            pairs(r@) == span(self.entries(), a@, b@),
    {
        let ghost e = self.entries();
        let mut out: Vec<(String, String)> = Vec::new();
        let mut i: usize = 0;
        assert(e.take(0) =~= Seq::<(Seq<char>, Seq<char>)>::empty());
        proof {
            crate::seqs::lemma_filter_none(e.take(0), upper_part(a@, b@));
            crate::seqs::lemma_filter_none(e.take(0), lower_part(a@, b@));
        }
        assert(pairs(out@) =~= e.take(0).filter(upper_part(a@, b@)));
        while i < self.keys.len()
            invariant
                self.wf(),
                e == self.entries(),
                i <= self.keys@.len(),
                pairs(out@) == e.take(i as int).filter(upper_part(a@, b@)),
            decreases self.keys@.len() - i,
        {
            proof {
                lemma_filter_step(e, upper_part(a@, b@), i as int);
            }
            let k = &self.keys[i];
            if !is_before(k.as_str(), a.as_str()) && is_within(
                a.as_str(),
                b.as_str(),
                k.as_str(),
            ) {
                let ghost before_push = pairs(out@);
                out.push((k.clone(), self.values[i].clone()));
                assert(pairs(out@) =~= before_push.push(e[i as int]));
            }
            i += 1;
        }
        assert(e.take(e.len() as int) =~= e);
        let ghost upper = pairs(out@);
        let mut i: usize = 0;
        assert(upper + e.take(0).filter(lower_part(a@, b@)) =~= upper);
        while i < self.keys.len()
            invariant
                self.wf(),
                e == self.entries(),
                i <= self.keys@.len(),
                upper == e.filter(upper_part(a@, b@)),
                pairs(out@) == upper + e.take(i as int).filter(lower_part(a@, b@)),
            decreases self.keys@.len() - i,
        {
            proof {
                lemma_filter_step(e, lower_part(a@, b@), i as int);
            }
            let k = &self.keys[i];
            if is_before(k.as_str(), a.as_str()) && is_within(a.as_str(), b.as_str(), k.as_str()) {
                let ghost before_push = pairs(out@);
                out.push((k.clone(), self.values[i].clone()));
                assert(pairs(out@) =~= before_push.push(e[i as int]));
                assert(upper + e.take(i as int).filter(lower_part(a@, b@)).push(e[i as int])
                    =~= before_push.push(e[i as int]));
            }
            i += 1;
        }
        assert(e.take(e.len() as int) =~= e);
        out
    }

    /// Removes the entries of the interval from `a` to `b`.
    pub fn remove_span(&mut self, a: &String, b: &String)
        requires
            old(self).wf(),
        ensures
            final(self).wf(),
            final(self).entries() == outside(old(self).entries(), a@, b@),
    {
        let ghost e = self.entries();
        let mut keys: Vec<String> = Vec::new();
        let mut values: Vec<String> = Vec::new();
        let mut i: usize = 0;
        assert(e.take(0) =~= Seq::<(Seq<char>, Seq<char>)>::empty());
        proof {
            crate::seqs::lemma_filter_none(e.take(0), not_within(a@, b@));
        }
        assert(zipped(keys@, values@) =~= e.take(0).filter(not_within(a@, b@)));
        while i < self.keys.len()
            invariant
                self.wf(),
                e == self.entries(),
                i <= self.keys@.len(),
                keys@.len() == values@.len(),
                zipped(keys@, values@) == e.take(i as int).filter(not_within(a@, b@)),
            decreases self.keys@.len() - i,
        {
            proof {
                lemma_filter_step(e, not_within(a@, b@), i as int);
            }
            let k = &self.keys[i];
            if !is_within(a.as_str(), b.as_str(), k.as_str()) {
                let ghost before_push = zipped(keys@, values@);
                keys.push(k.clone());
                values.push(self.values[i].clone());
                assert(zipped(keys@, values@) =~= before_push.push(e[i as int]));
            }
            i += 1;
        }
        proof {
            assert(e.take(e.len() as int) =~= e);
            self.lemma_listed();
            lemma_filter_listed(e, not_within(a@, b@));
            assert(texts(keys@) =~= owners(zipped(keys@, values@)));
        }
        self.keys = keys;
        self.values = values;
    }
}

} // verus!
