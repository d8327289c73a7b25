//! The alias table: which identifier owns which alias.
//!
//! An alias belongs to the identifier that claimed it first, and an
//! identifier has one alias at most: when it adopts a new one, the old one
//! is released.

use crate::protocol::{alias_views, Alias, AliasView};
use crate::seqs::{lemma_filter_keeps_order, lemma_filter_none, lemma_filter_step};
use vstd::prelude::*;

verus! {

/// Whether some identifier owns `name`.
pub open spec fn claimed(table: Seq<AliasView>, name: Seq<char>) -> bool {
    exists|i: int| 0 <= i < table.len() && (#[trigger] table[i]).alias == name
}

/// Selects the pairs that `owner` does not own.
pub open spec fn not_owned_by(owner: Seq<char>) -> spec_fn(AliasView) -> bool {
    |a: AliasView| a.peer != owner
}

/// The table after `owner` has asked for `name`: unchanged where `name` is
/// claimed already; else without what `owner` held before, and with `name`
/// bound to `owner`.
pub open spec fn claim(table: Seq<AliasView>, owner: Seq<char>, name: Seq<char>) -> Seq<
    AliasView,
> {
    if claimed(table, name) {
        table
    } else {
        table.filter(not_owned_by(owner)).push(AliasView { peer: owner, alias: name })
    }
}

/// The table after every pair of `pairs` has been claimed in turn.
pub open spec fn claim_all(table: Seq<AliasView>, pairs: Seq<AliasView>) -> Seq<AliasView>
    decreases pairs.len(),
{
    if pairs.len() == 0 {
        table
    } else {
        claim(claim_all(table, pairs.drop_last()), pairs.last().peer, pairs.last().alias)
    }
}

/// No alias occurs twice, and no identifier owns two aliases.
pub open spec fn one_to_one(table: Seq<AliasView>) -> bool {
    forall|i: int, j: int|
        0 <= i < j < table.len() ==> (#[trigger] table[i]).alias != (#[trigger] table[j]).alias
            && table[i].peer != table[j].peer
}

/// The identifier that owns `name`, if any.
pub open spec fn owner_of(table: Seq<AliasView>, name: Seq<char>) -> Option<Seq<char>> {
    if claimed(table, name) {
        Some(table[choose|i: int| 0 <= i < table.len() && (#[trigger] table[i]).alias == name].peer)
    } else {
        None
    }
}

/// A claim keeps the table one to one. A claim on a name that is taken
/// changes nothing, so the name stays with its owner; a claim that succeeds
/// binds the name to the claimant.
pub proof fn law_claim(table: Seq<AliasView>, owner: Seq<char>, name: Seq<char>)
    requires
        one_to_one(table),
    ensures
        one_to_one(claim(table, owner, name)),
        claimed(claim(table, owner, name), name),
        claimed(table, name) ==> claim(table, owner, name) == table,
        claimed(table, name) ==> owner_of(claim(table, owner, name), name) == owner_of(table, name),
        !claimed(table, name) ==> owner_of(claim(table, owner, name), name) == Some(owner),
{
    if !claimed(table, name) {
        let kept = table.filter(not_owned_by(owner));
        let after = claim(table, owner, name);
        lemma_filter_keeps_order(table, not_owned_by(owner));
        assert forall|i: int, j: int| 0 <= i < j < after.len() implies (#[trigger] after[i]).alias
            != (#[trigger] after[j]).alias && after[i].peer != after[j].peer by {
            if j < kept.len() {
                let (a, b) = choose|a: int, b: int|
                    0 <= a < b < table.len() && table[a] == kept[i] && table[b] == kept[j];
            } else {
                assert(table.contains(kept[i]));
                let a = choose|a: int| 0 <= a < table.len() && table[a] == kept[i];
                assert(not_owned_by(owner)(kept[i]));
            }
        }
        let last = after.len() - 1;
        assert(after[last].alias == name);
        let w = choose|i: int| 0 <= i < after.len() && (#[trigger] after[i]).alias == name;
        if w != last {
            if w < last {
                assert(after[w].alias != after[last].alias);
            } else {
                assert(after[last].alias != after[w].alias);
            }
        }
    }
}

/// Claiming a list of pairs keeps the table one to one.
pub proof fn lemma_claim_all(table: Seq<AliasView>, pairs: Seq<AliasView>)
    requires
        one_to_one(table),
    ensures
        one_to_one(claim_all(table, pairs)),
    decreases pairs.len(),
{
    if pairs.len() > 0 {
        lemma_claim_all(table, pairs.drop_last());
        law_claim(claim_all(table, pairs.drop_last()), pairs.last().peer, pairs.last().alias);
    }
}

/// Whether some identifier owns `name`.
pub fn is_claimed(table: &Vec<Alias>, name: &String) -> (r: bool)
    ensures
        r == claimed(alias_views(table@), name@),
{
    let mut i: usize = 0;
    while i < table.len()
        invariant
            i <= table@.len(),
            forall|j: int| 0 <= j < i ==> (#[trigger] alias_views(table@)[j]).alias != name@,
        decreases table@.len() - i,
    {
        if table[i].alias == *name {
            assert(alias_views(table@)[i as int].alias == name@);
            return true;
        }
        i += 1;
    }
    false
}

/// Lets `owner` claim `name`.
pub fn claim_alias(table: &mut Vec<Alias>, owner: String, name: String)
    ensures
        alias_views(final(table)@) == claim(alias_views(old(table)@), owner@, name@),
{
    if is_claimed(table, &name) {
        return ;
    }
    let ghost t = alias_views(table@);
    let mut kept: Vec<Alias> = Vec::new();
    let mut i: usize = 0;
    assert(t.take(0) =~= Seq::<AliasView>::empty());
    proof {
        lemma_filter_none(t.take(0), not_owned_by(owner@));
    }
    assert(alias_views(kept@) =~= t.take(0).filter(not_owned_by(owner@)));
    while i < table.len()
        invariant
            t == alias_views(table@),
            i <= table@.len(),
            alias_views(kept@) == t.take(i as int).filter(not_owned_by(owner@)),
        decreases table@.len() - i,
    {
        proof {
            lemma_filter_step(t, not_owned_by(owner@), i as int);
        }
        if table[i].peer != owner {
            let ghost before_push = alias_views(kept@);
            kept.push(Alias { peer: table[i].peer.clone(), alias: table[i].alias.clone() });
            assert(alias_views(kept@) =~= before_push.push(t[i as int]));
        }
        i += 1;
    }
    assert(t.take(t.len() as int) =~= t);
    let ghost before_push = alias_views(kept@);
    kept.push(Alias { peer: owner, alias: name });
    assert(alias_views(kept@) =~= before_push.push(AliasView { peer: owner@, alias: name@ }));
    *table = kept;
}

/// A copy of the table.
pub fn copy_aliases(table: &Vec<Alias>) -> (r: Vec<Alias>)
    ensures
        alias_views(r@) == alias_views(table@),
{
    let mut out: Vec<Alias> = Vec::new();
    let mut i: usize = 0;
    assert(alias_views(out@) =~= alias_views(table@).take(0));
    while i < table.len()
        invariant
            i <= table@.len(),
            alias_views(out@) == alias_views(table@).take(i as int),
        decreases table@.len() - i,
    {
        let ghost before_push = alias_views(out@);
        out.push(Alias { peer: table[i].peer.clone(), alias: table[i].alias.clone() });
        assert(alias_views(out@) =~= before_push.push(alias_views(table@)[i as int]));
        assert(alias_views(table@).take(i as int + 1) =~= before_push.push(
            alias_views(table@)[i as int],
        ));
        i += 1;
    }
    assert(alias_views(table@).take(i as int) =~= alias_views(table@));
    out
}

} // verus!
