//! Lists of identifiers as the state machine keeps them: in the order in
//! which they were learned.

use crate::ring::{members_other_than, other_than};
use crate::sorted::texts;
use vstd::prelude::*;

verus! {

/// The list with `x` appended unless it holds `x` already.
pub open spec fn with_member(s: Seq<Seq<char>>, x: Seq<char>) -> Seq<Seq<char>> {
    if s.contains(x) {
        s
    } else {
        s.push(x)
    }
}

/// The list without any occurrence of `x`.
pub open spec fn without_member(s: Seq<Seq<char>>, x: Seq<char>) -> Seq<Seq<char>> {
    s.filter(other_than(x))
}

/// Whether the list holds `x`.
pub fn holds(v: &Vec<String>, x: &String) -> (r: bool)
    ensures
        r == texts(v@).contains(x@),
{
    let mut i: usize = 0;
    while i < v.len()
        invariant
            i <= v@.len(),
            forall|j: int| 0 <= j < i ==> texts(v@)[j] != x@,
        decreases v@.len() - i,
    {
        if v[i] == *x {
            assert(texts(v@)[i as int] == x@);
            return true;
        }
        i += 1;
    }
    false
}

/// Appends `x` unless the list holds it already.
pub fn add_member(v: &mut Vec<String>, x: String)
    ensures
        texts(final(v)@) == with_member(texts(old(v)@), x@),
{
    if !holds(v, &x) {
        v.push(x);
        assert(texts(v@) =~= texts(old(v)@).push(x@));
    }
}

/// Removes every occurrence of `x`.
pub fn drop_member(v: &mut Vec<String>, x: &String)
    ensures
        texts(final(v)@) == without_member(texts(old(v)@), x@),
{
    let kept = members_other_than(v, x);
    *v = kept;
}

/// A copy of the list.
pub fn copy_of(v: &Vec<String>) -> (r: Vec<String>)
    ensures
        texts(r@) == texts(v@),
{
    let r = v.clone();
    assert(texts(r@) =~= texts(v@));
    r
}

} // verus!
