//! Helpers on text: prefixes and fields between separators.

use crate::mailbox::text_of;
use vstd::prelude::*;
use vstd::string::StrSliceExecFns;

verus! {

/// The characters of a text.
pub fn chars_of(s: &str) -> (r: Vec<char>)
    ensures
        r@ == s@,
{
    let mut out: Vec<char> = Vec::new();
    for c in it: s.chars()
        invariant
            out@ == it.seq().take(it.index() as int),
            it.seq() == s@,
    {
        out.push(c);
    }
    out
}

/// Whether `line` starts with `prefix`.
pub open spec fn has_prefix(line: Seq<char>, prefix: Seq<char>) -> bool {
    prefix.len() <= line.len() && line.take(prefix.len() as int) == prefix
}

/// What follows `prefix` in `line`, where `line` starts with it.
pub open spec fn stripped(line: Seq<char>, prefix: Seq<char>) -> Option<Seq<char>> {
    if has_prefix(line, prefix) {
        Some(line.skip(prefix.len() as int))
    } else {
        None
    }
}

/// The index of the first `c` in `s`, or the length of `s` where it has none.
pub open spec fn first_index(s: Seq<char>, c: char) -> int
    decreases s.len(),
{
    if s.len() == 0 || s[0] == c {
        0
    } else {
        1 + first_index(s.drop_first(), c)
    }
}

/// The first `c` stands where no earlier character is `c`.
pub proof fn lemma_first_index(s: Seq<char>, c: char, i: int)
    requires
        0 <= i <= s.len(),
        forall|j: int| 0 <= j < i ==> s[j] != c,
        i == s.len() || s[i] == c,
    ensures
        first_index(s, c) == i,
    decreases s.len(),
{
    if i > 0 {
        let t = s.drop_first();
        assert forall|j: int| 0 <= j < i - 1 implies t[j] != c by {
            assert(t[j] == s[j + 1]);
        }
        lemma_first_index(t, c, i - 1);
    }
}

/// The two parts of `s` around its first `c`; none where `s` has no `c`.
pub open spec fn split_once(s: Seq<char>, c: char) -> Option<(Seq<char>, Seq<char>)> {
    let i = first_index(s, c);
    if i < s.len() {
        Some((s.take(i), s.skip(i + 1)))
    } else {
        None
    }
}

/// The field of index `n` among the fields that `c` separates in `s`; none
/// where `s` has fewer fields.
pub open spec fn field(s: Seq<char>, c: char, n: nat) -> Option<Seq<char>>
    decreases n,
{
    let i = first_index(s, c);
    if n == 0 {
        Some(s.take(i))
    } else if 0 <= i < s.len() {
        field(s.skip(i + 1), c, (n - 1) as nat)
    } else {
        None
    }
}

/// Whether two texts are the same.
pub fn same_text(a: &str, b: &str) -> (r: bool)
    ensures
        r == (a@ == b@),
{
    let x = chars_of(a);
    let y = chars_of(b);
    if x.len() != y.len() {
        return false;
    }
    let mut i: usize = 0;
    while i < x.len()
        invariant
            i <= x@.len(),
            x@.len() == y@.len(),
            x@ == a@,
            y@ == b@,
            forall|j: int| 0 <= j < i ==> x@[j] == y@[j],
        decreases x@.len() - i,
    {
        if x[i] != y[i] {
            assert(a@[i as int] != b@[i as int]);
            return false;
        }
        i += 1;
    }
    assert(x@ =~= y@);
    true
}

/// The index of the first `c` at or after `from`, or the length where there
/// is none.
pub fn find_from(chars: &Vec<char>, from: usize, c: char) -> (r: usize)
    requires
        from <= chars@.len(),
    ensures
        from <= r <= chars@.len(),
        r == from + first_index(chars@.skip(from as int), c),
{
    let mut i: usize = from;
    while i < chars.len() && chars[i] != c
        invariant
            from <= i <= chars@.len(),
            forall|j: int| from <= j < i ==> chars@[j] != c,
        decreases chars@.len() - i,
    {
        i += 1;
    }
    proof {
        lemma_first_index(chars@.skip(from as int), c, i - from);
    }
    i
}

/// The text of `line` between two positions.
pub fn slice_of(line: &str, chars: &Vec<char>, from: usize, to: usize) -> (r: String)
    requires
        chars@ == line@,
        from <= to <= chars@.len(),
    ensures
        r@ == line@.subrange(from as int, to as int),
{
    line.substring_char(from, to).to_owned()
}

/// What follows `prefix` in `line`, where `line` starts with it.
pub fn strip_prefix(line: &str, chars: &Vec<char>, prefix: &str) -> (r: Option<String>)
    requires
        chars@ == line@,
    ensures
        text_of(r) == stripped(line@, prefix@),
{
    let p = chars_of(prefix);
    if p.len() > chars.len() {
        return None;
    }
    let mut i: usize = 0;
    while i < p.len()
        invariant
            i <= p@.len() <= chars@.len(),
            p@ == prefix@,
            chars@ == line@,
            forall|j: int| 0 <= j < i ==> p@[j] == chars@[j],
        decreases p@.len() - i,
    {
        if p[i] != chars[i] {
            assert(line@.take(prefix@.len() as int)[i as int] != prefix@[i as int]);
            return None;
        }
        i += 1;
    }
    assert(line@.take(prefix@.len() as int) =~= prefix@);
    let rest = slice_of(line, chars, p.len(), chars.len());
    assert(line@.subrange(p@.len() as int, chars@.len() as int) =~= line@.skip(
        prefix@.len() as int,
    ));
    Some(rest)
}

/// The two parts of `line` around its first `c`; none where it has no `c`.
pub fn split_text(line: &str, c: char) -> (r: Option<(String, String)>)
    ensures
        match r {
            Some((a, b)) => split_once(line@, c) == Some((a@, b@)),
            None => split_once(line@, c) is None,
        },
{
    let chars = chars_of(line);
    assert(chars@.skip(0) =~= chars@);
    let i = find_from(&chars, 0, c);
    if i < chars.len() {
        let a = slice_of(line, &chars, 0, i);
        let b = slice_of(line, &chars, i + 1, chars.len());
        assert(line@.subrange(0, i as int) =~= line@.take(i as int));
        assert(line@.subrange(i + 1, chars@.len() as int) =~= line@.skip(i + 1));
        Some((a, b))
    } else {
        None
    }
}

/// The field of index `n` among the fields that `c` separates in `line`.
pub fn field_of(line: &str, c: char, n: usize) -> (r: Option<String>)
    ensures
        text_of(r) == field(line@, c, n as nat),
{
    let chars = chars_of(line);
    let mut start: usize = 0;
    let mut left: usize = n;
    assert(chars@.skip(0) =~= chars@);
    while left > 0
        invariant
            chars@ == line@,
            start <= chars@.len(),
            field(line@, c, n as nat) == field(chars@.skip(start as int), c, left as nat),
        decreases left,
    {
        let i = find_from(&chars, start, c);
        if i >= chars.len() {
            return None;
        }
        assert(chars@.skip(start as int).skip(i - start + 1) =~= chars@.skip(i + 1));
        start = i + 1;
        left -= 1;
    }
    let end = find_from(&chars, start, c);
    let r = slice_of(line, &chars, start, end);
    assert(line@.subrange(start as int, end as int) =~= chars@.skip(start as int).take(
        end - start,
    ));
    Some(r)
}

} // verus!
