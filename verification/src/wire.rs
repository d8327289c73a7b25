//! The wire primitives of the control protocol: variable-length integers
//! and length-delimited fields, as Protocol Buffers lays them out.

use vstd::prelude::*;

verus! {

/// The variable-length encoding of `v`: seven bits a byte, the low bits
/// first, the high bit of a byte set while more bytes follow.
pub open spec fn varint(v: nat) -> Seq<u8>
    decreases v,
{
    if v < 128 {
        seq![v as u8]
    } else {
        seq![(v % 128 + 128) as u8] + varint(v / 128)
    }
}

/// Reads a variable-length integer of at most `room` bytes from the front of
/// `b`: its value and the number of bytes it takes. There is none where `b`
/// ends, or `room` is used up, before a byte without the high bit, or where
/// the last byte that `room` admits is 2 or more.
pub open spec fn take_varint(b: Seq<u8>, room: nat) -> Option<(nat, nat)>
    decreases room,
{
    if room == 0 || b.len() == 0 {
        None
    } else if b[0] < 128 {
        if room == 1 && b[0] >= 2 {
            None
        } else {
            Some((b[0] as nat, 1nat))
        }
    } else {
        match take_varint(b.drop_first(), (room - 1) as nat) {
            Some((v, n)) => Some((((b[0] - 128) + 128 * v) as nat, n + 1)),
            None => None,
        }
    }
}

/// The values that a variable-length integer of at most `room` bytes can
/// have lie below this bound.
pub open spec fn varint_bound(room: nat) -> nat
    decreases room,
{
    if room <= 1 {
        2
    } else {
        128 * varint_bound((room - 1) as nat)
    }
}

/// Ten bytes hold any 64-bit value.
pub proof fn lemma_varint_bound_of_ten()
    ensures
        varint_bound(10) == 0x1_0000_0000_0000_0000,
{
    assert(varint_bound(1) == 2);
    assert(varint_bound(2) == 0x100);
    assert(varint_bound(3) == 0x8000);
    assert(varint_bound(4) == 0x40_0000);
    assert(varint_bound(5) == 0x2000_0000);
    assert(varint_bound(6) == 0x10_0000_0000);
    assert(varint_bound(7) == 0x800_0000_0000);
    assert(varint_bound(8) == 0x4_0000_0000_0000);
    assert(varint_bound(9) == 0x200_0000_0000_0000);
}

/// What `take_varint` reads lies within the bytes and below the bound.
pub proof fn lemma_take_varint_bounds(b: Seq<u8>, room: nat)
    requires
        room >= 1,
    ensures
        match take_varint(b, room) {
            Some((v, n)) => 1 <= n <= room && n <= b.len() && v < varint_bound(room),
            None => true,
        },
    decreases room,
{
    if room > 1 {
        lemma_varint_bound_grows((room - 1) as nat);
        assert(varint_bound(room) == 128 * varint_bound((room - 1) as nat));
    }
    if b.len() > 0 && b[0] >= 128 {
        if room > 1 {
            lemma_take_varint_bounds(b.drop_first(), (room - 1) as nat);
        } else {
            assert(take_varint(b.drop_first(), 0) is None);
        }
    }
}

/// The bound is 2 at least.
pub proof fn lemma_varint_bound_grows(room: nat)
    ensures
        varint_bound(room) >= 2,
    decreases room,
{
    if room > 1 {
        lemma_varint_bound_grows((room - 1) as nat);
    }
}

/// Reading gives back what was encoded, whatever follows it.
pub proof fn lemma_varint_round_trip(v: nat, rest: Seq<u8>, room: nat)
    requires
        room >= 1,
        v < varint_bound(room),
    ensures
        take_varint(varint(v) + rest, room) == Some((v, varint(v).len())),
        1 <= varint(v).len() <= room,
    decreases room,
{
    let b = varint(v) + rest;
    if v < 128 {
        assert(b[0] == v as u8);
    } else {
        assert(room > 1);
        assert(varint_bound(room) == 128 * varint_bound((room - 1) as nat));
        lemma_varint_round_trip(v / 128, rest, (room - 1) as nat);
        assert(b[0] == (v % 128 + 128) as u8);
        assert(b.drop_first() =~= varint(v / 128) + rest);
    }
}

/// `prost::encoding::encode_varint` on a byte vector: appends to `out` the
/// variable-length encoding of `value`, and leaves what `out` held in place.
#[verifier::external_body]
pub(crate) fn write_varint(value: u64, out: &mut Vec<u8>)
    ensures
        final(out)@ == old(out)@ + varint(value as nat),
{
    prost::encoding::encode_varint(value, out)
}

/// `prost::encoding::decode_varint` on a byte slice: reads a variable-length
/// integer of at most ten bytes from the front of `bytes` and returns it
/// with the bytes that follow it. It fails where `bytes` holds none.
#[verifier::external_body]
pub(crate) fn read_varint<'a>(bytes: &'a [u8]) -> (r: Option<(u64, &'a [u8])>)
    ensures
        match r {
            Some((v, rest)) => match take_varint(bytes@, 10) {
                Some((value, n)) => v == value && rest@ == bytes@.skip(n as int),
                None => false,
            },
            None => take_varint(bytes@, 10) is None,
        },
{
    let mut buf = bytes;
    match prost::encoding::decode_varint(&mut buf) {
        Ok(v) => Some((v, buf)),
        Err(_) => None,
    }
}

/// A length-delimited field: its key, the length of its body, its body.
pub open spec fn chunk(key: u8, body: Seq<u8>) -> Seq<u8> {
    seq![key] + varint(body.len()) + body
}

/// Whether `b` starts with `key`.
pub open spec fn has_key(b: Seq<u8>, key: u8) -> bool {
    b.len() > 0 && b[0] == key
}

/// Reads a length-delimited field with the given key from the front of `b`:
/// its body, and the number of bytes that the whole field takes.
pub open spec fn take_chunk(b: Seq<u8>, key: u8) -> Option<(Seq<u8>, nat)> {
    if has_key(b, key) {
        match take_varint(b.skip(1), 10) {
            Some((len, n)) => if 1 + n + len <= b.len() {
                Some((b.subrange(1 + n as int, (1 + n + len) as int), 1 + n + len))
            } else {
                None
            },
            None => None,
        }
    } else {
        None
    }
}

/// Reading gives back the body of a field that was written, whatever follows.
pub proof fn lemma_chunk_round_trip(key: u8, body: Seq<u8>, rest: Seq<u8>)
    requires
        body.len() <= u64::MAX,
    ensures
        take_chunk(chunk(key, body) + rest, key) == Some((body, chunk(key, body).len())),
        has_key(chunk(key, body) + rest, key),
        (chunk(key, body) + rest).skip(chunk(key, body).len() as int) == rest,
        chunk(key, body).len() >= 2,
{
    let b = chunk(key, body) + rest;
    let v = varint(body.len());
    lemma_varint_bound_of_ten();
    lemma_varint_round_trip(body.len(), body + rest, 10);
    assert(b.skip(1) =~= v + (body + rest));
    assert(b.subrange(1 + v.len() as int, (1 + v.len() + body.len()) as int) =~= body);
    assert(b.skip(chunk(key, body).len() as int) =~= rest);
}

/// A field that can be read lies within the bytes and takes two bytes at least.
pub proof fn lemma_take_chunk_bounds(b: Seq<u8>, key: u8)
    ensures
        match take_chunk(b, key) {
            Some((body, n)) => 2 <= n <= b.len() && body.len() <= n - 2 && body.len() <= u64::MAX,
            None => true,
        },
{
    if has_key(b, key) {
        lemma_take_varint_bounds(b.skip(1), 10);
        lemma_varint_bound_of_ten();
    }
}

/// Appends `bytes` to `out`.
pub fn append_bytes(out: &mut Vec<u8>, bytes: &[u8])
    ensures
        final(out)@ == old(out)@ + bytes@,
{
    let mut i: usize = 0;
    assert(out@ =~= old(out)@ + bytes@.take(0));
    while i < bytes.len()
        invariant
            i <= bytes@.len(),
            out@ == old(out)@ + bytes@.take(i as int),
        decreases bytes@.len() - i,
    {
        out.push(bytes[i]);
        assert(bytes@.take(i as int + 1) =~= bytes@.take(i as int).push(bytes@[i as int]));
        assert(out@ =~= old(out)@ + bytes@.take(i as int + 1));
        i += 1;
    }
    assert(bytes@.take(i as int) =~= bytes@);
}

/// Appends to `out` a length-delimited field with the given key and body.
pub fn write_chunk(key: u8, body: &[u8], out: &mut Vec<u8>)
    ensures
        final(out)@ == old(out)@ + chunk(key, body@),
{
    out.push(key);
    write_varint(body.len() as u64, out);
    append_bytes(out, body);
    assert(out@ =~= old(out)@ + chunk(key, body@));
}

/// Reads a length-delimited field with the given key from the front of
/// `bytes`: its body and the bytes that follow the field.
pub fn read_chunk<'a>(bytes: &'a [u8], key: u8) -> (r: Option<(&'a [u8], &'a [u8])>)
    ensures
        match r {
            Some((body, rest)) => match take_chunk(bytes@, key) {
                Some((b, n)) => body@ == b && rest@ == bytes@.skip(n as int),
                None => false,
            },
            None => take_chunk(bytes@, key) is None,
        },
{
    if bytes.len() == 0 || bytes[0] != key {
        return None;
    }
    let after_key = vstd::slice::slice_subrange(bytes, 1, bytes.len());
    assert(after_key@ =~= bytes@.skip(1));
    proof {
        lemma_take_varint_bounds(bytes@.skip(1), 10);
    }
    match read_varint(after_key) {
        Some((len, after_len)) => {
            if len > after_len.len() as u64 {
                return None;
            }
            let n = len as usize;
            let body = vstd::slice::slice_subrange(after_len, 0, n);
            let rest = vstd::slice::slice_subrange(after_len, n, after_len.len());
            proof {
                let k = take_varint(bytes@.skip(1), 10).unwrap().1;
                assert(after_len@ == bytes@.skip(1).skip(k as int));
                assert(body@ =~= bytes@.subrange(1 + k as int, (1 + k + len) as int));
                assert(rest@ =~= bytes@.skip((1 + k + len) as int));
            }
            Some((body, rest))
        },
        None => None,
    }
}

} // verus!
