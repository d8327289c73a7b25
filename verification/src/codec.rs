//! The wire format of control messages.
//!
//! A message is laid out as Protocol Buffers lays out a record: fields in
//! ascending order of their numbers, each with a key byte; a text or an
//! embedded record as a length-delimited field; a text that is empty, the
//! first kind of message and an absent network state are left out.
//! `decoded` reads exactly this layout, and reading what `encoded` wrote
//! gives the message back.

use crate::protocol::{
    alias_views, Alias, AliasView, ControlMessage, ControlMessageView, MessageType, NetworkState,
    NetworkStateView,
};
use crate::sorted::texts;
use crate::wire::{
    chunk, has_key, lemma_chunk_round_trip, lemma_take_chunk_bounds, lemma_take_varint_bounds,
    lemma_varint_bound_of_ten, lemma_varint_round_trip, read_chunk, read_varint, take_chunk,
    take_varint, varint, write_chunk, write_varint,
};
use vstd::prelude::*;
use vstd::utf8::{
    decode_utf8, encode_utf8, encode_utf8_decode_utf8, encode_utf8_valid_utf8, valid_utf8,
};

verus! {

/// The key of the kind of a message: field 1, a variable-length integer.
pub const KEY_KIND: u8 = 0x08;

/// The key of a length-delimited field 1.
pub const KEY_FIRST: u8 = 0x0a;

/// The key of a length-delimited field 2.
pub const KEY_SECOND: u8 = 0x12;

/// The key of a length-delimited field 3.
pub const KEY_THIRD: u8 = 0x1a;

/// The key of a length-delimited field 4.
pub const KEY_FOURTH: u8 = 0x22;

/// The number that stands for a kind of message on the wire.
pub open spec fn kind_tag(k: MessageType) -> nat {
    match k {
        MessageType::DisplayMessage => 0,
        MessageType::AddWhitelistPeer => 1,
        MessageType::AddWhitelistSender => 2,
        MessageType::PublishAlias => 3,
        MessageType::NetworkSolicitation => 4,
        MessageType::State => 5,
        MessageType::RequestMessage => 6,
        MessageType::StoreMessage => 7,
        MessageType::Upgrade => 8,
        MessageType::RequestUpgrade => 9,
        MessageType::NetworkBinaryVersion => 10,
        MessageType::PeerConnected => 11,
        MessageType::PeerDisconnected => 12,
    }
}

/// The kind of message that a number stands for, if any.
pub open spec fn kind_of(tag: nat) -> Option<MessageType> {
    if tag == 0 {
        Some(MessageType::DisplayMessage)
    } else if tag == 1 {
        Some(MessageType::AddWhitelistPeer)
    } else if tag == 2 {
        Some(MessageType::AddWhitelistSender)
    } else if tag == 3 {
        Some(MessageType::PublishAlias)
    } else if tag == 4 {
        Some(MessageType::NetworkSolicitation)
    } else if tag == 5 {
        Some(MessageType::State)
    } else if tag == 6 {
        Some(MessageType::RequestMessage)
    } else if tag == 7 {
        Some(MessageType::StoreMessage)
    } else if tag == 8 {
        Some(MessageType::Upgrade)
    } else if tag == 9 {
        Some(MessageType::RequestUpgrade)
    } else if tag == 10 {
        Some(MessageType::NetworkBinaryVersion)
    } else if tag == 11 {
        Some(MessageType::PeerConnected)
    } else if tag == 12 {
        Some(MessageType::PeerDisconnected)
    } else {
        None
    }
}

/// A text field that occurs once: left out where the text is empty.
pub open spec fn enc_text(key: u8, t: Seq<char>) -> Seq<u8> {
    if t.len() == 0 {
        Seq::empty()
    } else {
        chunk(key, encode_utf8(t))
    }
}

/// A repeated text field: one field for each text, in order.
pub open spec fn enc_texts(key: u8, s: Seq<Seq<char>>) -> Seq<u8>
    decreases s.len(),
{
    if s.len() == 0 {
        Seq::empty()
    } else {
        enc_texts(key, s.drop_last()) + chunk(key, encode_utf8(s.last()))
    }
}

/// An alias pair: the owner as field 1, the alias as field 2.
pub open spec fn enc_alias(a: AliasView) -> Seq<u8> {
    enc_text(KEY_FIRST, a.peer) + enc_text(KEY_SECOND, a.alias)
}

/// A repeated field of alias pairs: one field for each pair, in order.
pub open spec fn enc_aliases(key: u8, s: Seq<AliasView>) -> Seq<u8>
    decreases s.len(),
{
    if s.len() == 0 {
        Seq::empty()
    } else {
        enc_aliases(key, s.drop_last()) + chunk(key, enc_alias(s.last()))
    }
}

/// A network state: its four lists as the repeated fields 1 to 4.
pub open spec fn enc_state(st: NetworkStateView) -> Seq<u8> {
    enc_texts(KEY_FIRST, st.whitelisted) + enc_texts(KEY_SECOND, st.connected) + enc_texts(
        KEY_THIRD,
        st.whitelisted_sender,
    ) + enc_aliases(KEY_FOURTH, st.aliases)
}

/// The kind of a message: left out for the first kind.
pub open spec fn enc_kind(k: MessageType) -> Seq<u8> {
    if kind_tag(k) == 0 {
        Seq::empty()
    } else {
        seq![KEY_KIND] + varint(kind_tag(k))
    }
}

/// The network state of a message: left out where there is none.
pub open spec fn enc_state_field(st: Option<NetworkStateView>) -> Seq<u8> {
    match st {
        Some(s) => chunk(KEY_THIRD, enc_state(s)),
        None => Seq::empty(),
    }
}

/// The bytes that stand for a message.
pub open spec fn encoded(m: ControlMessageView) -> Seq<u8> {
    enc_kind(m.message_type) + enc_text(KEY_SECOND, m.payload) + enc_state_field(m.state)
}

/// Reads a text field that occurs at most once: the text, empty where the
/// field is absent, and the bytes that follow.
pub open spec fn dec_text(key: u8, b: Seq<u8>) -> Option<(Seq<char>, Seq<u8>)> {
    if has_key(b, key) {
        match take_chunk(b, key) {
            Some((body, n)) => if valid_utf8(body) {
                Some((decode_utf8(body), b.skip(n as int)))
            } else {
                None
            },
            None => None,
        }
    } else {
        Some((Seq::empty(), b))
    }
}

/// Reads a repeated text field: the texts of all fields with this key that
/// stand at the front, and the bytes that follow them.
pub open spec fn dec_texts(key: u8, b: Seq<u8>) -> Option<(Seq<Seq<char>>, Seq<u8>)>
    decreases b.len(),
{
    if has_key(b, key) {
        match take_chunk(b, key) {
            Some((body, n)) => if valid_utf8(body) && 0 < n <= b.len() {
                match dec_texts(key, b.skip(n as int)) {
                    Some((ts, rest)) => Some((seq![decode_utf8(body)] + ts, rest)),
                    None => None,
                }
            } else {
                None
            },
            None => None,
        }
    } else {
        Some((Seq::empty(), b))
    }
}

/// Reads an alias pair from bytes that hold nothing else.
#[verifier::opaque]
pub open spec fn dec_alias(b: Seq<u8>) -> Option<AliasView> {
    match dec_text(KEY_FIRST, b) {
        Some((peer, r1)) => match dec_text(KEY_SECOND, r1) {
            Some((alias, r2)) => if r2.len() == 0 {
                Some(AliasView { peer, alias })
            } else {
                None
            },
            None => None,
        },
        None => None,
    }
}

/// Reads a repeated field of alias pairs: the pairs of all fields with this
/// key that stand at the front, and the bytes that follow them.
pub open spec fn dec_aliases(key: u8, b: Seq<u8>) -> Option<(Seq<AliasView>, Seq<u8>)>
    decreases b.len(),
{
    if has_key(b, key) {
        match take_chunk(b, key) {
            Some((body, n)) => match dec_alias(body) {
                Some(a) => if 0 < n <= b.len() {
                    match dec_aliases(key, b.skip(n as int)) {
                        Some((more, rest)) => Some((seq![a] + more, rest)),
                        None => None,
                    }
                } else {
                    None
                },
                None => None,
            },
            None => None,
        }
    } else {
        Some((Seq::empty(), b))
    }
}

/// Reads a network state from bytes that hold nothing else.
pub open spec fn dec_state(b: Seq<u8>) -> Option<NetworkStateView> {
    match dec_texts(KEY_FIRST, b) {
        Some((whitelisted, r1)) => match dec_texts(KEY_SECOND, r1) {
            Some((connected, r2)) => match dec_texts(KEY_THIRD, r2) {
                Some((whitelisted_sender, r3)) => match dec_aliases(KEY_FOURTH, r3) {
                    Some((aliases, r4)) => if r4.len() == 0 {
                        Some(
                            NetworkStateView { whitelisted, connected, whitelisted_sender, aliases },
                        )
                    } else {
                        None
                    },
                    None => None,
                },
                None => None,
            },
            None => None,
        },
        None => None,
    }
}

/// Reads the kind of a message: the first kind where the field is absent.
pub open spec fn dec_kind(b: Seq<u8>) -> Option<(MessageType, Seq<u8>)> {
    if has_key(b, KEY_KIND) {
        match take_varint(b.skip(1), 10) {
            Some((v, n)) => match kind_of(v) {
                Some(k) => Some((k, b.skip(1 + n as int))),
                None => None,
            },
            None => None,
        }
    } else {
        Some((MessageType::DisplayMessage, b))
    }
}

/// Reads the network state of a message: none where the field is absent.
pub open spec fn dec_state_field(b: Seq<u8>) -> Option<(Option<NetworkStateView>, Seq<u8>)> {
    if has_key(b, KEY_THIRD) {
        match take_chunk(b, KEY_THIRD) {
            Some((body, n)) => match dec_state(body) {
                Some(st) => Some((Some(st), b.skip(n as int))),
                None => None,
            },
            None => None,
        }
    } else {
        Some((None, b))
    }
}

/// The message that bytes stand for, if they stand for one.
pub open spec fn decoded(b: Seq<u8>) -> Option<ControlMessageView> {
    match dec_kind(b) {
        Some((message_type, r1)) => match dec_text(KEY_SECOND, r1) {
            Some((payload, r2)) => match dec_state_field(r2) {
                Some((state, r3)) => if r3.len() == 0 {
                    Some(ControlMessageView { message_type, payload, state })
                } else {
                    None
                },
                None => None,
            },
            None => None,
        },
        None => None,
    }
}

/// The encoding of the text is short enough for its length to be written.
pub open spec fn text_fits(t: Seq<char>) -> bool {
    encode_utf8(t).len() <= u64::MAX
}

/// Every text of the list fits.
pub open spec fn texts_fit(s: Seq<Seq<char>>) -> bool {
    forall|i: int| 0 <= i < s.len() ==> text_fits(#[trigger] s[i])
}

/// Both texts of the pair fit, and so does the pair.
pub open spec fn alias_fits(a: AliasView) -> bool {
    text_fits(a.peer) && text_fits(a.alias) && enc_alias(a).len() <= u64::MAX
}

/// Every pair of the list fits.
pub open spec fn aliases_fit(s: Seq<AliasView>) -> bool {
    forall|i: int| 0 <= i < s.len() ==> alias_fits(#[trigger] s[i])
}

/// Every part of the state fits, and so does the state.
pub open spec fn state_fits(st: NetworkStateView) -> bool {
    &&& texts_fit(st.whitelisted)
    &&& texts_fit(st.connected)
    &&& texts_fit(st.whitelisted_sender)
    &&& aliases_fit(st.aliases)
    &&& enc_state(st).len() <= u64::MAX
}

impl ControlMessageView {
    /// The message can be written: the length of each of its parts is below
    /// 2^64. This holds of every message that a machine holds in memory.
    pub open spec fn fits(self) -> bool {
        text_fits(self.payload) && match self.state {
            Some(st) => state_fits(st),
            None => true,
        }
    }
}

/// The bytes are empty or start with a key that is `key` at least.
pub open spec fn front_from(b: Seq<u8>, key: u8) -> bool {
    b.len() == 0 || b[0] >= key
}

/// A field starts with its key.
pub proof fn lemma_fronts(key: u8, t: Seq<char>, s: Seq<Seq<char>>, a: Seq<AliasView>)
    ensures
        front_from(enc_text(key, t), key),
        front_from(enc_texts(key, s), key),
        front_from(enc_aliases(key, a), key),
        enc_text(key, t).len() == 0 || has_key(enc_text(key, t), key),
    decreases s.len() + a.len(),
{
    if s.len() > 0 {
        lemma_fronts(key, t, s.drop_last(), Seq::empty());
    }
    if a.len() > 0 {
        lemma_fronts(key, t, Seq::empty(), a.drop_last());
    }
}

/// A repeated text field starts with the field of its first text.
pub proof fn lemma_enc_texts_front(key: u8, s: Seq<Seq<char>>)
    requires
        s.len() > 0,
    ensures
        enc_texts(key, s) == chunk(key, encode_utf8(s[0])) + enc_texts(key, s.drop_first()),
    decreases s.len(),
{
    if s.len() == 1 {
        assert(s.drop_last() =~= Seq::<Seq<char>>::empty());
        assert(s.drop_first() =~= Seq::<Seq<char>>::empty());
        assert(enc_texts(key, s) =~= chunk(key, encode_utf8(s[0])) + enc_texts(
            key,
            s.drop_first(),
        ));
    } else {
        lemma_enc_texts_front(key, s.drop_last());
        assert(s.drop_last().drop_first() =~= s.drop_first().drop_last());
        assert(enc_texts(key, s) =~= chunk(key, encode_utf8(s[0])) + enc_texts(
            key,
            s.drop_first(),
        ));
    }
}

/// A repeated field of alias pairs starts with the field of its first pair.
pub proof fn lemma_enc_aliases_front(key: u8, s: Seq<AliasView>)
    requires
        s.len() > 0,
    ensures
        enc_aliases(key, s) == chunk(key, enc_alias(s[0])) + enc_aliases(key, s.drop_first()),
    decreases s.len(),
{
    if s.len() == 1 {
        assert(s.drop_last() =~= Seq::<AliasView>::empty());
        assert(s.drop_first() =~= Seq::<AliasView>::empty());
        assert(enc_aliases(key, s) =~= chunk(key, enc_alias(s[0])) + enc_aliases(
            key,
            s.drop_first(),
        ));
    } else {
        lemma_enc_aliases_front(key, s.drop_last());
        assert(s.drop_last().drop_first() =~= s.drop_first().drop_last());
        assert(enc_aliases(key, s) =~= chunk(key, enc_alias(s[0])) + enc_aliases(
            key,
            s.drop_first(),
        ));
    }
}

/// Reading a text field gives back the text that was written.
pub proof fn lemma_text_round_trip(key: u8, t: Seq<char>, rest: Seq<u8>)
    requires
        text_fits(t),
        !has_key(rest, key),
    ensures
        dec_text(key, enc_text(key, t) + rest) == Some((t, rest)),
{
    if t.len() == 0 {
        assert(enc_text(key, t) + rest =~= rest);
        assert(t =~= Seq::<char>::empty());
    } else {
        lemma_chunk_round_trip(key, encode_utf8(t), rest);
        encode_utf8_valid_utf8(t);
        encode_utf8_decode_utf8(t);
    }
}

/// Reading a repeated text field gives back the texts that were written.
pub proof fn lemma_texts_round_trip(key: u8, s: Seq<Seq<char>>, rest: Seq<u8>)
    requires
        texts_fit(s),
        !has_key(rest, key),
    ensures
        dec_texts(key, enc_texts(key, s) + rest) == Some((s, rest)),
    decreases s.len(),
{
    if s.len() == 0 {
        assert(enc_texts(key, s) + rest =~= rest);
        assert(s =~= Seq::<Seq<char>>::empty());
    } else {
        let t = s[0];
        let tail = s.drop_first();
        lemma_enc_texts_front(key, s);
        let after = enc_texts(key, tail) + rest;
        assert(text_fits(t));
        assert(enc_texts(key, s) + rest =~= chunk(key, encode_utf8(t)) + after);
        lemma_chunk_round_trip(key, encode_utf8(t), after);
        encode_utf8_valid_utf8(t);
        encode_utf8_decode_utf8(t);
        assert forall|i: int| 0 <= i < tail.len() implies text_fits(#[trigger] tail[i]) by {
            assert(tail[i] == s[i + 1]);
        }
        lemma_texts_round_trip(key, tail, rest);
        assert(seq![t] + tail =~= s);
    }
}

/// Reading an alias pair gives back the pair that was written.
pub proof fn lemma_alias_round_trip(a: AliasView)
    requires
        alias_fits(a),
    ensures
        dec_alias(enc_alias(a)) == Some(a),
{
    reveal(dec_alias);
    let second = enc_text(KEY_SECOND, a.alias);
    lemma_fronts(KEY_SECOND, a.alias, Seq::empty(), Seq::empty());
    lemma_text_round_trip(KEY_FIRST, a.peer, second);
    lemma_text_round_trip(KEY_SECOND, a.alias, Seq::empty());
    assert(second + Seq::<u8>::empty() =~= second);
}

/// Reading a repeated field of alias pairs gives back the pairs that were written.
pub proof fn lemma_aliases_round_trip(key: u8, s: Seq<AliasView>, rest: Seq<u8>)
    requires
        aliases_fit(s),
        !has_key(rest, key),
    ensures
        dec_aliases(key, enc_aliases(key, s) + rest) == Some((s, rest)),
    decreases s.len(),
{
    if s.len() == 0 {
        assert(enc_aliases(key, s) + rest =~= rest);
        assert(s =~= Seq::<AliasView>::empty());
    } else {
        let a = s[0];
        let tail = s.drop_first();
        lemma_enc_aliases_front(key, s);
        let after = enc_aliases(key, tail) + rest;
        assert(alias_fits(a));
        assert(enc_aliases(key, s) + rest =~= chunk(key, enc_alias(a)) + after);
        lemma_chunk_round_trip(key, enc_alias(a), after);
        lemma_alias_round_trip(a);
        assert forall|i: int| 0 <= i < tail.len() implies alias_fits(#[trigger] tail[i]) by {
            assert(tail[i] == s[i + 1]);
        }
        lemma_aliases_round_trip(key, tail, rest);
        assert(seq![a] + tail =~= s);
    }
}

/// Reading a network state gives back the state that was written.
pub proof fn lemma_state_round_trip(st: NetworkStateView)
    requires
        state_fits(st),
    ensures
        dec_state(enc_state(st)) == Some(st),
{
    let e1 = enc_texts(KEY_FIRST, st.whitelisted);
    let e2 = enc_texts(KEY_SECOND, st.connected);
    let e3 = enc_texts(KEY_THIRD, st.whitelisted_sender);
    let e4 = enc_aliases(KEY_FOURTH, st.aliases);
    let none = Seq::<char>::empty();
    lemma_fronts(KEY_SECOND, none, st.connected, Seq::empty());
    lemma_fronts(KEY_THIRD, none, st.whitelisted_sender, Seq::empty());
    lemma_fronts(KEY_FOURTH, none, Seq::empty(), st.aliases);
    assert(enc_state(st) =~= e1 + (e2 + (e3 + e4)));
    lemma_texts_round_trip(KEY_FIRST, st.whitelisted, e2 + (e3 + e4));
    lemma_texts_round_trip(KEY_SECOND, st.connected, e3 + e4);
    lemma_texts_round_trip(KEY_THIRD, st.whitelisted_sender, e4);
    lemma_aliases_round_trip(KEY_FOURTH, st.aliases, Seq::empty());
    assert(e4 + Seq::<u8>::empty() =~= e4);
}

/// Reading the kind of a message gives back the kind that was written.
pub proof fn lemma_kind_round_trip(k: MessageType, rest: Seq<u8>)
    requires
        !has_key(rest, KEY_KIND),
    ensures
        dec_kind(enc_kind(k) + rest) == Some((k, rest)),
{
    if kind_tag(k) == 0 {
        assert(enc_kind(k) + rest =~= rest);
    } else {
        let b = enc_kind(k) + rest;
        lemma_varint_bound_of_ten();
        lemma_varint_round_trip(kind_tag(k), rest, 10);
        assert(b.skip(1) =~= varint(kind_tag(k)) + rest);
        assert(b.skip(1 + varint(kind_tag(k)).len() as int) =~= rest);
    }
}

/// Decoding what was encoded gives the message back: for every message that
/// can be written, whatever its kind and payload, with or without a network
/// state, and whatever that state holds.
pub proof fn law_round_trip(m: ControlMessageView)
    requires
        m.fits(),
    ensures
        decoded(encoded(m)) == Some(m),
{
    let e2 = enc_text(KEY_SECOND, m.payload);
    let e3 = enc_state_field(m.state);
    lemma_fronts(KEY_SECOND, m.payload, Seq::empty(), Seq::empty());
    assert(encoded(m) =~= enc_kind(m.message_type) + (e2 + e3));
    lemma_kind_round_trip(m.message_type, e2 + e3);
    lemma_text_round_trip(KEY_SECOND, m.payload, e3);
    match m.state {
        Some(st) => {
            lemma_chunk_round_trip(KEY_THIRD, enc_state(st), Seq::empty());
            lemma_state_round_trip(st);
            assert(e3 + Seq::<u8>::empty() =~= e3);
        },
        None => {},
    }
}

/// `String::from_utf8`: the string that the bytes encode, where they are
/// valid UTF-8, and a failure where they are not.
#[verifier::external_body]
pub(crate) fn text_from_utf8(bytes: Vec<u8>) -> (r: Option<String>)
    ensures
        match r {
            Some(t) => valid_utf8(bytes@) && t@ == decode_utf8(bytes@),
            None => !valid_utf8(bytes@),
        },
{
    String::from_utf8(bytes).ok()
}

/// The number that stands for a kind of message on the wire.
pub fn tag_of(k: MessageType) -> (tag: u64)
    ensures
        tag == kind_tag(k),
{
    match k {
        MessageType::DisplayMessage => 0,
        MessageType::AddWhitelistPeer => 1,
        MessageType::AddWhitelistSender => 2,
        MessageType::PublishAlias => 3,
        MessageType::NetworkSolicitation => 4,
        MessageType::State => 5,
        MessageType::RequestMessage => 6,
        MessageType::StoreMessage => 7,
        MessageType::Upgrade => 8,
        MessageType::RequestUpgrade => 9,
        MessageType::NetworkBinaryVersion => 10,
        MessageType::PeerConnected => 11,
        MessageType::PeerDisconnected => 12,
    }
}

/// The kind of message that a number stands for, if any.
pub fn kind_from(tag: u64) -> (k: Option<MessageType>)
    ensures
        k == kind_of(tag as nat),
{
    if tag == 0 {
        Some(MessageType::DisplayMessage)
    } else if tag == 1 {
        Some(MessageType::AddWhitelistPeer)
    } else if tag == 2 {
        Some(MessageType::AddWhitelistSender)
    } else if tag == 3 {
        Some(MessageType::PublishAlias)
    } else if tag == 4 {
        Some(MessageType::NetworkSolicitation)
    } else if tag == 5 {
        Some(MessageType::State)
    } else if tag == 6 {
        Some(MessageType::RequestMessage)
    } else if tag == 7 {
        Some(MessageType::StoreMessage)
    } else if tag == 8 {
        Some(MessageType::Upgrade)
    } else if tag == 9 {
        Some(MessageType::RequestUpgrade)
    } else if tag == 10 {
        Some(MessageType::NetworkBinaryVersion)
    } else if tag == 11 {
        Some(MessageType::PeerConnected)
    } else if tag == 12 {
        Some(MessageType::PeerDisconnected)
    } else {
        None
    }
}

fn put_text(key: u8, t: &String, out: &mut Vec<u8>)
    ensures
        final(out)@ == old(out)@ + enc_text(key, t@),
        text_fits(t@),
{
    let bytes = t.as_str().as_bytes();
    let length = bytes.len();
    assert(text_fits(t@));
    if !t.as_str().is_empty() {
        write_chunk(key, bytes, out);
    } else {
        assert(out@ =~= old(out)@ + enc_text(key, t@));
    }
}

fn put_texts(key: u8, v: &Vec<String>, out: &mut Vec<u8>)
    ensures
        final(out)@ == old(out)@ + enc_texts(key, texts(v@)),
        texts_fit(texts(v@)),
{
    let ghost s = texts(v@);
    let mut i: usize = 0;
    assert(out@ =~= old(out)@ + enc_texts(key, s.take(0)));
    while i < v.len()
        invariant
            s == texts(v@),
            i <= v@.len(),
            out@ == old(out)@ + enc_texts(key, s.take(i as int)),
            forall|j: int| 0 <= j < i ==> text_fits(#[trigger] s[j]),
        decreases v@.len() - i,
    {
        let bytes = v[i].as_str().as_bytes();
        let length = bytes.len();
        assert(text_fits(s[i as int]));
        write_chunk(key, bytes, out);
        proof {
            assert(s.take(i as int + 1).drop_last() =~= s.take(i as int));
            assert(s.take(i as int + 1).last() == s[i as int]);
            assert(out@ =~= old(out)@ + enc_texts(key, s.take(i as int + 1)));
        }
        i += 1;
    }
    assert(s.take(i as int) =~= s);
}

fn put_alias(a: &Alias, out: &mut Vec<u8>)
    requires
        old(out)@.len() == 0,
    ensures
        final(out)@ == enc_alias(a@),
        alias_fits(a@),
{
    put_text(KEY_FIRST, &a.peer, out);
    put_text(KEY_SECOND, &a.alias, out);
    assert(out@ =~= enc_alias(a@));
    let length = out.len();
}

fn put_aliases(key: u8, v: &Vec<Alias>, out: &mut Vec<u8>)
    ensures
        final(out)@ == old(out)@ + enc_aliases(key, alias_views(v@)),
        aliases_fit(alias_views(v@)),
{
    let ghost s = alias_views(v@);
    let mut i: usize = 0;
    assert(out@ =~= old(out)@ + enc_aliases(key, s.take(0)));
    while i < v.len()
        invariant
            s == alias_views(v@),
            i <= v@.len(),
            out@ == old(out)@ + enc_aliases(key, s.take(i as int)),
            forall|j: int| 0 <= j < i ==> alias_fits(#[trigger] s[j]),
        decreases v@.len() - i,
    {
        let mut body: Vec<u8> = Vec::new();
        put_alias(&v[i], &mut body);
        write_chunk(key, body.as_slice(), out);
        proof {
            assert(s.take(i as int + 1).drop_last() =~= s.take(i as int));
            assert(s.take(i as int + 1).last() == s[i as int]);
            assert(out@ =~= old(out)@ + enc_aliases(key, s.take(i as int + 1)));
        }
        i += 1;
    }
    assert(s.take(i as int) =~= s);
}

fn put_state(st: &NetworkState, out: &mut Vec<u8>)
    requires
        old(out)@.len() == 0,
    ensures
        final(out)@ == enc_state(st@),
        state_fits(st@),
{
    put_texts(KEY_FIRST, &st.whitelisted, out);
    put_texts(KEY_SECOND, &st.connected, out);
    put_texts(KEY_THIRD, &st.whitelisted_sender, out);
    put_aliases(KEY_FOURTH, &st.aliases, out);
    assert(out@ =~= enc_state(st@));
    let length = out.len();
}

/// What a reader has so far, followed by what it reads next.
pub open spec fn and_then<T>(done: Seq<T>, more: Option<(Seq<T>, Seq<u8>)>) -> Option<
    (Seq<T>, Seq<u8>),
> {
    match more {
        Some((items, rest)) => Some((done + items, rest)),
        None => None,
    }
}

fn get_text<'a>(key: u8, bytes: &'a [u8]) -> (r: Option<(String, &'a [u8])>)
    ensures
        match r {
            Some((t, rest)) => dec_text(key, bytes@) == Some((t@, rest@)),
            None => dec_text(key, bytes@) is None,
        },
{
    if bytes.len() > 0 && bytes[0] == key {
        match read_chunk(bytes, key) {
            Some((body, rest)) => match text_from_utf8(vstd::slice::slice_to_vec(body)) {
                Some(t) => Some((t, rest)),
                None => None,
            },
            None => None,
        }
    } else {
        Some((String::new(), bytes))
    }
}

fn get_texts<'a>(key: u8, bytes: &'a [u8]) -> (r: Option<(Vec<String>, &'a [u8])>)
    ensures
        match r {
            Some((v, rest)) => dec_texts(key, bytes@) == Some((texts(v@), rest@)),
            None => dec_texts(key, bytes@) is None,
        },
{
    let mut out: Vec<String> = Vec::new();
    let mut cur: &[u8] = bytes;
    assert(texts(out@) + dec_texts(key, cur@).unwrap().0 =~= dec_texts(key, cur@).unwrap().0);
    while cur.len() > 0 && cur[0] == key
        invariant
            dec_texts(key, bytes@) == and_then(texts(out@), dec_texts(key, cur@)),
        decreases cur@.len(),
    {
        proof {
            lemma_take_chunk_bounds(cur@, key);
        }
        match read_chunk(cur, key) {
            Some((body, rest)) => match text_from_utf8(vstd::slice::slice_to_vec(body)) {
                Some(t) => {
                    let ghost done = texts(out@);
                    let ghost more = dec_texts(key, rest@);
                    out.push(t);
                    proof {
                        assert(texts(out@) =~= done.push(t@));
                        match more {
                            Some((items, r)) => {
                                assert(done + (seq![t@] + items) =~= done.push(t@) + items);
                            },
                            None => {},
                        }
                    }
                    cur = rest;
                },
                None => {
                    return None;
                },
            },
            None => {
                return None;
            },
        }
    }
    assert(texts(out@) + Seq::<Seq<char>>::empty() =~= texts(out@));
    Some((out, cur))
}

fn get_alias(bytes: &[u8]) -> (r: Option<Alias>)
    ensures
        match r {
            Some(a) => dec_alias(bytes@) == Some(a@),
            None => dec_alias(bytes@) is None,
        },
{
    reveal(dec_alias);
    match get_text(KEY_FIRST, bytes) {
        Some((peer, r1)) => match get_text(KEY_SECOND, r1) {
            Some((alias, r2)) => if r2.len() == 0 {
                Some(Alias { peer, alias })
            } else {
                None
            },
            None => None,
        },
        None => None,
    }
}

fn get_aliases<'a>(key: u8, bytes: &'a [u8]) -> (r: Option<(Vec<Alias>, &'a [u8])>)
    ensures
        match r {
            Some((v, rest)) => dec_aliases(key, bytes@) == Some((alias_views(v@), rest@)),
            None => dec_aliases(key, bytes@) is None,
        },
{
    let mut out: Vec<Alias> = Vec::new();
    let mut cur: &[u8] = bytes;
    assert(alias_views(out@) + dec_aliases(key, cur@).unwrap().0 =~= dec_aliases(
        key,
        cur@,
    ).unwrap().0);
    while cur.len() > 0 && cur[0] == key
        invariant
            dec_aliases(key, bytes@) == and_then(alias_views(out@), dec_aliases(key, cur@)),
        decreases cur@.len(),
    {
        proof {
            lemma_take_chunk_bounds(cur@, key);
        }
        match read_chunk(cur, key) {
            Some((body, rest)) => match get_alias(body) {
                Some(a) => {
                    let ghost done = alias_views(out@);
                    let ghost more = dec_aliases(key, rest@);
                    let ghost av = a@;
                    out.push(a);
                    proof {
                        assert(alias_views(out@) =~= done.push(av));
                        match more {
                            Some((items, r)) => {
                                assert(done + (seq![av] + items) =~= done.push(av) + items);
                            },
                            None => {},
                        }
                    }
                    cur = rest;
                },
                None => {
                    return None;
                },
            },
            None => {
                return None;
            },
        }
    }
    assert(alias_views(out@) + Seq::<AliasView>::empty() =~= alias_views(out@));
    Some((out, cur))
}

fn get_state(bytes: &[u8]) -> (r: Option<NetworkState>)
    ensures
        match r {
            Some(st) => dec_state(bytes@) == Some(st@),
            None => dec_state(bytes@) is None,
        },
{
    match get_texts(KEY_FIRST, bytes) {
        Some((whitelisted, r1)) => match get_texts(KEY_SECOND, r1) {
            Some((connected, r2)) => match get_texts(KEY_THIRD, r2) {
                Some((whitelisted_sender, r3)) => match get_aliases(KEY_FOURTH, r3) {
                    Some((aliases, r4)) => if r4.len() == 0 {
                        Some(NetworkState { whitelisted, connected, whitelisted_sender, aliases })
                    } else {
                        None
                    },
                    None => None,
                },
                None => None,
            },
            None => None,
        },
        None => None,
    }
}

fn get_kind<'a>(bytes: &'a [u8]) -> (r: Option<(MessageType, &'a [u8])>)
    ensures
        match r {
            Some((k, rest)) => dec_kind(bytes@) == Some((k, rest@)),
            None => dec_kind(bytes@) is None,
        },
{
    if bytes.len() > 0 && bytes[0] == KEY_KIND {
        let after_key = vstd::slice::slice_subrange(bytes, 1, bytes.len());
        assert(after_key@ =~= bytes@.skip(1));
        match read_varint(after_key) {
            Some((v, rest)) => match kind_from(v) {
                Some(k) => {
                    proof {
                        let n = take_varint(bytes@.skip(1), 10).unwrap().1;
                        lemma_take_varint_bounds(bytes@.skip(1), 10);
                        assert(bytes@.skip(1).skip(n as int) =~= bytes@.skip(1 + n as int));
                    }
                    Some((k, rest))
                },
                None => None,
            },
            None => None,
        }
    } else {
        Some((MessageType::DisplayMessage, bytes))
    }
}

/// The view of an optional message.
pub open spec fn message_view(m: Option<ControlMessage>) -> Option<ControlMessageView> {
    match m {
        Some(m) => Some(m@),
        None => None,
    }
}

impl ControlMessage {
    /// The bytes that stand for the message. A message held in memory can
    /// always be written.
    pub fn encode_to_vec(&self) -> (bytes: Vec<u8>)
        ensures
            bytes@ == encoded(self@),
            self@.fits(),
            decoded(bytes@) == Some(self@),
    {
        let mut out: Vec<u8> = Vec::new();
        let tag = tag_of(self.message_type);
        if tag != 0 {
            out.push(KEY_KIND);
            write_varint(tag, &mut out);
        }
        assert(out@ =~= enc_kind(self.message_type));
        put_text(KEY_SECOND, &self.payload, &mut out);
        match &self.state {
            Some(st) => {
                let mut body: Vec<u8> = Vec::new();
                put_state(st, &mut body);
                write_chunk(KEY_THIRD, body.as_slice(), &mut out);
            },
            None => {
                assert(out@ + enc_state_field(None) =~= out@);
            },
        }
        proof {
            law_round_trip(self@);
        }
        out
    }

    /// The message that the bytes stand for; none where they stand for none.
    pub fn decode(bytes: &[u8]) -> (m: Option<ControlMessage>)
        ensures
            message_view(m) == decoded(bytes@),
    {
        match get_kind(bytes) {
            Some((message_type, r1)) => match get_text(KEY_SECOND, r1) {
                Some((payload, r2)) => {
                    if r2.len() > 0 && r2[0] == KEY_THIRD {
                        match read_chunk(r2, KEY_THIRD) {
                            Some((body, r3)) => match get_state(body) {
                                Some(st) => if r3.len() == 0 {
                                    Some(ControlMessage { message_type, payload, state: Some(st) })
                                } else {
                                    None
                                },
                                None => None,
                            },
                            None => None,
                        }
                    } else if r2.len() == 0 {
                        Some(ControlMessage { message_type, payload, state: None })
                    } else {
                        None
                    }
                },
                None => None,
            },
            None => None,
        }
    }
}

} // verus!
