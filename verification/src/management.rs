//! The protocol state machine.
//!
//! One value of `Management` owns all the state of a node: the ring store,
//! the alias table, the authorized senders and the bookkeeping of peers.
//! Each handler takes one event, updates the state and returns the effects
//! for the surrounding program to carry out, in order.

use crate::aliases::{claim, claim_alias, claim_all, copy_aliases, lemma_claim_all, law_claim, one_to_one};
use crate::churn::{lemma_joined_wf, lemma_parted_wf};
use crate::codec::decoded;
use crate::dht::{tagged_pairs, Dht, DhtView};
use crate::events::{
    effect_views, Effect, EffectView, NetworkEvent, NetworkEventView, Pending, PendingView, Reply,
    ReplyView, UserCommand, UserCommandView,
};
use crate::mailbox::{pairs, text_of};
use crate::order::{before, is_before};
use crate::peers::{add_member, copy_of, drop_member, holds, with_member, without_member};
use crate::protocol::{
    alias_views, Alias, AliasView, ControlMessage, ControlMessageView, MessageType, NetworkState,
    NetworkStateView,
};
use crate::ring::{closest, closest_other};
use crate::sorted::texts;
use vstd::prelude::*;
use vstd::string::StringExecFns;

verus! {

/// The state of a node as a mathematical value.
pub struct ManagementView {
    /// The identifier of the local node.
    pub local_id: Seq<char>,
    /// The version of the running binary, where it is known.
    pub version: Option<Seq<char>>,
    /// The peers whose control messages are acted upon; all where empty.
    pub authorized_senders: Seq<Seq<char>>,
    /// The alias table.
    pub aliases: Seq<AliasView>,
    /// The alias of the local node; empty where it has none.
    pub alias: Seq<char>,
    /// The peers that were discovered.
    pub discovered_peers: Seq<Seq<char>>,
    /// The peers whose connection was rejected.
    pub rejected_peers: Seq<Seq<char>>,
    /// The peers with an established connection.
    pub connected_peers: Seq<Seq<char>>,
    /// The addresses on which the local node listens.
    pub listening_addrs: Seq<Seq<char>>,
    /// Whether a newer binary has been requested.
    pub upgrade_in_progress: bool,
    /// The ring store.
    pub dht: DhtView,
}

/// The port on which binaries are served, after its colon.
pub open spec fn port_suffix() -> Seq<char> {
    ":9803"@
}

/// A message without network state.
pub open spec fn plain(kind: MessageType, payload: Seq<char>) -> ControlMessageView {
    ControlMessageView::plain(kind, payload)
}

/// One `StoreMessage` to `to` for each payload, in order.
pub open spec fn store_sends(to: Seq<char>, payloads: Seq<Seq<char>>) -> Seq<EffectView> {
    Seq::new(
        payloads.len(),
        |i: int| EffectView::Send { peer: to, message: plain(MessageType::StoreMessage, payloads[i]) },
    )
}

/// The payloads of a hand-off to a joining member.
pub open spec fn tagged_payloads(e: Seq<(Option<Seq<char>>, Seq<char>)>) -> Seq<Seq<char>> {
    Seq::new(e.len(), |i: int| e[i].1)
}

/// The payloads of a hand-off after a leave.
pub open spec fn payloads(e: Seq<(Seq<char>, Seq<char>)>) -> Seq<Seq<char>> {
    Seq::new(e.len(), |i: int| e[i].1)
}

/// One `AddWhitelisted` for each peer, in order.
pub open spec fn whitelist_adds(peers: Seq<Seq<char>>) -> Seq<EffectView> {
    Seq::new(peers.len(), |i: int| EffectView::AddWhitelisted(peers[i]))
}

/// One `Upgrade` message to `to` for each address, the port appended.
pub open spec fn upgrade_offers(to: Seq<char>, addrs: Seq<Seq<char>>) -> Seq<EffectView> {
    Seq::new(
        addrs.len(),
        |i: int|
            EffectView::Send {
                peer: to,
                message: plain(MessageType::Upgrade, addrs[i] + port_suffix()),
            },
    )
}

/// The ring store after each of `peers` has joined in turn.
pub open spec fn joined_all(dht: DhtView, peers: Seq<Seq<char>>) -> DhtView
    decreases peers.len(),
{
    if peers.len() == 0 {
        dht
    } else {
        joined_all(dht, peers.drop_last()).joined(peers.last())
    }
}

/// What `send` to an optional target asks for: a direct message, or a
/// publication where no target is named.
pub open spec fn sent(target: Option<Seq<char>>, message: ControlMessageView) -> EffectView {
    match target {
        Some(peer) => EffectView::Send { peer, message },
        None => EffectView::Publish(message),
    }
}

impl ManagementView {
    /// The state of a node that has just started.
    pub open spec fn initial(local_id: Seq<char>, version: Option<Seq<char>>) -> ManagementView {
        ManagementView {
            local_id,
            version,
            authorized_senders: Seq::empty(),
            aliases: Seq::empty(),
            alias: Seq::empty(),
            discovered_peers: Seq::empty(),
            rejected_peers: Seq::empty(),
            connected_peers: Seq::empty(),
            listening_addrs: Seq::empty(),
            upgrade_in_progress: false,
            dht: DhtView::initial(local_id),
        }
    }

    /// The ring store is well formed and belongs to the local node, and the
    /// alias table is one to one.
    pub open spec fn wf(self) -> bool {
        &&& self.dht.wf()
        &&& self.dht.own == self.local_id
        &&& one_to_one(self.aliases)
    }

    /// Whether control messages of `sender` are acted upon.
    pub open spec fn admits(self, sender: Seq<char>) -> bool {
        self.authorized_senders.len() == 0 || self.authorized_senders.contains(sender)
    }

    /// Whether an announced version makes the node ask for the binary: the
    /// local version is unknown or sorts before the announced one, and no
    /// upgrade is in progress.
    pub open spec fn wants_upgrade(self, announced: Seq<char>) -> bool {
        !self.upgrade_in_progress && match self.version {
            Some(v) => before(v, announced),
            None => true,
        }
    }

    /// The network state that the node reports, given the connection
    /// whitelist of the network layer.
    pub open spec fn snapshot(self, whitelisted: Seq<Seq<char>>) -> NetworkStateView {
        NetworkStateView {
            whitelisted,
            connected: self.dht.members,
            whitelisted_sender: self.authorized_senders,
            aliases: self.aliases,
        }
    }

    /// The `State` message that the node reports.
    pub open spec fn state_message(self, whitelisted: Seq<Seq<char>>) -> ControlMessageView {
        ControlMessageView {
            message_type: MessageType::State,
            payload: Seq::empty(),
            state: Some(self.snapshot(whitelisted)),
        }
    }

    /// The state after a network state has been merged into it: every
    /// reported member joins the ring, every reported sender is authorized,
    /// and every reported alias is claimed for its owner as if the owner had
    /// asked for it, so that an alias that is taken stays with its owner.
    /// What the joins take out of the mailbox is not sent to anyone.
    pub open spec fn merged(self, st: NetworkStateView) -> ManagementView {
        ManagementView {
            dht: joined_all(self.dht, st.connected),
            authorized_senders: self.authorized_senders + st.whitelisted_sender,
            aliases: claim_all(self.aliases, st.aliases),
            ..self
        }
    }

    /// The request for pending messages that follows a merge: to the member
    /// closest to the local node other than itself, if there is one.
    pub open spec fn pull_request(self) -> Seq<EffectView> {
        let others = closest_other(self.dht.members, self.local_id);
        if others.len() > 0 {
            seq![
                EffectView::Send {
                    peer: others[0],
                    message: plain(MessageType::RequestMessage, Seq::empty()),
                },
            ]
        } else {
            Seq::empty()
        }
    }

    /// The state after a control message of `sender` has been handled.
    pub open spec fn after_message(self, sender: Seq<char>, msg: ControlMessageView) -> ManagementView {
        if !self.admits(sender) {
            self
        } else {
            match msg.message_type {
                MessageType::AddWhitelistSender => ManagementView {
                    authorized_senders: self.authorized_senders.push(msg.payload),
                    ..self
                },
                MessageType::PublishAlias => ManagementView {
                    aliases: claim(self.aliases, sender, msg.payload),
                    ..self
                },
                MessageType::NetworkBinaryVersion => ManagementView {
                    upgrade_in_progress: self.upgrade_in_progress || self.wants_upgrade(
                        msg.payload,
                    ),
                    ..self
                },
                MessageType::PeerConnected => ManagementView {
                    dht: self.dht.joined(msg.payload),
                    ..self
                },
                MessageType::PeerDisconnected => ManagementView {
                    dht: self.dht.parted(msg.payload),
                    ..self
                },
                MessageType::StoreMessage => ManagementView {
                    dht: self.dht.stored(sender, msg.payload),
                    ..self
                },
                MessageType::State => match msg.state {
                    Some(st) => self.merged(st),
                    None => self,
                },
                _ => self,
            }
        }
    }

    /// The effects of a control message of `sender`.
    pub open spec fn message_effects(self, sender: Seq<char>, msg: ControlMessageView) -> Seq<
        EffectView,
    > {
        if !self.admits(sender) {
            Seq::empty()
        } else {
            match msg.message_type {
                MessageType::DisplayMessage => seq![EffectView::Display(msg.payload)],
                MessageType::AddWhitelistPeer => seq![EffectView::AddWhitelisted(msg.payload)],
                MessageType::AddWhitelistSender => Seq::empty(),
                MessageType::PublishAlias => Seq::empty(),
                MessageType::NetworkSolicitation => seq![
                    EffectView::QueryWhitelist(PendingView::StateFor(sender)),
                ],
                MessageType::State => match msg.state {
                    Some(st) => whitelist_adds(st.whitelisted) + self.merged(st).pull_request(),
                    None => Seq::empty(),
                },
                MessageType::RequestMessage => match self.dht.content(sender) {
                    Some(held) => seq![
                        EffectView::Send {
                            peer: sender,
                            message: plain(MessageType::DisplayMessage, held),
                        },
                    ],
                    None => Seq::empty(),
                },
                MessageType::StoreMessage => Seq::empty(),
                MessageType::Upgrade => seq![EffectView::UpgradeBinary(msg.payload)],
                MessageType::RequestUpgrade => if self.upgrade_in_progress {
                    Seq::empty()
                } else {
                    seq![EffectView::ServeBinaryOnce] + upgrade_offers(
                        sender,
                        self.listening_addrs,
                    )
                },
                MessageType::NetworkBinaryVersion => if self.wants_upgrade(msg.payload) {
                    seq![
                        EffectView::Send {
                            peer: sender,
                            message: plain(MessageType::RequestUpgrade, Seq::empty()),
                        },
                    ]
                } else {
                    Seq::empty()
                },
                MessageType::PeerConnected => match self.dht.join_plan(msg.payload) {
                    Some((to, content)) => store_sends(to, tagged_payloads(content)),
                    None => Seq::empty(),
                },
                MessageType::PeerDisconnected => match self.dht.part_plan(msg.payload) {
                    Some((to, content)) => store_sends(to, payloads(content)),
                    None => Seq::empty(),
                },
            }
        }
    }
}

/// What is sent for one member responsible for `peer`: the message itself
/// where the member is `peer`; nothing where it is the local node, which
/// stores the message; else a `StoreMessage`. All of it is addressed to `peer`.
pub open spec fn routed(
    local_id: Seq<char>,
    peer: Seq<char>,
    message: Seq<char>,
    candidates: Seq<Seq<char>>,
) -> Seq<EffectView>
    decreases candidates.len(),
{
    if candidates.len() == 0 {
        Seq::empty()
    } else {
        let c = candidates.last();
        let earlier = routed(local_id, peer, message, candidates.drop_last());
        if c == peer {
            earlier.push(
                EffectView::Send { peer, message: plain(MessageType::DisplayMessage, message) },
            )
        } else if c == local_id {
            earlier
        } else {
            earlier.push(
                EffectView::Send { peer, message: plain(MessageType::StoreMessage, message) },
            )
        }
    }
}

impl ManagementView {
    /// The state after an event of the network layer.
    pub open spec fn after_network_event(self, event: NetworkEventView) -> ManagementView {
        match event {
            NetworkEventView::PeerDiscovered { peer } => ManagementView {
                discovered_peers: with_member(self.discovered_peers, peer),
                ..self
            },
            NetworkEventView::ConnectionEstablished { peer } => ManagementView {
                rejected_peers: without_member(self.rejected_peers, peer),
                connected_peers: with_member(self.connected_peers, peer),
                ..self
            },
            NetworkEventView::ConnectionClosed { peer } => self.forgotten(peer),
            NetworkEventView::PeerExpired { peer } => self.forgotten(peer),
            NetworkEventView::ConnectionRejected { peer } => ManagementView {
                rejected_peers: with_member(self.rejected_peers, peer),
                ..self
            },
            NetworkEventView::NewListenAddress { addr } => ManagementView {
                listening_addrs: with_member(self.listening_addrs, addr),
                ..self
            },
        }
    }

    /// The state without `peer` among the connected, rejected and discovered
    /// peers.
    pub open spec fn forgotten(self, peer: Seq<char>) -> ManagementView {
        ManagementView {
            connected_peers: without_member(self.connected_peers, peer),
            rejected_peers: without_member(self.rejected_peers, peer),
            discovered_peers: without_member(self.discovered_peers, peer),
            ..self
        }
    }

    /// What the node sends to a peer whose connection was established: after
    /// a pause, where it is the first connection, the announcement of the
    /// local node to all and the request for the network state; then the
    /// local alias, where there is one, and the local version, where it is
    /// known.
    pub open spec fn greeting(self, peer: Seq<char>) -> Seq<EffectView> {
        seq![EffectView::Pause(500)] + (if self.connected_peers.len() == 0 {
            seq![
                EffectView::Publish(plain(MessageType::PeerConnected, self.local_id)),
                EffectView::Send {
                    peer,
                    message: plain(MessageType::NetworkSolicitation, Seq::empty()),
                },
            ]
        } else {
            Seq::empty()
        }) + (if self.alias.len() > 0 {
            seq![EffectView::Send { peer, message: plain(MessageType::PublishAlias, self.alias) }]
        } else {
            Seq::empty()
        }) + (match self.version {
            Some(v) => seq![
                EffectView::Send { peer, message: plain(MessageType::NetworkBinaryVersion, v) },
            ],
            None => Seq::empty(),
        })
    }

    /// The effects of an event of the network layer.
    pub open spec fn network_event_effects(self, event: NetworkEventView) -> Seq<EffectView> {
        match event {
            NetworkEventView::ConnectionEstablished { peer } => self.greeting(peer),
            _ => Seq::empty(),
        }
    }

    /// The first steps of whitelisting `peer`: the local node handles the
    /// addition as a message of its own, tells the network after a pause,
    /// and after another pause reports the network state to `peer` as if
    /// `peer` had asked for it.
    pub open spec fn whitelisting(self, peer: Seq<char>) -> Seq<EffectView> {
        self.message_effects(self.local_id, plain(MessageType::AddWhitelistPeer, peer)) + seq![
            EffectView::Pause(200),
            EffectView::Publish(plain(MessageType::AddWhitelistPeer, peer)),
            EffectView::Pause(200),
        ] + self.message_effects(peer, plain(MessageType::NetworkSolicitation, Seq::empty()))
    }

    /// The effects of the answer to a query for the connection whitelist.
    pub open spec fn whitelist_effects(
        self,
        pending: PendingView,
        whitelisted: Seq<Seq<char>>,
    ) -> Seq<EffectView> {
        match pending {
            PendingView::StateFor(peer) => seq![
                EffectView::Send { peer, message: self.state_message(whitelisted) },
            ],
            PendingView::Whitelist(peer) => if whitelisted.contains(peer) {
                Seq::empty()
            } else {
                self.whitelisting(peer)
            },
        }
    }

    /// Whether a message for `peer` is stored locally: the local node is
    /// responsible for `peer` and is not `peer` itself.
    pub open spec fn keeps_for(self, peer: Seq<char>) -> bool {
        closest(self.dht.members, peer).contains(self.local_id) && self.local_id != peer
    }

    /// The state after a command of the user.
    pub open spec fn after_command(self, command: UserCommandView) -> ManagementView {
        match command {
            UserCommandView::SendMsg { peer: None, message } => ManagementView {
                dht: self.dht.broadcasted(message),
                ..self
            },
            UserCommandView::SendMsg { peer: Some(peer), message } => if self.keeps_for(peer) {
                ManagementView { dht: self.dht.stored(peer, message), ..self }
            } else {
                self
            },
            UserCommandView::Authorize(peer) => self.after_message(
                self.local_id,
                plain(MessageType::AddWhitelistSender, peer),
            ),
            UserCommandView::Alias(alias) => ManagementView { alias, ..self },
            _ => self,
        }
    }

    /// The effects of a command of the user.
    pub open spec fn command_effects(self, command: UserCommandView) -> Seq<EffectView> {
        match command {
            UserCommandView::SendMsg { peer: None, message } => seq![
                EffectView::Publish(plain(MessageType::DisplayMessage, message)),
            ],
            UserCommandView::SendMsg { peer: Some(peer), message } => routed(
                self.local_id,
                peer,
                message,
                closest(self.dht.members, peer),
            ),
            UserCommandView::Whitelist(peer) => seq![
                EffectView::QueryWhitelist(PendingView::Whitelist(peer)),
            ],
            UserCommandView::Authorize(peer) => self.message_effects(
                self.local_id,
                plain(MessageType::AddWhitelistSender, peer),
            ).push(EffectView::Publish(plain(MessageType::AddWhitelistSender, peer))),
            UserCommandView::Alias(alias) => seq![
                EffectView::Publish(plain(MessageType::PublishAlias, alias)),
            ],
            UserCommandView::UpgradeSelf(address) => seq![EffectView::UpgradeBinary(address)],
            UserCommandView::Upgrade(target, address) => seq![
                sent(
                    if target.len() == 0 {
                        None
                    } else {
                        Some(target)
                    },
                    plain(MessageType::Upgrade, address),
                ),
            ],
            UserCommandView::Serve(path) => seq![EffectView::Serve(path)],
            UserCommandView::ServeStop => seq![EffectView::StopServing],
            UserCommandView::GetPeerId => seq![EffectView::Reply(ReplyView::Text(self.local_id))],
            UserCommandView::GetAlias => seq![EffectView::Reply(ReplyView::Text(self.alias))],
            UserCommandView::GetAliases => seq![
                EffectView::Reply(ReplyView::Aliases(self.aliases)),
            ],
            UserCommandView::GetDiscovered => seq![
                EffectView::Reply(ReplyView::List(self.discovered_peers)),
            ],
            UserCommandView::GetConnected => seq![
                EffectView::Reply(ReplyView::List(self.connected_peers)),
            ],
            UserCommandView::GetRejected => seq![
                EffectView::Reply(ReplyView::List(self.rejected_peers)),
            ],
        }
    }

    /// The state after bytes of `sender` have been handled: after the message
    /// that they stand for, or unchanged where they stand for none.
    pub open spec fn after_bytes(self, sender: Seq<char>, bytes: Seq<u8>) -> ManagementView {
        match decoded(bytes) {
            Some(msg) => self.after_message(sender, msg),
            None => self,
        }
    }

    /// The effects of bytes of `sender`.
    pub open spec fn bytes_effects(self, sender: Seq<char>, bytes: Seq<u8>) -> Seq<EffectView> {
        match decoded(bytes) {
            Some(msg) => self.message_effects(sender, msg),
            None => Seq::empty(),
        }
    }

    /// The effects of a graceful shutdown: the announcement that the local
    /// node leaves, and a pause for it to spread.
    pub open spec fn farewell(self) -> Seq<EffectView> {
        seq![
            EffectView::Publish(plain(MessageType::PeerDisconnected, self.local_id)),
            EffectView::Pause(500),
        ]
    }
}

/// The bytes that a text in standard base64 stands for, or none where the
/// text is no such encoding: what `base64::decode` makes of it.
pub uninterp spec fn base64_decoded(text: Seq<char>) -> Option<Seq<u8>>;

/// The view of optional bytes.
pub open spec fn bytes_of(b: Option<Vec<u8>>) -> Option<Seq<u8>> {
    match b {
        Some(v) => Some(v@),
        None => None,
    }
}

/// `base64::decode`: the bytes that the text stands for in standard base64
/// with padding, or a failure where the text is no such encoding. The result
/// depends on the text alone.
#[verifier::external_body]
fn decode_base64(text: &String) -> (r: Option<Vec<u8>>)
    ensures
        bytes_of(r) == base64_decoded(text@),
{
    base64::decode(text).ok()
}

/// The text `":9803"`: the port on which binaries are served, after its colon.
fn port_suffix_text() -> (r: &'static str)
    ensures
        r@ == port_suffix(),
{
    ":9803"
}

/// One `StoreMessage` to `to` for each payload of a hand-off to a joiner.
fn sends_for_joiner(to: &String, content: &Vec<(Option<String>, String)>) -> (r: Vec<Effect>)
    ensures
        effect_views(r@) == store_sends(to@, tagged_payloads(tagged_pairs(content@))),
{
    let mut out: Vec<Effect> = Vec::new();
    let mut i: usize = 0;
    let ghost want = store_sends(to@, tagged_payloads(tagged_pairs(content@)));
    assert(effect_views(out@) =~= want.take(0));
    while i < content.len()
        invariant
            i <= content@.len(),
            want == store_sends(to@, tagged_payloads(tagged_pairs(content@))),
            effect_views(out@) == want.take(i as int),
        decreases content@.len() - i,
    {
        let ghost done = effect_views(out@);
        out.push(
            Effect::Send {
                peer: to.clone(),
                message: ControlMessage::new(MessageType::StoreMessage, content[i].1.clone()),
            },
        );
        assert(effect_views(out@) =~= done.push(want[i as int]));
        assert(want.take(i as int + 1) =~= done.push(want[i as int]));
        i += 1;
    }
    assert(want.take(i as int) =~= want);
    out
}

/// One `StoreMessage` to `to` for each payload of a hand-off after a leave.
fn sends_for_successor(to: &String, content: &Vec<(String, String)>) -> (r: Vec<Effect>)
    ensures
        effect_views(r@) == store_sends(to@, payloads(pairs(content@))),
{
    let mut out: Vec<Effect> = Vec::new();
    let mut i: usize = 0;
    let ghost want = store_sends(to@, payloads(pairs(content@)));
    assert(effect_views(out@) =~= want.take(0));
    while i < content.len()
        invariant
            i <= content@.len(),
            want == store_sends(to@, payloads(pairs(content@))),
            effect_views(out@) == want.take(i as int),
        decreases content@.len() - i,
    {
        let ghost done = effect_views(out@);
        out.push(
            Effect::Send {
                peer: to.clone(),
                message: ControlMessage::new(MessageType::StoreMessage, content[i].1.clone()),
            },
        );
        assert(effect_views(out@) =~= done.push(want[i as int]));
        assert(want.take(i as int + 1) =~= done.push(want[i as int]));
        i += 1;
    }
    assert(want.take(i as int) =~= want);
    out
}

/// Appends the effects of `more` to `out`.
fn append_effects(out: &mut Vec<Effect>, more: Vec<Effect>)
    ensures
        effect_views(final(out)@) == effect_views(old(out)@) + effect_views(more@),
{
    let mut more = more;
    let ghost before_all = effect_views(out@);
    let ghost added = effect_views(more@);
    out.append(&mut more);
    assert(effect_views(out@) =~= before_all + added);
}

/// What is sent for a message of the user to `peer`, given the members
/// responsible for `peer`.
fn route_through(local_id: &String, peer: &String, message: &String, candidates: &Vec<String>) -> (r:
    Vec<Effect>)
    ensures
        effect_views(r@) == routed(local_id@, peer@, message@, texts(candidates@)),
{
    let ghost c = texts(candidates@);
    let mut out: Vec<Effect> = Vec::new();
    let mut i: usize = 0;
    assert(c.take(0) =~= Seq::<Seq<char>>::empty());
    assert(effect_views(out@) =~= routed(local_id@, peer@, message@, c.take(0)));
    while i < candidates.len()
        invariant
            i <= candidates@.len(),
            c == texts(candidates@),
            effect_views(out@) == routed(local_id@, peer@, message@, c.take(i as int)),
        decreases candidates@.len() - i,
    {
        let ghost done = effect_views(out@);
        proof {
            assert(c.take(i as int + 1).drop_last() =~= c.take(i as int));
            assert(c.take(i as int + 1).last() == c[i as int]);
        }
        if candidates[i] == *peer {
            out.push(
                Effect::Send {
                    peer: peer.clone(),
                    message: ControlMessage::new(MessageType::DisplayMessage, message.clone()),
                },
            );
            assert(effect_views(out@) =~= done.push(
                EffectView::Send {
                    peer: peer@,
                    message: plain(MessageType::DisplayMessage, message@),
                },
            ));
        } else if candidates[i] == *local_id {
        } else {
            out.push(
                Effect::Send {
                    peer: peer.clone(),
                    message: ControlMessage::new(MessageType::StoreMessage, message.clone()),
                },
            );
            assert(effect_views(out@) =~= done.push(
                EffectView::Send {
                    peer: peer@,
                    message: plain(MessageType::StoreMessage, message@),
                },
            ));
        }
        i += 1;
    }
    assert(c.take(i as int) =~= c);
    out
}

/// The state of a node.
pub struct Management {
    authorized_senders: Vec<String>,
    aliases: Vec<Alias>,
    alias: String,
    discovered_peers: Vec<String>,
    rejected_peers: Vec<String>,
    connected_peers: Vec<String>,
    listening_addrs: Vec<String>,
    upgrade_in_progress: bool,
    local_id: String,
    version: Option<String>,
    dht: Dht,
}

impl View for Management {
    type V = ManagementView;

    closed spec fn view(&self) -> ManagementView {
        ManagementView {
            local_id: self.local_id@,
            version: text_of(self.version),
            authorized_senders: texts(self.authorized_senders@),
            aliases: alias_views(self.aliases@),
            alias: self.alias@,
            discovered_peers: texts(self.discovered_peers@),
            rejected_peers: texts(self.rejected_peers@),
            connected_peers: texts(self.connected_peers@),
            listening_addrs: texts(self.listening_addrs@),
            upgrade_in_progress: self.upgrade_in_progress,
            dht: self.dht@,
        }
    }
}

impl Management {
    /// The invariant of the state: its view is well formed.
    pub closed spec fn wf(&self) -> bool {
        self@.wf() && self.dht.wf()
    }

    /// The view of a well-formed state is well formed.
    pub proof fn lemma_view_wf(&self)
        requires
            self.wf(),
        ensures
            self@.wf(),
    {
    }

    /// The state of a node that has just started, with its identifier and
    /// the version of its binary, where that is known.
    pub fn new(local_id: String, version: Option<String>) -> (m: Management)
        ensures
            m.wf(),
            m@ == ManagementView::initial(local_id@, text_of(version)),
    {
        let dht = Dht::new(local_id.clone());
        proof {
            dht.lemma_view_wf();
        }
        let m = Management {
            authorized_senders: Vec::new(),
            aliases: Vec::new(),
            alias: String::new(),
            discovered_peers: Vec::new(),
            rejected_peers: Vec::new(),
            connected_peers: Vec::new(),
            listening_addrs: Vec::new(),
            upgrade_in_progress: false,
            local_id,
            version,
            dht,
        };
        assert(m@.authorized_senders =~= Seq::<Seq<char>>::empty());
        assert(m@.aliases =~= Seq::<AliasView>::empty());
        assert(m@.discovered_peers =~= Seq::<Seq<char>>::empty());
        assert(m@.rejected_peers =~= Seq::<Seq<char>>::empty());
        assert(m@.connected_peers =~= Seq::<Seq<char>>::empty());
        assert(m@.listening_addrs =~= Seq::<Seq<char>>::empty());
        m
    }

    /// Whether control messages of `sender` are acted upon: every sender
    /// while none is authorized, else the authorized ones.
    pub fn admits(&self, sender: &String) -> (r: bool)
        ensures
            r == self@.admits(sender@),
    {
        self.authorized_senders.len() == 0 || holds(&self.authorized_senders, sender)
    }

    /// Merges a network state into the own state.
    fn merge(&mut self, st: NetworkState) -> (r: Vec<Effect>)
        requires
            old(self).wf(),
        ensures
            final(self).wf(),
            final(self)@ == old(self)@.merged(st@),
            effect_views(r@) == whitelist_adds(st@.whitelisted),
    {
        let ghost start = self@;
        let mut i: usize = 0;
        proof {
            self.dht.lemma_view_wf();
        }
        assert(st@.connected.take(0) =~= Seq::<Seq<char>>::empty());
        while i < st.connected.len()
            invariant
                i <= st.connected@.len(),
                self.dht.wf(),
                self.dht@.wf(),
                self.dht@.own == start.dht.own,
                self.dht@ == joined_all(start.dht, st@.connected.take(i as int)),
                self@ == (ManagementView { dht: self.dht@, ..start }),
            decreases st.connected@.len() - i,
        {
            let ghost before_join = self.dht@;
            proof {
                lemma_joined_wf(before_join, st@.connected[i as int]);
                assert(st@.connected.take(i as int + 1).drop_last() =~= st@.connected.take(
                    i as int,
                ));
            }
            let _ = self.dht.add_peer(st.connected[i].clone());
            i += 1;
        }
        assert(st@.connected.take(i as int) =~= st@.connected);
        let mut out: Vec<Effect> = Vec::new();
        let mut i: usize = 0;
        let ghost want = whitelist_adds(st@.whitelisted);
        assert(effect_views(out@) =~= want.take(0));
        while i < st.whitelisted.len()
            invariant
                i <= st.whitelisted@.len(),
                want == whitelist_adds(st@.whitelisted),
                effect_views(out@) == want.take(i as int),
            decreases st.whitelisted@.len() - i,
        {
            let ghost done = effect_views(out@);
            out.push(Effect::AddWhitelisted(st.whitelisted[i].clone()));
            assert(effect_views(out@) =~= done.push(want[i as int]));
            assert(want.take(i as int + 1) =~= done.push(want[i as int]));
            i += 1;
        }
        assert(want.take(i as int) =~= want);
        let ghost d = self.dht@;
        let ghost senders = start.authorized_senders;
        let mut i: usize = 0;
        assert(texts(self.authorized_senders@) =~= senders + st@.whitelisted_sender.take(0));
        while i < st.whitelisted_sender.len()
            invariant
                i <= st.whitelisted_sender@.len(),
                self.dht.wf(),
                self.dht@ == d,
                texts(self.authorized_senders@) == senders + st@.whitelisted_sender.take(i as int),
                self@ == (ManagementView {
                    dht: d,
                    authorized_senders: texts(self.authorized_senders@),
                    ..start
                }),
            decreases st.whitelisted_sender@.len() - i,
        {
            let ghost done = texts(self.authorized_senders@);
            self.authorized_senders.push(st.whitelisted_sender[i].clone());
            assert(texts(self.authorized_senders@) =~= done.push(st@.whitelisted_sender[i as int]));
            assert(st@.whitelisted_sender.take(i as int + 1) =~= st@.whitelisted_sender.take(
                i as int,
            ).push(st@.whitelisted_sender[i as int]));
            assert(texts(self.authorized_senders@) =~= senders + st@.whitelisted_sender.take(
                i as int + 1,
            ));
            i += 1;
        }
        assert(st@.whitelisted_sender.take(i as int) =~= st@.whitelisted_sender);
        let ghost all_senders = texts(self.authorized_senders@);
        let mut i: usize = 0;
        assert(st@.aliases.take(0) =~= Seq::<AliasView>::empty());
        while i < st.aliases.len()
            invariant
                i <= st.aliases@.len(),
                self.dht.wf(),
                self.dht@ == d,
                alias_views(self.aliases@) == claim_all(start.aliases, st@.aliases.take(i as int)),
                self@ == (ManagementView {
                    dht: d,
                    authorized_senders: all_senders,
                    aliases: alias_views(self.aliases@),
                    ..start
                }),
            decreases st.aliases@.len() - i,
        {
            proof {
                assert(st@.aliases.take(i as int + 1).drop_last() =~= st@.aliases.take(i as int));
                assert(st@.aliases.take(i as int + 1).last() == st@.aliases[i as int]);
            }
            claim_alias(
                &mut self.aliases,
                st.aliases[i].peer.clone(),
                st.aliases[i].alias.clone(),
            );
            i += 1;
        }
        proof {
            assert(st@.aliases.take(i as int) =~= st@.aliases);
            lemma_claim_all(start.aliases, st@.aliases);
        }
        out
    }

    /// Handles a control message of `sender`. A message of a sender that is
    /// not admitted, and a `State` message without a state, changes nothing
    /// and has no effect.
    pub fn handle_message(&mut self, sender: String, msg: ControlMessage) -> (r: Vec<Effect>)
        requires
            old(self).wf(),
        ensures
            final(self).wf(),
            final(self)@ == old(self)@.after_message(sender@, msg@),
            effect_views(r@) == old(self)@.message_effects(sender@, msg@),
    {
        let mut out: Vec<Effect> = Vec::new();
        assert(effect_views(out@) =~= Seq::<EffectView>::empty());
        if !self.admits(&sender) {
            return out;
        }
        proof {
            self.dht.lemma_view_wf();
        }
        match msg.message_type {
            MessageType::DisplayMessage => {
                out.push(Effect::Display(msg.payload));
                assert(effect_views(out@) =~= old(self)@.message_effects(sender@, msg@));
            },
            MessageType::AddWhitelistPeer => {
                out.push(Effect::AddWhitelisted(msg.payload));
                assert(effect_views(out@) =~= old(self)@.message_effects(sender@, msg@));
            },
            MessageType::AddWhitelistSender => {
                self.authorized_senders.push(msg.payload);
                assert(texts(self.authorized_senders@) =~= old(self)@.authorized_senders.push(
                    msg@.payload,
                ));
            },
            MessageType::PublishAlias => {
                proof {
                    law_claim(self@.aliases, sender@, msg@.payload);
                }
                claim_alias(&mut self.aliases, sender, msg.payload);
            },
            MessageType::NetworkSolicitation => {
                out.push(Effect::QueryWhitelist(Pending::StateFor(sender)));
                assert(effect_views(out@) =~= old(self)@.message_effects(sender@, msg@));
            },
            MessageType::State => {
                match msg.state {
                    Some(st) => {
                        let adds = self.merge(st);
                        append_effects(&mut out, adds);
                        let others = self.dht.get_closest_other(&self.local_id);
                        if others.len() > 0 {
                            let ghost done = effect_views(out@);
                            out.push(
                                Effect::Send {
                                    peer: others[0].clone(),
                                    message: ControlMessage::new(
                                        MessageType::RequestMessage,
                                        String::new(),
                                    ),
                                },
                            );
                            assert(texts(others@)[0] == others@[0]@);
                            assert(effect_views(out@) =~= done + self@.pull_request());
                        } else {
                            assert(effect_views(out@) + self@.pull_request() =~= effect_views(
                                out@,
                            ));
                        }
                        assert(effect_views(out@) =~= old(self)@.message_effects(sender@, msg@));
                    },
                    None => {},
                }
            },
            MessageType::RequestMessage => {
                match self.dht.get_content(&sender) {
                    Some(held) => {
                        out.push(
                            Effect::Send {
                                peer: sender,
                                message: ControlMessage::new(MessageType::DisplayMessage, held),
                            },
                        );
                        assert(effect_views(out@) =~= old(self)@.message_effects(sender@, msg@));
                    },
                    None => {},
                }
            },
            MessageType::StoreMessage => {
                self.dht.store(sender, msg.payload);
                proof {
                    self.dht.lemma_view_wf();
                }
            },
            MessageType::Upgrade => {
                out.push(Effect::UpgradeBinary(msg.payload));
                assert(effect_views(out@) =~= old(self)@.message_effects(sender@, msg@));
            },
            MessageType::RequestUpgrade => {
                if !self.upgrade_in_progress {
                    out.push(Effect::ServeBinaryOnce);
                    let ghost want = old(self)@.message_effects(sender@, msg@);
                    let mut i: usize = 0;
                    assert(effect_views(out@) =~= want.take(1));
                    while i < self.listening_addrs.len()
                        invariant
                            i <= self.listening_addrs@.len(),
                            want == seq![EffectView::ServeBinaryOnce] + upgrade_offers(
                                sender@,
                                texts(self.listening_addrs@),
                            ),
                            effect_views(out@) == want.take(i as int + 1),
                        decreases self.listening_addrs@.len() - i,
                    {
                        let ghost done = effect_views(out@);
                        let mut address = self.listening_addrs[i].clone();
                        address.append(port_suffix_text());
                        out.push(
                            Effect::Send {
                                peer: sender.clone(),
                                message: ControlMessage::new(MessageType::Upgrade, address),
                            },
                        );
                        assert(effect_views(out@) =~= done.push(want[i as int + 1]));
                        assert(want.take(i as int + 2) =~= done.push(want[i as int + 1]));
                        i += 1;
                    }
                    assert(want.take(i as int + 1) =~= want);
                }
            },
            MessageType::NetworkBinaryVersion => {
                let newer = match &self.version {
                    Some(v) => is_before(v.as_str(), msg.payload.as_str()),
                    None => true,
                };
                if newer && !self.upgrade_in_progress {
                    self.upgrade_in_progress = true;
                    out.push(
                        Effect::Send {
                            peer: sender,
                            message: ControlMessage::new(
                                MessageType::RequestUpgrade,
                                String::new(),
                            ),
                        },
                    );
                    assert(effect_views(out@) =~= old(self)@.message_effects(sender@, msg@));
                }
            },
            MessageType::PeerConnected => {
                proof {
                    lemma_joined_wf(self.dht@, msg@.payload);
                }
                match self.dht.add_peer(msg.payload) {
                    Some((to, content)) => {
                        out = sends_for_joiner(&to, &content);
                    },
                    None => {},
                }
                proof {
                    self.dht.lemma_view_wf();
                }
            },
            MessageType::PeerDisconnected => {
                proof {
                    lemma_parted_wf(self.dht@, msg@.payload);
                }
                match self.dht.remove_peer(&msg.payload) {
                    Some((to, content)) => {
                        out = sends_for_successor(&to, &content);
                    },
                    None => {},
                }
                proof {
                    self.dht.lemma_view_wf();
                }
            },
        }
        out
    }

    /// Handles an event of the network layer: keeps the lists of peers and
    /// addresses, and greets a peer whose connection was established.
    pub fn handle_network_event(&mut self, event: NetworkEvent) -> (r: Vec<Effect>)
        requires
            old(self).wf(),
        ensures
            final(self).wf(),
            final(self)@ == old(self)@.after_network_event(event@),
            effect_views(r@) == old(self)@.network_event_effects(event@),
    {
        let mut out: Vec<Effect> = Vec::new();
        assert(effect_views(out@) =~= Seq::<EffectView>::empty());
        match event {
            NetworkEvent::PeerDiscovered { peer } => {
                add_member(&mut self.discovered_peers, peer);
            },
            NetworkEvent::ConnectionEstablished { peer } => {
                out.push(Effect::Pause(500));
                let ghost part0 = effect_views(out@);
                assert(part0 =~= seq![EffectView::Pause(500)]);
                if self.connected_peers.len() == 0 {
                    out.push(
                        Effect::Publish(
                            ControlMessage::new(MessageType::PeerConnected, self.local_id.clone()),
                        ),
                    );
                    out.push(
                        Effect::Send {
                            peer: peer.clone(),
                            message: ControlMessage::new(
                                MessageType::NetworkSolicitation,
                                String::new(),
                            ),
                        },
                    );
                }
                let ghost part1 = effect_views(out@);
                if !self.alias.as_str().is_empty() {
                    out.push(
                        Effect::Send {
                            peer: peer.clone(),
                            message: ControlMessage::new(
                                MessageType::PublishAlias,
                                self.alias.clone(),
                            ),
                        },
                    );
                }
                let ghost part2 = effect_views(out@);
                match &self.version {
                    Some(v) => {
                        out.push(
                            Effect::Send {
                                peer: peer.clone(),
                                message: ControlMessage::new(
                                    MessageType::NetworkBinaryVersion,
                                    v.clone(),
                                ),
                            },
                        );
                    },
                    None => {},
                }
                proof {
                    let v = old(self)@;
                    let first = if v.connected_peers.len() == 0 {
                        seq![
                            EffectView::Publish(plain(MessageType::PeerConnected, v.local_id)),
                            EffectView::Send {
                                peer: peer@,
                                message: plain(MessageType::NetworkSolicitation, Seq::empty()),
                            },
                        ]
                    } else {
                        Seq::empty()
                    };
                    let second = if v.alias.len() > 0 {
                        seq![
                            EffectView::Send {
                                peer: peer@,
                                message: plain(MessageType::PublishAlias, v.alias),
                            },
                        ]
                    } else {
                        Seq::empty()
                    };
                    assert(part1 =~= part0 + first);
                    assert(part2 =~= part1 + second);
                    assert(effect_views(out@) =~= v.greeting(peer@));
                }
                drop_member(&mut self.rejected_peers, &peer);
                add_member(&mut self.connected_peers, peer);
            },
            NetworkEvent::ConnectionClosed { peer } => {
                self.forget(&peer);
            },
            NetworkEvent::PeerExpired { peer } => {
                self.forget(&peer);
            },
            NetworkEvent::ConnectionRejected { peer } => {
                add_member(&mut self.rejected_peers, peer);
            },
            NetworkEvent::NewListenAddress { addr } => {
                add_member(&mut self.listening_addrs, addr);
            },
        }
        out
    }

    /// Drops `peer` from the connected, rejected and discovered peers.
    fn forget(&mut self, peer: &String)
        requires
            old(self).wf(),
        ensures
            final(self).wf(),
            final(self)@ == old(self)@.forgotten(peer@),
    {
        drop_member(&mut self.connected_peers, peer);
        drop_member(&mut self.rejected_peers, peer);
        drop_member(&mut self.discovered_peers, peer);
    }

    /// Whitelists `new_peer`: the local node handles the addition as a
    /// message of its own, tells the network, and reports the network state
    /// to `new_peer`. The state does not change.
    pub fn whitelist_peer(&mut self, new_peer: String) -> (r: Vec<Effect>)
        requires
            old(self).wf(),
        ensures
            final(self).wf(),
            final(self)@ == old(self)@,
            effect_views(r@) == old(self)@.whitelisting(new_peer@),
    {
        let mut out = self.handle_message(
            self.local_id.clone(),
            ControlMessage::new(MessageType::AddWhitelistPeer, new_peer.clone()),
        );
        let ghost part0 = effect_views(out@);
        out.push(Effect::Pause(200));
        out.push(
            Effect::Publish(ControlMessage::new(MessageType::AddWhitelistPeer, new_peer.clone())),
        );
        out.push(Effect::Pause(200));
        let ghost part1 = effect_views(out@);
        assert(part1 =~= part0 + seq![
            EffectView::Pause(200),
            EffectView::Publish(plain(MessageType::AddWhitelistPeer, new_peer@)),
            EffectView::Pause(200),
        ]);
        let last = self.handle_message(
            new_peer,
            ControlMessage::new(MessageType::NetworkSolicitation, String::new()),
        );
        append_effects(&mut out, last);
        out
    }

    /// The `State` message that reports the network as the local node sees
    /// it, given the connection whitelist of the network layer.
    pub fn state_message(&self, whitelisted: Vec<String>) -> (m: ControlMessage)
        requires
            self.wf(),
        ensures
            m@ == self@.state_message(texts(whitelisted@)),
    {
        ControlMessage {
            message_type: MessageType::State,
            payload: String::new(),
            state: Some(
                NetworkState {
                    whitelisted,
                    connected: self.dht.get_peers(),
                    whitelisted_sender: copy_of(&self.authorized_senders),
                    aliases: copy_aliases(&self.aliases),
                },
            ),
        }
    }

    /// Goes on with a pending step, given the connection whitelist of the
    /// network layer. The state does not change.
    pub fn handle_whitelist(&mut self, pending: Pending, whitelisted: Vec<String>) -> (r: Vec<
        Effect,
    >)
        requires
            old(self).wf(),
        ensures
            final(self).wf(),
            final(self)@ == old(self)@,
            effect_views(r@) == old(self)@.whitelist_effects(pending@, texts(whitelisted@)),
    {
        match pending {
            Pending::StateFor(peer) => {
                let mut out: Vec<Effect> = Vec::new();
                let message = self.state_message(whitelisted);
                out.push(Effect::Send { peer, message });
                assert(effect_views(out@) =~= old(self)@.whitelist_effects(
                    pending@,
                    texts(whitelisted@),
                ));
                out
            },
            Pending::Whitelist(peer) => {
                if holds(&whitelisted, &peer) {
                    let out: Vec<Effect> = Vec::new();
                    assert(effect_views(out@) =~= Seq::<EffectView>::empty());
                    out
                } else {
                    self.whitelist_peer(peer)
                }
            },
        }
    }

    /// Routes a message of the user to `peer`, through each member
    /// responsible for `peer`.
    fn route(&mut self, peer: String, message: String) -> (r: Vec<Effect>)
        requires
            old(self).wf(),
        ensures
            final(self).wf(),
            final(self)@ == old(self)@.after_command(
                UserCommandView::SendMsg { peer: Some(peer@), message: message@ },
            ),
            effect_views(r@) == old(self)@.command_effects(
                UserCommandView::SendMsg { peer: Some(peer@), message: message@ },
            ),
    {
        proof {
            self.dht.lemma_view_wf();
        }
        let candidates = self.dht.get_closest_peers(&peer);
        let out = route_through(&self.local_id, &peer, &message, &candidates);
        if holds(&candidates, &self.local_id) && self.local_id != peer {
            self.dht.store(peer, message);
            proof {
                self.dht.lemma_view_wf();
            }
        }
        out
    }

    /// Handles a command of the user.
    pub fn handle_user_command(&mut self, command: UserCommand) -> (r: Vec<Effect>)
        requires
            old(self).wf(),
        ensures
            final(self).wf(),
            final(self)@ == old(self)@.after_command(command@),
            effect_views(r@) == old(self)@.command_effects(command@),
    {
        let mut out: Vec<Effect> = Vec::new();
        match command {
            UserCommand::SendMsg { peer: None, message } => {
                self.dht.store_broadcast_content(message.clone());
                proof {
                    self.dht.lemma_view_wf();
                }
                out.push(
                    Effect::Publish(ControlMessage::new(MessageType::DisplayMessage, message)),
                );
            },
            UserCommand::SendMsg { peer: Some(peer), message } => {
                return self.route(peer, message);
            },
            UserCommand::Whitelist(peer) => {
                out.push(Effect::QueryWhitelist(Pending::Whitelist(peer)));
            },
            UserCommand::Authorize(peer) => {
                out = self.handle_message(
                    self.local_id.clone(),
                    ControlMessage::new(MessageType::AddWhitelistSender, peer.clone()),
                );
                let ghost done = effect_views(out@);
                out.push(
                    Effect::Publish(ControlMessage::new(MessageType::AddWhitelistSender, peer)),
                );
                assert(effect_views(out@) =~= done.push(
                    EffectView::Publish(plain(MessageType::AddWhitelistSender, peer@)),
                ));
                return out;
            },
            UserCommand::Alias(alias) => {
                out.push(
                    Effect::Publish(ControlMessage::new(MessageType::PublishAlias, alias.clone())),
                );
                self.alias = alias;
            },
            UserCommand::UpgradeSelf(address) => {
                out.push(Effect::UpgradeBinary(address));
            },
            UserCommand::Upgrade(target, address) => {
                let message = ControlMessage::new(MessageType::Upgrade, address);
                if target.as_str().is_empty() {
                    out.push(Effect::Publish(message));
                } else {
                    out.push(Effect::Send { peer: target, message });
                }
            },
            UserCommand::Serve(path) => {
                out.push(Effect::Serve(path));
            },
            UserCommand::ServeStop => {
                out.push(Effect::StopServing);
            },
            UserCommand::GetPeerId => {
                out.push(Effect::Reply(Reply::Text(self.local_id.clone())));
            },
            UserCommand::GetAlias => {
                out.push(Effect::Reply(Reply::Text(self.alias.clone())));
            },
            UserCommand::GetAliases => {
                out.push(Effect::Reply(Reply::Aliases(copy_aliases(&self.aliases))));
            },
            UserCommand::GetDiscovered => {
                out.push(Effect::Reply(Reply::List(copy_of(&self.discovered_peers))));
            },
            UserCommand::GetConnected => {
                out.push(Effect::Reply(Reply::List(copy_of(&self.connected_peers))));
            },
            UserCommand::GetRejected => {
                out.push(Effect::Reply(Reply::List(copy_of(&self.rejected_peers))));
            },
        }
        assert(effect_views(out@) =~= old(self)@.command_effects(command@));
        out
    }

    /// The effects of a graceful shutdown. The state machine is done after it.
    pub fn shutdown(self) -> (r: Vec<Effect>)
        requires
            self.wf(),
        ensures
            effect_views(r@) == self@.farewell(),
    {
        let mut out: Vec<Effect> = Vec::new();
        out.push(
            Effect::Publish(ControlMessage::new(MessageType::PeerDisconnected, self.local_id)),
        );
        out.push(Effect::Pause(500));
        assert(effect_views(out@) =~= self@.farewell());
        out
    }

    /// Handles bytes received from `sender`: the message that they stand
    /// for, if they stand for one. Bytes that cannot be decoded change
    /// nothing and have no effect.
    pub fn network_receive(&mut self, sender: String, data: &[u8]) -> (r: Vec<Effect>)
        requires
            old(self).wf(),
        ensures
            final(self).wf(),
            final(self)@ == old(self)@.after_bytes(sender@, data@),
            effect_views(r@) == old(self)@.bytes_effects(sender@, data@),
    {
        match ControlMessage::decode(data) {
            Some(msg) => self.handle_message(sender, msg),
            None => {
                let out: Vec<Effect> = Vec::new();
                assert(effect_views(out@) =~= Seq::<EffectView>::empty());
                out
            },
        }
    }

    /// Handles a message of `sender` that arrives as base64 text. Text that
    /// is no base64 changes nothing and has no effect; else the bytes are
    /// handled as `network_receive` handles them.
    pub fn receive(&mut self, sender: String, msg: String) -> (r: Vec<Effect>)
        requires
            old(self).wf(),
        ensures
            final(self).wf(),
            final(self)@ == match base64_decoded(msg@) {
                Some(bytes) => old(self)@.after_bytes(sender@, bytes),
                None => old(self)@,
            },
            effect_views(r@) == match base64_decoded(msg@) {
                Some(bytes) => old(self)@.bytes_effects(sender@, bytes),
                None => Seq::<EffectView>::empty(),
            },
    {
        match decode_base64(&msg) {
            Some(bytes) => self.network_receive(sender, bytes.as_slice()),
            None => {
                let out: Vec<Effect> = Vec::new();
                assert(effect_views(out@) =~= Seq::<EffectView>::empty());
                out
            },
        }
    }

    /// The ring store.
    pub fn dht(&self) -> (r: &Dht)
        requires
            self.wf(),
        ensures
            r@ == self@.dht,
            r.wf(),
    {
        &self.dht
    }

    /// The identifier of the local node.
    pub fn local_id(&self) -> (r: &String)
        ensures
            r@ == self@.local_id,
    {
        &self.local_id
    }

    /// The alias table.
    pub fn aliases(&self) -> (r: &Vec<Alias>)
        ensures
            alias_views(r@) == self@.aliases,
    {
        &self.aliases
    }

    /// The authorized senders.
    pub fn authorized_senders(&self) -> (r: &Vec<String>)
        ensures
            texts(r@) == self@.authorized_senders,
    {
        &self.authorized_senders
    }

    /// Whether a newer binary has been requested.
    pub fn upgrade_in_progress(&self) -> (r: bool)
        ensures
            r == self@.upgrade_in_progress,
    {
        self.upgrade_in_progress
    }
}

} // verus!
