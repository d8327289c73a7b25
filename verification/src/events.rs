//! What the state machine takes in and what it asks for.
//!
//! The state machine does no I/O. It is handed events: messages from peers,
//! commands of the user, events of the network layer. It answers with
//! effects, which the surrounding program carries out in order.

use crate::mailbox::text_of;
use crate::protocol::{alias_views, Alias, AliasView, ControlMessage, ControlMessageView};
use crate::sorted::texts;
use vstd::prelude::*;

verus! {

/// An event of the network layer.
#[derive(Clone, Debug, PartialEq, Eq)]
pub enum NetworkEvent {
    ConnectionClosed { peer: String },
    ConnectionEstablished { peer: String },
    ConnectionRejected { peer: String },
    PeerDiscovered { peer: String },
    PeerExpired { peer: String },
    NewListenAddress { addr: String },
}

/// A network event as a mathematical value.
pub enum NetworkEventView {
    ConnectionClosed { peer: Seq<char> },
    ConnectionEstablished { peer: Seq<char> },
    ConnectionRejected { peer: Seq<char> },
    PeerDiscovered { peer: Seq<char> },
    PeerExpired { peer: Seq<char> },
    NewListenAddress { addr: Seq<char> },
}

impl View for NetworkEvent {
    type V = NetworkEventView;

    open spec fn view(&self) -> NetworkEventView {
        match self {
            NetworkEvent::ConnectionClosed { peer } => NetworkEventView::ConnectionClosed {
                peer: peer@,
            },
            NetworkEvent::ConnectionEstablished {
                peer,
            } => NetworkEventView::ConnectionEstablished { peer: peer@ },
            NetworkEvent::ConnectionRejected { peer } => NetworkEventView::ConnectionRejected {
                peer: peer@,
            },
            NetworkEvent::PeerDiscovered { peer } => NetworkEventView::PeerDiscovered {
                peer: peer@,
            },
            NetworkEvent::PeerExpired { peer } => NetworkEventView::PeerExpired { peer: peer@ },
            NetworkEvent::NewListenAddress { addr } => NetworkEventView::NewListenAddress {
                addr: addr@,
            },
        }
    }
}

/// A command of the user.
#[derive(Clone, Debug, PartialEq, Eq)]
pub enum UserCommand {
    /// Send a message to one peer, or to all where no peer is named.
    SendMsg { peer: Option<String>, message: String },
    /// Admit a peer to the connection whitelist.
    Whitelist(String),
    /// Authorize a peer as a sender of control messages.
    Authorize(String),
    /// Set the local alias.
    Alias(String),
    /// Install the binary served at an address.
    UpgradeSelf(String),
    /// Tell a peer, or all where the first text is empty, to install the
    /// binary served at an address.
    Upgrade(String, String),
    /// Serve a file to upgrading peers.
    Serve(String),
    /// Stop serving.
    ServeStop,
    /// Ask for the local identifier.
    GetPeerId,
    /// Ask for the local alias.
    GetAlias,
    /// Ask for the alias table.
    GetAliases,
    /// Ask for the discovered peers.
    GetDiscovered,
    /// Ask for the connected peers.
    GetConnected,
    /// Ask for the rejected peers.
    GetRejected,
}

/// A user command as a mathematical value.
pub enum UserCommandView {
    SendMsg { peer: Option<Seq<char>>, message: Seq<char> },
    Whitelist(Seq<char>),
    Authorize(Seq<char>),
    Alias(Seq<char>),
    UpgradeSelf(Seq<char>),
    Upgrade(Seq<char>, Seq<char>),
    Serve(Seq<char>),
    ServeStop,
    GetPeerId,
    GetAlias,
    GetAliases,
    GetDiscovered,
    GetConnected,
    GetRejected,
}

impl View for UserCommand {
    type V = UserCommandView;

    open spec fn view(&self) -> UserCommandView {
        match self {
            UserCommand::SendMsg { peer, message } => UserCommandView::SendMsg {
                peer: text_of(*peer),
                message: message@,
            },
            UserCommand::Whitelist(p) => UserCommandView::Whitelist(p@),
            UserCommand::Authorize(p) => UserCommandView::Authorize(p@),
            UserCommand::Alias(a) => UserCommandView::Alias(a@),
            UserCommand::UpgradeSelf(a) => UserCommandView::UpgradeSelf(a@),
            UserCommand::Upgrade(a, b) => UserCommandView::Upgrade(a@, b@),
            UserCommand::Serve(p) => UserCommandView::Serve(p@),
            UserCommand::ServeStop => UserCommandView::ServeStop,
            UserCommand::GetPeerId => UserCommandView::GetPeerId,
            UserCommand::GetAlias => UserCommandView::GetAlias,
            UserCommand::GetAliases => UserCommandView::GetAliases,
            UserCommand::GetDiscovered => UserCommandView::GetDiscovered,
            UserCommand::GetConnected => UserCommandView::GetConnected,
            UserCommand::GetRejected => UserCommandView::GetRejected,
        }
    }
}

/// What the state machine goes on with once it is told the connection
/// whitelist of the network layer.
#[derive(Clone, Debug, PartialEq, Eq)]
pub enum Pending {
    /// Send the network state to the named peer.
    StateFor(String),
    /// Whitelist the named peer unless it is whitelisted already.
    Whitelist(String),
}

/// A pending step as a mathematical value.
pub enum PendingView {
    StateFor(Seq<char>),
    Whitelist(Seq<char>),
}

impl View for Pending {
    type V = PendingView;

    open spec fn view(&self) -> PendingView {
        match self {
            Pending::StateFor(p) => PendingView::StateFor(p@),
            Pending::Whitelist(p) => PendingView::Whitelist(p@),
        }
    }
}

/// The answer to a query of the user.
#[derive(Clone, Debug, PartialEq, Eq)]
pub enum Reply {
    Text(String),
    List(Vec<String>),
    Aliases(Vec<Alias>),
}

/// An answer as a mathematical value.
pub enum ReplyView {
    Text(Seq<char>),
    List(Seq<Seq<char>>),
    Aliases(Seq<AliasView>),
}

impl View for Reply {
    type V = ReplyView;

    open spec fn view(&self) -> ReplyView {
        match self {
            Reply::Text(t) => ReplyView::Text(t@),
            Reply::List(l) => ReplyView::List(texts(l@)),
            Reply::Aliases(a) => ReplyView::Aliases(alias_views(a@)),
        }
    }
}

/// Something for the surrounding program to do.
#[derive(Clone, Debug, PartialEq, Eq)]
pub enum Effect {
    /// Hand the text to the local output.
    Display(String),
    /// Publish the message to the whole network.
    Publish(ControlMessage),
    /// Send the message to one peer.
    Send { peer: String, message: ControlMessage },
    /// Ask the network layer for its connection whitelist and hand it to
    /// `handle_whitelist` together with this pending step.
    QueryWhitelist(Pending),
    /// Add the peer to the connection whitelist of the network layer.
    AddWhitelisted(String),
    /// Fetch the binary served at the address, install it and exit.
    UpgradeBinary(String),
    /// Serve the running binary to one peer.
    ServeBinaryOnce,
    /// Serve the file at the path.
    Serve(String),
    /// Stop serving.
    StopServing,
    /// Wait for this many milliseconds.
    Pause(u64),
    /// Answer the query of the user.
    Reply(Reply),
}

/// An effect as a mathematical value.
pub enum EffectView {
    Display(Seq<char>),
    Publish(ControlMessageView),
    Send { peer: Seq<char>, message: ControlMessageView },
    QueryWhitelist(PendingView),
    AddWhitelisted(Seq<char>),
    UpgradeBinary(Seq<char>),
    ServeBinaryOnce,
    Serve(Seq<char>),
    StopServing,
    Pause(u64),
    Reply(ReplyView),
}

impl View for Effect {
    type V = EffectView;

    open spec fn view(&self) -> EffectView {
        match self {
            Effect::Display(t) => EffectView::Display(t@),
            Effect::Publish(m) => EffectView::Publish(m@),
            Effect::Send { peer, message } => EffectView::Send { peer: peer@, message: message@ },
            Effect::QueryWhitelist(p) => EffectView::QueryWhitelist(p@),
            Effect::AddWhitelisted(p) => EffectView::AddWhitelisted(p@),
            Effect::UpgradeBinary(a) => EffectView::UpgradeBinary(a@),
            Effect::ServeBinaryOnce => EffectView::ServeBinaryOnce,
            Effect::Serve(p) => EffectView::Serve(p@),
            Effect::StopServing => EffectView::StopServing,
            Effect::Pause(ms) => EffectView::Pause(*ms),
            Effect::Reply(r) => EffectView::Reply(r@),
        }
    }
}

/// The views of a vector of effects.
pub open spec fn effect_views(v: Seq<Effect>) -> Seq<EffectView> {
    Seq::new(v.len(), |i: int| v[i]@)
}

} // verus!
