//! The control messages that nodes exchange.

use crate::sorted::texts;
use vstd::prelude::*;

verus! {

/// The kinds of control message.
#[derive(Clone, Copy, Debug, PartialEq, Eq, Structural)]
pub enum MessageType {
    /// Deliver the payload to the local output.
    DisplayMessage,
    /// Add the peer named by the payload to the connection whitelist.
    AddWhitelistPeer,
    /// Add the peer named by the payload to the authorized senders.
    AddWhitelistSender,
    /// The sender claims the payload as its alias.
    PublishAlias,
    /// The sender asks for the network state.
    NetworkSolicitation,
    /// The network state as the sender sees it.
    State,
    /// The sender asks for what is held for it.
    RequestMessage,
    /// Hold the payload as a backup.
    StoreMessage,
    /// Fetch and install the binary served at the address in the payload.
    Upgrade,
    /// The sender asks to be sent the binary.
    RequestUpgrade,
    /// The sender announces the version of its binary.
    NetworkBinaryVersion,
    /// The peer named by the payload joined the ring.
    PeerConnected,
    /// The peer named by the payload left the ring.
    PeerDisconnected,
}

/// An alias and the peer that owns it.
#[derive(Clone, Debug, PartialEq, Eq)]
pub struct Alias {
    /// The identifier of the owner.
    pub peer: String,
    /// The alias.
    pub alias: String,
}

/// A snapshot of what a node knows of the network.
#[derive(Clone, Debug, PartialEq, Eq)]
pub struct NetworkState {
    /// The peers on the connection whitelist.
    pub whitelisted: Vec<String>,
    /// The members of the ring.
    pub connected: Vec<String>,
    /// The authorized senders.
    pub whitelisted_sender: Vec<String>,
    /// The aliases and their owners.
    pub aliases: Vec<Alias>,
}

/// A control message: its kind, a text payload, and, with a `State` message,
/// the network state.
#[derive(Clone, Debug, PartialEq, Eq)]
pub struct ControlMessage {
    /// The kind of the message.
    pub message_type: MessageType,
    /// The payload.
    pub payload: String,
    /// The network state that the message carries, if any.
    pub state: Option<NetworkState>,
}

/// An alias pair as a mathematical value.
pub struct AliasView {
    pub peer: Seq<char>,
    pub alias: Seq<char>,
}

/// A network state as a mathematical value.
pub struct NetworkStateView {
    pub whitelisted: Seq<Seq<char>>,
    pub connected: Seq<Seq<char>>,
    pub whitelisted_sender: Seq<Seq<char>>,
    pub aliases: Seq<AliasView>,
}

/// A control message as a mathematical value.
pub struct ControlMessageView {
    pub message_type: MessageType,
    pub payload: Seq<char>,
    pub state: Option<NetworkStateView>,
}

impl View for Alias {
    type V = AliasView;

    open spec fn view(&self) -> AliasView {
        AliasView { peer: self.peer@, alias: self.alias@ }
    }
}

/// The views of a vector of alias pairs.
pub open spec fn alias_views(v: Seq<Alias>) -> Seq<AliasView> {
    Seq::new(v.len(), |i: int| v[i]@)
}

impl View for NetworkState {
    type V = NetworkStateView;

    open spec fn view(&self) -> NetworkStateView {
        NetworkStateView {
            whitelisted: texts(self.whitelisted@),
            connected: texts(self.connected@),
            whitelisted_sender: texts(self.whitelisted_sender@),
            aliases: alias_views(self.aliases@),
        }
    }
}

impl View for ControlMessage {
    type V = ControlMessageView;

    open spec fn view(&self) -> ControlMessageView {
        ControlMessageView {
            message_type: self.message_type,
            payload: self.payload@,
            state: match self.state {
                Some(s) => Some(s@),
                None => None,
            },
        }
    }
}

impl ControlMessageView {
    /// A message of the given kind with a payload and no network state.
    pub open spec fn plain(message_type: MessageType, payload: Seq<char>) -> ControlMessageView {
        ControlMessageView { message_type, payload, state: None }
    }
}

impl ControlMessage {
    /// A message of the given kind with a payload and no network state.
    pub fn new(message_type: MessageType, payload: String) -> (m: ControlMessage)
        ensures
            m@ == ControlMessageView::plain(message_type, payload@),
    {
        ControlMessage { message_type, payload, state: None }
    }
}

} // verus!
