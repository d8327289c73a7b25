//! A peer-to-peer message relay core: a ring-based replicated mailbox store
//! and the control-protocol state machine that drives membership, routing
//! and delivery on top of it.
//!
//! Everything here is free of I/O. The state machine consumes events and
//! returns the effects that the surrounding program has to carry out.

pub mod order;
pub mod seqs;
pub mod text;
pub mod sorted;
pub mod mailbox;
pub mod ring;
pub mod dht;
pub mod churn;
pub mod protocol;
pub mod wire;
pub mod codec;
pub mod peers;
pub mod aliases;
pub mod events;
pub mod management;
pub mod console;
pub mod gate;
pub mod transport;

pub use crate::dht::Dht;
pub use crate::events::{Effect, NetworkEvent, Pending, Reply, UserCommand};
pub use crate::management::Management;
pub use crate::protocol::{Alias, ControlMessage, MessageType, NetworkState};
