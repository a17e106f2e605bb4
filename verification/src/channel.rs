//! The datagrams exchanged with a companion process that mirrors client
//! traffic. Only the message shapes live here; the sockets that carry
//! them live with the host.

use vstd::prelude::*;

use crate::userid::UserId;

verus! {

/// The topic of a piece of client information.
#[derive(Debug, Copy, Clone, PartialEq, Eq, Structural, Hash)]
pub enum Topic {
    /// All of the data channel traffic for a given user.
    UserData(UserId),
}

/// One datagram exchanged with the companion process.
#[derive(Debug, Clone, PartialEq, Eq, Hash)]
pub enum DatagramKind {
    /// A user has joined.
    Join(UserId),
    /// A user has left.
    Leave(UserId),
    /// A user wants to subscribe to the given topic.
    Subscribe(Topic),
    /// A user wants to unsubscribe from the given topic.
    Unsubscribe(Topic),
    /// A message from a particular user on a particular topic.
    Message(Topic, Vec<u8>),
}

} // verus!
