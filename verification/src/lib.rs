//! Routing core of a selective forwarding unit: signalling state, the
//! subscription switchboard, and the forwarding decisions made for each
//! media or data packet.

pub mod auth;
pub mod channel;
pub mod codec;
pub mod config;
pub mod dispatch;
pub mod events;
pub mod messages;
pub mod negotiate;
pub mod plane;
pub mod queue;
pub mod sessions;
pub mod subscriptions;
pub mod switchboard;
pub mod userid;
