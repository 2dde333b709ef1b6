//! A protocol adapter that carries the traffic between nodes over WebSocket connections, so that
//! two nodes reach each other where their mesh does not.
//!
//! This library is what the adapter decides: how it reads its settings ([`settings`], [`vars`],
//! [`text`], [`node_id`], [`hex_text`]), who is let in and what passes over a connection
//! ([`session`], [`conns`]), when links are dialed and accepted ([`links`], [`accepting`]), and
//! what it says to its node and hears from it ([`flow`], [`messages`], [`transport`]). The
//! sockets, threads and timers that these decisions steer are not in it.

pub mod accepting;
pub mod conns;
pub mod flow;
pub mod hex_text;
pub mod links;
pub mod messages;
pub mod node_id;
pub mod session;
pub mod settings;
pub mod text;
pub mod transport;
pub mod vars;
