//! The chat relay: name rules, the membership registry, the
//! events of the room and their fan-out, and the per-connection worker. The
//! lines of a connection come from [`crate::framer`].

pub mod broadcast;
pub mod event;
pub mod handshake;
pub mod names;
pub mod registry;
pub mod room;
pub mod worker;
