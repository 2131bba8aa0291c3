//! Verified protocol logic for a family of small network servers.
//!
//! The centre of the crate is [`chat`], a multi-user chat relay: clients join
//! one shared room under a unique name, and every join, leave and message is
//! relayed to every other member in one order. The remaining modules hold the
//! rules of the smaller protocols that share its framing and conventions.
//!
//! Nothing here performs I/O. A caller reads bytes, hands them to the state
//! machines of this crate, and performs the writes they ask for.

pub mod chat;
pub mod database;
pub mod framer;
pub mod means;
pub mod prime;
pub mod proxy;
pub mod text;
