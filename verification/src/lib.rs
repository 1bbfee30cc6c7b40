//! Real-time level-selection synchronization.
//!
//! A game server holds one authoritative state — the list of available
//! levels and the currently selected one — and any number of connected
//! clients hold eventually-consistent replicas of it. This crate verifies
//! the logic of that synchronization layer: the shared state store, the
//! connection registry, the wire codec for the message protocol, the
//! per-connection server session, and the client sync agent, together
//! with the level-discovery and configuration-patch text handling around
//! them. Transport, file and directory I/O stay outside, in the
//! surrounding application.

pub mod client;
pub mod codec;
pub mod config;
pub mod levels;
pub mod registry;
pub mod session;
pub mod types;
