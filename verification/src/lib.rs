//! Bootstrap and event-routing core of a chat-platform automation agent.
//!
//! The library models the startup sequence — configuration load, credential
//! lookup, command synchronization, shared-context construction — and the
//! dispatch state machine that routes inbound gateway events to handler
//! collaborators. All network and file activity lives outside the library:
//! the library decides, its callers perform.

pub mod bootstrap;
pub mod codec;
pub mod commands;
pub mod config;
pub mod context;
pub mod events;
pub mod numtext;
pub mod router;
