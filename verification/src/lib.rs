//! Core of a multi-room chat relay: a registry of named rooms and, per room,
//! a bounded FIFO mailbox of inbound messages together with the broadcast
//! fan-out state machine that delivers each message to every current
//! subscriber and prunes the sinks whose delivery failed.
//!
//! The surrounding process (transport, RPC dispatch, the actual concurrent
//! delivery attempts) drives this library from outside: it resolves rooms and
//! registers sinks through [`registry::SharedData`], feeds inbound messages
//! into a room's mailbox, and runs each fan-out round by asking the room for
//! the next message and its target sinks, attempting delivery, and reporting
//! the outcomes back.

pub mod laws;
pub mod registry;
pub mod room;
pub mod types;
