//! Realtime synchronization engine for a chat client.
//!
//! The crate owns the client side of one logical full-duplex connection to a
//! chat backend: it frames and parses wire messages, correlates request ids
//! with pending completions, tracks the connection lifecycle (including the
//! bootstrap requests that repopulate state after every reconnect), reconciles
//! push events and responses into a local cache of chats and messages, and
//! decides when scroll movement should fetch another page of history.
//!
//! Everything that touches a socket, a clock, the DOM or an HTTP endpoint
//! lives outside this crate; the engine is a pure state machine over plain
//! values, so each merge and transition carries a proved contract.

pub mod cache;
pub mod codec;
pub mod correlator;
pub mod engine;
pub mod model;
pub mod pagination;
pub mod profile;
pub mod protocol;
pub mod supervisor;
pub mod ui;
