//! Routing core for a live-support chat service.
//!
//! The library pairs waiting customers with available customer-service
//! agents, tracks the conversation rooms created for each pairing, and
//! decides how messages flow between them.  Every decision is a pure,
//! verified function from state and event to new state and a list of
//! deliveries; the asynchronous mailboxes and the network transport that
//! carry those deliveries live outside the library.

pub mod chat;
pub mod collection;
pub mod conn;
pub mod dispatch;
pub mod member;
pub mod protocol;
pub mod room;
