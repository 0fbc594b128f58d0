//! A broadcast relay: connections register an outbound queue, every text
//! message received from any connection is offered to every registered queue,
//! and a bounded window of recent messages is replayed to each new connection.

pub mod config;
pub mod history;
pub mod outbox;
pub mod registry;
pub mod relay;
pub mod lifecycle;
