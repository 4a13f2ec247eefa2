//! Offset resolution for Kafka topics: which offset each partition of a set of topics has
//! under a policy, with a fallback policy for the partitions that have none.
//!
//! The library decides and the caller talks to the broker: `machine::Resolver` says what to
//! ask next, `channel::interpret` reads a completion event, and `kafka::to_client_list`
//! builds the client's list for a request or an outcome.
use vstd::prelude::*;

pub mod channel;
pub mod config;
pub mod kafka;
pub mod machine;
pub mod offsets;
pub mod resolver;
