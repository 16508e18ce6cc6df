//! Core of a partitioned, append-only message streaming broker.
//!
//! - `identifier`, `command`, `response`: identifiers, request frames for
//!   the command table, response frames.
//! - `partition`, `index`, `log`: the per-partition append-and-poll engine,
//!   its segment index, and the record layout of segment logs.
//! - `cache`, `persister`: partition caches with their eviction cycle, and
//!   the decisions of the asynchronous persister.
//! - `group`, `topic`, `system`: consumer-group assignment, topics, and the
//!   system facade with its authentication and permission gate.
//! - `encryption`, `client`, `transport`, `cli`: applying encryption results,
//!   the client's reading of topic listings, batch transport values and the
//!   command-line request to list topics.

pub mod cache;
pub mod cli;
pub mod client;
pub mod codec;
pub mod command;
pub mod encryption;
pub mod error;
pub mod group;
pub mod identifier;
pub mod index;
pub mod log;
pub mod partition;
pub mod persister;
pub mod response;
pub mod system;
pub mod topic;
pub mod transport;
