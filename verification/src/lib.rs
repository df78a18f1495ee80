//! A small single-node key-value server library speaking a Redis-compatible
//! wire protocol: a RESP codec, an in-memory store with per-key expiry, a
//! command interpreter, a slave-side replication handshake engine, and a
//! binary snapshot decoder.

pub mod bytes_util;
pub mod helpers;
pub mod interpreter;
pub mod options;
pub mod parser;
pub mod rdb;
pub mod replication;
pub mod store;
pub mod wire;
