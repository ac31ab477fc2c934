//! A Chord-style overlay routing library for a distributed key-value store.
//!
//! Nodes own arcs of an `m`-bit identifier ring. The routing core here is
//! pure logic: the finger table and its lookup procedure, the bootstrap
//! decisions that fill the table, the relay decisions of the RPC surface,
//! and the node-local store. Network transport is left to the caller, which
//! feeds replies back into these functions as plain values.

pub mod bootstrap;
pub mod chord;
pub mod dict;
pub mod hashing;
pub mod laws;
pub mod node_info;
pub mod ring;
pub mod service;
pub mod storage;
