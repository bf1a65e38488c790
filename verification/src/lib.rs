//! Core of an agent-centric distributed ledger: the coalescing-trigger queue
//! consumer that drives integration of distributed operations into the local
//! store, and the multi-party countersigning protocol by which several agents
//! atomically co-author one entry across their independent chains.

pub mod chain;
pub mod codec;
pub mod consumer;
pub mod countersign;
pub mod integration;
