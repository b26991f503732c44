//! Core of a peer-to-peer coordination layer for autonomous economic agents.
//!
//! The crate has two tightly coupled subsystems: an epidemic gossip engine
//! that disseminates messages with bounded redundancy (`gossip`), and a
//! Proof-of-Reputation consensus engine that rotates a weighted validator
//! set, tallies votes and finalizes blocks under a Byzantine quorum
//! (`consensus`).  Supporting modules hold the shared data model, the
//! protocol-level message types and the error taxonomy.
//!
//! Network transport, persistence and key management are left to the
//! caller: every entry point works on plain values, and anything the
//! engines decide to send is placed on an explicit outbound queue that a
//! transport collaborator drains.
//!
//! Wall-clock time never enters the crate on its own: every operation that
//! depends on the current time takes it as an explicit millisecond
//! timestamp, so the behaviour of each call is a function of its arguments
//! (plus the random peer sample drawn for gossip targets).

pub mod types;
pub mod random;
pub mod strutil;
pub mod hashing;
pub mod consensus;
pub mod version;
pub mod errors;
pub mod agent;
pub mod network;
pub mod protocol;
pub mod constants;
pub mod acp;
pub mod messaging;
pub mod reputation;
pub mod discovery;
pub mod transaction;
pub mod gossip;
