//! Coordinator-level configuration, statistics and errors of the
//! commerce-protocol node.

use vstd::prelude::*;

use crate::random::new_uuid_string;

verus! {

/// The commerce-protocol version.
pub const ACP_VERSION: &'static str = "1.0.0";

/// Configuration of a protocol node.
pub struct ACPConfig {
    /// Node identifier.
    pub node_id: String,
    /// Listen address for incoming connections.
    pub listen_address: String,
    /// Bootstrap peers for the initial connection.
    pub bootstrap_peers: Vec<String>,
    /// Maximum number of peers to maintain.
    pub max_peers: usize,
    /// Whether the gossip protocol is enabled.
    pub enable_gossip: bool,
    /// Whether peer discovery is enabled.
    pub enable_discovery: bool,
    /// Message timeout, in milliseconds.
    pub message_timeout_ms: u64,
}

impl Default for ACPConfig {
    /// The default configuration: a random node identifier, listening on
    /// all interfaces, no bootstrap peers, the default peer cap, gossip
    /// and discovery on, and the default message timeout.
    fn default() -> (r: ACPConfig)
        ensures
            r.node_id@.len() == 36,
            r.listen_address@ == "0.0.0.0:8080"@,
            r.bootstrap_peers@.len() == 0,
            r.max_peers == crate::constants::MAX_PEERS,
            r.enable_gossip,
            r.enable_discovery,
            r.message_timeout_ms == crate::constants::MESSAGE_TIMEOUT_MS,
    {
        ACPConfig {
            node_id: new_uuid_string(),
            listen_address: "0.0.0.0:8080".to_owned(),
            bootstrap_peers: Vec::new(),
            max_peers: crate::constants::MAX_PEERS,
            enable_gossip: true,
            enable_discovery: true,
            message_timeout_ms: crate::constants::MESSAGE_TIMEOUT_MS,
        }
    }
}

/// Errors of the protocol node.
#[derive(Debug)]
pub enum ACPError {
    Network(String),
    Protocol(String),
    Security(String),
    Message(String),
    Timeout,
    Connection(String),
    Discovery(String),
}

/// Statistics of the protocol node.
#[derive(Clone, Copy, PartialEq, Eq, Structural, Debug)]
pub struct ACPStats {
    pub peer_count: usize,
    pub messages_sent: u64,
    pub messages_received: u64,
    pub uptime_ms: u64,
}

} // verus!
