//! Network layer configuration.  The transport itself is a collaborator
//! outside this crate; these types carry its configuration and stand in
//! for its endpoints.

use vstd::prelude::*;

verus! {

/// Configuration of the peer-to-peer network layer.
#[derive(Clone, Copy, PartialEq, Eq, Structural, Debug)]
pub struct NetworkConfig {
    pub listen_port: u16,
    pub max_connections: usize,
    pub heartbeat_interval_ms: u64,
}

/// Handle for the peer-to-peer network endpoint.
pub struct P2PNetwork;

/// Handle for the peer connection manager.
pub struct PeerManager;

} // verus!
