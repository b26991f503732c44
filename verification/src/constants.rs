//! Default configuration constants of the protocol.  Durations are
//! milliseconds; fractional quantities are parts-per-million.

use vstd::prelude::*;

verus! {

/// Maximum number of negotiation rounds.
pub const MAX_NEGOTIATION_ROUNDS: u32 = 10;

/// Default transaction timeout, in milliseconds.
pub const DEFAULT_TRANSACTION_TIMEOUT_MS: u64 = 300_000;

/// Minimum reputation score for participation, in ppm.
pub const MIN_REPUTATION_SCORE_PPM: u32 = 100_000;

/// Maximum transaction value for new agents, in lamports.
pub const MAX_NEW_AGENT_TRANSACTION: u64 = 1000;

/// Network heartbeat interval, in milliseconds.
pub const HEARTBEAT_INTERVAL_MS: u64 = 30_000;

/// Maximum message size in bytes.
pub const MAX_MESSAGE_SIZE: usize = 1024 * 1024;

/// Maximum number of peers to maintain.
pub const MAX_PEERS: usize = 100;

/// Message timeout, in milliseconds.
pub const MESSAGE_TIMEOUT_MS: u64 = 30_000;

/// Discovery broadcast interval, in milliseconds.
pub const DISCOVERY_INTERVAL_MS: u64 = 60_000;

/// Gossip propagation factor.
pub const GOSSIP_FACTOR: usize = 3;

/// Default RPC endpoint for the development network.
pub const DEFAULT_DEVNET_RPC: &'static str = "https://api.devnet.solana.com";

/// Default RPC endpoint for the main network.
pub const DEFAULT_MAINNET_RPC: &'static str = "https://api.mainnet-beta.solana.com";

} // verus!
