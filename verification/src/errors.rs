//! Error taxonomy shared across the protocol: per-domain error types,
//! the top-level error, retry classification and severity levels.
//!
//! Fractional quantities in error payloads (reputation scores) are in
//! parts-per-million, like everywhere else in the crate.

use vstd::prelude::*;

verus! {

/// Agent-related errors.
#[derive(Debug)]
pub enum AgentError {
    NotFound { id: String },
    AlreadyExists { id: String },
    NotAuthorized { operation: String },
    InvalidConfig { reason: String },
    ReputationTooLow { current_ppm: u32, required_ppm: u32 },
    InsufficientCapabilities,
    InsufficientFunds { available: u64, required: u64 },
    Offline,
}

/// Transaction-related errors.
#[derive(Debug)]
pub enum TransactionError {
    NotFound { id: String },
    AlreadyExists { id: String },
    InvalidState { current: String, expected: String },
    Expired { deadline: String },
    InvalidAmount { amount: u64 },
    InvalidSignature,
    NegotiationFailed { rounds: u32 },
    ExecutionFailed { reason: String },
    Timeout { duration_s: u64 },
}

/// Network-related errors.
#[derive(Debug)]
pub enum NetworkError {
    ConnectionFailed { address: String, reason: String },
    ConnectionTimeout { address: String },
    PeerNotFound { peer_id: String },
    InvalidMessage,
    MessageTooLarge { size: usize, max: usize },
    NetworkPartition,
    BandwidthExceeded,
    HandshakeFailed { peer: String },
}

/// Cryptographic errors.
#[derive(Clone, Copy, PartialEq, Eq, Structural, Debug)]
pub enum CryptoError {
    InvalidKeyFormat,
    SignatureVerificationFailed,
    KeyGenerationFailed,
    EncryptionFailed,
    DecryptionFailed,
    HashComputationFailed,
    RandomGenerationFailed,
}

/// Signature-specific errors.
#[derive(Clone, Copy, PartialEq, Eq, Structural, Debug)]
pub enum SignatureError {
    InvalidFormat,
    VerificationFailed,
}

/// Reputation-system errors.
#[derive(Debug)]
pub enum ReputationError {
    ScoreOutOfRange { score_ppm: u32 },
    InsufficientHistory { agent_id: String },
    CalculationFailed { reason: String },
    UpdateDenied { reason: String },
    NotInitialized,
}

/// The top-level protocol error.
#[derive(Debug)]
pub enum SolaceError {
    Agent(AgentError),
    Transaction(TransactionError),
    Network(NetworkError),
    Crypto(CryptoError),
    Reputation(ReputationError),
    Config { message: String },
    VersionMismatch { expected: String, actual: String },
    Internal { message: String },
}

/// Error severity levels, lowest first.
#[derive(Clone, Copy, PartialEq, Eq, Structural, Debug)]
pub enum ErrorSeverity {
    Low,
    Medium,
    High,
    Critical,
}

/// Whether an error is worth retrying: transient network conditions and
/// transaction timeouts.
pub open spec fn spec_is_retryable(e: &SolaceError) -> bool {
    match e {
        SolaceError::Network(NetworkError::ConnectionTimeout { .. }) => true,
        SolaceError::Network(NetworkError::ConnectionFailed { .. }) => true,
        SolaceError::Network(NetworkError::BandwidthExceeded) => true,
        SolaceError::Transaction(TransactionError::Timeout { .. }) => true,
        _ => false,
    }
}

/// The severity of an error.
pub open spec fn spec_severity(e: &SolaceError) -> ErrorSeverity {
    match e {
        SolaceError::Internal { .. } => ErrorSeverity::Critical,
        SolaceError::Crypto(_) => ErrorSeverity::High,
        SolaceError::Agent(AgentError::NotAuthorized { .. }) => ErrorSeverity::High,
        SolaceError::Transaction(TransactionError::InvalidSignature) => ErrorSeverity::High,
        SolaceError::Network(NetworkError::NetworkPartition) => ErrorSeverity::High,
        SolaceError::VersionMismatch { .. } => ErrorSeverity::Medium,
        SolaceError::Config { .. } => ErrorSeverity::Medium,
        _ => ErrorSeverity::Low,
    }
}

impl SolaceError {
    /// Create a configuration error.
    pub fn config(message: String) -> (r: SolaceError)
        ensures
            r matches SolaceError::Config { message: m } && m == message,
    {
        SolaceError::Config { message }
    }

    /// Create an internal error.
    pub fn internal(message: String) -> (r: SolaceError)
        ensures
            r matches SolaceError::Internal { message: m } && m == message,
    {
        SolaceError::Internal { message }
    }

    /// Whether the error is worth retrying.
    pub fn is_retryable(&self) -> (r: bool)
        ensures
            r == spec_is_retryable(self),
    {
        match self {
            SolaceError::Network(NetworkError::ConnectionTimeout { .. }) => true,
            SolaceError::Network(NetworkError::ConnectionFailed { .. }) => true,
            SolaceError::Network(NetworkError::BandwidthExceeded) => true,
            SolaceError::Transaction(TransactionError::Timeout { .. }) => true,
            _ => false,
        }
    }

    /// The severity of the error.
    pub fn severity(&self) -> (r: ErrorSeverity)
        ensures
            r == spec_severity(self),
    {
        match self {
            SolaceError::Internal { .. } => ErrorSeverity::Critical,
            SolaceError::Crypto(_) => ErrorSeverity::High,
            SolaceError::Agent(AgentError::NotAuthorized { .. }) => ErrorSeverity::High,
            SolaceError::Transaction(TransactionError::InvalidSignature) => ErrorSeverity::High,
            SolaceError::Network(NetworkError::NetworkPartition) => ErrorSeverity::High,
            SolaceError::VersionMismatch { .. } => ErrorSeverity::Medium,
            SolaceError::Config { .. } => ErrorSeverity::Medium,
            _ => ErrorSeverity::Low,
        }
    }

    /// Wrap an agent error.
    pub fn from_agent(e: AgentError) -> (r: SolaceError)
        ensures
            r matches SolaceError::Agent(inner) && inner == e,
    {
        SolaceError::Agent(e)
    }

    /// Wrap a transaction error.
    pub fn from_transaction(e: TransactionError) -> (r: SolaceError)
        ensures
            r matches SolaceError::Transaction(inner) && inner == e,
    {
        SolaceError::Transaction(e)
    }

    /// Wrap a network error.
    pub fn from_network(e: NetworkError) -> (r: SolaceError)
        ensures
            r matches SolaceError::Network(inner) && inner == e,
    {
        SolaceError::Network(e)
    }
}

} // verus!
