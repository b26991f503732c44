//! Shared data model: identities, balances, addresses, service kinds and
//! priorities.
//!
//! Fractional quantities (reputation scores, weight coefficients) are
//! carried throughout the crate as integers in parts-per-million, so
//! that every computation on them is exact.

use vstd::prelude::*;

use crate::random::new_uuid_string;

verus! {

/// The character sequences behind a sequence of strings; contracts over
/// identifier lists are stated at this level.
pub open spec fn names(v: Seq<String>) -> Seq<Seq<char>> {
    v.map_values(|s: String| s@)
}

/// The character sequences behind a sequence of agent identifiers.
pub open spec fn agent_ids(v: Seq<AgentId>) -> Seq<Seq<char>> {
    v.map_values(|a: AgentId| a@)
}

/// Unique identifier for an agent.  The identifier is an opaque string;
/// fresh ones are drawn from a UUID generator.
pub struct AgentId(pub String);

impl View for AgentId {
    type V = Seq<char>;

    open spec fn view(&self) -> Seq<char> {
        self.0@
    }
}

impl AgentId {
    /// Generate a new random agent identifier.
    pub fn new() -> AgentId {
        AgentId(new_uuid_string())
    }

    /// Copy of this identifier.
    pub fn duplicate(&self) -> (r: AgentId)
        ensures
            r == *self,
    {
        AgentId(self.0.clone())
    }

    /// Whether two identifiers denote the same agent.
    pub fn same_as(&self, other: &AgentId) -> (r: bool)
        ensures
            r == (self.0@ == other.0@),
    {
        self.0 == other.0
    }
}

/// Balance in lamports.
#[derive(Clone, Copy, PartialEq, Eq, Structural, Debug)]
pub struct Balance(pub u64);

impl Balance {
    /// Create a new balance holding `lamports`.
    pub fn new(lamports: u64) -> (r: Balance)
        ensures
            r.0 == lamports,
    {
        Balance(lamports)
    }

    /// Whether the balance is zero.
    pub fn is_zero(&self) -> (r: bool)
        ensures
            r == (self.0 == 0),
    {
        self.0 == 0
    }

    /// Sum of two balances; `None` exactly when the sum does not fit.
    pub fn add(&self, other: Balance) -> (r: Option<Balance>)
        ensures
            self.0 + other.0 <= u64::MAX ==> r == Some(Balance((self.0 + other.0) as u64)),
            self.0 + other.0 > u64::MAX ==> r is None,
    {
        match self.0.checked_add(other.0) {
            Some(v) => Some(Balance(v)),
            None => None,
        }
    }

    /// Difference of two balances; `None` exactly when it would go negative.
    pub fn sub(&self, other: Balance) -> (r: Option<Balance>)
        ensures
            self.0 >= other.0 ==> r == Some(Balance((self.0 - other.0) as u64)),
            self.0 < other.0 ==> r is None,
    {
        match self.0.checked_sub(other.0) {
            Some(v) => Some(Balance(v)),
            None => None,
        }
    }
}

/// Network address of a peer.
pub struct NetworkAddress {
    pub host: String,
    pub port: u16,
}

impl NetworkAddress {
    /// Create an address from a host name and a port.
    pub fn new(host: String, port: u16) -> (r: NetworkAddress)
        ensures
            r.host == host,
            r.port == port,
    {
        NetworkAddress { host, port }
    }
}

/// Kinds of service an agent may request.
pub enum ServiceType {
    DataAnalysis,
    ComputationalTask,
    MarketResearch,
    ContentCreation,
    TradingService,
    CustomService(String),
}

/// Priority levels for transactions and messages, lowest first.
#[derive(Clone, Copy, PartialEq, Eq, Structural, Debug)]
pub enum Priority {
    Low,
    Normal,
    High,
    Critical,
}

impl Priority {
    /// Numeric level of the priority, from 1 (`Low`) to 4 (`Critical`).
    pub fn level(&self) -> (r: u8)
        ensures
            r == self.spec_level(),
    {
        match self {
            Priority::Low => 1,
            Priority::Normal => 2,
            Priority::High => 3,
            Priority::Critical => 4,
        }
    }

    /// Numeric level of the priority, for use in contracts.
    pub open spec fn spec_level(&self) -> u8 {
        match self {
            Priority::Low => 1,
            Priority::Normal => 2,
            Priority::High => 3,
            Priority::Critical => 4,
        }
    }
}

impl Default for Priority {
    /// The default priority is `Normal`.
    fn default() -> (r: Priority)
        ensures
            r == Priority::Normal,
    {
        Priority::Normal
    }
}

} // verus!
