//! Agent capabilities and agent lifecycle state.
//!
//! The agent runtime itself (keys, wallets, preferences) is a
//! collaborator outside this crate; the crate holds the capability
//! model that matches agents to requested services.

use vstd::prelude::*;

use crate::types::ServiceType;

verus! {

/// Capabilities an agent may offer.
pub enum AgentCapability {
    DataAnalysis,
    ComputationalTask,
    MarketResearch,
    ContentCreation,
    TradingService,
    MachineLearning,
    CustomCapability(String),
}

/// Mathematical view of a capability.
pub ghost enum CapabilityView {
    DataAnalysis,
    ComputationalTask,
    MarketResearch,
    ContentCreation,
    TradingService,
    MachineLearning,
    CustomCapability(Seq<char>),
}

impl View for AgentCapability {
    type V = CapabilityView;

    open spec fn view(&self) -> CapabilityView {
        match self {
            AgentCapability::DataAnalysis => CapabilityView::DataAnalysis,
            AgentCapability::ComputationalTask => CapabilityView::ComputationalTask,
            AgentCapability::MarketResearch => CapabilityView::MarketResearch,
            AgentCapability::ContentCreation => CapabilityView::ContentCreation,
            AgentCapability::TradingService => CapabilityView::TradingService,
            AgentCapability::MachineLearning => CapabilityView::MachineLearning,
            AgentCapability::CustomCapability(s) => CapabilityView::CustomCapability(s@),
        }
    }
}

/// Mathematical view of a service kind.
pub ghost enum ServiceTypeView {
    DataAnalysis,
    ComputationalTask,
    MarketResearch,
    ContentCreation,
    TradingService,
    CustomService(Seq<char>),
}

impl View for ServiceType {
    type V = ServiceTypeView;

    open spec fn view(&self) -> ServiceTypeView {
        match self {
            ServiceType::DataAnalysis => ServiceTypeView::DataAnalysis,
            ServiceType::ComputationalTask => ServiceTypeView::ComputationalTask,
            ServiceType::MarketResearch => ServiceTypeView::MarketResearch,
            ServiceType::ContentCreation => ServiceTypeView::ContentCreation,
            ServiceType::TradingService => ServiceTypeView::TradingService,
            ServiceType::CustomService(s) => ServiceTypeView::CustomService(s@),
        }
    }
}

/// Whether a capability serves a requested service kind: the five named
/// pairs match their counterparts, and a custom capability matches a
/// custom service with the same label.
pub open spec fn capability_matches(cap: CapabilityView, service: ServiceTypeView) -> bool {
    match (cap, service) {
        (CapabilityView::DataAnalysis, ServiceTypeView::DataAnalysis) => true,
        (CapabilityView::ComputationalTask, ServiceTypeView::ComputationalTask) => true,
        (CapabilityView::MarketResearch, ServiceTypeView::MarketResearch) => true,
        (CapabilityView::ContentCreation, ServiceTypeView::ContentCreation) => true,
        (CapabilityView::TradingService, ServiceTypeView::TradingService) => true,
        (CapabilityView::CustomCapability(c), ServiceTypeView::CustomService(s)) => c == s,
        _ => false,
    }
}

impl AgentCapability {
    /// Whether this capability serves the requested service kind.
    pub fn matches_service(&self, service: &ServiceType) -> (r: bool)
        ensures
            r == capability_matches(self@, service@),
    {
        match (self, service) {
            (AgentCapability::DataAnalysis, ServiceType::DataAnalysis) => true,
            (AgentCapability::ComputationalTask, ServiceType::ComputationalTask) => true,
            (AgentCapability::MarketResearch, ServiceType::MarketResearch) => true,
            (AgentCapability::ContentCreation, ServiceType::ContentCreation) => true,
            (AgentCapability::TradingService, ServiceType::TradingService) => true,
            (AgentCapability::CustomCapability(c), ServiceType::CustomService(s)) => c.eq(s),
            _ => false,
        }
    }
}

/// Whether any capability in the list serves the requested service kind.
#[verifier::loop_isolation(false)]
pub fn can_handle_service(capabilities: &Vec<AgentCapability>, service: &ServiceType) -> (r: bool)
    ensures
        r == exists|i: int|
            0 <= i < capabilities@.len() && capability_matches((#[trigger] capabilities@[i])@, service@),
{
    let n = capabilities.len();
    let mut i: usize = 0;
    while i < n
        invariant
            i <= n,
            forall|j: int| 0 <= j < i ==> !capability_matches((#[trigger] capabilities@[j])@, service@),
        decreases n - i,
    {
        if capabilities[i].matches_service(service) {
            proof {
                assert(capability_matches(capabilities@[i as int]@, service@));
            }
            return true;
        }
        i = i + 1;
    }
    false
}

/// Lifecycle state of an agent.
#[derive(Clone, Copy, PartialEq, Eq, Structural, Debug)]
pub enum AgentState {
    Offline,
    Online,
    Busy,
    Maintenance,
}

} // verus!
