//! The commerce transaction lifecycle: request, negotiation, execution
//! and evaluation, as a verified state machine.  Ratings and quality
//! metrics are carried in parts-per-million.
//!
//! Settlement of an agreed transaction on a ledger is a collaborator's
//! concern; this module owns the phase rules.

use vstd::prelude::*;

use crate::random::new_uuid_string;
use crate::types::AgentId;
use crate::types::Balance;
use crate::types::ServiceType;

verus! {

/// Phases of the commerce lifecycle, in order.
#[derive(Clone, Copy, PartialEq, Eq, Structural, Debug)]
pub enum TransactionPhase {
    Request,
    Negotiation,
    Execution,
    Evaluation,
}

impl TransactionPhase {
    /// The phase's name, for error reports.
    pub open spec fn spec_label(&self) -> Seq<char> {
        match self {
            TransactionPhase::Request => "Request"@,
            TransactionPhase::Negotiation => "Negotiation"@,
            TransactionPhase::Execution => "Execution"@,
            TransactionPhase::Evaluation => "Evaluation"@,
        }
    }

    /// The phase's name, for error reports.
    pub fn label(&self) -> (r: String)
        ensures
            r@ == self.spec_label(),
    {
        match self {
            TransactionPhase::Request => "Request".to_owned(),
            TransactionPhase::Negotiation => "Negotiation".to_owned(),
            TransactionPhase::Execution => "Execution".to_owned(),
            TransactionPhase::Evaluation => "Evaluation".to_owned(),
        }
    }
}

/// Status of a transaction.
#[derive(Clone, Copy, PartialEq, Eq, Structural, Debug)]
pub enum TransactionStatus {
    Pending,
    InProgress,
    Completed,
    Failed,
    Cancelled,
    Expired,
}

/// One requirement attached to a request.
pub struct Requirement {
    pub key: String,
    pub value: String,
}

/// A transaction request from an agent.
pub struct TransactionRequest {
    pub id: String,
    pub requester: AgentId,
    pub service_type: ServiceType,
    pub description: String,
    pub budget: Balance,
    pub deadline_ms: u64,
    pub requirements: Vec<Requirement>,
    pub created_at_ms: u64,
}

impl TransactionRequest {
    /// Create a request with a random identifier and no requirements.
    pub fn new(
        requester: AgentId,
        service_type: ServiceType,
        description: String,
        budget: Balance,
        deadline_ms: u64,
        now_ms: u64,
    ) -> (r: TransactionRequest)
        ensures
            r.id@.len() == 36,
            r.requester == requester,
            r.service_type == service_type,
            r.description == description,
            r.budget == budget,
            r.deadline_ms == deadline_ms,
            r.requirements@.len() == 0,
            r.created_at_ms == now_ms,
    {
        TransactionRequest {
            id: new_uuid_string(),
            requester,
            service_type,
            description,
            budget,
            deadline_ms,
            requirements: Vec::new(),
            created_at_ms: now_ms,
        }
    }

    /// Whether the request's deadline has passed.
    pub fn is_expired(&self, now_ms: u64) -> (r: bool)
        ensures
            r == (self.deadline_ms < now_ms),
    {
        self.deadline_ms < now_ms
    }
}

/// A proposal from a service provider.
pub struct TransactionProposal {
    pub id: String,
    pub request_id: String,
    pub provider: AgentId,
    pub proposed_price: Balance,
    pub estimated_completion_ms: u64,
    pub proposal_details: String,
    pub created_at_ms: u64,
    pub expires_at_ms: u64,
}

/// The results and proofs of an executed transaction.  Quality metrics
/// are named values in ppm.
pub struct ExecutionData {
    pub result: String,
    pub artifacts: Vec<String>,
    pub completion_time_ms: u64,
    pub quality_metrics_ppm: Vec<(String, u64)>,
}

/// The evaluation both parties give a completed transaction, in ppm of
/// a full score.
pub struct TransactionEvaluation {
    pub requester_rating_ppm: u32,
    pub provider_rating_ppm: u32,
    pub requester_feedback: String,
    pub provider_feedback: String,
    pub quality_score_ppm: u32,
    pub timeliness_score_ppm: u32,
    pub overall_satisfaction_ppm: u32,
}

/// A commerce transaction moving through the lifecycle.
pub struct Transaction {
    pub id: String,
    pub request: TransactionRequest,
    pub provider: Option<AgentId>,
    pub agreed_price: Option<Balance>,
    pub phase: TransactionPhase,
    pub status: TransactionStatus,
    pub proposals: Vec<TransactionProposal>,
    pub negotiation_rounds: u32,
    pub execution_data: Option<ExecutionData>,
    pub evaluation: Option<TransactionEvaluation>,
    pub created_at_ms: u64,
    pub updated_at_ms: u64,
}

impl Transaction {
    /// Open a transaction for a request: the request phase, pending, no
    /// proposals.
    pub fn new(request: TransactionRequest, now_ms: u64) -> (r: Transaction)
        ensures
            r.id == request.id,
            r.request == request,
            r.provider is None,
            r.agreed_price is None,
            r.phase == TransactionPhase::Request,
            r.status == TransactionStatus::Pending,
            r.proposals@.len() == 0,
            r.negotiation_rounds == 0,
            r.execution_data is None,
            r.evaluation is None,
            r.created_at_ms == now_ms,
            r.updated_at_ms == now_ms,
    {
        let id = request.id.clone();
        Transaction {
            id,
            request,
            provider: None,
            agreed_price: None,
            phase: TransactionPhase::Request,
            status: TransactionStatus::Pending,
            proposals: Vec::new(),
            negotiation_rounds: 0,
            execution_data: None,
            evaluation: None,
            created_at_ms: now_ms,
            updated_at_ms: now_ms,
        }
    }

    /// Record a provider's proposal.  Allowed in the request and
    /// negotiation phases, which it (re)enters; any other phase is an
    /// invalid-state error that changes nothing.
    pub fn add_proposal(&mut self, proposal: TransactionProposal, now_ms: u64) -> (r: Result<
        (),
        crate::errors::TransactionError,
    >)
        ensures
            (old(self).phase == TransactionPhase::Request || old(self).phase
                == TransactionPhase::Negotiation) ==> (r is Ok && *final(self) == (Transaction {
                proposals: final(self).proposals,
                phase: TransactionPhase::Negotiation,
                updated_at_ms: now_ms,
                ..*old(self)
            }) && final(self).proposals@ == old(self).proposals@.push(proposal)),
            !(old(self).phase == TransactionPhase::Request || old(self).phase
                == TransactionPhase::Negotiation) ==> (*final(self) == *old(self) && (r matches Err(
                crate::errors::TransactionError::InvalidState { current, expected },
            ) && current@ == old(self).phase.spec_label() && expected@ == "Request or Negotiation"@)),
    {
        match self.phase {
            TransactionPhase::Request | TransactionPhase::Negotiation => {
                self.proposals.push(proposal);
                self.phase = TransactionPhase::Negotiation;
                self.updated_at_ms = now_ms;
                Ok(())
            },
            _ => Err(
                crate::errors::TransactionError::InvalidState {
                    current: self.phase.label(),
                    expected: "Request or Negotiation".to_owned(),
                },
            ),
        }
    }

    /// Accept a proposal: the provider and price are fixed and execution
    /// begins.  Allowed only in the negotiation phase; any other phase
    /// is an invalid-state error that changes nothing.
    pub fn accept_proposal(&mut self, provider_id: AgentId, price: Balance, now_ms: u64) -> (r: Result<
        (),
        crate::errors::TransactionError,
    >)
        ensures
            old(self).phase == TransactionPhase::Negotiation ==> (r is Ok && *final(self) == (Transaction {
                provider: Some(provider_id),
                agreed_price: Some(price),
                phase: TransactionPhase::Execution,
                status: TransactionStatus::InProgress,
                updated_at_ms: now_ms,
                ..*old(self)
            })),
            old(self).phase != TransactionPhase::Negotiation ==> (*final(self) == *old(self) && (r matches Err(
                crate::errors::TransactionError::InvalidState { current, expected },
            ) && current@ == old(self).phase.spec_label() && expected@ == "Negotiation"@)),
    {
        match self.phase {
            TransactionPhase::Negotiation => {
                self.provider = Some(provider_id);
                self.agreed_price = Some(price);
                self.phase = TransactionPhase::Execution;
                self.status = TransactionStatus::InProgress;
                self.updated_at_ms = now_ms;
                Ok(())
            },
            _ => Err(
                crate::errors::TransactionError::InvalidState {
                    current: self.phase.label(),
                    expected: "Negotiation".to_owned(),
                },
            ),
        }
    }

    /// Record the execution results and move to evaluation.  Allowed
    /// only in the execution phase; any other phase is an invalid-state
    /// error that changes nothing.
    pub fn complete_execution(&mut self, execution_data: ExecutionData, now_ms: u64) -> (r: Result<
        (),
        crate::errors::TransactionError,
    >)
        ensures
            old(self).phase == TransactionPhase::Execution ==> (r is Ok && *final(self) == (Transaction {
                execution_data: final(self).execution_data,
                phase: TransactionPhase::Evaluation,
                updated_at_ms: now_ms,
                ..*old(self)
            }) && final(self).execution_data is Some),
            old(self).phase != TransactionPhase::Execution ==> (*final(self) == *old(self) && (r matches Err(
                crate::errors::TransactionError::InvalidState { current, expected },
            ) && current@ == old(self).phase.spec_label() && expected@ == "Execution"@)),
    {
        match self.phase {
            TransactionPhase::Execution => {
                self.execution_data = Some(execution_data);
                self.phase = TransactionPhase::Evaluation;
                self.updated_at_ms = now_ms;
                Ok(())
            },
            _ => Err(
                crate::errors::TransactionError::InvalidState {
                    current: self.phase.label(),
                    expected: "Execution".to_owned(),
                },
            ),
        }
    }

    /// Record the parties' evaluation and complete the transaction.
    /// Allowed only in the evaluation phase; any other phase is an
    /// invalid-state error that changes nothing.
    pub fn add_evaluation(&mut self, evaluation: TransactionEvaluation, now_ms: u64) -> (r: Result<
        (),
        crate::errors::TransactionError,
    >)
        ensures
            old(self).phase == TransactionPhase::Evaluation ==> (r is Ok && *final(self) == (Transaction {
                evaluation: final(self).evaluation,
                status: TransactionStatus::Completed,
                updated_at_ms: now_ms,
                ..*old(self)
            }) && final(self).evaluation is Some),
            old(self).phase != TransactionPhase::Evaluation ==> (*final(self) == *old(self) && (r matches Err(
                crate::errors::TransactionError::InvalidState { current, expected },
            ) && current@ == old(self).phase.spec_label() && expected@ == "Evaluation"@)),
    {
        match self.phase {
            TransactionPhase::Evaluation => {
                self.evaluation = Some(evaluation);
                self.status = TransactionStatus::Completed;
                self.updated_at_ms = now_ms;
                Ok(())
            },
            _ => Err(
                crate::errors::TransactionError::InvalidState {
                    current: self.phase.label(),
                    expected: "Evaluation".to_owned(),
                },
            ),
        }
    }
}

/// A transaction result summary for reporting.  Reputation deltas are in
/// ppm.
pub struct TransactionResult {
    pub transaction_id: String,
    pub status: TransactionStatus,
    pub final_price: Option<Balance>,
    pub completion_time_ms: Option<u64>,
    pub quality_score_ppm: Option<u32>,
}

} // verus!
