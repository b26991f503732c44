use solace_core::transaction::ExecutionData;
use solace_core::transaction::Transaction;
use solace_core::transaction::TransactionEvaluation;
use solace_core::transaction::TransactionPhase;
use solace_core::transaction::TransactionProposal;
use solace_core::transaction::TransactionRequest;
use solace_core::transaction::TransactionStatus;
use solace_core::types::AgentId;
use solace_core::types::Balance;
use solace_core::types::ServiceType;

fn proposal_from(provider: &AgentId, request_id: &str, price: u64) -> TransactionProposal {
    TransactionProposal {
        id: "proposal-1".to_string(),
        request_id: request_id.to_string(),
        provider: AgentId(provider.0.clone()),
        proposed_price: Balance::new(price),
        estimated_completion_ms: 0,
        proposal_details: "Test proposal".to_string(),
        created_at_ms: 0,
        expires_at_ms: 0,
    }
}

#[test]
fn test_transaction_lifecycle() {
    let requester = AgentId::new();
    let provider = AgentId::new();

    let request = TransactionRequest::new(
        requester,
        ServiceType::DataAnalysis,
        "Test request".to_string(),
        Balance::new(10_000_000_000),
        0,
        0,
    );
    let request_id = request.id.clone();

    let mut transaction = Transaction::new(request, 0);
    assert_eq!(transaction.phase, TransactionPhase::Request);
    assert_eq!(transaction.status, TransactionStatus::Pending);

    let proposal = proposal_from(&provider, &request_id, 8_000_000_000);
    transaction.add_proposal(proposal, 1).unwrap();
    assert_eq!(transaction.phase, TransactionPhase::Negotiation);

    transaction
        .accept_proposal(AgentId(provider.0.clone()), Balance::new(8_000_000_000), 2)
        .unwrap();
    assert_eq!(transaction.phase, TransactionPhase::Execution);
    assert_eq!(transaction.status, TransactionStatus::InProgress);
}

#[test]
fn test_transaction_full_run_and_phase_guards() {
    let requester = AgentId::new();
    let provider = AgentId::new();
    let request = TransactionRequest::new(
        requester,
        ServiceType::ComputationalTask,
        "batch".to_string(),
        Balance::new(500),
        1000,
        0,
    );
    let request_id = request.id.clone();
    let mut transaction = Transaction::new(request, 0);

    // Out-of-phase calls are rejected and change nothing.
    assert!(transaction
        .accept_proposal(AgentId(provider.0.clone()), Balance::new(1), 1)
        .is_err());
    assert_eq!(transaction.phase, TransactionPhase::Request);

    transaction
        .add_proposal(proposal_from(&provider, &request_id, 400), 1)
        .unwrap();
    transaction
        .accept_proposal(AgentId(provider.0.clone()), Balance::new(400), 2)
        .unwrap();
    assert!(transaction
        .add_proposal(proposal_from(&provider, &request_id, 300), 3)
        .is_err());

    let data = ExecutionData {
        result: "done".to_string(),
        artifacts: vec!["report".to_string()],
        completion_time_ms: 5,
        quality_metrics_ppm: vec![("accuracy".to_string(), 990_000)],
    };
    transaction.complete_execution(data, 5).unwrap();
    assert_eq!(transaction.phase, TransactionPhase::Evaluation);

    let evaluation = TransactionEvaluation {
        requester_rating_ppm: 900_000,
        provider_rating_ppm: 950_000,
        requester_feedback: "good".to_string(),
        provider_feedback: "smooth".to_string(),
        quality_score_ppm: 980_000,
        timeliness_score_ppm: 970_000,
        overall_satisfaction_ppm: 960_000,
    };
    transaction.add_evaluation(evaluation, 6).unwrap();
    assert_eq!(transaction.status, TransactionStatus::Completed);
    assert_eq!(transaction.updated_at_ms, 6);
}

#[test]
fn test_request_expiry() {
    let request = TransactionRequest::new(
        AgentId::new(),
        ServiceType::MarketResearch,
        "survey".to_string(),
        Balance::new(10),
        100,
        0,
    );
    assert!(!request.is_expired(100));
    assert!(request.is_expired(101));
}
