use solace_core::agent::can_handle_service;
use solace_core::agent::AgentCapability;
use solace_core::agent::AgentState;
use solace_core::types::ServiceType;

#[test]
fn test_service_capability_matching() {
    let capabilities = vec![AgentCapability::DataAnalysis];

    assert!(can_handle_service(&capabilities, &ServiceType::DataAnalysis));
    assert!(!can_handle_service(&capabilities, &ServiceType::TradingService));
}

#[test]
fn test_capability_pairs() {
    assert!(AgentCapability::ComputationalTask.matches_service(&ServiceType::ComputationalTask));
    assert!(AgentCapability::TradingService.matches_service(&ServiceType::TradingService));
    assert!(!AgentCapability::MachineLearning.matches_service(&ServiceType::DataAnalysis));
    assert!(
        AgentCapability::CustomCapability("ocr".to_string())
            .matches_service(&ServiceType::CustomService("ocr".to_string()))
    );
    assert!(
        !AgentCapability::CustomCapability("ocr".to_string())
            .matches_service(&ServiceType::CustomService("nlp".to_string()))
    );
}

#[test]
fn test_agent_states_are_distinct() {
    assert_ne!(AgentState::Offline, AgentState::Online);
    assert_ne!(AgentState::Busy, AgentState::Maintenance);
}
