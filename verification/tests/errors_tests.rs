use solace_core::errors::AgentError;
use solace_core::errors::ErrorSeverity;
use solace_core::errors::NetworkError;
use solace_core::errors::SolaceError;

#[test]
fn test_error_retryable() {
    let timeout_error = SolaceError::Network(NetworkError::ConnectionTimeout {
        address: "test".to_string(),
    });
    assert!(timeout_error.is_retryable());

    let config_error = SolaceError::config("test error".to_string());
    assert!(!config_error.is_retryable());
}

#[test]
fn test_error_severity() {
    let internal_error = SolaceError::internal("test".to_string());
    assert_eq!(internal_error.severity(), ErrorSeverity::Critical);

    let config_error = SolaceError::config("test".to_string());
    assert_eq!(config_error.severity(), ErrorSeverity::Medium);
}

#[test]
fn test_agent_error_conversion() {
    let agent_error = AgentError::NotFound {
        id: "test".to_string(),
    };
    let solace_error = SolaceError::from_agent(agent_error);

    match solace_error {
        SolaceError::Agent(AgentError::NotFound { .. }) => (),
        _ => panic!("Expected Agent error"),
    }
}
