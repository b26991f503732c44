use solace_core::types::AgentId;
use solace_core::types::Balance;
use solace_core::types::NetworkAddress;
use solace_core::types::Priority;

#[test]
fn test_agent_id_creation() {
    let id1 = AgentId::new();
    let id2 = AgentId::new();
    assert_ne!(id1.0, id2.0);
    assert_eq!(id1.0.len(), 36);
}

#[test]
fn test_balance_operations() {
    let balance1 = Balance::new(1_500_000_000);
    let balance2 = Balance::new(500_000_000);

    assert_eq!(balance1.0, 1_500_000_000);

    let sum = balance1.add(balance2).unwrap();
    assert_eq!(sum.0, 2_000_000_000);

    let diff = balance1.sub(balance2).unwrap();
    assert_eq!(diff.0, 1_000_000_000);
}

#[test]
fn test_balance_edges() {
    assert!(Balance::new(0).is_zero());
    assert!(!Balance::new(1).is_zero());
    assert!(Balance::new(u64::MAX).add(Balance::new(1)).is_none());
    assert!(Balance::new(0).sub(Balance::new(1)).is_none());
}

#[test]
fn test_network_address() {
    let addr = NetworkAddress::new("example.org".to_string(), 8080);
    assert_eq!(addr.host, "example.org");
    assert_eq!(addr.port, 8080);
}

#[test]
fn test_priority_levels() {
    assert_eq!(Priority::default(), Priority::Normal);
    assert_eq!(Priority::Low.level(), 1);
    assert_eq!(Priority::Critical.level(), 4);
}
