use solace_core::acp::ACPConfig;
use solace_core::constants;

#[test]
fn test_acp_creation() {
    let config = ACPConfig::default();
    assert_eq!(config.node_id.len(), 36);
    assert_eq!(config.listen_address, "0.0.0.0:8080");
    assert!(config.bootstrap_peers.is_empty());
}

#[test]
fn test_config_default() {
    let config = ACPConfig::default();
    assert_eq!(config.max_peers, constants::MAX_PEERS);
    assert!(config.enable_gossip);
    assert!(config.enable_discovery);
}

#[test]
fn test_constants() {
    assert_eq!(constants::MAX_MESSAGE_SIZE, 1024 * 1024);
    assert_eq!(constants::MAX_PEERS, 100);
    assert_eq!(constants::GOSSIP_FACTOR, 3);
}
