use solace_core::discovery::DiscoveryConfig;
use solace_core::discovery::DiscoveryMethod;
use solace_core::discovery::NodeType;
use solace_core::discovery::PeerDiscovery;
use solace_core::discovery::PeerInfo;

fn test_config() -> DiscoveryConfig {
    DiscoveryConfig {
        bootstrap_nodes: Vec::new(),
        max_peers: 50,
        discovery_interval_ms: 30_000,
        peer_timeout_ms: 300_000,
        enable_dht: true,
        enable_gossip: true,
        enable_mdns: false,
        reputation_threshold_ppm: 300_000,
    }
}

fn peer(id: &str, reputation_ppm: u32, last_seen_ms: u64) -> PeerInfo {
    PeerInfo {
        id: id.to_string(),
        address: "127.0.0.1:8080".to_string(),
        public_key: "test_key".to_string(),
        capabilities: vec!["agent".to_string()],
        reputation_ppm,
        last_seen_ms,
        protocol_version: "1.0.0".to_string(),
        node_type: NodeType::Agent,
    }
}

#[test]
fn test_peer_discovery_creation() {
    let discovery = PeerDiscovery::new(test_config());

    assert_eq!(discovery.known_peers.len(), 0);
    assert_eq!(discovery.connected_peers.len(), 0);
}

#[test]
fn test_add_peer() {
    let mut discovery = PeerDiscovery::new(test_config());

    discovery.add_peer(peer("test_peer", 800_000, 0), DiscoveryMethod::Manual);

    assert_eq!(discovery.known_peers.len(), 1);
    assert!(discovery.known_peers.iter().any(|p| p.id == "test_peer"));
    assert_eq!(discovery.get_stats().total_discovered, 1);
}

#[test]
fn test_blacklist_peer() {
    let mut discovery = PeerDiscovery::new(test_config());

    discovery.blacklist_peer("bad_peer");

    assert!(discovery.blacklisted_peers.iter().any(|p| p == "bad_peer"));
    // A blacklisted peer is refused on later discovery.
    discovery.add_peer(peer("bad_peer", 900_000, 0), DiscoveryMethod::DHT);
    assert!(discovery.known_peers.is_empty());
}

#[test]
fn test_low_reputation_peer_ignored() {
    let mut discovery = PeerDiscovery::new(test_config());
    discovery.add_peer(peer("shady", 100_000, 0), DiscoveryMethod::Gossip);
    assert!(discovery.known_peers.is_empty());
    assert_eq!(discovery.get_stats().total_discovered, 0);
}

#[test]
fn test_full_registry_ignores_new_peers() {
    let mut config = test_config();
    config.max_peers = 1;
    let mut discovery = PeerDiscovery::new(config);
    discovery.add_peer(peer("first", 800_000, 0), DiscoveryMethod::Manual);
    discovery.add_peer(peer("second", 800_000, 0), DiscoveryMethod::Manual);
    assert_eq!(discovery.known_peers.len(), 1);
    assert_eq!(discovery.known_peers[0].id, "first");
}

#[test]
fn test_rediscovery_replaces_record() {
    let mut discovery = PeerDiscovery::new(test_config());
    discovery.add_peer(peer("p", 700_000, 10), DiscoveryMethod::Manual);
    discovery.add_peer(peer("p", 900_000, 20), DiscoveryMethod::DHT);
    assert_eq!(discovery.known_peers.len(), 1);
    assert_eq!(discovery.known_peers[0].reputation_ppm, 900_000);
    // The same identifier counts as discovered once.
    assert_eq!(discovery.get_stats().total_discovered, 1);
}

#[test]
fn test_connect_and_disconnect() {
    let mut discovery = PeerDiscovery::new(test_config());
    discovery.add_peer(peer("p", 800_000, 0), DiscoveryMethod::Manual);

    assert!(discovery.connect_peer("p").is_ok());
    assert_eq!(discovery.connected_peers, vec!["p".to_string()]);
    assert!(discovery.connect_peer("ghost").is_err());

    assert!(discovery.disconnect_peer("p").is_ok());
    assert!(discovery.connected_peers.is_empty());
    assert!(discovery.disconnect_peer("p").is_err());
}

#[test]
fn test_cleanup_inactive_peers() {
    let mut discovery = PeerDiscovery::new(test_config());
    discovery.add_peer(peer("fresh", 800_000, 1_000_000), DiscoveryMethod::Manual);
    discovery.add_peer(peer("stale", 800_000, 0), DiscoveryMethod::Manual);
    discovery.connect_peer("stale").unwrap();

    discovery.cleanup_inactive_peers(1_000_100);

    assert_eq!(discovery.known_peers.len(), 1);
    assert_eq!(discovery.known_peers[0].id, "fresh");
    assert!(discovery.connected_peers.is_empty());
    assert_eq!(discovery.get_stats().peer_disconnections, 1);
}
