use solace_core::gossip::GossipConfig;
use solace_core::gossip::GossipMessage;
use solace_core::gossip::GossipMessageType;
use solace_core::gossip::GossipProtocol;
use solace_core::gossip::HandleOutcome;

fn test_engine(fanout: usize) -> GossipProtocol {
    let mut config = GossipConfig::default();
    config.fanout = fanout;
    GossipProtocol::new("local".to_string(), config)
}

#[test]
fn test_gossip_message_creation() {
    let message = GossipMessage::new(
        GossipMessageType::PeerAnnouncement,
        "test_node".to_string(),
        vec![1, 2, 3],
        10,
        1000,
    );

    assert_eq!(message.sender_id, "test_node");
    assert_eq!(message.ttl, 10);
    assert_eq!(message.hop_count, 0);
    assert!(!message.is_expired());
}

#[test]
fn test_message_forwarding() {
    let mut message = GossipMessage::new(
        GossipMessageType::PeerAnnouncement,
        "sender".to_string(),
        Vec::new(),
        3,
        0,
    );

    assert!(message.forward("node1"));
    assert_eq!(message.ttl, 2);
    assert_eq!(message.hop_count, 1);
    assert_eq!(message.routing_path, vec!["node1"]);

    assert!(message.forward("node2"));
    assert!(message.forward("node3"));
    assert!(!message.forward("node4"));
}

#[test]
fn test_gossip_protocol() {
    let mut protocol = test_engine(3);

    protocol.add_peer("peer1".to_string(), 0);
    protocol.add_peer("peer2".to_string(), 0);

    assert_eq!(protocol.get_peer_count(), 2);

    let stats = protocol.get_stats();
    assert_eq!(stats.active_peers, 2);
}

#[test]
fn test_broadcast_fanout_scenario() {
    // Fanout 3 with five active peers and a sixth inactive one: the
    // broadcast reaches exactly three distinct active peers, never the
    // inactive one.
    let mut protocol = test_engine(3);
    for name in ["a", "b", "c", "d", "e"] {
        protocol.add_peer(name.to_string(), 0);
    }
    protocol.add_peer("sleeper".to_string(), 0);
    for p in protocol.peers.iter_mut() {
        if p.id == "sleeper" {
            p.is_active = false;
        }
    }

    protocol.broadcast(GossipMessageType::StateUpdate, vec![9, 9], 50);
    let out = protocol.take_outbound();
    assert_eq!(out.len(), 3);
    for (target, msg) in out.iter() {
        assert_ne!(target, "sleeper");
        assert_eq!(msg.sender_id, "local");
        assert_eq!(msg.payload, vec![9, 9]);
    }
    let mut targets: Vec<&String> = out.iter().map(|p| &p.0).collect();
    targets.sort();
    targets.dedup();
    assert_eq!(targets.len(), 3);
    assert_eq!(protocol.get_stats().messages_sent, 1);
}

#[test]
fn test_idempotent_delivery() {
    // Delivering the same message twice: the handler is signalled once
    // and the second delivery only moves the duplicate counter.
    let mut protocol = test_engine(2);
    protocol.add_peer("p1".to_string(), 0);
    protocol.register_handler(GossipMessageType::StateUpdate);

    let message = GossipMessage::new(
        GossipMessageType::StateUpdate,
        "remote".to_string(),
        vec![1],
        5,
        0,
    );
    let copy = message.duplicate();

    match protocol.handle_incoming_message(message, 10) {
        HandleOutcome::Delivered { handler_registered, .. } => assert!(handler_registered),
        other => panic!("first delivery not delivered: {:?}", other),
    }
    let sent_after_first = protocol.outbound.len();

    let out2 = protocol.handle_incoming_message(copy, 20);
    assert_eq!(out2, HandleOutcome::Duplicate);
    assert_eq!(protocol.get_stats().duplicates_filtered, 1);
    assert_eq!(protocol.get_stats().messages_received, 2);
    assert_eq!(protocol.outbound.len(), sent_after_first);
}

#[test]
fn test_expired_message_not_forwarded() {
    // A message whose TTL ran out at hop three arrives at a fourth node:
    // it is dropped as expired and nothing is enqueued.
    let mut message = GossipMessage::new(
        GossipMessageType::PeerAnnouncement,
        "origin".to_string(),
        Vec::new(),
        3,
        0,
    );
    assert!(message.forward("node_a"));
    assert!(message.forward("node_b"));
    assert!(message.forward("node_c"));
    assert!(message.is_expired());
    assert!(!message.forward("node_d"));
    assert_eq!(message.routing_path.len(), 3);

    let mut protocol = test_engine(3);
    protocol.add_peer("x".to_string(), 0);
    let out = protocol.handle_incoming_message(message, 0);
    assert_eq!(out, HandleOutcome::Expired);
    assert_eq!(protocol.get_stats().expired_messages, 1);
    assert!(protocol.take_outbound().is_empty());
}

#[test]
fn test_forward_set_capped_by_fanout() {
    // After delivering a forwardable message, its cache entry's
    // forward-set never exceeds the configured fanout.
    let mut protocol = test_engine(2);
    for name in ["a", "b", "c", "d", "e"] {
        protocol.add_peer(name.to_string(), 0);
    }
    let message = GossipMessage::new(
        GossipMessageType::HeartBeat,
        "remote".to_string(),
        Vec::new(),
        5,
        0,
    );
    let id = message.id.clone();
    match protocol.handle_incoming_message(message, 0) {
        HandleOutcome::Delivered { forwarded, .. } => assert!(forwarded),
        other => panic!("not delivered: {:?}", other),
    }
    let entry = protocol
        .message_cache
        .iter()
        .find(|e| e.message.id == id)
        .expect("message not cached");
    assert!(entry.forwarded_to.len() <= 2);
    assert_eq!(protocol.outbound.len(), entry.forwarded_to.len());
}

#[test]
fn test_maintenance_marks_peers_inactive() {
    let mut protocol = test_engine(3);
    protocol.add_peer("fresh".to_string(), 1_000_000);
    protocol.add_peer("quiet".to_string(), 0);
    protocol.run_maintenance(1_000_100);

    for p in protocol.peers.iter() {
        if p.id == "fresh" {
            assert!(p.is_active);
        } else {
            assert!(!p.is_active);
        }
    }
    // Peers are marked inactive, never deleted.
    assert_eq!(protocol.peers.len(), 2);
}

#[test]
fn test_maintenance_purges_old_cache_entries() {
    let mut protocol = test_engine(3);
    let message = GossipMessage::new(
        GossipMessageType::HeartBeat,
        "remote".to_string(),
        Vec::new(),
        5,
        0,
    );
    protocol.handle_incoming_message(message, 0);
    assert_eq!(protocol.message_cache.len(), 1);
    // Entry received at 0 with the default 60 s window is stale at 61 s.
    protocol.run_maintenance(61_000);
    assert!(protocol.message_cache.is_empty());
}

#[test]
fn test_own_messages_not_forwarded() {
    let mut protocol = test_engine(3);
    protocol.add_peer("p1".to_string(), 0);
    let message = GossipMessage::new(
        GossipMessageType::StateUpdate,
        "local".to_string(),
        Vec::new(),
        5,
        0,
    );
    match protocol.handle_incoming_message(message, 0) {
        HandleOutcome::Delivered { forwarded, .. } => assert!(!forwarded),
        other => panic!("not delivered: {:?}", other),
    }
    assert!(protocol.take_outbound().is_empty());
}

#[test]
fn test_remove_peer_forgets_it() {
    let mut protocol = test_engine(3);
    protocol.add_peer("p1".to_string(), 0);
    protocol.add_peer("p2".to_string(), 0);
    protocol.remove_peer("p1");
    assert_eq!(protocol.peers.len(), 1);
    assert_eq!(protocol.peers[0].id, "p2");
    assert_eq!(protocol.get_stats().active_peers, 1);
}

#[test]
fn test_hop_ceiling() {
    // A generous TTL never carries a message past the hop ceiling: the
    // eleventh forward fails with TTL to spare, and the hop count and
    // routing path stop at ten.
    let mut message = GossipMessage::new(
        GossipMessageType::StateUpdate,
        "origin".to_string(),
        Vec::new(),
        12,
        0,
    );
    for hop in 1..=10u32 {
        assert!(message.forward(&format!("node{}", hop)));
        assert_eq!(message.hop_count, hop);
    }
    assert!(message.ttl > 0);
    assert!(!message.forward("node11"));
    assert_eq!(message.hop_count, 10);
    assert_eq!(message.routing_path.len(), 10);
}

#[test]
fn test_full_cache_still_suppresses_duplicates() {
    // Even on a full cache, a freshly delivered message survives the
    // overflow cleanup (it is the newest entry) and a second delivery
    // is suppressed as a duplicate.
    let mut config = GossipConfig::default();
    config.max_message_cache = 101;
    let mut protocol = GossipProtocol::new("local".to_string(), config);
    for i in 1..=101u64 {
        let filler = GossipMessage::new(
            GossipMessageType::HeartBeat,
            "remote".to_string(),
            Vec::new(),
            5,
            i,
        );
        protocol.handle_incoming_message(filler, i);
    }
    assert_eq!(protocol.message_cache.len(), 101);

    let message = GossipMessage::new(
        GossipMessageType::StateUpdate,
        "remote".to_string(),
        vec![1],
        5,
        200,
    );
    let copy = message.duplicate();
    match protocol.handle_incoming_message(message, 200) {
        HandleOutcome::Delivered { .. } => {}
        other => panic!("not delivered: {:?}", other),
    }
    // The overflow cleanup evicted the older entries, never the new one.
    assert!(protocol.message_cache.iter().any(|e| e.message.id == copy.id));
    assert_eq!(protocol.handle_incoming_message(copy, 201), HandleOutcome::Duplicate);
}
