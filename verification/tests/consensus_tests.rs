use solace_core::consensus::BlockHeader;
use solace_core::consensus::ConsensusConfig;
use solace_core::consensus::ConsensusEngine;
use solace_core::consensus::ConsensusError;
use solace_core::consensus::ConsensusVote;
use solace_core::consensus::Validator;
use solace_core::consensus::VoteType;
use solace_core::types::AgentId;

fn vote_for(hash: &[u8], voter: &AgentId, kind: VoteType) -> ConsensusVote {
    ConsensusVote {
        block_hash: hash.to_vec(),
        block_height: 1,
        voter: AgentId(voter.0.clone()),
        vote_type: kind,
        timestamp_ms: 0,
        signature: vec![0u8; 64],
    }
}

#[test]
fn test_validator_weight_calculation() {
    let config = ConsensusConfig::default();
    let validator = Validator::new(AgentId::new(), 10000, 800_000);

    let weight = validator.calculate_weight(&config);
    assert!(weight > 0);
}

#[test]
fn test_consensus_engine_creation() {
    let config = ConsensusConfig::default();
    let engine = ConsensusEngine::new(config);

    assert_eq!(engine.validators.len(), 0);
    assert_eq!(engine.current_epoch.number, 0);
}

#[test]
fn test_validator_registration() {
    let mut engine = ConsensusEngine::new(ConsensusConfig::default());
    let agent_id = AgentId::new();

    let result = engine.register_validator(AgentId(agent_id.0.clone()), 5000, 700_000);
    assert!(result.is_ok());
    assert!(engine.validators.iter().any(|v| v.agent_id.0 == agent_id.0));
}

#[test]
fn test_insufficient_stake_rejection() {
    let mut engine = ConsensusEngine::new(ConsensusConfig::default());
    let agent_id = AgentId::new();

    let result = engine.register_validator(agent_id, 500, 800_000);
    assert!(result.is_err());
}

#[test]
fn test_stake_scenario() {
    // A validator with stake 500 against a minimum of 1000 is refused
    // with an insufficient-stake error; the same validator with stake
    // 5000 and reputation 0.7 is accepted and has a positive weight.
    let config = ConsensusConfig::default();
    assert_eq!(config.min_validator_stake, 1000);
    let mut engine = ConsensusEngine::new(config);
    let agent_id = AgentId::new();

    match engine.register_validator(AgentId(agent_id.0.clone()), 500, 700_000) {
        Err(ConsensusError::InsufficientStake { stake, minimum }) => {
            assert_eq!(stake, 500);
            assert_eq!(minimum, 1000);
        }
        other => panic!("unexpected registration outcome: {:?}", other.is_ok()),
    }

    engine
        .register_validator(AgentId(agent_id.0.clone()), 5000, 700_000)
        .unwrap();
    let v = engine
        .validators
        .iter()
        .find(|v| v.agent_id.0 == agent_id.0)
        .unwrap();
    assert!(v.calculate_weight(&engine.config) > 0);
}

#[test]
fn test_quorum_scenario() {
    // 21 epoch validators: 15 approvals reach the quorum of
    // floor(42 / 3) + 1 = 15, while 14 fall one short.
    let mut engine = ConsensusEngine::new(ConsensusConfig::default());
    let mut ids: Vec<AgentId> = Vec::new();
    for _ in 0..21 {
        let id = AgentId::new();
        engine
            .register_validator(AgentId(id.0.clone()), 2000, 500_000)
            .unwrap();
        ids.push(id);
    }
    engine.current_epoch.validators = ids.iter().map(|a| AgentId(a.0.clone())).collect();

    let hash_a = vec![1u8; 32];
    for id in ids.iter().take(15) {
        engine.process_vote(vote_for(&hash_a, id, VoteType::Approve)).unwrap();
    }
    assert!(engine.check_finalization(&hash_a));

    let hash_b = vec![2u8; 32];
    for id in ids.iter().take(14) {
        engine.process_vote(vote_for(&hash_b, id, VoteType::Approve)).unwrap();
    }
    assert!(!engine.check_finalization(&hash_b));
}

#[test]
fn test_non_approve_votes_do_not_count() {
    let mut engine = ConsensusEngine::new(ConsensusConfig::default());
    let mut ids: Vec<AgentId> = Vec::new();
    for _ in 0..3 {
        let id = AgentId::new();
        engine
            .register_validator(AgentId(id.0.clone()), 2000, 500_000)
            .unwrap();
        ids.push(id);
    }
    engine.current_epoch.validators = ids.iter().map(|a| AgentId(a.0.clone())).collect();

    // Quorum for 3 validators is 3; two approvals and a reject are short.
    let hash = vec![7u8; 32];
    engine.process_vote(vote_for(&hash, &ids[0], VoteType::Approve)).unwrap();
    engine.process_vote(vote_for(&hash, &ids[1], VoteType::Approve)).unwrap();
    engine.process_vote(vote_for(&hash, &ids[2], VoteType::Reject)).unwrap();
    assert!(!engine.check_finalization(&hash));
    engine.process_vote(vote_for(&hash, &ids[2], VoteType::Approve)).unwrap();
    assert!(engine.check_finalization(&hash));
}

#[test]
fn test_unknown_voter_rejected() {
    let mut engine = ConsensusEngine::new(ConsensusConfig::default());
    let stranger = AgentId::new();
    let result = engine.process_vote(vote_for(&[3u8; 32], &stranger, VoteType::Approve));
    match result {
        Err(ConsensusError::ValidatorNotFound { agent_id }) => assert_eq!(agent_id, stranger.0),
        _ => panic!("vote from an unregistered validator was accepted"),
    }
}

#[test]
fn test_height_monotonicity() {
    // A header is rejected unless its height is exactly one past the
    // last accepted header and its previous-hash links to it.
    let mut engine = ConsensusEngine::new(ConsensusConfig::default());
    let producer = AgentId::new();
    engine
        .register_validator(AgentId(producer.0.clone()), 5000, 900_000)
        .unwrap();
    engine.current_epoch.validators = vec![AgentId(producer.0.clone())];

    let genesis = BlockHeader {
        height: 0,
        previous_hash: Vec::new(),
        merkle_root: vec![0u8; 32],
        timestamp_ms: 10,
        producer: AgentId(producer.0.clone()),
        epoch: 0,
        nonce: 1,
    };
    assert!(engine.validate_block(&genesis, 100));
    let genesis_hash = engine.calculate_block_hash(&genesis);
    engine.finalize_block(genesis).unwrap();

    let mut next = BlockHeader {
        height: 2,
        previous_hash: genesis_hash.clone(),
        merkle_root: vec![0u8; 32],
        timestamp_ms: 20,
        producer: AgentId(producer.0.clone()),
        epoch: 0,
        nonce: 2,
    };
    // Height 2 after height 0 is a gap.
    assert!(!engine.validate_block(&next, 100));

    next.height = 1;
    assert!(engine.validate_block(&next, 100));

    next.previous_hash = vec![0xFFu8; 32];
    assert!(!engine.validate_block(&next, 100));

    // A timestamp in the future is rejected too.
    next.previous_hash = genesis_hash;
    next.timestamp_ms = 5000;
    assert!(!engine.validate_block(&next, 100));
}

#[test]
fn test_finalize_tracks_producer() {
    let mut engine = ConsensusEngine::new(ConsensusConfig::default());
    let producer = AgentId::new();
    engine
        .register_validator(AgentId(producer.0.clone()), 5000, 900_000)
        .unwrap();
    engine.current_epoch.validators = vec![AgentId(producer.0.clone())];

    let header = BlockHeader {
        height: 0,
        previous_hash: Vec::new(),
        merkle_root: Vec::new(),
        timestamp_ms: 42,
        producer: AgentId(producer.0.clone()),
        epoch: 0,
        nonce: 0,
    };
    let hash = engine.calculate_block_hash(&header);
    engine.process_vote(vote_for(&hash, &producer, VoteType::Approve)).unwrap();
    assert_eq!(engine.pending_votes.len(), 1);
    engine.finalize_block(header).unwrap();

    let v = &engine.validators[0];
    assert_eq!(v.blocks_produced, 1);
    assert_eq!(v.last_block_time_ms, 42);
    // The first finalized block starts the producer's run at one.
    assert_eq!(v.consecutive_blocks, 1);
    assert_eq!(engine.block_history.len(), 1);
    // The pending votes for the finalized hash are purged.
    assert!(engine.pending_votes.is_empty());
}

#[test]
fn test_epoch_rotation() {
    let mut config = ConsensusConfig::default();
    config.epoch_duration = 1;
    config.validators_per_epoch = 2;
    let mut engine = ConsensusEngine::new(config);

    let strong = AgentId::new();
    let middle = AgentId::new();
    let weak = AgentId::new();
    engine.register_validator(AgentId(strong.0.clone()), 9_000_000, 900_000).unwrap();
    engine.register_validator(AgentId(middle.0.clone()), 5_000_000, 500_000).unwrap();
    engine.register_validator(AgentId(weak.0.clone()), 2000, 100_000).unwrap();
    engine.current_epoch.validators = vec![AgentId(strong.0.clone())];

    let header = BlockHeader {
        height: 1,
        previous_hash: Vec::new(),
        merkle_root: Vec::new(),
        timestamp_ms: 0,
        producer: AgentId(strong.0.clone()),
        epoch: 0,
        nonce: 0,
    };
    engine.finalize_block(header).unwrap();

    // Height 1 reached the epoch boundary: epoch 1 starts at height 2
    // with the two heaviest validators, in weight order.
    assert_eq!(engine.current_epoch.number, 1);
    assert_eq!(engine.current_epoch.start_block, 2);
    assert_eq!(engine.current_epoch.validators.len(), 2);
    assert_eq!(engine.current_epoch.validators[0].0, strong.0);
    assert_eq!(engine.current_epoch.validators[1].0, middle.0);
    // Rotation clears every consecutive-run counter.
    assert!(engine.validators.iter().all(|v| v.consecutive_blocks == 0));
}

#[test]
fn test_slash_validator() {
    let mut engine = ConsensusEngine::new(ConsensusConfig::default());
    let agent_id = AgentId::new();
    engine
        .register_validator(AgentId(agent_id.0.clone()), 1000, 500_000)
        .unwrap();

    engine.slash_validator(&agent_id, "equivocation").unwrap();
    let v = &engine.validators[0];
    assert_eq!(v.stake, 900);
    assert_eq!(v.slashing_events, 1);
    // The reduced stake fell below the minimum: deactivated.
    assert!(!v.is_active);

    let stranger = AgentId::new();
    assert!(engine.slash_validator(&stranger, "nothing").is_err());
}

#[test]
fn test_weight_rules() {
    // Raising reputation, all else fixed, never lowers the weight; a
    // stake below the minimum forces the weight to exactly zero.
    let config = ConsensusConfig::default();
    let id = AgentId::new();
    let low = Validator::new(AgentId(id.0.clone()), 50_000, 300_000);
    let high = Validator::new(AgentId(id.0.clone()), 50_000, 900_000);
    assert!(low.calculate_weight(&config) <= high.calculate_weight(&config));

    let poor = Validator::new(AgentId(id.0.clone()), 999, 1_000_000);
    assert_eq!(poor.calculate_weight(&config), 0);
}

#[test]
fn test_consecutive_production_penalty() {
    let config = ConsensusConfig::default();
    let id = AgentId::new();
    let mut fresh = Validator::new(AgentId(id.0.clone()), 10_000, 800_000);
    let base = fresh.calculate_weight(&config);
    fresh.consecutive_blocks = config.max_consecutive_blocks;
    let penalized = fresh.calculate_weight(&config);
    assert_eq!(penalized, base / 2);
}

#[test]
fn test_update_validator_stake_and_reputation() {
    let mut engine = ConsensusEngine::new(ConsensusConfig::default());
    let agent_id = AgentId::new();
    engine
        .register_validator(AgentId(agent_id.0.clone()), 5000, 500_000)
        .unwrap();

    engine.update_validator_stake(&agent_id, 500).unwrap();
    assert_eq!(engine.validators[0].stake, 500);
    assert!(!engine.validators[0].is_active);

    engine.update_validator_stake(&agent_id, 2000).unwrap();
    assert!(engine.validators[0].is_active);

    engine.update_validator_reputation(&agent_id, 2_000_000).unwrap();
    assert_eq!(engine.validators[0].reputation_ppm, 1_000_000);

    let stranger = AgentId::new();
    assert!(engine.update_validator_stake(&stranger, 1).is_err());
    assert!(engine.update_validator_reputation(&stranger, 1).is_err());
}

#[test]
fn test_get_consensus_stats() {
    let mut engine = ConsensusEngine::new(ConsensusConfig::default());
    engine.register_validator(AgentId::new(), 2000, 400_000).unwrap();
    engine.register_validator(AgentId::new(), 3000, 600_000).unwrap();
    let stats = engine.get_consensus_stats();
    assert_eq!(stats.total_validators, 2);
    assert_eq!(stats.active_validators, 2);
    assert_eq!(stats.total_stake, 5000);
    assert_eq!(stats.average_reputation_ppm, 500_000);
    assert_eq!(stats.blocks_finalized, 0);
}

#[test]
fn test_block_producer_round_robin() {
    let mut engine = ConsensusEngine::new(ConsensusConfig::default());
    assert!(engine.get_block_producer(0).is_none());
    let a = AgentId::new();
    let b = AgentId::new();
    engine.current_epoch.validators = vec![AgentId(a.0.clone()), AgentId(b.0.clone())];
    assert_eq!(engine.get_block_producer(0).unwrap().0, a.0);
    assert_eq!(engine.get_block_producer(1).unwrap().0, b.0);
    assert_eq!(engine.get_block_producer(2).unwrap().0, a.0);
}

#[test]
fn test_hash_message() {
    let data = b"test data".to_vec();
    let hash1 = solace_core::hashing::hash_message(&data);
    let hash2 = solace_core::hashing::hash_message(&data);
    assert_eq!(hash1, hash2);
    assert_eq!(hash1.len(), 32);
}

#[test]
fn test_block_hash_depends_on_fields() {
    let engine = ConsensusEngine::new(ConsensusConfig::default());
    let producer = AgentId::new();
    let header = BlockHeader {
        height: 3,
        previous_hash: vec![1, 2, 3],
        merkle_root: vec![4, 5, 6],
        timestamp_ms: 7,
        producer: AgentId(producer.0.clone()),
        epoch: 1,
        nonce: 8,
    };
    let mut other = BlockHeader {
        height: 3,
        previous_hash: vec![1, 2, 3],
        merkle_root: vec![4, 5, 6],
        timestamp_ms: 7,
        producer: AgentId(producer.0.clone()),
        epoch: 1,
        nonce: 8,
    };
    assert_eq!(engine.calculate_block_hash(&header), engine.calculate_block_hash(&other));
    other.nonce = 9;
    assert_ne!(engine.calculate_block_hash(&header), engine.calculate_block_hash(&other));
}

#[test]
fn test_consecutive_run_counting() {
    // The run counter starts at one on a producer's first block, grows
    // while the same producer keeps producing, and restarts at one when
    // another producer takes over.
    let mut engine = ConsensusEngine::new(ConsensusConfig::default());
    let a = AgentId::new();
    let b = AgentId::new();
    engine.register_validator(AgentId(a.0.clone()), 5000, 900_000).unwrap();
    engine.register_validator(AgentId(b.0.clone()), 5000, 900_000).unwrap();
    engine.current_epoch.validators = vec![AgentId(a.0.clone())];

    let mut height = 0u64;
    let mut produce = |engine: &mut ConsensusEngine, producer: &AgentId| {
        let header = BlockHeader {
            height,
            previous_hash: Vec::new(),
            merkle_root: Vec::new(),
            timestamp_ms: height,
            producer: AgentId(producer.0.clone()),
            epoch: 0,
            nonce: height,
        };
        height += 1;
        engine.finalize_block(header).unwrap();
    };

    produce(&mut engine, &a);
    assert_eq!(engine.validators[0].consecutive_blocks, 1);
    produce(&mut engine, &a);
    assert_eq!(engine.validators[0].consecutive_blocks, 2);
    produce(&mut engine, &b);
    assert_eq!(engine.validators[1].consecutive_blocks, 1);
    produce(&mut engine, &a);
    assert_eq!(engine.validators[0].consecutive_blocks, 1);
}

#[test]
fn test_votes_cast_counter() {
    let mut engine = ConsensusEngine::new(ConsensusConfig::default());
    let voter = AgentId::new();
    engine.register_validator(AgentId(voter.0.clone()), 2000, 500_000).unwrap();
    assert_eq!(engine.validators[0].votes_cast, 0);

    engine.process_vote(vote_for(&[5u8; 32], &voter, VoteType::Approve)).unwrap();
    engine.process_vote(vote_for(&[6u8; 32], &voter, VoteType::Reject)).unwrap();
    assert_eq!(engine.validators[0].votes_cast, 2);

    // A refused vote moves nothing.
    let stranger = AgentId::new();
    assert!(engine.process_vote(vote_for(&[5u8; 32], &stranger, VoteType::Approve)).is_err());
    assert_eq!(engine.validators[0].votes_cast, 2);
}
