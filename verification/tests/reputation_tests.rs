use solace_core::reputation::ReputationEvent;
use solace_core::reputation::ReputationEventType;
use solace_core::reputation::ReputationScore;
use solace_core::reputation::ReputationSystem;
use solace_core::reputation::ReputationWeight;
use solace_core::types::AgentId;

fn event(delta_ppm: i64, weight: ReputationWeight) -> ReputationEvent {
    ReputationEvent {
        timestamp_ms: 100,
        event_type: ReputationEventType::TransactionSuccess,
        weight,
        delta_ppm,
        counterparty: None,
    }
}

#[test]
fn test_reputation_system() {
    let mut system = ReputationSystem::new();
    let agent = AgentId::new();
    assert_eq!(system.get_score(&agent), None);

    // First contact starts at 0.5; a full positive delta at Low weight
    // adds 0.01 of the scale.
    let new_score = system
        .update_reputation(AgentId(agent.0.clone()), event(1_000_000, ReputationWeight::Low))
        .unwrap();
    assert_eq!(new_score, 510_000);
    assert_eq!(system.get_score(&agent), Some(510_000));

    // A negative event at Critical weight takes 0.1 of the scale away.
    let after_penalty = system
        .update_reputation(AgentId(agent.0.clone()), event(-1_000_000, ReputationWeight::Critical))
        .unwrap();
    assert_eq!(after_penalty, 410_000);
}

#[test]
fn test_reputation_clamped() {
    let mut system = ReputationSystem::new();
    let agent = AgentId::new();
    for _ in 0..12 {
        system
            .update_reputation(AgentId(agent.0.clone()), event(-1_000_000, ReputationWeight::Critical))
            .unwrap();
    }
    assert_eq!(system.get_score(&agent), Some(0));
}

#[test]
fn test_reputation_score_basics() {
    let score = ReputationScore::new(2_000_000, 5);
    // Scores are clamped into the unit interval.
    assert_eq!(score.current_score(), 1_000_000);
    assert_eq!(score.success_rate_ppm(), 0);

    let mut score = ReputationScore::new(700_000, 5);
    score.update_score(250_000, 9);
    assert_eq!(score.current_score(), 250_000);
    assert_eq!(score.last_updated_ms, 9);
}

#[test]
fn test_weight_factors() {
    assert_eq!(ReputationWeight::Low.factor_ppm(), 10_000);
    assert_eq!(ReputationWeight::Medium.factor_ppm(), 30_000);
    assert_eq!(ReputationWeight::High.factor_ppm(), 50_000);
    assert_eq!(ReputationWeight::Critical.factor_ppm(), 100_000);
}
