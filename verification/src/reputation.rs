//! Agent trust scoring: per-agent reputation scores in the unit
//! interval (carried in parts-per-million) and the event-driven update
//! rule.

use vstd::prelude::*;

use crate::types::AgentId;

verus! {

/// Default score given to an agent on first contact, in ppm.
pub const INITIAL_REPUTATION_PPM: u32 = 500_000;

/// Weight classes of a reputation event.
#[derive(Clone, Copy, PartialEq, Eq, Structural, Debug)]
pub enum ReputationWeight {
    Low,
    Medium,
    High,
    Critical,
}

impl ReputationWeight {
    /// The update factor of the weight class, in ppm of the event delta.
    pub open spec fn spec_factor_ppm(&self) -> u64 {
        match self {
            ReputationWeight::Low => 10_000,
            ReputationWeight::Medium => 30_000,
            ReputationWeight::High => 50_000,
            ReputationWeight::Critical => 100_000,
        }
    }

    /// The update factor of the weight class, in ppm of the event delta.
    pub fn factor_ppm(&self) -> (r: u64)
        ensures
            r == self.spec_factor_ppm(),
    {
        match self {
            ReputationWeight::Low => 10_000,
            ReputationWeight::Medium => 30_000,
            ReputationWeight::High => 50_000,
            ReputationWeight::Critical => 100_000,
        }
    }
}

/// Kinds of reputation event.
#[derive(Clone, Copy, PartialEq, Eq, Structural, Debug)]
pub enum ReputationEventType {
    TransactionSuccess,
    TransactionFailure,
    TimeoutPenalty,
    QualityBonus,
    FraudPenalty,
}

/// One reputation event: a kind, its weight class, a signed score delta
/// in ppm of the unit interval, and the counterparty if any.
pub struct ReputationEvent {
    pub timestamp_ms: u64,
    pub event_type: ReputationEventType,
    pub weight: ReputationWeight,
    pub delta_ppm: i64,
    pub counterparty: Option<AgentId>,
}

/// Clamp a prospective score into the unit interval in ppm.
pub open spec fn clamp_score(x: int) -> u32 {
    if x < 0 {
        0u32
    } else if x > 1_000_000 {
        1_000_000u32
    } else {
        x as u32
    }
}

/// An event's signed score movement: the delta scaled by the
/// weight-class factor, rounded toward zero.
pub open spec fn scaled_delta(delta_ppm: i64, weight: ReputationWeight) -> int {
    if delta_ppm >= 0 {
        delta_ppm * weight.spec_factor_ppm() / 1_000_000
    } else {
        -((-delta_ppm) * weight.spec_factor_ppm() / 1_000_000)
    }
}

/// The score an event moves an existing score to: the delta scaled by
/// the weight-class factor, clamped into the unit interval.
pub open spec fn updated_score(score_ppm: u32, delta_ppm: i64, weight: ReputationWeight) -> u32 {
    clamp_score(score_ppm + scaled_delta(delta_ppm, weight))
}

/// A per-agent reputation score with its transaction history counters.
pub struct ReputationScore {
    pub score_ppm: u32,
    pub total_transactions: u32,
    pub successful_transactions: u32,
    pub last_updated_ms: u64,
    pub events_recorded: u64,
}

impl ReputationScore {
    /// A score is within the unit interval.
    pub open spec fn wf(&self) -> bool {
        self.score_ppm <= 1_000_000
    }

    /// Create a fresh score, clamped into the unit interval.
    pub fn new(initial_score_ppm: u32, now_ms: u64) -> (r: ReputationScore)
        ensures
            r.wf(),
            r.score_ppm == clamp_score(initial_score_ppm as int),
            r.total_transactions == 0,
            r.successful_transactions == 0,
            r.last_updated_ms == now_ms,
            r.events_recorded == 0,
    {
        let clamped = if initial_score_ppm > 1_000_000 {
            1_000_000
        } else {
            initial_score_ppm
        };
        ReputationScore {
            score_ppm: clamped,
            total_transactions: 0,
            successful_transactions: 0,
            last_updated_ms: now_ms,
            events_recorded: 0,
        }
    }

    /// The current score, in ppm.
    pub fn current_score(&self) -> (r: u32)
        ensures
            r == self.score_ppm,
    {
        self.score_ppm
    }

    /// Overwrite the score, clamped into the unit interval.
    pub fn update_score(&mut self, new_score_ppm: u32, now_ms: u64)
        ensures
            final(self).score_ppm == clamp_score(new_score_ppm as int),
            final(self).wf(),
            final(self).last_updated_ms == now_ms,
            final(self).total_transactions == old(self).total_transactions,
            final(self).successful_transactions == old(self).successful_transactions,
            final(self).events_recorded == old(self).events_recorded,
    {
        self.score_ppm = if new_score_ppm > 1_000_000 {
            1_000_000
        } else {
            new_score_ppm
        };
        self.last_updated_ms = now_ms;
    }

    /// Fraction of successful transactions, in ppm; zero without any
    /// transactions.
    pub fn success_rate_ppm(&self) -> (r: u64)
        requires
            self.successful_transactions <= self.total_transactions,
        ensures
            self.total_transactions == 0 ==> r == 0,
            self.total_transactions > 0 ==> r as int == self.successful_transactions as int * 1_000_000
                / self.total_transactions as int,
    {
        if self.total_transactions == 0 {
            0
        } else {
            (self.successful_transactions as u64) * 1_000_000 / (self.total_transactions as u64)
        }
    }
}

/// One agent's entry in the reputation system.
pub struct ScoreEntry {
    pub agent_id: AgentId,
    pub score: ReputationScore,
}

/// Mathematical view of a score entry: the identifier and the record.
pub ghost struct ScoreEntryView {
    pub agent_id: Seq<char>,
    pub score: ReputationScore,
}

impl View for ScoreEntry {
    type V = ScoreEntryView;

    open spec fn view(&self) -> ScoreEntryView {
        ScoreEntryView { agent_id: self.agent_id@, score: self.score }
    }
}

/// Views of the score table.
pub open spec fn entry_list(v: Seq<ScoreEntry>) -> Seq<ScoreEntryView> {
    v.map_values(|e: ScoreEntry| e@)
}

/// Whether the table has an entry for the identifier.
pub open spec fn has_score(es: Seq<ScoreEntryView>, id: Seq<char>) -> bool {
    exists|i: int| 0 <= i < es.len() && es[i].agent_id == id
}

/// Index of the entry for the identifier (meaningful when present and
/// identifiers are distinct).
pub open spec fn score_idx(es: Seq<ScoreEntryView>, id: Seq<char>) -> int {
    choose|i: int| 0 <= i < es.len() && es[i].agent_id == id
}

/// The global reputation system: one score per agent.
pub struct ReputationSystem {
    pub agent_scores: Vec<ScoreEntry>,
}

impl ReputationSystem {
    /// Identifiers are unique and every score is within the unit
    /// interval.
    pub open spec fn wf(&self) -> bool {
        &&& forall|i: int, j: int|
            0 <= i < j < self@.len() ==> self@[i].agent_id != self@[j].agent_id
        &&& forall|i: int| 0 <= i < self@.len() ==> (#[trigger] self@[i]).score.wf()
    }

    /// The table of entries, for use in contracts.
    pub open spec fn view(&self) -> Seq<ScoreEntryView> {
        entry_list(self.agent_scores@)
    }

    /// Create an empty system.
    pub fn new() -> (r: ReputationSystem)
        ensures
            r.wf(),
            r@ == Seq::<ScoreEntryView>::empty(),
    {
        let r = ReputationSystem { agent_scores: Vec::new() };
        proof {
            assert(r@ =~= Seq::<ScoreEntryView>::empty());
        }
        r
    }

    /// The current score of an agent, in ppm; `None` for an unknown
    /// agent.
    #[verifier::loop_isolation(false)]
    pub fn get_score(&self, agent_id: &AgentId) -> (r: Option<u32>)
        requires
            self.wf(),
        ensures
            r is Some ==> (has_score(self@, agent_id@) && r.unwrap() == self@[score_idx(
                self@,
                agent_id@,
            )].score.score_ppm),
            r is None ==> !has_score(self@, agent_id@),
    {
        let n = self.agent_scores.len();
        let mut i: usize = 0;
        while i < n
            invariant
                i <= n,
                forall|j: int| 0 <= j < i ==> (#[trigger] self@[j]).agent_id != agent_id@,
            decreases n - i,
        {
            if self.agent_scores[i].agent_id.same_as(agent_id) {
                proof {
                    assert(self@[i as int].agent_id == agent_id@);
                    let c = score_idx(self@, agent_id@);
                    assert(0 <= c < self@.len() && self@[c].agent_id == agent_id@);
                    assert(c == i as int) by {
                        if c < i as int {
                            assert(self@[c].agent_id != self@[i as int].agent_id);
                        } else if c > i as int {
                            assert(self@[i as int].agent_id != self@[c].agent_id);
                        }
                    }
                }
                return Some(self.agent_scores[i].score.score_ppm);
            }
            i = i + 1;
        }
        proof {
            if has_score(self@, agent_id@) {
                let w = choose|w: int| 0 <= w < self@.len() && self@[w].agent_id == agent_id@;
            }
        }
        None
    }

    /// Apply a reputation event to an agent, creating the agent's entry
    /// at the initial score on first contact.  Returns the new score in
    /// ppm.  The new score is the old one moved by the event's delta
    /// scaled with its weight-class factor, clamped into the unit
    /// interval.
    #[verifier::loop_isolation(false)]
    pub fn update_reputation(&mut self, agent_id: AgentId, event: ReputationEvent) -> (r: Result<
        u32,
        crate::errors::ReputationError,
    >)
        requires
            old(self).wf(),
            -1_000_000 <= event.delta_ppm <= 1_000_000,
        ensures
            final(self).wf(),
            r is Ok,
            ({
                let base = if has_score(old(self)@, agent_id@) {
                    old(self)@[score_idx(old(self)@, agent_id@)].score.score_ppm
                } else {
                    INITIAL_REPUTATION_PPM
                };
                let fresh = updated_score(base, event.delta_ppm, event.weight);
                &&& r == Ok::<u32, crate::errors::ReputationError>(fresh)
                &&& has_score(final(self)@, agent_id@)
                &&& final(self)@[score_idx(final(self)@, agent_id@)].score.score_ppm == fresh
            }),
    {
        let ghost pre = self@;
        let n = self.agent_scores.len();
        let mut i: usize = 0;
        while i < n
            invariant
                i <= n,
                self@ == pre,
                n == self@.len(),
                forall|j: int| 0 <= j < i ==> (#[trigger] self@[j]).agent_id != agent_id@,
            decreases n - i,
        {
            if self.agent_scores[i].agent_id.same_as(&agent_id) {
                proof {
                    assert(self@[i as int].agent_id == agent_id@);
                    let c = score_idx(self@, agent_id@);
                    assert(0 <= c < self@.len() && self@[c].agent_id == agent_id@);
                    assert(c == i as int) by {
                        if c < i as int {
                            assert(self@[c].agent_id != self@[i as int].agent_id);
                        } else if c > i as int {
                            assert(self@[i as int].agent_id != self@[c].agent_id);
                        }
                    }
                }
                let fresh = apply_event(self.agent_scores[i].score.score_ppm, &event);
                let mut score = ReputationScore {
                    score_ppm: self.agent_scores[i].score.score_ppm,
                    total_transactions: self.agent_scores[i].score.total_transactions,
                    successful_transactions: self.agent_scores[i].score.successful_transactions,
                    last_updated_ms: self.agent_scores[i].score.last_updated_ms,
                    events_recorded: self.agent_scores[i].score.events_recorded.saturating_add(1),
                };
                score.update_score(fresh, event.timestamp_ms);
                let entry = ScoreEntry { agent_id: self.agent_scores[i].agent_id.duplicate(), score };
                self.agent_scores.set(i, entry);
                proof {
                    assert(self@ =~= pre.update(i as int, self@[i as int]));
                    assert(self@[i as int].agent_id == agent_id@);
                    assert forall|a: int, b: int| 0 <= a < b < self@.len() implies self@[a].agent_id
                        != self@[b].agent_id by {}
                    let c2 = score_idx(self@, agent_id@);
                    assert(0 <= c2 < self@.len() && self@[c2].agent_id == agent_id@);
                    assert(c2 == i as int) by {
                        if c2 < i as int {
                            assert(self@[c2].agent_id != self@[i as int].agent_id);
                        } else if c2 > i as int {
                            assert(self@[i as int].agent_id != self@[c2].agent_id);
                        }
                    }
                }
                return Ok(fresh);
            }
            i = i + 1;
        }
        let fresh = apply_event(INITIAL_REPUTATION_PPM, &event);
        let mut score = ReputationScore::new(INITIAL_REPUTATION_PPM, event.timestamp_ms);
        score.update_score(fresh, event.timestamp_ms);
        let entry = ScoreEntry { agent_id, score };
        self.agent_scores.push(entry);
        proof {
            if has_score(pre, entry@.agent_id) {
                let w = choose|w: int| 0 <= w < pre.len() && pre[w].agent_id == entry@.agent_id;
            }
            assert(!has_score(pre, entry@.agent_id));
            assert(self@ =~= pre.push(entry@));
            let fin = self@;
            assert(fin[fin.len() - 1].agent_id == entry@.agent_id);
            assert forall|a: int, b: int| 0 <= a < b < fin.len() implies fin[a].agent_id != fin[b].agent_id by {
                if b == fin.len() - 1 {
                    assert(fin[a] == pre[a]);
                }
            }
            let c2 = score_idx(fin, entry@.agent_id);
            assert(0 <= c2 < fin.len() && fin[c2].agent_id == entry@.agent_id);
            assert(c2 == fin.len() - 1) by {
                if c2 < fin.len() - 1 {
                    assert(fin[c2].agent_id != fin[fin.len() - 1].agent_id);
                }
            }
        }
        Ok(fresh)
    }
}

/// Compute the clamped score an event moves a score to.
fn apply_event(score_ppm: u32, event: &ReputationEvent) -> (r: u32)
    requires
        score_ppm <= 1_000_000,
        -1_000_000 <= event.delta_ppm <= 1_000_000,
    ensures
        r == updated_score(score_ppm, event.delta_ppm, event.weight),
        r <= 1_000_000,
{
    let factor = event.weight.factor_ppm();
    let scaled: i64 = if event.delta_ppm >= 0 {
        let mag: u64 = (event.delta_ppm as u64) * factor / 1_000_000;
        proof {
            assert(event.delta_ppm as u64 * factor <= 1_000_000u64 * 100_000u64) by (nonlinear_arith)
                requires
                    0 <= event.delta_ppm <= 1_000_000,
                    0 <= factor <= 100_000,
            ;
        }
        mag as i64
    } else {
        let neg: u64 = if event.delta_ppm == i64::MIN {
            9_223_372_036_854_775_808u64
        } else {
            (-event.delta_ppm) as u64
        };
        proof {
            assert(neg * factor <= 1_000_000u64 * 100_000u64) by (nonlinear_arith)
                requires
                    0 <= neg <= 1_000_000,
                    0 <= factor <= 100_000,
            ;
        }
        let mag: u64 = neg * factor / 1_000_000;
        -(mag as i64)
    };
    proof {
        assert(scaled == scaled_delta(event.delta_ppm, event.weight));
        assert(-100_000 <= scaled <= 100_000) by {
            if event.delta_ppm >= 0 {
                assert(event.delta_ppm * event.weight.spec_factor_ppm() <= 1_000_000i64
                    * 100_000i64) by (nonlinear_arith)
                    requires
                        0 <= event.delta_ppm <= 1_000_000,
                        0 <= event.weight.spec_factor_ppm() <= 100_000,
                ;
            } else {
                assert((-event.delta_ppm) * event.weight.spec_factor_ppm() <= 1_000_000i64
                    * 100_000i64) by (nonlinear_arith)
                    requires
                        0 < -event.delta_ppm <= 1_000_000,
                        0 <= event.weight.spec_factor_ppm() <= 100_000,
                ;
            }
        }
    }
    let candidate: i64 = (score_ppm as i64) + scaled;
    if candidate < 0 {
        0
    } else if candidate > 1_000_000 {
        1_000_000
    } else {
        candidate as u32
    }
}

} // verus!
