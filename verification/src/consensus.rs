//! Proof-of-Reputation consensus engine: validator registry, blended
//! stake/reputation weights, epoch rotation by weighted top-N selection,
//! round-robin block production, vote tallying under a Byzantine quorum,
//! and slashing.
//!
//! Fractional quantities are carried as integers in parts-per-million
//! (ppm): a reputation of `700_000` ppm stands for a score of 0.7, and
//! the weight coefficients are ppm fractions as well.  The natural
//! logarithm in the stake component is a fixed-point approximation that
//! is zero at and below the normalization point of one million stake
//! units, so a validator above the stake minimum always has a positive
//! weight when its reputation component is positive.

use vstd::prelude::*;

use vstd::multiset::Multiset;

use crate::hashing::sha256_of;
use crate::types::AgentId;

verus! {

/// One part per million; the scale of all ppm quantities.
pub const PPM: u64 = 1_000_000;

/// ln(2) in parts per million.
pub const LN2_PPM: u64 = 693_147;

/// Doubling steps the fixed-point logarithm will take at most; 2^64
/// exceeds any `u64` stake, so the cap is never the binding limit.
pub const LN_MAX_STEPS: u32 = 64;

/// Number of finalized block headers kept in history.
pub const BLOCK_HISTORY_LIMIT: usize = 1000;

/// Errors of the consensus engine.
#[derive(Debug)]
pub enum ConsensusError {
    /// A validator tried to register with less than the minimum stake.
    InsufficientStake { stake: u64, minimum: u64 },
    /// The named validator is not registered.
    ValidatorNotFound { agent_id: String },
}

/// Mathematical view of a consensus error.
pub ghost enum ConsensusErrorView {
    InsufficientStake { stake: u64, minimum: u64 },
    ValidatorNotFound { agent_id: Seq<char> },
}

impl View for ConsensusError {
    type V = ConsensusErrorView;

    open spec fn view(&self) -> ConsensusErrorView {
        match self {
            ConsensusError::InsufficientStake { stake, minimum } => ConsensusErrorView::InsufficientStake {
                stake: *stake,
                minimum: *minimum,
            },
            ConsensusError::ValidatorNotFound { agent_id } => ConsensusErrorView::ValidatorNotFound {
                agent_id: agent_id@,
            },
        }
    }
}

/// Configuration of the consensus engine.
#[derive(Clone, Copy, PartialEq, Eq, Structural, Debug)]
pub struct ConsensusConfig {
    /// Target block time in milliseconds.
    pub block_time_ms: u64,
    /// Number of validators selected per epoch.
    pub validators_per_epoch: usize,
    /// Minimum stake required to be a validator.
    pub min_validator_stake: u64,
    /// Weight of the reputation component, as a ppm fraction.
    pub reputation_weight_ppm: u64,
    /// Weight of the stake component, as a ppm fraction.
    pub stake_weight_ppm: u64,
    /// Consecutive blocks after which a validator's weight is halved.
    pub max_consecutive_blocks: u32,
    /// Epoch length in blocks.
    pub epoch_duration: u32,
}

impl ConsensusConfig {
    /// The weight coefficients are fractions: at most one million ppm.
    pub open spec fn wf(&self) -> bool {
        self.reputation_weight_ppm <= PPM && self.stake_weight_ppm <= PPM
    }
}

impl Default for ConsensusConfig {
    /// The default configuration: 2 s blocks, 21 validators per epoch,
    /// a minimum stake of 1000, weight coefficients 0.4 (reputation) and
    /// 0.6 (stake), a three-block consecutive-production limit and
    /// 1000-block epochs.
    fn default() -> (r: ConsensusConfig)
        ensures
            r == (ConsensusConfig {
                block_time_ms: 2000u64,
                validators_per_epoch: 21usize,
                min_validator_stake: 1000u64,
                reputation_weight_ppm: 400_000u64,
                stake_weight_ppm: 600_000u64,
                max_consecutive_blocks: 3u32,
                epoch_duration: 1000u32,
            }),
            r.wf(),
    {
        ConsensusConfig {
            block_time_ms: 2000,
            validators_per_epoch: 21,
            min_validator_stake: 1000,
            reputation_weight_ppm: 400_000,
            stake_weight_ppm: 600_000,
            max_consecutive_blocks: 3,
            epoch_duration: 1000,
        }
    }
}

/// A registered validator.
pub struct Validator {
    pub agent_id: AgentId,
    pub stake: u64,
    /// Reputation score in ppm of 1.0; always at most one million.
    pub reputation_ppm: u32,
    pub blocks_produced: u32,
    pub consecutive_blocks: u32,
    pub last_block_time_ms: u64,
    pub is_active: bool,
    pub slashing_events: u32,
    /// Number of votes this validator has cast.
    pub votes_cast: u32,
}

/// Mathematical view of a validator.
pub ghost struct ValidatorView {
    pub agent_id: Seq<char>,
    pub stake: u64,
    pub reputation_ppm: u32,
    pub blocks_produced: u32,
    pub consecutive_blocks: u32,
    pub last_block_time_ms: u64,
    pub is_active: bool,
    pub slashing_events: u32,
    pub votes_cast: u32,
}

impl View for Validator {
    type V = ValidatorView;

    open spec fn view(&self) -> ValidatorView {
        ValidatorView {
            agent_id: self.agent_id@,
            stake: self.stake,
            reputation_ppm: self.reputation_ppm,
            blocks_produced: self.blocks_produced,
            consecutive_blocks: self.consecutive_blocks,
            last_block_time_ms: self.last_block_time_ms,
            is_active: self.is_active,
            slashing_events: self.slashing_events,
            votes_cast: self.votes_cast,
        }
    }
}

/// The fixed-point logarithm, unfolded: starting from `base`, doubles
/// toward `stake`, contributing ln(2) per doubling plus a linear
/// interpolation of the remainder; `fuel` caps the number of doublings.
pub open spec fn spec_ln_rec(base: int, stake: int, fuel: nat) -> int
    decreases fuel,
{
    if fuel == 0 {
        0
    } else if base <= stake / 2 {
        LN2_PPM + spec_ln_rec(base * 2, stake, (fuel - 1) as nat)
    } else {
        (stake - base) * LN2_PPM / base
    }
}

/// ln(stake / one million) in ppm, clamped to zero at and below the
/// normalization point.
pub open spec fn spec_ln_ppm(stake: u64) -> int {
    if stake <= PPM {
        0
    } else {
        spec_ln_rec(PPM as int, stake as int, LN_MAX_STEPS as nat)
    }
}

/// The fixed-point logarithm is nonnegative and bounded by one ln(2)
/// contribution per unit of fuel, plus the final interpolation step.
pub proof fn lemma_ln_rec_bounds(base: int, stake: int, fuel: nat)
    requires
        0 < base <= stake,
    ensures
        0 <= spec_ln_rec(base, stake, fuel),
        spec_ln_rec(base, stake, fuel) <= (fuel + 1) * LN2_PPM,
    decreases fuel,
{
    if fuel == 0 {
    } else if base <= stake / 2 {
        lemma_ln_rec_bounds(base * 2, stake, (fuel - 1) as nat);
        assert((fuel + 1) * LN2_PPM == fuel * LN2_PPM + LN2_PPM) by (nonlinear_arith);
        assert(fuel * LN2_PPM >= ((fuel - 1) + 1) * LN2_PPM);
    } else {
        let frac = (stake - base) * LN2_PPM / base;
        assert(0 <= (stake - base) * LN2_PPM) by (nonlinear_arith)
            requires
                0 <= stake - base,
        ;
        vstd::arithmetic::div_mod::lemma_div_is_ordered(
            (stake - base) * LN2_PPM,
            base * LN2_PPM,
            base,
        );
        assert((stake - base) * LN2_PPM <= base * LN2_PPM) by (nonlinear_arith)
            requires
                stake - base <= base,
                LN2_PPM >= 0,
        ;
        assert(base * LN2_PPM / base == LN2_PPM) by (nonlinear_arith)
            requires
                base > 0,
        ;
        assert(frac <= LN2_PPM);
        assert((fuel + 1) * LN2_PPM >= 2 * LN2_PPM) by (nonlinear_arith)
            requires
                fuel >= 1,
        ;
        vstd::arithmetic::div_mod::lemma_div_pos_is_pos((stake - base) * LN2_PPM, base);
    }
}

/// The fixed-point logarithm of any `u64` stake, in ppm, bounded for
/// overflow reasoning.
pub proof fn lemma_ln_ppm_bounds(stake: u64)
    ensures
        0 <= spec_ln_ppm(stake),
        spec_ln_ppm(stake) <= (LN_MAX_STEPS + 1) * LN2_PPM,
{
    if stake > PPM {
        lemma_ln_rec_bounds(PPM as int, stake as int, LN_MAX_STEPS as nat);
    }
}

/// Compute the fixed-point logarithm of `stake` relative to the
/// one-million normalization point, in ppm.
#[verifier::loop_isolation(false)]
fn ln_ppm(stake: u64) -> (r: u64)
    ensures
        r == spec_ln_ppm(stake),
        r <= (LN_MAX_STEPS + 1) * LN2_PPM,
{
    proof {
        lemma_ln_ppm_bounds(stake);
    }
    if stake <= PPM {
        return 0;
    }
    let mut base: u64 = PPM;
    let mut acc: u64 = 0;
    let mut fuel: u32 = LN_MAX_STEPS;
    while fuel > 0 && base <= stake / 2
        invariant
            0 < base <= stake,
            fuel <= LN_MAX_STEPS,
            acc == (LN_MAX_STEPS - fuel) * LN2_PPM,
            spec_ln_rec(PPM as int, stake as int, LN_MAX_STEPS as nat) == acc + spec_ln_rec(
                base as int,
                stake as int,
                fuel as nat,
            ),
        decreases fuel,
    {
        acc = acc + LN2_PPM;
        base = base * 2;
        fuel = fuel - 1;
    }
    if fuel == 0 {
        acc
    } else {
        proof {
            lemma_ln_rec_bounds(base as int, stake as int, fuel as nat);
            assert((stake - base) as int * LN2_PPM / (base as int) <= LN2_PPM) by {
                vstd::arithmetic::div_mod::lemma_div_is_ordered(
                    (stake - base) as int * LN2_PPM,
                    base as int * LN2_PPM,
                    base as int,
                );
                assert((stake - base) as int * LN2_PPM <= base as int * LN2_PPM) by (nonlinear_arith)
                    requires
                        (stake - base) as int <= base as int,
                        LN2_PPM >= 0,
                ;
                assert(base as int * LN2_PPM / (base as int) == LN2_PPM) by (nonlinear_arith)
                    requires
                        base > 0,
                ;
            }
            assert((stake - base) as int * LN2_PPM / (base as int) >= 0) by {
                vstd::arithmetic::div_mod::lemma_div_pos_is_pos((stake - base) as int * LN2_PPM, base as int);
                assert((stake - base) as int * LN2_PPM >= 0) by (nonlinear_arith)
                    requires
                        (stake - base) as int >= 0,
                ;
            }
        }
        let frac128: u128 = (stake - base) as u128 * LN2_PPM as u128 / base as u128;
        let frac: u64 = frac128 as u64;
        proof {
            assert(frac128 == (stake - base) as int * LN2_PPM / (base as int));
        }
        acc + frac
    }
}

/// The compounded slashing decay: each slashing event multiplies the
/// weight by 9/10, rounding down.
pub open spec fn spec_decay(w: int, k: nat) -> int
    decreases k,
{
    if k == 0 {
        w
    } else {
        spec_decay(w * 9 / 10, (k - 1) as nat)
    }
}

/// Decay of zero stays zero.
pub proof fn lemma_decay_zero(k: nat)
    ensures
        spec_decay(0, k) == 0,
    decreases k,
{
    if k > 0 {
        lemma_decay_zero((k - 1) as nat);
    }
}

/// Decay keeps a nonnegative weight nonnegative and never increases it.
pub proof fn lemma_decay_bounds(w: int, k: nat)
    requires
        w >= 0,
    ensures
        0 <= spec_decay(w, k) <= w,
    decreases k,
{
    if k > 0 {
        assert(0 <= w * 9 / 10 <= w) by (nonlinear_arith)
            requires
                w >= 0,
        ;
        lemma_decay_bounds(w * 9 / 10, (k - 1) as nat);
    }
}

/// Decay is monotone in the starting weight.
pub proof fn lemma_decay_monotone(w1: int, w2: int, k: nat)
    requires
        0 <= w1 <= w2,
    ensures
        spec_decay(w1, k) <= spec_decay(w2, k),
    decreases k,
{
    if k > 0 {
        assert(w1 * 9 / 10 <= w2 * 9 / 10 && w1 * 9 / 10 >= 0) by (nonlinear_arith)
            requires
                0 <= w1 <= w2,
        ;
        lemma_decay_monotone(w1 * 9 / 10, w2 * 9 / 10, (k - 1) as nat);
    }
}

/// A validator's selection weight, in ppm: zero when inactive or below
/// the stake minimum; otherwise the blend of the reputation component
/// and the logarithmic stake component, halved once the validator has
/// produced the maximum run of consecutive blocks, and decayed by 9/10
/// per slashing event.
pub open spec fn spec_weight(v: ValidatorView, c: ConsensusConfig) -> int {
    if !v.is_active || v.stake < c.min_validator_stake {
        0
    } else {
        let rep = (v.reputation_ppm as int) * (c.reputation_weight_ppm as int) / (PPM as int);
        let stk = spec_ln_ppm(v.stake) * (c.stake_weight_ppm as int) / (PPM as int);
        let base = rep + stk;
        let pen = if v.consecutive_blocks >= c.max_consecutive_blocks {
            base / 2
        } else {
            base
        };
        spec_decay(pen, v.slashing_events as nat)
    }
}

/// The weight of any validator with a clamped reputation fits easily in
/// a `u64`.
pub proof fn lemma_weight_bounds(v: ValidatorView, c: ConsensusConfig)
    requires
        c.wf(),
        v.reputation_ppm <= PPM,
    ensures
        0 <= spec_weight(v, c) <= 100_000_000,
{
    if !v.is_active || v.stake < c.min_validator_stake {
    } else {
        let rep = (v.reputation_ppm as int) * (c.reputation_weight_ppm as int) / (PPM as int);
        let stk = spec_ln_ppm(v.stake) * (c.stake_weight_ppm as int) / (PPM as int);
        lemma_ln_ppm_bounds(v.stake);
        lemma_component_bounds(v.reputation_ppm as int, c.reputation_weight_ppm as int, PPM as int);
        lemma_component_bounds(spec_ln_ppm(v.stake), c.stake_weight_ppm as int, (LN_MAX_STEPS + 1) * LN2_PPM);
        let base = rep + stk;
        let pen = if v.consecutive_blocks >= c.max_consecutive_blocks {
            base / 2
        } else {
            base
        };
        assert(0 <= base / 2 <= base) by (nonlinear_arith)
            requires
                base >= 0,
        ;
        lemma_decay_bounds(pen, v.slashing_events as nat);
    }
}

/// A ppm-weighted component `x * w / PPM` with `w <= PPM` is bounded by
/// the bound on `x`.
proof fn lemma_component_bounds(x: int, w: int, x_bound: int)
    requires
        0 <= x <= x_bound,
        0 <= w <= PPM,
    ensures
        0 <= x * w / (PPM as int) <= x_bound,
{
    assert(x * w <= x_bound * PPM) by (nonlinear_arith)
        requires
            0 <= x <= x_bound,
            0 <= w <= PPM,
    ;
    assert(x * w >= 0) by (nonlinear_arith)
        requires
            x >= 0,
            w >= 0,
    ;
    vstd::arithmetic::div_mod::lemma_div_pos_is_pos(x * w, PPM as int);
    vstd::arithmetic::div_mod::lemma_div_is_ordered(x * w, x_bound * PPM, PPM as int);
    assert(x_bound * PPM / (PPM as int) == x_bound) by (nonlinear_arith)
        requires
            x_bound >= 0,
    ;
}

impl Validator {
    /// Register-time constructor: the reputation score is clamped into
    /// the unit interval (in ppm).
    pub fn new(agent_id: AgentId, stake: u64, reputation_ppm: u32) -> (r: Validator)
        ensures
            r@ == (ValidatorView {
                agent_id: agent_id@,
                stake,
                reputation_ppm: if reputation_ppm <= 1_000_000 {
                    reputation_ppm
                } else {
                    1_000_000u32
                },
                blocks_produced: 0u32,
                consecutive_blocks: 0u32,
                last_block_time_ms: 0u64,
                is_active: true,
                slashing_events: 0u32,
                votes_cast: 0u32,
            }),
            r@.reputation_ppm <= PPM,
    {
        let rep = if reputation_ppm <= 1_000_000 {
            reputation_ppm
        } else {
            1_000_000
        };
        Validator {
            agent_id,
            stake,
            reputation_ppm: rep,
            blocks_produced: 0,
            consecutive_blocks: 0,
            last_block_time_ms: 0,
            is_active: true,
            slashing_events: 0,
            votes_cast: 0,
        }
    }

    /// Copy of this validator record.
    pub fn duplicate(&self) -> (r: Validator)
        ensures
            r@ == self@,
    {
        Validator {
            agent_id: self.agent_id.duplicate(),
            stake: self.stake,
            reputation_ppm: self.reputation_ppm,
            blocks_produced: self.blocks_produced,
            consecutive_blocks: self.consecutive_blocks,
            last_block_time_ms: self.last_block_time_ms,
            is_active: self.is_active,
            slashing_events: self.slashing_events,
            votes_cast: self.votes_cast,
        }
    }

    /// Compute this validator's selection weight under the given
    /// configuration, in ppm.
    #[verifier::loop_isolation(false)]
    pub fn calculate_weight(&self, config: &ConsensusConfig) -> (r: u64)
        requires
            config.wf(),
            self@.reputation_ppm <= PPM,
        ensures
            r == spec_weight(self@, *config),
    {
        proof {
            lemma_weight_bounds(self@, *config);
        }
        if !self.is_active || self.stake < config.min_validator_stake {
            return 0;
        }
        let ln = ln_ppm(self.stake);
        proof {
            lemma_component_bounds(self.reputation_ppm as int, config.reputation_weight_ppm as int, PPM as int);
            lemma_component_bounds(ln as int, config.stake_weight_ppm as int, (LN_MAX_STEPS + 1) * LN2_PPM);
            assert(self.reputation_ppm as u64 * config.reputation_weight_ppm <= PPM * PPM) by (nonlinear_arith)
                requires
                    self.reputation_ppm <= PPM,
                    config.reputation_weight_ppm <= PPM,
            ;
            assert(ln * config.stake_weight_ppm <= ((LN_MAX_STEPS + 1) * LN2_PPM) as u64 * PPM) by (nonlinear_arith)
                requires
                    ln <= (LN_MAX_STEPS + 1) * LN2_PPM,
                    config.stake_weight_ppm <= PPM,
            ;
        }
        let rep: u64 = self.reputation_ppm as u64 * config.reputation_weight_ppm / PPM;
        let stk: u64 = ln * config.stake_weight_ppm / PPM;
        let base: u64 = rep + stk;
        let pen: u64 = if self.consecutive_blocks >= config.max_consecutive_blocks {
            base / 2
        } else {
            base
        };
        let ghost k = self@.slashing_events as nat;
        let mut w: u64 = pen;
        let mut j: u32 = 0;
        proof {
            lemma_decay_bounds(pen as int, k);
        }
        while j < self.slashing_events && w > 0
            invariant
                j <= self.slashing_events,
                w <= pen,
                spec_decay(pen as int, k) == spec_decay(w as int, (self.slashing_events - j) as nat),
            decreases self.slashing_events - j,
        {
            proof {
                assert(0 <= w as int * 9 / 10 <= w) by (nonlinear_arith)
                    requires
                        w >= 0,
                ;
            }
            w = w * 9 / 10;
            j = j + 1;
        }
        proof {
            if w == 0 {
                lemma_decay_zero((self.slashing_events - j) as nat);
            }
        }
        w
    }
}

/// A block hash: the raw 32-byte SHA-256 digest of the header encoding.
pub type Hash = Vec<u8>;

/// A block header.  Immutable once constructed; its hash is derived
/// deterministically from its fields.
pub struct BlockHeader {
    pub height: u64,
    pub previous_hash: Hash,
    pub merkle_root: Hash,
    pub timestamp_ms: u64,
    pub producer: AgentId,
    pub epoch: u32,
    pub nonce: u64,
}

/// Mathematical view of a block header.
pub ghost struct HeaderView {
    pub height: u64,
    pub previous_hash: Seq<u8>,
    pub merkle_root: Seq<u8>,
    pub timestamp_ms: u64,
    pub producer: Seq<char>,
    pub epoch: u32,
    pub nonce: u64,
}

impl View for BlockHeader {
    type V = HeaderView;

    open spec fn view(&self) -> HeaderView {
        HeaderView {
            height: self.height,
            previous_hash: self.previous_hash@,
            merkle_root: self.merkle_root@,
            timestamp_ms: self.timestamp_ms,
            producer: self.producer@,
            epoch: self.epoch,
            nonce: self.nonce,
        }
    }
}

impl BlockHeader {
    /// Copy of this header.
    pub fn duplicate(&self) -> (r: BlockHeader)
        ensures
            r@ == self@,
    {
        let r = BlockHeader {
            height: self.height,
            previous_hash: self.previous_hash.clone(),
            merkle_root: self.merkle_root.clone(),
            timestamp_ms: self.timestamp_ms,
            producer: self.producer.duplicate(),
            epoch: self.epoch,
            nonce: self.nonce,
        };
        proof {
            assert(r.previous_hash@ =~= self.previous_hash@);
            assert(r.merkle_root@ =~= self.merkle_root@);
        }
        r
    }
}

/// A number split into little-endian bytes, lowest first.
pub open spec fn spec_le_bytes(x: int, n: nat) -> Seq<u8>
    decreases n,
{
    if n == 0 {
        Seq::empty()
    } else {
        seq![(x % 256) as u8] + spec_le_bytes(x / 256, (n - 1) as nat)
    }
}

/// A byte chunk framed by its 8-byte little-endian length.
pub open spec fn spec_len_prefixed(b: Seq<u8>) -> Seq<u8> {
    spec_le_bytes(b.len() as int, 8) + b
}

/// The deterministic byte encoding of a header: each numeric field in
/// little-endian order, each variable-length field framed by its length.
pub open spec fn spec_encode_header(h: HeaderView) -> Seq<u8> {
    spec_le_bytes(h.height as int, 8) + spec_len_prefixed(h.previous_hash) + spec_len_prefixed(h.merkle_root)
        + spec_le_bytes(h.timestamp_ms as int, 8) + spec_len_prefixed(vstd::utf8::encode_utf8(h.producer))
        + spec_le_bytes(h.epoch as int, 8) + spec_le_bytes(h.nonce as int, 8)
}

/// The hash of a header: the SHA-256 digest of its deterministic
/// encoding.
pub open spec fn spec_header_hash(h: HeaderView) -> Seq<u8> {
    sha256_of(spec_encode_header(h))
}

/// Append the 8-byte little-endian form of `x` to `out`.
#[verifier::loop_isolation(false)]
fn push_le_bytes(out: &mut Vec<u8>, x: u64)
    ensures
        final(out)@ == old(out)@ + spec_le_bytes(x as int, 8),
{
    let ghost pre = out@;
    let mut v = x;
    let mut i: usize = 0;
    while i < 8
        invariant
            i <= 8,
            out@.len() == pre.len() + i,
            forall|j: int| 0 <= j < pre.len() ==> out@[j] == pre[j],
            spec_le_bytes(x as int, 8) == out@.subrange(pre.len() as int, out@.len() as int) + spec_le_bytes(
                v as int,
                (8 - i) as nat,
            ),
        decreases 8 - i,
    {
        let ghost ob = out@;
        out.push((v % 256) as u8);
        proof {
            assert(out@.subrange(pre.len() as int, out@.len() as int) =~= ob.subrange(
                pre.len() as int,
                ob.len() as int,
            ) + seq![(v as int % 256) as u8]);
            assert(spec_le_bytes(v as int, (8 - i) as nat) == seq![(v as int % 256) as u8] + spec_le_bytes(
                v as int / 256,
                (8 - (i + 1)) as nat,
            ));
            assert(ob.subrange(pre.len() as int, ob.len() as int) + (seq![(v as int % 256) as u8] + spec_le_bytes(
                v as int / 256,
                (8 - (i + 1)) as nat,
            )) =~= out@.subrange(pre.len() as int, out@.len() as int) + spec_le_bytes(
                v as int / 256,
                (8 - (i + 1)) as nat,
            ));
        }
        v = v / 256;
        i = i + 1;
    }
    proof {
        assert(spec_le_bytes(v as int, 0) =~= Seq::<u8>::empty());
        assert(out@.subrange(pre.len() as int, out@.len() as int) + Seq::<u8>::empty() =~= out@.subrange(
            pre.len() as int,
            out@.len() as int,
        ));
        assert(out@ =~= pre + out@.subrange(pre.len() as int, out@.len() as int));
    }
}

/// Append a length-framed byte chunk to `out`.
#[verifier::loop_isolation(false)]
fn push_chunk(out: &mut Vec<u8>, chunk: &Vec<u8>)
    ensures
        final(out)@ == old(out)@ + spec_len_prefixed(chunk@),
{
    let ghost pre = out@;
    push_le_bytes(out, chunk.len() as u64);
    let ghost mid = out@;
    let n = chunk.len();
    let mut i: usize = 0;
    while i < n
        invariant
            i <= n,
            out@ == mid + chunk@.take(i as int),
        decreases n - i,
    {
        let ghost ob = out@;
        out.push(chunk[i]);
        proof {
            assert(out@ =~= ob.push(chunk@[i as int]));
            assert(chunk@.take(i + 1 as int) =~= chunk@.take(i as int).push(chunk@[i as int]));
            assert(mid + chunk@.take(i + 1 as int) =~= out@);
        }
        i = i + 1;
    }
    proof {
        assert(chunk@.take(n as int) =~= chunk@);
        assert(pre + (spec_le_bytes(chunk@.len() as int, 8) + chunk@) =~= out@);
    }
}

/// Encode a header into its deterministic byte form.
fn encode_header(header: &BlockHeader) -> (r: Vec<u8>)
    ensures
        r@ == spec_encode_header(header@),
{
    let mut out: Vec<u8> = Vec::new();
    push_le_bytes(&mut out, header.height);
    push_chunk(&mut out, &header.previous_hash);
    push_chunk(&mut out, &header.merkle_root);
    push_le_bytes(&mut out, header.timestamp_ms);
    let producer_bytes = header.producer.0.as_str().as_bytes_vec();
    push_chunk(&mut out, &producer_bytes);
    push_le_bytes(&mut out, header.epoch as u64);
    push_le_bytes(&mut out, header.nonce);
    proof {
        assert(producer_bytes@ == vstd::utf8::encode_utf8(header.producer@));
        assert(out@ =~= spec_encode_header(header@));
    }
    out
}

/// The kind of a consensus vote.
#[derive(Clone, Copy, PartialEq, Eq, Structural, Debug)]
pub enum VoteType {
    Approve,
    Reject,
    Abstain,
}

/// A vote on a proposed block.  The signature is an opaque,
/// already-authenticated byte blob.
pub struct ConsensusVote {
    pub block_hash: Hash,
    pub block_height: u64,
    pub voter: AgentId,
    pub vote_type: VoteType,
    pub timestamp_ms: u64,
    pub signature: Vec<u8>,
}

/// Mathematical view of a consensus vote.
pub ghost struct VoteView {
    pub block_hash: Seq<u8>,
    pub block_height: u64,
    pub voter: Seq<char>,
    pub vote_type: VoteType,
    pub timestamp_ms: u64,
    pub signature: Seq<u8>,
}

impl View for ConsensusVote {
    type V = VoteView;

    open spec fn view(&self) -> VoteView {
        VoteView {
            block_hash: self.block_hash@,
            block_height: self.block_height,
            voter: self.voter@,
            vote_type: self.vote_type,
            timestamp_ms: self.timestamp_ms,
            signature: self.signature@,
        }
    }
}

/// The pending votes for one block hash.
pub struct VoteBucket {
    pub block_hash: Hash,
    pub votes: Vec<ConsensusVote>,
}

/// Mathematical view of a vote bucket.
pub ghost struct BucketView {
    pub block_hash: Seq<u8>,
    pub votes: Seq<VoteView>,
}

impl View for VoteBucket {
    type V = BucketView;

    open spec fn view(&self) -> BucketView {
        BucketView { block_hash: self.block_hash@, votes: self.votes@.map_values(|v: ConsensusVote| v@) }
    }
}

/// An epoch: a fixed range of block heights served by one validator
/// list, with an optional per-height producer assignment.
pub struct Epoch {
    pub number: u32,
    pub start_block: u64,
    pub end_block: u64,
    pub validators: Vec<AgentId>,
    pub block_producers: Vec<(u64, AgentId)>,
}

/// Mathematical view of an epoch.
pub ghost struct EpochView {
    pub number: u32,
    pub start_block: u64,
    pub end_block: u64,
    pub validators: Seq<Seq<char>>,
    pub block_producers: Seq<(u64, Seq<char>)>,
}

impl View for Epoch {
    type V = EpochView;

    open spec fn view(&self) -> EpochView {
        EpochView {
            number: self.number,
            start_block: self.start_block,
            end_block: self.end_block,
            validators: crate::types::agent_ids(self.validators@),
            block_producers: self.block_producers@.map_values(|p: (u64, AgentId)| (p.0, p.1@)),
        }
    }
}

/// Aggregate counters of the consensus engine.  The average reputation
/// is in ppm of 1.0.
#[derive(Clone, Copy, PartialEq, Eq, Structural, Debug)]
pub struct ConsensusStats {
    pub current_epoch: u32,
    pub total_validators: usize,
    pub active_validators: usize,
    pub total_stake: u64,
    pub average_reputation_ppm: u64,
    pub blocks_finalized: usize,
}

/// Views of a sequence of validators.
pub open spec fn validator_views(v: Seq<Validator>) -> Seq<ValidatorView> {
    v.map_values(|x: Validator| x@)
}

/// Whether some validator in the sequence carries the identifier.
pub open spec fn has_validator(vs: Seq<ValidatorView>, id: Seq<char>) -> bool {
    exists|i: int| 0 <= i < vs.len() && vs[i].agent_id == id
}

/// Index of the validator carrying the identifier (meaningful when
/// present and identifiers are distinct).
pub open spec fn validator_idx(vs: Seq<ValidatorView>, id: Seq<char>) -> int {
    choose|i: int| 0 <= i < vs.len() && vs[i].agent_id == id
}

/// Pairwise-distinct validator identifiers.
pub open spec fn validators_distinct(vs: Seq<ValidatorView>) -> bool {
    forall|i: int, j: int| 0 <= i < j < vs.len() ==> vs[i].agent_id != vs[j].agent_id
}

/// Whether some bucket in the sequence carries the block hash.
pub open spec fn has_bucket(bs: Seq<BucketView>, h: Seq<u8>) -> bool {
    exists|i: int| 0 <= i < bs.len() && bs[i].block_hash == h
}

/// Index of the bucket carrying the block hash (meaningful when present
/// and hashes are distinct).
pub open spec fn bucket_idx(bs: Seq<BucketView>, h: Seq<u8>) -> int {
    choose|i: int| 0 <= i < bs.len() && bs[i].block_hash == h
}

/// Pairwise-distinct bucket hashes.
pub open spec fn buckets_distinct(bs: Seq<BucketView>) -> bool {
    forall|i: int, j: int| 0 <= i < j < bs.len() ==> bs[i].block_hash != bs[j].block_hash
}

/// Mathematical view of the whole consensus engine state.
pub ghost struct EngineView {
    pub config: ConsensusConfig,
    pub validators: Seq<ValidatorView>,
    pub epoch: EpochView,
    pub pending: Seq<BucketView>,
    pub history: Seq<HeaderView>,
}

/// The consensus engine.
pub struct ConsensusEngine {
    pub config: ConsensusConfig,
    pub validators: Vec<Validator>,
    pub current_epoch: Epoch,
    pub pending_votes: Vec<VoteBucket>,
    pub block_history: Vec<BlockHeader>,
}

impl View for ConsensusEngine {
    type V = EngineView;

    open spec fn view(&self) -> EngineView {
        EngineView {
            config: self.config,
            validators: validator_views(self.validators@),
            epoch: self.current_epoch@,
            pending: self.pending_votes@.map_values(|b: VoteBucket| b@),
            history: self.block_history@.map_values(|h: BlockHeader| h@),
        }
    }
}

impl ConsensusEngine {
    /// Well-formedness of the engine state: sane weight coefficients,
    /// unique validator identifiers with clamped reputations, and unique
    /// vote-bucket hashes.
    pub open spec fn wf(&self) -> bool {
        &&& self@.config.wf()
        &&& validators_distinct(self@.validators)
        &&& forall|i: int| 0 <= i < self@.validators.len() ==> (#[trigger] self@.validators[i]).reputation_ppm <= PPM
        &&& buckets_distinct(self@.pending)
    }

    /// Create an engine with no validators, an empty genesis epoch and
    /// no pending votes.
    pub fn new(config: ConsensusConfig) -> (r: ConsensusEngine)
        requires
            config.wf(),
        ensures
            r.wf(),
            r@.config == config,
            r@.validators == Seq::<ValidatorView>::empty(),
            r@.epoch == (EpochView {
                number: 0u32,
                start_block: 0u64,
                end_block: config.epoch_duration as u64,
                validators: Seq::<Seq<char>>::empty(),
                block_producers: Seq::<(u64, Seq<char>)>::empty(),
            }),
            r@.pending == Seq::<BucketView>::empty(),
            r@.history == Seq::<HeaderView>::empty(),
    {
        let r = ConsensusEngine {
            config,
            validators: Vec::new(),
            current_epoch: Epoch {
                number: 0,
                start_block: 0,
                end_block: config.epoch_duration as u64,
                validators: Vec::new(),
                block_producers: Vec::new(),
            },
            pending_votes: Vec::new(),
            block_history: Vec::new(),
        };
        proof {
            assert(r@.validators =~= Seq::<ValidatorView>::empty());
            assert(r@.epoch.validators =~= Seq::<Seq<char>>::empty());
            assert(r@.epoch.block_producers =~= Seq::<(u64, Seq<char>)>::empty());
            assert(r@.pending =~= Seq::<BucketView>::empty());
            assert(r@.history =~= Seq::<HeaderView>::empty());
        }
        r
    }

    /// Register a validator with the given stake and reputation,
    /// replacing any record under the same identity.  Fails exactly when
    /// the stake is below the configured minimum, leaving the engine
    /// unchanged.
    #[verifier::loop_isolation(false)]
    pub fn register_validator(&mut self, agent_id: AgentId, stake: u64, reputation_ppm: u32) -> (r: Result<
        (),
        ConsensusError,
    >)
        requires
            old(self).wf(),
        ensures
            final(self).wf(),
            stake < old(self)@.config.min_validator_stake ==> (final(self)@ == old(self)@ && (r matches Err(e)
                && e@ == (ConsensusErrorView::InsufficientStake {
                stake,
                minimum: old(self)@.config.min_validator_stake,
            }))),
            stake >= old(self)@.config.min_validator_stake ==> (r is Ok && final(self)@ == (EngineView {
                validators: old(self)@.validators.filter(|v: ValidatorView| v.agent_id != agent_id@).push(
                    (ValidatorView {
                        agent_id: agent_id@,
                        stake,
                        reputation_ppm: if reputation_ppm <= 1_000_000 {
                            reputation_ppm
                        } else {
                            1_000_000u32
                        },
                        blocks_produced: 0u32,
                        consecutive_blocks: 0u32,
                        last_block_time_ms: 0u64,
                        is_active: true,
                        slashing_events: 0u32,
                        votes_cast: 0u32,
                    }),
                ),
                ..old(self)@
            })),
            has_validator(final(self)@.validators, agent_id@) == (stake
                >= old(self)@.config.min_validator_stake || has_validator(old(self)@.validators, agent_id@)),
    {
        let ghost pre = self@;
        let ghost pred = |v: ValidatorView| v.agent_id != agent_id@;
        if stake < self.config.min_validator_stake {
            proof {
                if has_validator(pre.validators, agent_id@) {
                    let w = choose|w: int| 0 <= w < pre.validators.len() && pre.validators[w].agent_id == agent_id@;
                }
            }
            return Err(ConsensusError::InsufficientStake { stake, minimum: self.config.min_validator_stake });
        }
        let mut kept: Vec<Validator> = Vec::new();
        let n = self.validators.len();
        let mut i: usize = 0;
        while i < n
            invariant
                i <= n,
                n == self.validators.len(),
                self@ == pre,
                validator_views(kept@) == pre.validators.take(i as int).filter(pred),
            decreases n - i,
        {
            let ghost prefix = pre.validators.take(i as int);
            proof {
                assert(pre.validators.take(i + 1 as int) =~= prefix.push(pre.validators[i as int]));
                crate::gossip::lemma_filter_push(prefix, pred, pre.validators[i as int]);
            }
            if !self.validators[i].agent_id.same_as(&agent_id) {
                kept.push(self.validators[i].duplicate());
                proof {
                    assert(validator_views(kept@) =~= prefix.filter(pred).push(pre.validators[i as int]));
                }
            }
            i = i + 1;
        }
        proof {
            assert(pre.validators.take(n as int) =~= pre.validators);
            crate::gossip::lemma_filter_distinct_by(pre.validators, pred, |v: ValidatorView| v.agent_id);
            broadcast use vstd::seq_lib::group_filter_ensures;

        }
        let fresh = Validator::new(agent_id, stake, reputation_ppm);
        kept.push(fresh);
        self.validators = kept;
        proof {
            let fin = self@.validators;
            assert(fin =~= pre.validators.filter(pred).push(fin[fin.len() - 1]));
            assert(fin[fin.len() - 1].agent_id == pre.validators.filter(pred).push(fin[fin.len() - 1])[fin.len()
                - 1].agent_id);
            assert(validators_distinct(fin)) by {
                assert forall|a: int, b: int| 0 <= a < b < fin.len() implies fin[a].agent_id != fin[b].agent_id by {
                    if b < fin.len() - 1 {
                    } else {
                        assert(pred(pre.validators.filter(pred)[a]));
                    }
                }
            }
            assert forall|w: int| 0 <= w < fin.len() implies (#[trigger] fin[w]).reputation_ppm <= PPM by {
                if w < fin.len() - 1 {
                    assert(pre.validators.contains(pre.validators.filter(pred)[w]));
                    let q = choose|q: int|
                        0 <= q < pre.validators.len() && pre.validators[q] == pre.validators.filter(pred)[w];
                }
            }
            assert(has_validator(fin, agent_id@)) by {
                assert(fin[fin.len() - 1].agent_id == agent_id@);
            }
        }
        Ok(())
    }

    /// Remove a validator entirely; removing an unknown identity is a
    /// no-op.
    #[verifier::loop_isolation(false)]
    pub fn remove_validator(&mut self, agent_id: &AgentId) -> (r: Result<(), ConsensusError>)
        requires
            old(self).wf(),
        ensures
            final(self).wf(),
            r is Ok,
            final(self)@ == (EngineView {
                validators: old(self)@.validators.filter(|v: ValidatorView| v.agent_id != agent_id@),
                ..old(self)@
            }),
            !has_validator(final(self)@.validators, agent_id@),
    {
        let ghost pre = self@;
        let ghost pred = |v: ValidatorView| v.agent_id != agent_id@;
        let mut kept: Vec<Validator> = Vec::new();
        let n = self.validators.len();
        let mut i: usize = 0;
        while i < n
            invariant
                i <= n,
                n == self.validators.len(),
                self@ == pre,
                validator_views(kept@) == pre.validators.take(i as int).filter(pred),
            decreases n - i,
        {
            let ghost prefix = pre.validators.take(i as int);
            proof {
                assert(pre.validators.take(i + 1 as int) =~= prefix.push(pre.validators[i as int]));
                crate::gossip::lemma_filter_push(prefix, pred, pre.validators[i as int]);
            }
            if !self.validators[i].agent_id.same_as(agent_id) {
                kept.push(self.validators[i].duplicate());
                proof {
                    assert(validator_views(kept@) =~= prefix.filter(pred).push(pre.validators[i as int]));
                }
            }
            i = i + 1;
        }
        proof {
            assert(pre.validators.take(n as int) =~= pre.validators);
            crate::gossip::lemma_filter_distinct_by(pre.validators, pred, |v: ValidatorView| v.agent_id);
            broadcast use vstd::seq_lib::group_filter_ensures;

        }
        self.validators = kept;
        proof {
            let fin = self@.validators;
            assert forall|w: int| 0 <= w < fin.len() implies (#[trigger] fin[w]).reputation_ppm <= PPM
                && fin[w].agent_id != agent_id@ by {
                assert(pred(pre.validators.filter(pred)[w]));
                assert(pre.validators.contains(pre.validators.filter(pred)[w]));
                let q = choose|q: int|
                    0 <= q < pre.validators.len() && pre.validators[q] == pre.validators.filter(pred)[w];
            }
        }
        Ok(())
    }

    /// Find the index of a validator by identity.
    #[verifier::loop_isolation(false)]
    fn find_validator(&self, agent_id: &AgentId) -> (r: Option<usize>)
        requires
            self.wf(),
        ensures
            r is Some ==> (has_validator(self@.validators, agent_id@) && r.unwrap() == validator_idx(
                self@.validators,
                agent_id@,
            ) && r.unwrap() < self@.validators.len()),
            r is None ==> !has_validator(self@.validators, agent_id@),
    {
        let n = self.validators.len();
        let mut i: usize = 0;
        while i < n
            invariant
                i <= n,
                forall|j: int| 0 <= j < i ==> (#[trigger] self@.validators[j]).agent_id != agent_id@,
            decreases n - i,
        {
            if self.validators[i].agent_id.same_as(agent_id) {
                proof {
                    assert(self@.validators[i as int].agent_id == agent_id@);
                    let c = validator_idx(self@.validators, agent_id@);
                    assert(0 <= c < self@.validators.len() && self@.validators[c].agent_id == agent_id@);
                    assert(c == i as int) by {
                        if c < i as int {
                            assert(self@.validators[c].agent_id != self@.validators[i as int].agent_id);
                        } else if c > i as int {
                            assert(self@.validators[i as int].agent_id != self@.validators[c].agent_id);
                        }
                    }
                }
                return Some(i);
            }
            i = i + 1;
        }
        proof {
            if has_validator(self@.validators, agent_id@) {
                let w = choose|w: int|
                    0 <= w < self@.validators.len() && self@.validators[w].agent_id == agent_id@;
            }
        }
        None
    }

    /// Update a validator's stake; the validator is active exactly when
    /// the new stake meets the minimum.  Fails exactly when the identity
    /// is unknown, leaving the engine unchanged.
    pub fn update_validator_stake(&mut self, agent_id: &AgentId, new_stake: u64) -> (r: Result<
        (),
        ConsensusError,
    >)
        requires
            old(self).wf(),
        ensures
            final(self).wf(),
            !has_validator(old(self)@.validators, agent_id@) ==> (final(self)@ == old(self)@ && (r matches Err(e)
                && e@ == (ConsensusErrorView::ValidatorNotFound { agent_id: agent_id@ }))),
            has_validator(old(self)@.validators, agent_id@) ==> (r is Ok && final(self)@ == (EngineView {
                validators: old(self)@.validators.update(
                    validator_idx(old(self)@.validators, agent_id@),
                    (ValidatorView {
                        stake: new_stake,
                        is_active: new_stake >= old(self)@.config.min_validator_stake,
                        ..old(self)@.validators[validator_idx(old(self)@.validators, agent_id@)]
                    }),
                ),
                ..old(self)@
            })),
    {
        let ghost pre = self@;
        match self.find_validator(agent_id) {
            Some(i) => {
                let updated = Validator {
                    agent_id: self.validators[i].agent_id.duplicate(),
                    stake: new_stake,
                    reputation_ppm: self.validators[i].reputation_ppm,
                    blocks_produced: self.validators[i].blocks_produced,
                    consecutive_blocks: self.validators[i].consecutive_blocks,
                    last_block_time_ms: self.validators[i].last_block_time_ms,
                    is_active: new_stake >= self.config.min_validator_stake,
                    slashing_events: self.validators[i].slashing_events,
                    votes_cast: self.validators[i].votes_cast,
                };
                self.validators.set(i, updated);
                proof {
                    assert(self@.validators =~= pre.validators.update(
                        i as int,
                        (ValidatorView {
                            stake: new_stake,
                            is_active: new_stake >= pre.config.min_validator_stake,
                            ..pre.validators[i as int]
                        }),
                    ));
                    assert forall|a: int, b: int| 0 <= a < b < self@.validators.len() implies self@.validators[a].agent_id
                        != self@.validators[b].agent_id by {}
                }
                Ok(())
            },
            None => Err(ConsensusError::ValidatorNotFound { agent_id: agent_id.0.clone() }),
        }
    }

    /// Update a validator's reputation, clamped into the unit interval
    /// (in ppm).  Fails exactly when the identity is unknown, leaving
    /// the engine unchanged.
    pub fn update_validator_reputation(&mut self, agent_id: &AgentId, reputation_ppm: u32) -> (r: Result<
        (),
        ConsensusError,
    >)
        requires
            old(self).wf(),
        ensures
            final(self).wf(),
            !has_validator(old(self)@.validators, agent_id@) ==> (final(self)@ == old(self)@ && (r matches Err(e)
                && e@ == (ConsensusErrorView::ValidatorNotFound { agent_id: agent_id@ }))),
            has_validator(old(self)@.validators, agent_id@) ==> (r is Ok && final(self)@ == (EngineView {
                validators: old(self)@.validators.update(
                    validator_idx(old(self)@.validators, agent_id@),
                    (ValidatorView {
                        reputation_ppm: if reputation_ppm <= 1_000_000 {
                            reputation_ppm
                        } else {
                            1_000_000u32
                        },
                        ..old(self)@.validators[validator_idx(old(self)@.validators, agent_id@)]
                    }),
                ),
                ..old(self)@
            })),
    {
        let ghost pre = self@;
        match self.find_validator(agent_id) {
            Some(i) => {
                let rep = if reputation_ppm <= 1_000_000 {
                    reputation_ppm
                } else {
                    1_000_000
                };
                let updated = Validator {
                    agent_id: self.validators[i].agent_id.duplicate(),
                    stake: self.validators[i].stake,
                    reputation_ppm: rep,
                    blocks_produced: self.validators[i].blocks_produced,
                    consecutive_blocks: self.validators[i].consecutive_blocks,
                    last_block_time_ms: self.validators[i].last_block_time_ms,
                    is_active: self.validators[i].is_active,
                    slashing_events: self.validators[i].slashing_events,
                    votes_cast: self.validators[i].votes_cast,
                };
                self.validators.set(i, updated);
                proof {
                    assert(self@.validators =~= pre.validators.update(
                        i as int,
                        (ValidatorView {
                            reputation_ppm: if reputation_ppm <= 1_000_000 {
                                reputation_ppm
                            } else {
                                1_000_000u32
                            },
                            ..pre.validators[i as int]
                        }),
                    ));
                    assert forall|a: int, b: int| 0 <= a < b < self@.validators.len() implies self@.validators[a].agent_id
                        != self@.validators[b].agent_id by {}
                }
                Ok(())
            },
            None => Err(ConsensusError::ValidatorNotFound { agent_id: agent_id.0.clone() }),
        }
    }
}

/// Order on `(sort key, registry index)` pairs: by key, then by index.
/// With pairwise-distinct indices this is a total strict order.
pub open spec fn pair_le(a: (u64, usize), b: (u64, usize)) -> bool {
    a.0 < b.0 || (a.0 == b.0 && a.1 <= b.1)
}

/// Sort pairs ascending by `pair_le`.  The result is a permutation of
/// the input (same multiset).
#[verifier::loop_isolation(false)]
fn sort_pairs(v: Vec<(u64, usize)>) -> (r: Vec<(u64, usize)>)
    ensures
        r@.len() == v@.len(),
        r@.to_multiset() == v@.to_multiset(),
        forall|i: int, j: int| 0 <= i < j < r@.len() ==> pair_le(#[trigger] r@[i], #[trigger] r@[j]),
{
    broadcast use vstd::seq_lib::group_to_multiset_ensures;

    let ghost orig = v@;
    let mut work = v;
    let mut out: Vec<(u64, usize)> = Vec::new();
    while work.len() > 0
        invariant
            out@.to_multiset().add(work@.to_multiset()) =~= orig.to_multiset(),
            out@.len() + work@.len() == orig.len(),
            forall|i: int, j: int| 0 <= i < j < out@.len() ==> pair_le(#[trigger] out@[i], #[trigger] out@[j]),
            forall|i: int, j: int|
                0 <= i < out@.len() && 0 <= j < work@.len() ==> pair_le(#[trigger] out@[i], #[trigger] work@[j]),
        decreases work.len(),
    {
        let n = work.len();
        let mut m: usize = 0;
        let mut k: usize = 1;
        while k < n
            invariant
                1 <= k <= n,
                n == work@.len(),
                m < k,
                forall|q: int| 0 <= q < k ==> pair_le(work@[m as int], #[trigger] work@[q]),
            decreases n - k,
        {
            let better = work[k].0 < work[m].0 || (work[k].0 == work[m].0 && work[k].1 < work[m].1);
            if better {
                m = k;
            }
            k = k + 1;
        }
        let ghost outb = out@;
        let ghost workb = work@;
        let picked = work.remove(m);
        out.push(picked);
        proof {
            assert(work@.to_multiset() =~= workb.to_multiset().remove(picked));
            assert(out@.to_multiset() =~= outb.to_multiset().insert(picked));
            assert(workb.to_multiset().contains(picked)) by {
                assert(workb[m as int] == picked);
                assert(workb.contains(picked));
            }
            assert(out@.to_multiset().add(work@.to_multiset()) =~= orig.to_multiset());
            assert forall|i: int, j: int| 0 <= i < out@.len() && 0 <= j < work@.len() implies pair_le(
                #[trigger] out@[i],
                #[trigger] work@[j],
            ) by {
                if i < out@.len() - 1 {
                    assert(workb.contains(work@[j])) by {
                        assert(work@.to_multiset().contains(work@[j]));
                        assert(workb.to_multiset().contains(work@[j]));
                    }
                    let q = choose|q: int| 0 <= q < workb.len() && workb[q] == work@[j];
                    assert(pair_le(outb[i], workb[q]));
                } else {
                    assert(out@[i] == picked);
                    assert(workb.contains(work@[j])) by {
                        assert(work@.to_multiset().contains(work@[j]));
                        assert(workb.to_multiset().contains(work@[j]));
                    }
                    let q = choose|q: int| 0 <= q < workb.len() && workb[q] == work@[j];
                    assert(pair_le(workb[m as int], workb[q]));
                }
            }
            assert forall|i: int, j: int| 0 <= i < j < out@.len() implies pair_le(
                #[trigger] out@[i],
                #[trigger] out@[j],
            ) by {
                if j == out@.len() - 1 {
                    assert(pair_le(outb[i], workb[m as int]));
                }
            }
        }
    }
    proof {
        assert(work@ =~= Seq::<(u64, usize)>::empty());
        assert(work@.to_multiset() =~= Multiset::<(u64, usize)>::empty());
        assert(out@.to_multiset().add(Multiset::<(u64, usize)>::empty()) =~= out@.to_multiset());
    }
    out
}

/// A sequence whose multiset equals that of a sequence with
/// pairwise-distinct second components again has pairwise-distinct
/// second components.
proof fn lemma_perm_keeps_distinct_idx(a: Seq<(u64, usize)>, b: Seq<(u64, usize)>)
    requires
        a.to_multiset() == b.to_multiset(),
        forall|i: int, j: int| 0 <= i < j < a.len() ==> (#[trigger] a[i]).1 != (#[trigger] a[j]).1,
    ensures
        forall|i: int, j: int| 0 <= i < j < b.len() ==> (#[trigger] b[i]).1 != (#[trigger] b[j]).1,
{
    broadcast use vstd::seq_lib::group_to_multiset_ensures;

    assert forall|i: int, j: int| 0 <= i < j < b.len() implies (#[trigger] b[i]).1 != (#[trigger] b[j]).1 by {
        if b[i] == b[j] {
            let br = b.remove(i);
            assert(br.to_multiset() =~= b.to_multiset().remove(b[i]));
            assert(br[j - 1] == b[j]);
            assert(br.contains(b[j]));
            assert(br.to_multiset().contains(b[j]));
            assert(b.to_multiset().count(b[i]) >= 2);
            assert(a.to_multiset().count(b[i]) >= 2);
            assert(a.contains(b[i]));
            let w1 = choose|w1: int| 0 <= w1 < a.len() && a[w1] == b[i];
            let ar = a.remove(w1);
            assert(ar.to_multiset() =~= a.to_multiset().remove(b[i]));
            assert(ar.to_multiset().count(b[i]) >= 1);
            assert(ar.contains(b[i]));
            let w2 = choose|w2: int| 0 <= w2 < ar.len() && ar[w2] == b[i];
            let w2a: int = if w2 < w1 {
                w2
            } else {
                w2 + 1
            };
            assert(a[w2a] == b[i]);
            assert(a[w1].1 != a[w2a].1);
        } else {
            assert(b.contains(b[i]) && b.contains(b[j]));
            assert(b.to_multiset().contains(b[i]) && b.to_multiset().contains(b[j]));
            assert(a.to_multiset().contains(b[i]) && a.to_multiset().contains(b[j]));
            assert(a.contains(b[i]) && a.contains(b[j]));
            let w1 = choose|w1: int| 0 <= w1 < a.len() && a[w1] == b[i];
            let w2 = choose|w2: int| 0 <= w2 < a.len() && a[w2] == b[j];
            assert(w1 != w2);
            if w1 < w2 {
                assert(a[w1].1 != a[w2].1);
            } else {
                assert(a[w2].1 != a[w1].1);
            }
        }
    }
}

/// Validator `i` precedes validator `j` in selection order: strictly
/// greater weight, or equal weight and earlier registration.
pub open spec fn outranks(vs: Seq<ValidatorView>, c: ConsensusConfig, i: int, j: int) -> bool {
    spec_weight(vs[i], c) > spec_weight(vs[j], c) || (spec_weight(vs[i], c) == spec_weight(vs[j], c) && i
        < j)
}

/// The selection result: as many identifiers as the epoch size allows
/// (bounded by the number of active validators), witnessed as a weighted
/// top-N selection.
pub open spec fn selection_ok(vs: Seq<ValidatorView>, c: ConsensusConfig, ids: Seq<Seq<char>>) -> bool {
    &&& ids.len() == vstd::math::min(
        c.validators_per_epoch as int,
        vs.filter(|v: ValidatorView| v.is_active).len() as int,
    )
    &&& exists|sel: Seq<int>| is_top_selection(vs, c, ids, sel)
}

/// `ids` is the weighted top-N selection from `vs` witnessed by the
/// registry indices `sel`: every selected index is an active validator,
/// the selection is ordered by descending weight (ties broken by
/// registration order), and every active validator left out is outranked
/// by every selected one.
pub open spec fn is_top_selection(
    vs: Seq<ValidatorView>,
    c: ConsensusConfig,
    ids: Seq<Seq<char>>,
    sel: Seq<int>,
) -> bool {
    &&& sel.len() == ids.len()
    &&& forall|k: int|
        0 <= k < sel.len() ==> 0 <= #[trigger] sel[k] < vs.len() && vs[sel[k]].is_active && ids[k]
            == vs[sel[k]].agent_id
    &&& forall|a: int, b: int| 0 <= a < b < sel.len() ==> outranks(vs, c, sel[a], sel[b])
    &&& forall|j: int|
        0 <= j < vs.len() && (#[trigger] vs[j]).is_active && !sel.contains(j) ==> forall|k: int|
            0 <= k < sel.len() ==> outranks(vs, c, #[trigger] sel[k], j)
}

impl ConsensusEngine {
    /// Select the validators for an epoch: the top
    /// `validators_per_epoch` active validators by descending weight,
    /// ties broken by registration order so that every node computes the
    /// same list from the same registry.  `epoch_number` names the epoch
    /// being formed; the selection depends on the registry alone.
    #[verifier::loop_isolation(false)]
    pub fn select_validators_for_epoch(&self, epoch_number: u32) -> (r: Result<Vec<AgentId>, ConsensusError>)
        requires
            self.wf(),
        ensures
            r is Ok,
            selection_ok(self@.validators, self@.config, crate::types::agent_ids((r->Ok_0)@)),
    {
        let ghost vs = self@.validators;
        let ghost c = self@.config;
        let mut pairs: Vec<(u64, usize)> = Vec::new();
        let n = self.validators.len();
        let mut i: usize = 0;
        while i < n
            invariant
                i <= n,
                pairs@.len() == vs.take(i as int).filter(|v: ValidatorView| v.is_active).len(),
                forall|q: int|
                    0 <= q < pairs@.len() ==> ((#[trigger] pairs@[q]).1 < i && vs[pairs@[q].1 as int].is_active
                        && pairs@[q].0 == u64::MAX - spec_weight(vs[pairs@[q].1 as int], c)),
                forall|q1: int, q2: int|
                    0 <= q1 < q2 < pairs@.len() ==> (#[trigger] pairs@[q1]).1 < (#[trigger] pairs@[q2]).1,
                forall|j: int|
                    0 <= j < i && (#[trigger] vs[j]).is_active ==> exists|q: int|
                        0 <= q < pairs@.len() && (#[trigger] pairs@[q]).1 == j,
            decreases n - i,
        {
            let ghost prefix = vs.take(i as int);
            proof {
                assert(vs.take(i + 1 as int) =~= prefix.push(vs[i as int]));
                crate::gossip::lemma_filter_push(prefix, |v: ValidatorView| v.is_active, vs[i as int]);
            }
            if self.validators[i].is_active {
                let w = self.validators[i].calculate_weight(&self.config);
                proof {
                    lemma_weight_bounds(vs[i as int], c);
                }
                let ghost pb = pairs@;
                pairs.push((u64::MAX - w, i));
                proof {
                    assert forall|j: int| 0 <= j < i + 1 && (#[trigger] vs[j]).is_active implies exists|q: int|
                        0 <= q < pairs@.len() && (#[trigger] pairs@[q]).1 == j by {
                        if j < i {
                            let q0 = choose|q0: int| 0 <= q0 < pb.len() && (#[trigger] pb[q0]).1 == j;
                            assert(pairs@[q0].1 == j);
                        } else {
                            assert(pairs@[pairs@.len() - 1].1 == j);
                        }
                    }
                }
            }
            i = i + 1;
        }
        proof {
            assert(vs.take(n as int) =~= vs);
        }
        let sorted = sort_pairs(pairs);
        proof {
            lemma_perm_keeps_distinct_idx(pairs@, sorted@);
        }
        let count = if self.config.validators_per_epoch < sorted.len() {
            self.config.validators_per_epoch
        } else {
            sorted.len()
        };
        let mut out: Vec<AgentId> = Vec::new();
        let mut k: usize = 0;
        while k < count
            invariant
                k <= count,
                count <= sorted@.len(),
                out@.len() == k,
                forall|q: int|
                    0 <= q < k ==> (#[trigger] out@[q])@ == vs[sorted@[q].1 as int].agent_id,
            decreases count - k,
        {
            let idx = sorted[k].1;
            proof {
                assert(pairs@.to_multiset().contains(sorted@[k as int])) by {
                    assert(sorted@.contains(sorted@[k as int]));
                    broadcast use vstd::seq_lib::group_to_multiset_ensures;

                }
                assert(pairs@.contains(sorted@[k as int])) by {
                    broadcast use vstd::seq_lib::group_to_multiset_ensures;

                }
                let q = choose|q: int| 0 <= q < pairs@.len() && pairs@[q] == sorted@[k as int];
                assert(idx < n && vs[idx as int].is_active);
            }
            out.push(self.validators[idx].agent_id.duplicate());
            k = k + 1;
        }
        proof {
            let ids = crate::types::agent_ids(out@);
            let sel = Seq::new(count as nat, |q: int| sorted@[q].1 as int);
            broadcast use vstd::seq_lib::group_to_multiset_ensures;

            assert forall|q: int| 0 <= q < sorted@.len() implies ((#[trigger] sorted@[q]).1 < n
                && vs[sorted@[q].1 as int].is_active && sorted@[q].0 == u64::MAX - spec_weight(
                vs[sorted@[q].1 as int],
                c,
            )) by {
                assert(sorted@.contains(sorted@[q]));
                assert(sorted@.to_multiset().contains(sorted@[q]));
                assert(pairs@.to_multiset().contains(sorted@[q]));
                assert(pairs@.contains(sorted@[q]));
                let p = choose|p: int| 0 <= p < pairs@.len() && pairs@[p] == sorted@[q];
            }
            assert(ids.len() == count);
            assert forall|q: int| 0 <= q < sel.len() implies 0 <= #[trigger] sel[q] < vs.len()
                && vs[sel[q]].is_active && ids[q] == vs[sel[q]].agent_id by {
                assert(ids[q] == out@[q]@);
            }
            assert forall|a: int, b: int| 0 <= a < b < sel.len() implies outranks(vs, c, sel[a], sel[b]) by {
                assert(pair_le(sorted@[a], sorted@[b]));
                assert(sorted@[a].1 != sorted@[b].1);
                lemma_weight_bounds(vs[sel[a]], c);
                lemma_weight_bounds(vs[sel[b]], c);
            }
            assert forall|j: int|
                0 <= j < vs.len() && (#[trigger] vs[j]).is_active && !sel.contains(j) implies forall|q: int|
                0 <= q < sel.len() ==> outranks(vs, c, #[trigger] sel[q], j) by {
                let p = choose|p: int| 0 <= p < pairs@.len() && (#[trigger] pairs@[p]).1 == j;
                assert(pairs@.contains(pairs@[p]));
                assert(pairs@.to_multiset().contains(pairs@[p]));
                assert(sorted@.to_multiset().contains(pairs@[p]));
                assert(sorted@.contains(pairs@[p]));
                let pos = choose|pos: int| 0 <= pos < sorted@.len() && sorted@[pos] == pairs@[p];
                assert(pos >= count) by {
                    if pos < count {
                        assert(sel[pos] == j);
                        assert(sel.contains(j));
                    }
                }
                assert forall|q: int| 0 <= q < sel.len() implies outranks(vs, c, #[trigger] sel[q], j) by {
                    assert(pair_le(sorted@[q], sorted@[pos]));
                    assert(sorted@[q].1 != sorted@[pos].1);
                    lemma_weight_bounds(vs[sel[q]], c);
                    lemma_weight_bounds(vs[j], c);
                }
            }
            assert(is_top_selection(vs, c, ids, sel));
            assert(vs.filter(|v: ValidatorView| v.is_active).len() == pairs@.len());
            assert(selection_ok(vs, c, ids));
        }
        Ok(out)
    }
}

/// Saturating addition on `u32`.
pub open spec fn sat_add32(a: u32, b: u32) -> u32 {
    if a + b <= u32::MAX {
        (a + b) as u32
    } else {
        u32::MAX
    }
}

/// The assigned producer for a height: round-robin over the epoch's
/// validator list (meaningful when the list is non-empty).
pub open spec fn spec_producer(e: EpochView, height: u64) -> Seq<char> {
    e.validators[height as int % e.validators.len() as int]
}

/// The block-validation rule: the epoch has validators, the header's
/// producer is the height's assigned producer, the timestamp is not in
/// the future, and — once there is history — the height is exactly one
/// past the last accepted header and the previous-hash links to it.
pub open spec fn spec_validate(e: EngineView, h: HeaderView, now_ms: u64) -> bool {
    &&& e.epoch.validators.len() > 0
    &&& h.producer == spec_producer(e.epoch, h.height)
    &&& h.timestamp_ms <= now_ms
    &&& (e.history.len() > 0 ==> h.height == e.history.last().height + 1 && h.previous_hash
        == spec_header_hash(e.history.last()))
}

/// Number of approve votes in a sequence of votes.
pub open spec fn count_approvals(votes: Seq<VoteView>) -> int
    decreases votes.len(),
{
    if votes.len() == 0 {
        0
    } else {
        count_approvals(votes.drop_last()) + if votes.last().vote_type == VoteType::Approve {
            1int
        } else {
            0int
        }
    }
}

/// The Byzantine quorum for `n` validators: strictly more than two
/// thirds, i.e. `floor(2n/3) + 1` approvals.
pub open spec fn quorum(n: int) -> int {
    2 * n / 3 + 1
}

/// Whether the pending votes finalize the block hash: an existing vote
/// bucket with at least a quorum of approvals.
pub open spec fn spec_finalizable(e: EngineView, h: Seq<u8>) -> bool {
    has_bucket(e.pending, h) && count_approvals(e.pending[bucket_idx(e.pending, h)].votes) >= quorum(
        e.epoch.validators.len() as int,
    )
}

impl ConsensusVote {
    /// Copy of this vote.
    pub fn duplicate(&self) -> (r: ConsensusVote)
        ensures
            r@ == self@,
    {
        let r = ConsensusVote {
            block_hash: self.block_hash.clone(),
            block_height: self.block_height,
            voter: self.voter.duplicate(),
            vote_type: self.vote_type,
            timestamp_ms: self.timestamp_ms,
            signature: self.signature.clone(),
        };
        proof {
            assert(r.block_hash@ =~= self.block_hash@);
            assert(r.signature@ =~= self.signature@);
        }
        r
    }
}

impl ConsensusEngine {
    /// The assigned producer for a height, or `None` while the epoch has
    /// no validators.
    pub fn get_block_producer(&self, block_height: u64) -> (r: Option<&AgentId>)
        ensures
            self@.epoch.validators.len() == 0 ==> r is None,
            self@.epoch.validators.len() > 0 ==> (r matches Some(a) && a@ == spec_producer(
                self@.epoch,
                block_height,
            )),
    {
        let n = self.current_epoch.validators.len();
        if n == 0 {
            return None;
        }
        let idx = (block_height % (n as u64)) as usize;
        proof {
            assert(self@.epoch.validators.len() == n);
            assert(idx as int == block_height as int % n as int);
        }
        Some(&self.current_epoch.validators[idx])
    }

    /// The hash of a header: the SHA-256 digest of its deterministic
    /// byte encoding.
    pub fn calculate_block_hash(&self, header: &BlockHeader) -> (r: Hash)
        ensures
            r@ == spec_header_hash(header@),
            r@.len() == 32,
    {
        let encoded = encode_header(header);
        crate::hashing::hash_message(&encoded)
    }

    /// Validate a proposed block against the epoch schedule, the clock
    /// and the local chain; any failed check yields outright rejection.
    pub fn validate_block(&self, header: &BlockHeader, now_ms: u64) -> (r: bool)
        ensures
            r == spec_validate(self@, header@, now_ms),
    {
        match self.get_block_producer(header.height) {
            Some(expected) => {
                if !header.producer.same_as(expected) {
                    return false;
                }
            },
            None => {
                return false;
            },
        }
        if header.timestamp_ms > now_ms {
            return false;
        }
        let n = self.block_history.len();
        if n > 0 {
            let last = &self.block_history[n - 1];
            proof {
                assert(last@ == self@.history.last());
            }
            if last.height == u64::MAX || header.height != last.height + 1 {
                return false;
            }
            let expected_hash = self.calculate_block_hash(last);
            return crate::strutil::bytes_eq(&header.previous_hash, &expected_hash);
        }
        true
    }

    /// Find the index of the pending-vote bucket for a hash.
    #[verifier::loop_isolation(false)]
    fn find_bucket(&self, block_hash: &Hash) -> (r: Option<usize>)
        requires
            self.wf(),
        ensures
            r is Some ==> (has_bucket(self@.pending, block_hash@) && r.unwrap() == bucket_idx(
                self@.pending,
                block_hash@,
            ) && r.unwrap() < self@.pending.len()),
            r is None ==> !has_bucket(self@.pending, block_hash@),
    {
        let n = self.pending_votes.len();
        let mut i: usize = 0;
        while i < n
            invariant
                i <= n,
                forall|j: int| 0 <= j < i ==> (#[trigger] self@.pending[j]).block_hash != block_hash@,
            decreases n - i,
        {
            let hit = crate::strutil::bytes_eq(&self.pending_votes[i].block_hash, block_hash);
            if hit {
                proof {
                    assert(self@.pending[i as int].block_hash == block_hash@);
                    let c = bucket_idx(self@.pending, block_hash@);
                    assert(0 <= c < self@.pending.len() && self@.pending[c].block_hash == block_hash@);
                    assert(c == i as int) by {
                        if c < i as int {
                            assert(self@.pending[c].block_hash != self@.pending[i as int].block_hash);
                        } else if c > i as int {
                            assert(self@.pending[i as int].block_hash != self@.pending[c].block_hash);
                        }
                    }
                }
                return Some(i);
            }
            i = i + 1;
        }
        proof {
            if has_bucket(self@.pending, block_hash@) {
                let w = choose|w: int| 0 <= w < self@.pending.len() && self@.pending[w].block_hash == block_hash@;
            }
        }
        None
    }

    /// Record a vote: append it to the pending votes for its block hash
    /// (opening a bucket on first sight) and count the vote against the
    /// voter's vote-cast counter.  Fails exactly when the voter is not a
    /// registered validator, leaving the engine unchanged.
    pub fn process_vote(&mut self, vote: ConsensusVote) -> (r: Result<(), ConsensusError>)
        requires
            old(self).wf(),
        ensures
            final(self).wf(),
            !has_validator(old(self)@.validators, vote@.voter) ==> (final(self)@ == old(self)@ && (r matches Err(
                e,
            ) && e@ == (ConsensusErrorView::ValidatorNotFound { agent_id: vote@.voter }))),
            has_validator(old(self)@.validators, vote@.voter) ==> (r is Ok && final(self)@ == (EngineView {
                validators: old(self)@.validators.update(
                    validator_idx(old(self)@.validators, vote@.voter),
                    (ValidatorView {
                        votes_cast: sat_add32(
                            old(self)@.validators[validator_idx(
                                old(self)@.validators,
                                vote@.voter,
                            )].votes_cast,
                            1,
                        ),
                        ..old(self)@.validators[validator_idx(old(self)@.validators, vote@.voter)]
                    }),
                ),
                pending: if has_bucket(old(self)@.pending, vote@.block_hash) {
                    old(self)@.pending.update(
                        bucket_idx(old(self)@.pending, vote@.block_hash),
                        (BucketView {
                            block_hash: vote@.block_hash,
                            votes: old(self)@.pending[bucket_idx(
                                old(self)@.pending,
                                vote@.block_hash,
                            )].votes.push(vote@),
                        }),
                    )
                } else {
                    old(self)@.pending.push((BucketView { block_hash: vote@.block_hash, votes: seq![vote@] }))
                },
                ..old(self)@
            })),
    {
        let ghost pre = self@;
        let vi = match self.find_validator(&vote.voter) {
            Some(vi) => vi,
            None => {
                return Err(ConsensusError::ValidatorNotFound { agent_id: vote.voter.0.clone() });
            },
        };
        match self.find_bucket(&vote.block_hash) {
            Some(i) => {
                let ghost bi = i as int;
                let mut bucket = self.pending_votes.remove(i);
                proof {
                    assert(bucket@.block_hash =~= vote@.block_hash);
                }
                bucket.votes.push(vote);
                let ghost updated = bucket@;
                self.pending_votes.insert(i, bucket);
                proof {
                    assert(updated.votes =~= pre.pending[bi].votes.push(
                        updated.votes[updated.votes.len() - 1],
                    ));
                    assert(self@.pending =~= pre.pending.update(
                        bi,
                        (BucketView {
                            block_hash: pre.pending[bi].block_hash,
                            votes: pre.pending[bi].votes.push(updated.votes[updated.votes.len() - 1]),
                        }),
                    ));
                    assert forall|a: int, b: int| 0 <= a < b < self@.pending.len() implies self@.pending[a].block_hash
                        != self@.pending[b].block_hash by {}
                }
            },
            None => {
                let ghost hb = vote@.block_hash;
                let ghost vv = vote@;
                let hash_copy = vote.block_hash.clone();
                proof {
                    assert(hash_copy@ =~= hb);
                }
                let mut votes: Vec<ConsensusVote> = Vec::new();
                votes.push(vote);
                proof {
                    assert(votes@.map_values(|v: ConsensusVote| v@) =~= seq![vv]);
                }
                self.pending_votes.push(VoteBucket { block_hash: hash_copy, votes });
                proof {
                    assert(self@.pending =~~= pre.pending.push(
                        (BucketView { block_hash: hb, votes: seq![vv] }),
                    ));
                    let fin = self@.pending;
                    assert(fin[fin.len() - 1].block_hash == hb);
                    assert forall|a: int, b: int| 0 <= a < b < fin.len() implies fin[a].block_hash
                        != fin[b].block_hash by {
                        if b == fin.len() - 1 {
                            assert(fin[a] == pre.pending[a]);
                        }
                    }
                }
            },
        }
        // Credit the voter's vote-cast counter.
        let credited = Validator {
            agent_id: self.validators[vi].agent_id.duplicate(),
            stake: self.validators[vi].stake,
            reputation_ppm: self.validators[vi].reputation_ppm,
            blocks_produced: self.validators[vi].blocks_produced,
            consecutive_blocks: self.validators[vi].consecutive_blocks,
            last_block_time_ms: self.validators[vi].last_block_time_ms,
            is_active: self.validators[vi].is_active,
            slashing_events: self.validators[vi].slashing_events,
            votes_cast: self.validators[vi].votes_cast.saturating_add(1),
        };
        self.validators.set(vi, credited);
        proof {
            assert(self@.validators =~= pre.validators.update(
                vi as int,
                (ValidatorView {
                    votes_cast: sat_add32(pre.validators[vi as int].votes_cast, 1),
                    ..pre.validators[vi as int]
                }),
            ));
            assert forall|a: int, b: int| 0 <= a < b < self@.validators.len() implies self@.validators[a].agent_id
                != self@.validators[b].agent_id by {}
            assert forall|w: int| 0 <= w < self@.validators.len() implies (
            #[trigger] self@.validators[w]).reputation_ppm <= PPM by {}
        }
        Ok(())
    }

    /// Whether the pending approvals for a block hash reach the
    /// Byzantine quorum of the current epoch: at least
    /// `floor(2n/3) + 1` approve votes for `n` epoch validators.
    #[verifier::loop_isolation(false)]
    pub fn check_finalization(&self, block_hash: &Hash) -> (r: bool)
        requires
            self.wf(),
        ensures
            r == spec_finalizable(self@, block_hash@),
    {
        match self.find_bucket(block_hash) {
            Some(i) => {
                let votes = &self.pending_votes[i].votes;
                let n = votes.len();
                let ghost vviews = self@.pending[i as int].votes;
                let mut count: u64 = 0;
                let mut k: usize = 0;
                while k < n
                    invariant
                        k <= n,
                        n == votes@.len(),
                        vviews == votes@.map_values(|v: ConsensusVote| v@),
                        count == count_approvals(vviews.take(k as int)),
                        count <= k,
                    decreases n - k,
                {
                    proof {
                        assert(vviews.take(k + 1 as int).drop_last() =~= vviews.take(k as int));
                        assert(vviews.take(k + 1 as int).last() == vviews[k as int]);
                    }
                    if matches!(votes[k].vote_type, VoteType::Approve) {
                        count = count + 1;
                    }
                    k = k + 1;
                }
                proof {
                    assert(vviews.take(n as int) =~= vviews);
                }
                let validators_n = self.current_epoch.validators.len();
                let required: u128 = (validators_n as u128) * 2 / 3 + 1;
                proof {
                    assert(required == quorum(self@.epoch.validators.len() as int));
                }
                (count as u128) >= required
            },
            None => false,
        }
    }
}

/// The validator registry after crediting the producer of a finalized
/// header: one more block produced, the production time recorded, and
/// the consecutive-run counter advanced when the last header in history
/// has the same producer, else restarted at one.  An unregistered
/// producer changes nothing.
pub open spec fn produce_update(vs: Seq<ValidatorView>, h: HeaderView, hist: Seq<HeaderView>) -> Seq<
    ValidatorView,
> {
    if has_validator(vs, h.producer) {
        let i = validator_idx(vs, h.producer);
        let v = vs[i];
        let consec = if hist.len() > 0 && hist.last().producer == h.producer {
            sat_add32(v.consecutive_blocks, 1)
        } else {
            1u32
        };
        vs.update(
            i,
            (ValidatorView {
                blocks_produced: sat_add32(v.blocks_produced, 1),
                consecutive_blocks: consec,
                last_block_time_ms: h.timestamp_ms,
                ..v
            }),
        )
    } else {
        vs
    }
}

/// The registry with every consecutive-run counter cleared, as done on
/// epoch rotation.
pub open spec fn reset_consecutive(vs: Seq<ValidatorView>) -> Seq<ValidatorView> {
    vs.map_values(|v: ValidatorView| (ValidatorView { consecutive_blocks: 0u32, ..v }))
}

/// Block history bounded to the retention limit, oldest dropped.
pub open spec fn trim_history(hist: Seq<HeaderView>) -> Seq<HeaderView> {
    if hist.len() > BLOCK_HISTORY_LIMIT {
        hist.subrange(1, hist.len() as int)
    } else {
        hist
    }
}

/// A validator after one slashing event: the counter moves, the stake is
/// cut by ten percent, and the validator is deactivated if the reduced
/// stake falls below the minimum.
pub open spec fn slashed(v: ValidatorView, min_stake: u64) -> ValidatorView {
    let new_stake = ((v.stake * 9) / 10) as u64;
    ValidatorView {
        slashing_events: sat_add32(v.slashing_events, 1),
        stake: new_stake,
        is_active: if new_stake < min_stake {
            false
        } else {
            v.is_active
        },
        ..v
    }
}

/// Total stake of the registry, as an unbounded integer.
pub open spec fn sum_stake(vs: Seq<ValidatorView>) -> int
    decreases vs.len(),
{
    if vs.len() == 0 {
        0
    } else {
        sum_stake(vs.drop_last()) + vs.last().stake
    }
}

/// Total reputation of the registry, in ppm, as an unbounded integer.
pub open spec fn sum_reputation(vs: Seq<ValidatorView>) -> int
    decreases vs.len(),
{
    if vs.len() == 0 {
        0
    } else {
        sum_reputation(vs.drop_last()) + vs.last().reputation_ppm
    }
}

impl VoteBucket {
    /// Copy of this bucket.
    #[verifier::loop_isolation(false)]
    pub fn duplicate(&self) -> (r: VoteBucket)
        ensures
            r@ == self@,
    {
        let mut votes: Vec<ConsensusVote> = Vec::new();
        let n = self.votes.len();
        let mut i: usize = 0;
        while i < n
            invariant
                i <= n,
                votes@.map_values(|v: ConsensusVote| v@) == self@.votes.take(i as int),
            decreases n - i,
        {
            votes.push(self.votes[i].duplicate());
            proof {
                assert(votes@.map_values(|v: ConsensusVote| v@) =~= self@.votes.take(i + 1 as int));
            }
            i = i + 1;
        }
        let r = VoteBucket { block_hash: self.block_hash.clone(), votes };
        proof {
            assert(self@.votes.take(n as int) =~= self@.votes);
            assert(r.block_hash@ =~= self.block_hash@);
        }
        r
    }
}

impl ConsensusEngine {
    /// Rotate to a new epoch starting at `start_block`: select the
    /// weighted top validators from the current registry, install the
    /// new epoch, and clear every consecutive-run counter.
    #[verifier::loop_isolation(false)]
    fn start_new_epoch(&mut self, start_block: u64)
        requires
            old(self).wf(),
            old(self)@.epoch.number < u32::MAX,
        ensures
            final(self).wf(),
            final(self)@.validators == reset_consecutive(old(self)@.validators),
            final(self)@.epoch.number == old(self)@.epoch.number + 1,
            final(self)@.epoch.start_block == start_block,
            final(self)@.epoch.end_block == crate::gossip::sat_add(
                start_block,
                old(self)@.config.epoch_duration as u64,
            ),
            selection_ok(old(self)@.validators, old(self)@.config, final(self)@.epoch.validators),
            final(self)@.epoch.block_producers == Seq::<(u64, Seq<char>)>::empty(),
            final(self)@ == (EngineView {
                validators: final(self)@.validators,
                epoch: final(self)@.epoch,
                ..old(self)@
            }),
    {
        let ghost pre = self@;
        let new_number = self.current_epoch.number + 1;
        let selected = match self.select_validators_for_epoch(new_number) {
            Ok(v) => v,
            Err(_) => Vec::new(),
        };
        let end_block = start_block.saturating_add(self.config.epoch_duration as u64);
        self.current_epoch = Epoch {
            number: new_number,
            start_block,
            end_block,
            validators: selected,
            block_producers: Vec::new(),
        };
        proof {
            assert(self@.epoch.block_producers =~= Seq::<(u64, Seq<char>)>::empty());
        }
        let ghost mid = self@;
        let n = self.validators.len();
        let mut i: usize = 0;
        while i < n
            invariant
                i <= n,
                n == self.validators.len(),
                self@ == (EngineView { validators: self@.validators, ..mid }),
                self@.validators.len() == pre.validators.len(),
                forall|j: int|
                    0 <= j < i ==> self@.validators[j] == (ValidatorView {
                        consecutive_blocks: 0u32,
                        ..#[trigger] pre.validators[j]
                    }),
                forall|j: int| i <= j < n ==> self@.validators[j] == #[trigger] pre.validators[j],
            decreases n - i,
        {
            let updated = Validator {
                agent_id: self.validators[i].agent_id.duplicate(),
                stake: self.validators[i].stake,
                reputation_ppm: self.validators[i].reputation_ppm,
                blocks_produced: self.validators[i].blocks_produced,
                consecutive_blocks: 0,
                last_block_time_ms: self.validators[i].last_block_time_ms,
                is_active: self.validators[i].is_active,
                slashing_events: self.validators[i].slashing_events,
                votes_cast: self.validators[i].votes_cast,
            };
            self.validators.set(i, updated);
            i = i + 1;
        }
        proof {
            assert(self@.validators =~= reset_consecutive(pre.validators));
            assert forall|a: int, b: int| 0 <= a < b < self@.validators.len() implies self@.validators[a].agent_id
                != self@.validators[b].agent_id by {
                assert(self@.validators[a] == (ValidatorView { consecutive_blocks: 0u32, ..pre.validators[a] }));
                assert(self@.validators[b] == (ValidatorView { consecutive_blocks: 0u32, ..pre.validators[b] }));
            }
            assert forall|a: int| 0 <= a < self@.validators.len() implies (
            #[trigger] self@.validators[a]).reputation_ppm <= PPM by {
                assert(self@.validators[a] == (ValidatorView { consecutive_blocks: 0u32, ..pre.validators[a] }));
            }
        }
    }

    /// Finalize a block: credit its producer, append it to the bounded
    /// history, rotate the epoch when the height boundary is reached
    /// (selection happens before the consecutive-run counters are
    /// cleared), and purge the pending votes for the block's hash.
    /// There is no rollback after this point.
    #[verifier::loop_isolation(false)]
    pub fn finalize_block(&mut self, header: BlockHeader) -> (r: Result<(), ConsensusError>)
        requires
            old(self).wf(),
            old(self)@.epoch.number < u32::MAX,
            old(self)@.history.len() <= BLOCK_HISTORY_LIMIT,
            header@.height < u64::MAX,
        ensures
            final(self).wf(),
            r is Ok,
            ({
                let vs1 = produce_update(old(self)@.validators, header@, old(self)@.history);
                let rotated = header@.height >= old(self)@.epoch.end_block;
                &&& final(self)@.history == trim_history(old(self)@.history.push(header@))
                &&& final(self)@.pending == old(self)@.pending.filter(
                    |b: BucketView| b.block_hash != spec_header_hash(header@),
                )
                &&& final(self)@.config == old(self)@.config
                &&& (!rotated ==> final(self)@.validators == vs1 && final(self)@.epoch == old(self)@.epoch)
                &&& (rotated ==> {
                    let fin = final(self)@;
                    fin.validators == reset_consecutive(vs1) && fin.epoch.number == old(self)@.epoch.number
                        + 1 && fin.epoch.start_block == header@.height + 1 && fin.epoch.end_block
                        == crate::gossip::sat_add(
                        (header@.height + 1) as u64,
                        old(self)@.config.epoch_duration as u64,
                    ) && selection_ok(vs1, old(self)@.config, fin.epoch.validators)
                })
            }),
    {
        let ghost pre = self@;
        let ghost h = header@;
        // Credit the producer.
        match self.find_validator(&header.producer) {
            Some(i) => {
                let consec: u32 = if self.block_history.len() > 0 {
                    let last = &self.block_history[self.block_history.len() - 1];
                    if last.producer.same_as(&header.producer) {
                        self.validators[i].consecutive_blocks.saturating_add(1)
                    } else {
                        1
                    }
                } else {
                    1
                };
                let updated = Validator {
                    agent_id: self.validators[i].agent_id.duplicate(),
                    stake: self.validators[i].stake,
                    reputation_ppm: self.validators[i].reputation_ppm,
                    blocks_produced: self.validators[i].blocks_produced.saturating_add(1),
                    consecutive_blocks: consec,
                    last_block_time_ms: header.timestamp_ms,
                    is_active: self.validators[i].is_active,
                    slashing_events: self.validators[i].slashing_events,
                    votes_cast: self.validators[i].votes_cast,
                };
                self.validators.set(i, updated);
                proof {
                    assert(pre.history.len() > 0 ==> pre.history.last() == old(
                        self,
                    ).block_history@[pre.history.len() - 1]@);
                    assert(self@.validators =~= produce_update(pre.validators, h, pre.history));
                    assert forall|a: int, b: int| 0 <= a < b < self@.validators.len() implies self@.validators[a].agent_id
                        != self@.validators[b].agent_id by {}
                }
            },
            None => {
                proof {
                    assert(self@.validators =~= produce_update(pre.validators, h, pre.history));
                }
            },
        }
        let ghost vs1 = self@.validators;
        // Append to the bounded history.
        self.block_history.push(header.duplicate());
        proof {
            assert(self@.history =~= pre.history.push(h));
        }
        if self.block_history.len() > BLOCK_HISTORY_LIMIT {
            self.block_history.remove(0);
            proof {
                assert(self@.history =~= trim_history(pre.history.push(h)));
            }
        } else {
            proof {
                assert(self@.history =~= trim_history(pre.history.push(h)));
            }
        }
        // Rotate the epoch at the height boundary.
        if header.height >= self.current_epoch.end_block {
            self.start_new_epoch(header.height + 1);
        }
        // Purge the pending votes for this block's hash.
        let ghost pred = |b: BucketView| b.block_hash != spec_header_hash(h);
        let block_hash = self.calculate_block_hash(&header);
        let ghost mid = self@;
        let mut kept: Vec<VoteBucket> = Vec::new();
        let n = self.pending_votes.len();
        let mut i: usize = 0;
        while i < n
            invariant
                i <= n,
                n == self.pending_votes.len(),
                self@ == mid,
                block_hash@ == spec_header_hash(h),
                pre.pending == mid.pending,
                kept@.map_values(|b: VoteBucket| b@) == pre.pending.take(i as int).filter(pred),
            decreases n - i,
        {
            let ghost prefix = pre.pending.take(i as int);
            proof {
                assert(pre.pending.take(i + 1 as int) =~= prefix.push(pre.pending[i as int]));
                crate::gossip::lemma_filter_push(prefix, pred, pre.pending[i as int]);
            }
            if !crate::strutil::bytes_eq(&self.pending_votes[i].block_hash, &block_hash) {
                kept.push(self.pending_votes[i].duplicate());
                proof {
                    assert(kept@.map_values(|b: VoteBucket| b@) =~= prefix.filter(pred).push(
                        pre.pending[i as int],
                    ));
                }
            }
            i = i + 1;
        }
        proof {
            assert(pre.pending.take(n as int) =~= pre.pending);
            crate::gossip::lemma_filter_distinct_by(pre.pending, pred, |b: BucketView| b.block_hash);
        }
        self.pending_votes = kept;
        Ok(())
    }

    /// Slash a validator for misbehavior: count the event, cut the stake
    /// by ten percent, and deactivate the validator if the reduced stake
    /// falls below the minimum.  Fails exactly when the identity is
    /// unknown, leaving the engine unchanged.  The reason is the
    /// caller's record; it does not change the outcome.
    pub fn slash_validator(&mut self, agent_id: &AgentId, reason: &str) -> (r: Result<(), ConsensusError>)
        requires
            old(self).wf(),
        ensures
            final(self).wf(),
            !has_validator(old(self)@.validators, agent_id@) ==> (final(self)@ == old(self)@ && (r matches Err(
                e,
            ) && e@ == (ConsensusErrorView::ValidatorNotFound { agent_id: agent_id@ }))),
            has_validator(old(self)@.validators, agent_id@) ==> (r is Ok && final(self)@ == (EngineView {
                validators: old(self)@.validators.update(
                    validator_idx(old(self)@.validators, agent_id@),
                    slashed(
                        old(self)@.validators[validator_idx(old(self)@.validators, agent_id@)],
                        old(self)@.config.min_validator_stake,
                    ),
                ),
                ..old(self)@
            })),
    {
        let ghost pre = self@;
        match self.find_validator(agent_id) {
            Some(i) => {
                let old_stake = self.validators[i].stake;
                let new_stake: u64 = ((old_stake as u128) * 9 / 10) as u64;
                proof {
                    assert((old_stake as int * 9) / 10 <= old_stake as int) by (nonlinear_arith)
                        requires
                            old_stake >= 0,
                    ;
                    assert(new_stake as int == (pre.validators[i as int].stake * 9) / 10);
                }
                let updated = Validator {
                    agent_id: self.validators[i].agent_id.duplicate(),
                    stake: new_stake,
                    reputation_ppm: self.validators[i].reputation_ppm,
                    blocks_produced: self.validators[i].blocks_produced,
                    consecutive_blocks: self.validators[i].consecutive_blocks,
                    last_block_time_ms: self.validators[i].last_block_time_ms,
                    is_active: if new_stake < self.config.min_validator_stake {
                        false
                    } else {
                        self.validators[i].is_active
                    },
                    slashing_events: self.validators[i].slashing_events.saturating_add(1),
                    votes_cast: self.validators[i].votes_cast,
                };
                self.validators.set(i, updated);
                proof {
                    assert(self@.validators =~= pre.validators.update(
                        i as int,
                        slashed(pre.validators[i as int], pre.config.min_validator_stake),
                    ));
                    assert forall|a: int, b: int| 0 <= a < b < self@.validators.len() implies self@.validators[a].agent_id
                        != self@.validators[b].agent_id by {}
                }
                Ok(())
            },
            None => Err(ConsensusError::ValidatorNotFound { agent_id: agent_id.0.clone() }),
        }
    }

    /// A read-only snapshot of the engine's aggregate counters.
    #[verifier::loop_isolation(false)]
    pub fn get_consensus_stats(&self) -> (r: ConsensusStats)
        requires
            self.wf(),
        ensures
            r.current_epoch == self@.epoch.number,
            r.total_validators == self@.validators.len(),
            r.active_validators == self@.validators.filter(|v: ValidatorView| v.is_active).len(),
            r.total_stake as int == vstd::math::min(sum_stake(self@.validators), u64::MAX as int),
            r.average_reputation_ppm as int == if self@.validators.len() > 0 {
                sum_reputation(self@.validators) / self@.validators.len() as int
            } else {
                0
            },
            r.blocks_finalized == self@.history.len(),
    {
        let ghost vs = self@.validators;
        let ghost pred = |v: ValidatorView| v.is_active;
        let n = self.validators.len();
        let mut total_stake: u64 = 0;
        let mut rep_sum: u128 = 0;
        let mut active: usize = 0;
        let mut i: usize = 0;
        while i < n
            invariant
                i <= n,
                n == vs.len(),
                total_stake as int == vstd::math::min(sum_stake(vs.take(i as int)), u64::MAX as int),
                rep_sum == sum_reputation(vs.take(i as int)),
                rep_sum <= (i as int) * (PPM as int),
                active == vs.take(i as int).filter(pred).len(),
                active <= i,
            decreases n - i,
        {
            let ghost prefix = vs.take(i as int);
            proof {
                assert(vs.take(i + 1 as int).drop_last() =~= prefix);
                assert(vs.take(i + 1 as int).last() == vs[i as int]);
                assert(vs.take(i + 1 as int) =~= prefix.push(vs[i as int]));
                crate::gossip::lemma_filter_push(prefix, pred, vs[i as int]);
                assert((i + 1 as int) * (PPM as int) == i as int * PPM + PPM) by (nonlinear_arith);
            }
            total_stake = total_stake.saturating_add(self.validators[i].stake);
            rep_sum = rep_sum + self.validators[i].reputation_ppm as u128;
            if self.validators[i].is_active {
                active = active + 1;
            }
            i = i + 1;
        }
        proof {
            assert(vs.take(n as int) =~= vs);
        }
        let avg: u64 = if n > 0 {
            proof {
                assert(sum_reputation(vs) >= 0) by {
                    lemma_sum_reputation_nonneg(vs);
                }
                vstd::arithmetic::div_mod::lemma_div_pos_is_pos(sum_reputation(vs), n as int);
                vstd::arithmetic::div_mod::lemma_div_is_ordered(
                    sum_reputation(vs),
                    (n as int) * (PPM as int),
                    n as int,
                );
                assert((n as int) * (PPM as int) / (n as int) == PPM) by (nonlinear_arith)
                    requires
                        n > 0,
                ;
            }
            (rep_sum / (n as u128)) as u64
        } else {
            0
        };
        ConsensusStats {
            current_epoch: self.current_epoch.number,
            total_validators: n,
            active_validators: active,
            total_stake,
            average_reputation_ppm: avg,
            blocks_finalized: self.block_history.len(),
        }
    }
}

/// Weight monotonicity in reputation: increasing a validator's
/// reputation, all else fixed, never decreases its selection weight.
pub proof fn lemma_weight_reputation_monotone(v1: ValidatorView, v2: ValidatorView, c: ConsensusConfig)
    requires
        c.wf(),
        v1.reputation_ppm <= v2.reputation_ppm,
        v2.reputation_ppm <= PPM,
        v2 == (ValidatorView { reputation_ppm: v2.reputation_ppm, ..v1 }),
    ensures
        spec_weight(v1, c) <= spec_weight(v2, c),
{
    if !v1.is_active || v1.stake < c.min_validator_stake {
        lemma_weight_bounds(v2, c);
    } else {
        let rep1 = (v1.reputation_ppm as int) * (c.reputation_weight_ppm as int) / (PPM as int);
        let rep2 = (v2.reputation_ppm as int) * (c.reputation_weight_ppm as int) / (PPM as int);
        let stk = spec_ln_ppm(v1.stake) * (c.stake_weight_ppm as int) / (PPM as int);
        assert((v1.reputation_ppm as int) * (c.reputation_weight_ppm as int) <= (v2.reputation_ppm as int)
            * (c.reputation_weight_ppm as int)) by (nonlinear_arith)
            requires
                v1.reputation_ppm <= v2.reputation_ppm,
                c.reputation_weight_ppm >= 0,
        ;
        vstd::arithmetic::div_mod::lemma_div_is_ordered(
            (v1.reputation_ppm as int) * (c.reputation_weight_ppm as int),
            (v2.reputation_ppm as int) * (c.reputation_weight_ppm as int),
            PPM as int,
        );
        lemma_component_bounds(v1.reputation_ppm as int, c.reputation_weight_ppm as int, PPM as int);
        lemma_ln_ppm_bounds(v1.stake);
        lemma_component_bounds(spec_ln_ppm(v1.stake), c.stake_weight_ppm as int, (LN_MAX_STEPS + 1) * LN2_PPM);
        let base1 = rep1 + stk;
        let base2 = rep2 + stk;
        if v1.consecutive_blocks >= c.max_consecutive_blocks {
            vstd::arithmetic::div_mod::lemma_div_is_ordered(base1, base2, 2);
            assert(base1 / 2 >= 0) by (nonlinear_arith)
                requires
                    base1 >= 0,
            ;
            lemma_decay_monotone(base1 / 2, base2 / 2, v1.slashing_events as nat);
        } else {
            lemma_decay_monotone(base1, base2, v1.slashing_events as nat);
        }
    }
}

/// Weight of an inactive validator, or of one below the stake minimum,
/// is exactly zero.
pub proof fn lemma_weight_zero_below_min(v: ValidatorView, c: ConsensusConfig)
    requires
        !v.is_active || v.stake < c.min_validator_stake,
    ensures
        spec_weight(v, c) == 0,
{
}

/// Height monotonicity: once there is history, `validate_block` rejects
/// any header whose height is not exactly one past the last accepted
/// header, or whose previous-hash does not match the locally computed
/// hash of that header.
pub proof fn lemma_height_monotonicity(e: EngineView, h: HeaderView, now_ms: u64)
    requires
        e.history.len() > 0,
        h.height != e.history.last().height + 1 || h.previous_hash != spec_header_hash(e.history.last()),
    ensures
        !spec_validate(e, h, now_ms),
{
}

/// The reputation total of any registry is nonnegative.
proof fn lemma_sum_reputation_nonneg(vs: Seq<ValidatorView>)
    ensures
        sum_reputation(vs) >= 0,
    decreases vs.len(),
{
    if vs.len() > 0 {
        lemma_sum_reputation_nonneg(vs.drop_last());
    }
}

} // verus!
