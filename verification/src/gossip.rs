//! Epidemic gossip engine: bounded-redundancy message dissemination with
//! duplicate suppression, TTL/hop limits and peer liveness tracking.
//!
//! The engine owns the peer registry, the time-windowed message cache and
//! the outbound queue.  Ingesting a message never blocks: forwarding
//! decisions only append `(peer, message)` pairs to the queue, which a
//! transport collaborator drains with [`GossipProtocol::take_outbound`].
//! Handlers are a data-driven dispatch table: the engine records which
//! message kinds are registered and reports in the handling outcome
//! whether the caller should run its handler, so the callback itself
//! stays outside the engine.
//!
//! Every type has a mathematical view (`@`); all contracts are stated
//! over those views.

use vstd::prelude::*;

use crate::random::new_uuid_string;
use crate::random::sample_distinct;
use crate::strutil::str_eq;
use crate::types::names;

verus! {

/// Ceiling on the hop count of a live message, whatever its TTL.
pub const MAX_HOP_LIMIT: u32 = 10;

/// Window after which an unheard-from peer is marked inactive, in
/// milliseconds.
pub const PEER_LIVENESS_WINDOW_MS: u64 = 300_000;

/// Extra headroom removed beyond the capacity when the cache overflows,
/// so eviction does not run on every insertion.
pub const CACHE_EVICTION_HEADROOM: usize = 100;

/// Saturating addition on `u64`, as used by all statistics counters.
pub open spec fn sat_add(a: u64, b: u64) -> u64 {
    if a + b <= u64::MAX {
        (a + b) as u64
    } else {
        u64::MAX
    }
}

/// Kinds of gossip message.
pub enum GossipMessageType {
    PeerAnnouncement,
    TransactionBroadcast,
    StateUpdate,
    HeartBeat,
    RoutingUpdate,
    ReputationUpdate,
    Custom(String),
}

/// Mathematical view of a message kind, with custom kinds compared by
/// their label.
pub ghost enum KindView {
    PeerAnnouncement,
    TransactionBroadcast,
    StateUpdate,
    HeartBeat,
    RoutingUpdate,
    ReputationUpdate,
    Custom(Seq<char>),
}

impl View for GossipMessageType {
    type V = KindView;

    open spec fn view(&self) -> KindView {
        match self {
            GossipMessageType::PeerAnnouncement => KindView::PeerAnnouncement,
            GossipMessageType::TransactionBroadcast => KindView::TransactionBroadcast,
            GossipMessageType::StateUpdate => KindView::StateUpdate,
            GossipMessageType::HeartBeat => KindView::HeartBeat,
            GossipMessageType::RoutingUpdate => KindView::RoutingUpdate,
            GossipMessageType::ReputationUpdate => KindView::ReputationUpdate,
            GossipMessageType::Custom(s) => KindView::Custom(s@),
        }
    }
}

impl PartialEq for GossipMessageType {
    fn eq(&self, other: &GossipMessageType) -> (r: bool) {
        match (self, other) {
            (GossipMessageType::PeerAnnouncement, GossipMessageType::PeerAnnouncement) => true,
            (GossipMessageType::TransactionBroadcast, GossipMessageType::TransactionBroadcast) => true,
            (GossipMessageType::StateUpdate, GossipMessageType::StateUpdate) => true,
            (GossipMessageType::HeartBeat, GossipMessageType::HeartBeat) => true,
            (GossipMessageType::RoutingUpdate, GossipMessageType::RoutingUpdate) => true,
            (GossipMessageType::ReputationUpdate, GossipMessageType::ReputationUpdate) => true,
            (GossipMessageType::Custom(x), GossipMessageType::Custom(y)) => x.eq(y),
            _ => false,
        }
    }
}

impl Eq for GossipMessageType {}

impl vstd::std_specs::cmp::PartialEqSpecImpl for GossipMessageType {
    open spec fn obeys_eq_spec() -> bool {
        true
    }

    open spec fn eq_spec(&self, other: &GossipMessageType) -> bool {
        self@ == other@
    }
}

impl GossipMessageType {
    /// Copy of this message kind.
    pub fn duplicate(&self) -> (r: GossipMessageType)
        ensures
            r@ == self@,
    {
        match self {
            GossipMessageType::PeerAnnouncement => GossipMessageType::PeerAnnouncement,
            GossipMessageType::TransactionBroadcast => GossipMessageType::TransactionBroadcast,
            GossipMessageType::StateUpdate => GossipMessageType::StateUpdate,
            GossipMessageType::HeartBeat => GossipMessageType::HeartBeat,
            GossipMessageType::RoutingUpdate => GossipMessageType::RoutingUpdate,
            GossipMessageType::ReputationUpdate => GossipMessageType::ReputationUpdate,
            GossipMessageType::Custom(s) => GossipMessageType::Custom(s.clone()),
        }
    }
}

/// A message travelling through the gossip mesh.  The payload is an
/// opaque, already-authenticated byte blob; the routing path lists the
/// nodes that have forwarded the message so far.
pub struct GossipMessage {
    pub id: String,
    pub message_type: GossipMessageType,
    pub sender_id: String,
    pub timestamp_ms: u64,
    pub ttl: u32,
    pub hop_count: u32,
    pub payload: Vec<u8>,
    pub signature: Option<String>,
    pub routing_path: Vec<String>,
}

/// Mathematical view of a gossip message.
pub ghost struct MessageView {
    pub id: Seq<char>,
    pub kind: KindView,
    pub sender_id: Seq<char>,
    pub timestamp_ms: u64,
    pub ttl: u32,
    pub hop_count: u32,
    pub payload: Seq<u8>,
    pub signature: Option<Seq<char>>,
    pub routing_path: Seq<Seq<char>>,
}

impl View for GossipMessage {
    type V = MessageView;

    open spec fn view(&self) -> MessageView {
        MessageView {
            id: self.id@,
            kind: self.message_type@,
            sender_id: self.sender_id@,
            timestamp_ms: self.timestamp_ms,
            ttl: self.ttl,
            hop_count: self.hop_count,
            payload: self.payload@,
            signature: match self.signature {
                Some(s) => Some(s@),
                None => None,
            },
            routing_path: names(self.routing_path@),
        }
    }
}

impl MessageView {
    /// A message is expired once its TTL is exhausted or its hop count
    /// has passed the fixed ceiling.
    pub open spec fn is_expired(&self) -> bool {
        self.ttl == 0 || self.hop_count > MAX_HOP_LIMIT
    }

    /// Whether the message may still move a hop: live, and strictly
    /// below the hop ceiling, so that no forward ever takes the hop
    /// count past `MAX_HOP_LIMIT`.
    pub open spec fn can_forward(&self) -> bool {
        !self.is_expired() && self.hop_count < MAX_HOP_LIMIT
    }

    /// The view of the message after one successful forward by `node`.
    pub open spec fn forwarded_by(&self, node: Seq<char>) -> MessageView {
        MessageView {
            ttl: (self.ttl - 1) as u32,
            hop_count: (self.hop_count + 1) as u32,
            routing_path: self.routing_path.push(node),
            ..*self
        }
    }
}

impl GossipMessage {
    /// Create a fresh message with a random identifier, the given creation
    /// time and the full TTL budget.
    pub fn new(
        message_type: GossipMessageType,
        sender_id: String,
        payload: Vec<u8>,
        ttl: u32,
        now_ms: u64,
    ) -> (r: GossipMessage)
        ensures
            r@.id.len() == 36,
            r@.kind == message_type@,
            r@.sender_id == sender_id@,
            r@.timestamp_ms == now_ms,
            r@.ttl == ttl,
            r@.hop_count == 0,
            r@.payload == payload@,
            r@.signature is None,
            r@.routing_path == Seq::<Seq<char>>::empty(),
            propagation_invariant(r@, ttl),
    {
        let r = GossipMessage {
            id: new_uuid_string(),
            message_type,
            sender_id,
            timestamp_ms: now_ms,
            ttl,
            hop_count: 0,
            payload,
            signature: None,
            routing_path: Vec::new(),
        };
        proof {
            assert(names(r.routing_path@) =~= Seq::<Seq<char>>::empty());
        }
        r
    }

    /// Check whether the message has expired.
    pub fn is_expired(&self) -> (r: bool)
        ensures
            r == self@.is_expired(),
    {
        self.ttl == 0 || self.hop_count > MAX_HOP_LIMIT
    }

    /// Take the message one hop further: consume one unit of TTL, count
    /// the hop and append the forwarding node to the routing path.  The
    /// call succeeds exactly when the message is live and below the hop
    /// ceiling on entry, so the hop count never exceeds the ceiling; a
    /// message that cannot move is left untouched.
    pub fn forward(&mut self, node_id: &str) -> (r: bool)
        ensures
            r == old(self)@.can_forward(),
            !r ==> final(self)@ == old(self)@,
            r ==> final(self)@ == old(self)@.forwarded_by(node_id@),
    {
        if self.is_expired() || self.hop_count >= MAX_HOP_LIMIT {
            return false;
        }
        self.ttl = self.ttl - 1;
        self.hop_count = self.hop_count + 1;
        self.routing_path.push(node_id.to_owned());
        proof {
            assert(names(self.routing_path@) =~= names(old(self).routing_path@).push(node_id@));
        }
        true
    }

    /// Copy of this message.
    pub fn duplicate(&self) -> (r: GossipMessage)
        ensures
            r@ == self@,
    {
        let signature = match &self.signature {
            Some(s) => Some(s.clone()),
            None => None,
        };
        let r = GossipMessage {
            id: self.id.clone(),
            message_type: self.message_type.duplicate(),
            sender_id: self.sender_id.clone(),
            timestamp_ms: self.timestamp_ms,
            ttl: self.ttl,
            hop_count: self.hop_count,
            payload: self.payload.clone(),
            signature,
            routing_path: self.routing_path.clone(),
        };
        proof {
            assert(r.payload@ =~= self.payload@);
            assert(names(r.routing_path@) =~= names(self.routing_path@));
        }
        r
    }
}

/// Configuration of the gossip engine.  Durations are milliseconds.
#[derive(Clone, Copy, PartialEq, Eq, Structural, Debug)]
pub struct GossipConfig {
    /// Number of peers a message is gossiped to per round.
    pub fanout: usize,
    /// Interval between periodic gossip rounds.
    pub gossip_interval_ms: u64,
    /// Default TTL given to freshly created messages.
    pub message_ttl: u32,
    /// Capacity of the duplicate-suppression cache.
    pub max_message_cache: usize,
    /// Age beyond which a cache entry no longer counts for duplicate
    /// detection.
    pub duplicate_window_ms: u64,
    /// Interval between heartbeats.
    pub heartbeat_interval_ms: u64,
    /// Whether the anti-entropy reconciliation protocol is enabled.
    pub enable_anti_entropy: bool,
    /// Whether message compression is enabled.
    pub compression: bool,
}

impl Default for GossipConfig {
    /// The default configuration: fanout 3, a 5 s gossip round, TTL 10,
    /// a 1000-entry cache with a 60 s duplicate window, 30 s heartbeats,
    /// anti-entropy on and compression off.
    fn default() -> (r: GossipConfig)
        ensures
            r == (GossipConfig {
                fanout: 3usize,
                gossip_interval_ms: 5000u64,
                message_ttl: 10u32,
                max_message_cache: 1000usize,
                duplicate_window_ms: 60_000u64,
                heartbeat_interval_ms: 30_000u64,
                enable_anti_entropy: true,
                compression: false,
            }),
    {
        GossipConfig {
            fanout: 3,
            gossip_interval_ms: 5000,
            message_ttl: 10,
            max_message_cache: 1000,
            duplicate_window_ms: 60_000,
            heartbeat_interval_ms: 30_000,
            enable_anti_entropy: true,
            compression: false,
        }
    }
}

/// Counters exposed by the gossip engine; they saturate instead of
/// wrapping.
#[derive(Clone, Copy, PartialEq, Eq, Structural, Debug)]
pub struct GossipStats {
    pub messages_sent: u64,
    pub messages_received: u64,
    pub messages_forwarded: u64,
    pub duplicates_filtered: u64,
    pub expired_messages: u64,
    pub bytes_sent: u64,
    pub bytes_received: u64,
    pub active_peers: usize,
}

impl Default for GossipStats {
    /// All counters start at zero.
    fn default() -> (r: GossipStats)
        ensures
            r == (GossipStats {
                messages_sent: 0u64,
                messages_received: 0u64,
                messages_forwarded: 0u64,
                duplicates_filtered: 0u64,
                expired_messages: 0u64,
                bytes_sent: 0u64,
                bytes_received: 0u64,
                active_peers: 0usize,
            }),
    {
        GossipStats {
            messages_sent: 0,
            messages_received: 0,
            messages_forwarded: 0,
            duplicates_filtered: 0,
            expired_messages: 0,
            bytes_sent: 0,
            bytes_received: 0,
            active_peers: 0,
        }
    }
}

/// Default latency recorded for a freshly added peer, in milliseconds.
pub const DEFAULT_PEER_LATENCY_MS: u64 = 50;

/// A peer of the gossip mesh, with its liveness record.
pub struct GossipPeer {
    pub id: String,
    pub last_seen_ms: u64,
    pub message_count: u64,
    pub is_active: bool,
    pub latency_ms: u64,
}

/// Mathematical view of a gossip peer.
pub ghost struct PeerView {
    pub id: Seq<char>,
    pub last_seen_ms: u64,
    pub message_count: u64,
    pub is_active: bool,
    pub latency_ms: u64,
}

impl View for GossipPeer {
    type V = PeerView;

    open spec fn view(&self) -> PeerView {
        PeerView {
            id: self.id@,
            last_seen_ms: self.last_seen_ms,
            message_count: self.message_count,
            is_active: self.is_active,
            latency_ms: self.latency_ms,
        }
    }
}

impl GossipPeer {
    /// Copy of this peer record.
    pub fn duplicate(&self) -> (r: GossipPeer)
        ensures
            r@ == self@,
    {
        GossipPeer {
            id: self.id.clone(),
            last_seen_ms: self.last_seen_ms,
            message_count: self.message_count,
            is_active: self.is_active,
            latency_ms: self.latency_ms,
        }
    }
}

/// A cached message together with its receipt time and the set of peers
/// it has already been forwarded to.
pub struct CacheEntry {
    pub message: GossipMessage,
    pub received_at_ms: u64,
    pub forwarded_to: Vec<String>,
}

/// Mathematical view of a cache entry.
pub ghost struct EntryView {
    pub message: MessageView,
    pub received_at_ms: u64,
    pub forwarded_to: Seq<Seq<char>>,
}

impl View for CacheEntry {
    type V = EntryView;

    open spec fn view(&self) -> EntryView {
        EntryView {
            message: self.message@,
            received_at_ms: self.received_at_ms,
            forwarded_to: names(self.forwarded_to@),
        }
    }
}

/// Views of a sequence of peer records.
pub open spec fn peer_views(v: Seq<GossipPeer>) -> Seq<PeerView> {
    v.map_values(|p: GossipPeer| p@)
}

/// Views of a sequence of cache entries.
pub open spec fn entry_views(v: Seq<CacheEntry>) -> Seq<EntryView> {
    v.map_values(|e: CacheEntry| e@)
}

/// Views of the outbound queue of `(peer, message)` pairs.
pub open spec fn pair_views(v: Seq<(String, GossipMessage)>) -> Seq<(Seq<char>, MessageView)> {
    v.map_values(|p: (String, GossipMessage)| (p.0@, p.1@))
}

/// Views of the registered-handler table.
pub open spec fn kind_views(v: Seq<GossipMessageType>) -> Seq<KindView> {
    v.map_values(|k: GossipMessageType| k@)
}

/// Whether some peer in the sequence carries the identifier.
pub open spec fn has_peer(peers: Seq<PeerView>, id: Seq<char>) -> bool {
    exists|i: int| 0 <= i < peers.len() && peers[i].id == id
}

/// Whether some peer in the sequence carries the identifier and is
/// currently active.
pub open spec fn has_active_peer(peers: Seq<PeerView>, id: Seq<char>) -> bool {
    exists|i: int| 0 <= i < peers.len() && peers[i].id == id && peers[i].is_active
}

/// Number of active peers in the sequence.
pub open spec fn active_count(peers: Seq<PeerView>) -> int {
    peers.filter(|p: PeerView| p.is_active).len() as int
}

/// Whether the cache holds an entry for the message identifier.
pub open spec fn cache_has(cache: Seq<EntryView>, id: Seq<char>) -> bool {
    exists|i: int| 0 <= i < cache.len() && cache[i].message.id == id
}

/// Pairwise-distinct peer identifiers.
pub open spec fn peers_distinct(peers: Seq<PeerView>) -> bool {
    forall|i: int, j: int| 0 <= i < j < peers.len() ==> peers[i].id != peers[j].id
}

/// Pairwise-distinct cached message identifiers.
pub open spec fn cache_distinct(cache: Seq<EntryView>) -> bool {
    forall|i: int, j: int| 0 <= i < j < cache.len() ==> cache[i].message.id != cache[j].message.id
}

/// Mathematical view of the whole gossip engine state.
pub ghost struct ProtocolView {
    pub node_id: Seq<char>,
    pub config: GossipConfig,
    pub peers: Seq<PeerView>,
    pub cache: Seq<EntryView>,
    pub stats: GossipStats,
    pub handlers: Seq<KindView>,
    pub outbound: Seq<(Seq<char>, MessageView)>,
}

/// The gossip engine.
pub struct GossipProtocol {
    pub node_id: String,
    pub config: GossipConfig,
    pub peers: Vec<GossipPeer>,
    pub message_cache: Vec<CacheEntry>,
    pub stats: GossipStats,
    pub registered_handlers: Vec<GossipMessageType>,
    pub outbound: Vec<(String, GossipMessage)>,
}

impl View for GossipProtocol {
    type V = ProtocolView;

    open spec fn view(&self) -> ProtocolView {
        ProtocolView {
            node_id: self.node_id@,
            config: self.config,
            peers: peer_views(self.peers@),
            cache: entry_views(self.message_cache@),
            stats: self.stats,
            handlers: kind_views(self.registered_handlers@),
            outbound: pair_views(self.outbound@),
        }
    }
}

impl GossipProtocol {
    /// Well-formedness of the engine state: peer identifiers and cached
    /// message identifiers are unique, and no forward-set exceeds the
    /// configured fanout or repeats a target.
    pub open spec fn wf(&self) -> bool {
        &&& peers_distinct(self@.peers)
        &&& cache_distinct(self@.cache)
        &&& forall|i: int| 0 <= i < self@.cache.len() ==> (#[trigger] self@.cache[i]).forwarded_to.no_duplicates()
        &&& forall|i: int| 0 <= i < self@.cache.len() ==> (#[trigger] self@.cache[i]).forwarded_to.len() <= self@.config.fanout
    }

    /// Create an idle engine for the given node with the given
    /// configuration.
    pub fn new(node_id: String, config: GossipConfig) -> (r: GossipProtocol)
        ensures
            r.wf(),
            r@.node_id == node_id@,
            r@.config == config,
            r@.peers == Seq::<PeerView>::empty(),
            r@.cache == Seq::<EntryView>::empty(),
            r@.stats == GossipStats::spec_zero(),
            r@.handlers == Seq::<KindView>::empty(),
            r@.outbound == Seq::<(Seq<char>, MessageView)>::empty(),
    {
        let r = GossipProtocol {
            node_id,
            config,
            peers: Vec::new(),
            message_cache: Vec::new(),
            stats: GossipStats::default(),
            registered_handlers: Vec::new(),
            outbound: Vec::new(),
        };
        proof {
            assert(r@.peers =~= Seq::<PeerView>::empty());
            assert(r@.cache =~= Seq::<EntryView>::empty());
            assert(r@.handlers =~= Seq::<KindView>::empty());
            assert(r@.outbound =~= Seq::<(Seq<char>, MessageView)>::empty());
        }
        r
    }
}

/// Filtering distributes over `push`: the filter of `s.push(v)` is the
/// filter of `s`, with `v` appended when it satisfies the predicate.
pub proof fn lemma_filter_push<A>(s: Seq<A>, pred: spec_fn(A) -> bool, v: A)
    ensures
        s.push(v).filter(pred) == if pred(v) {
            s.filter(pred).push(v)
        } else {
            s.filter(pred)
        },
{
    reveal_with_fuel(Seq::filter, 2);
    assert(s.push(v).drop_last() =~= s);
    assert(s.push(v).last() == v);
}

/// A filter of a sequence whose elements carry pairwise-distinct keys
/// again has pairwise-distinct keys, and every element of the filter
/// occurs in the original sequence.
pub proof fn lemma_filter_distinct_by<A, K>(s: Seq<A>, pred: spec_fn(A) -> bool, key: spec_fn(A) -> K)
    requires
        forall|i: int, j: int| 0 <= i < j < s.len() ==> key(s[i]) != key(s[j]),
    ensures
        forall|i: int, j: int|
            0 <= i < j < s.filter(pred).len() ==> key(#[trigger] s.filter(pred)[i]) != key(#[trigger] s.filter(pred)[j]),
        forall|i: int| 0 <= i < s.filter(pred).len() ==> s.contains(#[trigger] s.filter(pred)[i]),
    decreases s.len(),
{
    reveal_with_fuel(Seq::filter, 2);
    if s.len() == 0 {
    } else {
        let rest = s.drop_last();
        let last = s.last();
        lemma_filter_distinct_by(rest, pred, key);
        assert(rest.push(last) =~= s);
        lemma_filter_push(rest, pred, last);
        assert forall|i: int| 0 <= i < rest.filter(pred).len() implies s.contains(#[trigger] rest.filter(pred)[i]) by {
            assert(rest.contains(rest.filter(pred)[i]));
            let j = choose|j: int| 0 <= j < rest.len() && rest[j] == rest.filter(pred)[i];
            assert(s[j] == rest.filter(pred)[i]);
        }
        if pred(last) {
            let f = rest.filter(pred);
            assert forall|i: int, j: int|
                0 <= i < j < s.filter(pred).len() implies key(#[trigger] s.filter(pred)[i]) != key(
                #[trigger] s.filter(pred)[j],
            ) by {
                if j < f.len() {
                } else {
                    assert(s.filter(pred)[j] == last);
                    assert(s.contains(f[i]));
                    let m = choose|m: int| 0 <= m < s.len() && s[m] == f[i];
                    assert(rest.contains(f[i]));
                    let m2 = choose|m2: int| 0 <= m2 < rest.len() && rest[m2] == f[i];
                    assert(s[m2] == f[i]);
                    assert(key(s[m2]) != key(s[s.len() - 1]));
                }
            }
            assert(s.contains(last)) by {
                assert(s[s.len() - 1] == last);
            }
        }
    }
}

impl GossipProtocol {
    /// Register interest in a message kind: messages of a registered kind
    /// are reported as deliverable to the caller's handler.
    pub fn register_handler(&mut self, message_type: GossipMessageType)
        requires
            old(self).wf(),
        ensures
            final(self).wf(),
            final(self)@ == (ProtocolView {
                handlers: old(self)@.handlers.push(message_type@),
                ..old(self)@
            }),
    {
        let ghost pre = self@;
        self.registered_handlers.push(message_type);
        proof {
            assert(kind_views(self.registered_handlers@) =~= pre.handlers.push(self.registered_handlers@.last()@));
        }
    }

    /// Add `peer_id` to the mesh (replacing any record it already had)
    /// with a fresh liveness record, and refresh the peer counter.
    #[verifier::loop_isolation(false)]
    pub fn add_peer(&mut self, peer_id: String, now_ms: u64)
        requires
            old(self).wf(),
        ensures
            final(self).wf(),
            final(self)@.peers == old(self)@.peers.filter(|p: PeerView| p.id != peer_id@).push(
                PeerView {
                    id: peer_id@,
                    last_seen_ms: now_ms,
                    message_count: 0u64,
                    is_active: true,
                    latency_ms: DEFAULT_PEER_LATENCY_MS,
                },
            ),
            final(self)@.stats == (GossipStats {
                active_peers: final(self)@.peers.len() as usize,
                ..old(self)@.stats
            }),
            final(self)@ == (ProtocolView {
                peers: final(self)@.peers,
                stats: final(self)@.stats,
                ..old(self)@
            }),
            has_active_peer(final(self)@.peers, peer_id@),
    {
        let ghost pre = self@;
        let ghost pred = |p: PeerView| p.id != peer_id@;
        let mut kept: Vec<GossipPeer> = Vec::new();
        let n = self.peers.len();
        let mut i: usize = 0;
        while i < n
            invariant
                n == self.peers.len(),
                i <= n,
                self@.peers == pre.peers,
                peer_views(kept@) == pre.peers.take(i as int).filter(pred),
            decreases n - i,
        {
            let ghost prefix = pre.peers.take(i as int);
            let keep = !self.peers[i].id.eq(&peer_id);
            if keep {
                kept.push(self.peers[i].duplicate());
            }
            proof {
                assert(pre.peers.take(i + 1 as int) =~= prefix.push(pre.peers[i as int]));
                lemma_filter_push(prefix, pred, pre.peers[i as int]);
                if keep {
                    assert(peer_views(kept@) =~= prefix.filter(pred).push(pre.peers[i as int]));
                }
            }
            i = i + 1;
        }
        proof {
            assert(pre.peers.take(n as int) =~= pre.peers);
        }
        let fresh = GossipPeer {
            id: peer_id,
            last_seen_ms: now_ms,
            message_count: 0,
            is_active: true,
            latency_ms: DEFAULT_PEER_LATENCY_MS,
        };
        kept.push(fresh);
        self.peers = kept;
        self.stats.active_peers = self.peers.len();
        proof {
            assert(self@.peers =~= pre.peers.filter(pred).push(
                PeerView {
                    id: peer_id@,
                    last_seen_ms: now_ms,
                    message_count: 0u64,
                    is_active: true,
                    latency_ms: DEFAULT_PEER_LATENCY_MS,
                },
            ));
            lemma_filter_distinct_by(pre.peers, pred, |p: PeerView| p.id);
            broadcast use vstd::seq_lib::group_filter_ensures;

            let fin = self@.peers;
            assert(fin[fin.len() - 1].id == peer_id@);
            assert(peers_distinct(fin)) by {
                assert forall|a: int, b: int| 0 <= a < b < fin.len() implies fin[a].id != fin[b].id by {
                    if b < fin.len() - 1 {
                    } else {
                        assert(pred(pre.peers.filter(pred)[a]));
                    }
                }
            }
            assert(has_active_peer(fin, peer_id@)) by {
                assert(fin[fin.len() - 1].id == peer_id@ && fin[fin.len() - 1].is_active);
            }
        }
    }

    /// Remove `peer_id` from the mesh entirely; a peer that was not
    /// present leaves the state unchanged.
    #[verifier::loop_isolation(false)]
    pub fn remove_peer(&mut self, peer_id: &str)
        requires
            old(self).wf(),
        ensures
            final(self).wf(),
            final(self)@.peers == old(self)@.peers.filter(|p: PeerView| p.id != peer_id@),
            final(self)@.stats == (GossipStats {
                active_peers: if has_peer(old(self)@.peers, peer_id@) {
                    final(self)@.peers.len() as usize
                } else {
                    old(self)@.stats.active_peers
                },
                ..old(self)@.stats
            }),
            final(self)@ == (ProtocolView {
                peers: final(self)@.peers,
                stats: final(self)@.stats,
                ..old(self)@
            }),
            !has_peer(final(self)@.peers, peer_id@),
    {
        let ghost pre = self@;
        let ghost pred = |p: PeerView| p.id != peer_id@;
        let mut kept: Vec<GossipPeer> = Vec::new();
        let mut removed = false;
        let n = self.peers.len();
        let mut i: usize = 0;
        while i < n
            invariant
                n == self.peers.len(),
                i <= n,
                self@.peers == pre.peers,
                peer_views(kept@) == pre.peers.take(i as int).filter(pred),
                removed == has_peer(pre.peers.take(i as int), peer_id@),
            decreases n - i,
        {
            let ghost prefix = pre.peers.take(i as int);
            let keep = !str_eq(self.peers[i].id.as_str(), peer_id);
            if keep {
                kept.push(self.peers[i].duplicate());
            } else {
                removed = true;
            }
            proof {
                assert(pre.peers.take(i + 1 as int) =~= prefix.push(pre.peers[i as int]));
                lemma_filter_push(prefix, pred, pre.peers[i as int]);
                if keep {
                    assert(peer_views(kept@) =~= prefix.filter(pred).push(pre.peers[i as int]));
                }
                let next = pre.peers.take(i + 1 as int);
                if keep {
                    assert(has_peer(next, peer_id@) == has_peer(prefix, peer_id@)) by {
                        if has_peer(next, peer_id@) {
                            let w = choose|w: int| 0 <= w < next.len() && next[w].id == peer_id@;
                            assert(w < prefix.len());
                            assert(prefix[w].id == peer_id@);
                        }
                        if has_peer(prefix, peer_id@) {
                            let w = choose|w: int| 0 <= w < prefix.len() && prefix[w].id == peer_id@;
                            assert(next[w].id == peer_id@);
                        }
                    }
                } else {
                    assert(next[i as int].id == peer_id@);
                    assert(has_peer(next, peer_id@));
                }
            }
            i = i + 1;
        }
        proof {
            assert(pre.peers.take(n as int) =~= pre.peers);
        }
        self.peers = kept;
        if removed {
            self.stats.active_peers = self.peers.len();
        }
        proof {
            lemma_filter_distinct_by(pre.peers, pred, |p: PeerView| p.id);
            broadcast use vstd::seq_lib::group_filter_ensures;

            assert forall|w: int| 0 <= w < self@.peers.len() implies (#[trigger] self@.peers[w]).id != peer_id@ by {
                assert(pred(pre.peers.filter(pred)[w]));
            }
        }
    }

    /// Number of peers currently marked active.
    #[verifier::loop_isolation(false)]
    pub fn get_peer_count(&self) -> (r: usize)
        ensures
            r == active_count(self@.peers),
    {
        let ghost pred = |p: PeerView| p.is_active;
        let mut count: usize = 0;
        let n = self.peers.len();
        let mut i: usize = 0;
        while i < n
            invariant
                n == self.peers.len(),
                i <= n,
                count == self@.peers.take(i as int).filter(pred).len(),
                count <= i,
            decreases n - i,
        {
            let ghost prefix = self@.peers.take(i as int);
            proof {
                assert(self@.peers.take(i + 1 as int) =~= prefix.push(self@.peers[i as int]));
                lemma_filter_push(prefix, pred, self@.peers[i as int]);
            }
            if self.peers[i].is_active {
                count = count + 1;
            }
            i = i + 1;
        }
        proof {
            assert(self@.peers.take(n as int) =~= self@.peers);
        }
        count
    }

    /// Snapshot of the statistics counters.
    pub fn get_stats(&self) -> (r: GossipStats)
        ensures
            r == self@.stats,
    {
        self.stats
    }

    /// Drain the outbound queue: the caller receives every pending
    /// `(peer, message)` pair, in enqueue order, and the queue is left
    /// empty.  A transport collaborator performs the actual sends.
    pub fn take_outbound(&mut self) -> (r: Vec<(String, GossipMessage)>)
        requires
            old(self).wf(),
        ensures
            final(self).wf(),
            pair_views(r@) == old(self)@.outbound,
            final(self)@ == (ProtocolView { outbound: Seq::<(Seq<char>, MessageView)>::empty(), ..old(self)@ }),
    {
        let mut r: Vec<(String, GossipMessage)> = Vec::new();
        core::mem::swap(&mut self.outbound, &mut r);
        proof {
            assert(pair_views(Seq::<(String, GossipMessage)>::empty()) =~= Seq::<(Seq<char>, MessageView)>::empty());
        }
        r
    }
}

/// Cut-off time of the duplicate-detection window: entries received at or
/// before it no longer count.
pub open spec fn window_cutoff(now_ms: u64, window_ms: u64) -> u64 {
    if now_ms >= window_ms {
        (now_ms - window_ms) as u64
    } else {
        0u64
    }
}

/// Whether a peer counts as live at `now_ms`: it has been heard from
/// within the liveness window (a record dated in the future also counts).
pub open spec fn liveness_active(last_seen_ms: u64, now_ms: u64) -> bool {
    now_ms < last_seen_ms + PEER_LIVENESS_WINDOW_MS
}

/// Index of the first entry with the minimal receipt time.
pub open spec fn first_oldest_idx(cache: Seq<EntryView>) -> int
    decreases cache.len(),
{
    if cache.len() <= 1 {
        0
    } else {
        let j = first_oldest_idx(cache.drop_last());
        if cache.last().received_at_ms < cache[j].received_at_ms {
            cache.len() - 1
        } else {
            j
        }
    }
}

/// The index picked by `first_oldest_idx` is in range and is the first
/// position holding the minimum receipt time.
pub proof fn lemma_first_oldest_idx(cache: Seq<EntryView>)
    requires
        cache.len() > 0,
    ensures
        0 <= first_oldest_idx(cache) < cache.len(),
        forall|k: int|
            0 <= k < cache.len() ==> (#[trigger] cache[k]).received_at_ms >= cache[first_oldest_idx(
                cache,
            )].received_at_ms,
    decreases cache.len(),
{
    if cache.len() > 1 {
        let rest = cache.drop_last();
        lemma_first_oldest_idx(rest);
        let j = first_oldest_idx(rest);
        assert forall|k: int| 0 <= k < cache.len() implies (#[trigger] cache[k]).received_at_ms
            >= cache[first_oldest_idx(cache)].received_at_ms by {
            if k < cache.len() - 1 {
                assert(rest[k] == cache[k]);
                assert(rest[k].received_at_ms >= rest[j].received_at_ms);
            }
        }
    }
}

/// Repeatedly drop the first-oldest entry until at most `target` entries
/// remain.
pub open spec fn evict_oldest(cache: Seq<EntryView>, target: int) -> Seq<EntryView>
    decreases cache.len(),
{
    if cache.len() <= target || cache.len() == 0 {
        cache
    } else {
        let j = first_oldest_idx(cache);
        if 0 <= j < cache.len() {
            evict_oldest(cache.remove(j), target)
        } else {
            cache
        }
    }
}

/// Number of entries the eviction pass aims for once the cache has
/// overflowed: the capacity less the headroom.
pub open spec fn eviction_target(max_cache: usize) -> int {
    if max_cache >= CACHE_EVICTION_HEADROOM {
        max_cache - CACHE_EVICTION_HEADROOM
    } else {
        0
    }
}

/// The cache after a full cleanup pass at `now_ms`: entries older than
/// the duplicate window go, and if the rest still overflows the capacity,
/// the oldest entries go next, down to the eviction target.
pub open spec fn spec_cleanup(cache: Seq<EntryView>, config: GossipConfig, now_ms: u64) -> Seq<EntryView> {
    let fresh = cache.filter(
        |e: EntryView| e.received_at_ms > window_cutoff(now_ms, config.duplicate_window_ms),
    );
    if fresh.len() > config.max_message_cache {
        evict_oldest(fresh, eviction_target(config.max_message_cache))
    } else {
        fresh
    }
}

/// The cache after recording a message at `now_ms`: any stale entry with
/// the same identifier is dropped, a fresh entry with an empty
/// forward-set is appended, and an overflowing cache is cleaned up.
pub open spec fn spec_cache_insert(cache: Seq<EntryView>, m: MessageView, now_ms: u64, config: GossipConfig) -> Seq<
    EntryView,
> {
    let pushed = cache.filter(|e: EntryView| e.message.id != m.id).push(
        EntryView { message: m, received_at_ms: now_ms, forwarded_to: Seq::empty() },
    );
    if pushed.len() > config.max_message_cache {
        spec_cleanup(pushed, config, now_ms)
    } else {
        pushed
    }
}

/// Entry-local well-formedness bounds, as required of every cache entry.
pub open spec fn entry_wf(e: EntryView, fanout: usize) -> bool {
    e.forwarded_to.no_duplicates() && e.forwarded_to.len() <= fanout
}

/// Removing one element keeps cached identifiers distinct and keeps
/// every remaining entry's local bounds.
proof fn lemma_remove_keeps_cache_wf(s: Seq<EntryView>, k: int, fanout: usize)
    requires
        0 <= k < s.len(),
        cache_distinct(s),
        forall|i: int| 0 <= i < s.len() ==> entry_wf(#[trigger] s[i], fanout),
    ensures
        cache_distinct(s.remove(k)),
        forall|i: int| 0 <= i < s.remove(k).len() ==> entry_wf(#[trigger] s.remove(k)[i], fanout),
{
    let r = s.remove(k);
    assert forall|i: int| 0 <= i < r.len() implies entry_wf(#[trigger] r[i], fanout) by {
        if i < k {
            assert(r[i] == s[i]);
        } else {
            assert(r[i] == s[i + 1]);
        }
    }
    assert forall|i: int, j: int| 0 <= i < j < r.len() implies r[i].message.id != r[j].message.id by {
        let si: int = if i < k {
            i
        } else {
            i + 1
        };
        let sj: int = if j < k {
            j
        } else {
            j + 1
        };
        assert(r[i] == s[si] && r[j] == s[sj]);
    }
}

/// Eviction keeps cached identifiers distinct and every entry's local
/// bounds, and ends at the target size (or smaller to begin with).
proof fn lemma_evict_oldest_wf(s: Seq<EntryView>, target: int, fanout: usize)
    requires
        target >= 0,
        cache_distinct(s),
        forall|i: int| 0 <= i < s.len() ==> entry_wf(#[trigger] s[i], fanout),
    ensures
        cache_distinct(evict_oldest(s, target)),
        forall|i: int|
            0 <= i < evict_oldest(s, target).len() ==> entry_wf(#[trigger] evict_oldest(s, target)[i], fanout),
        evict_oldest(s, target).len() == if s.len() <= target {
            s.len() as int
        } else {
            target
        },
    decreases s.len(),
{
    if s.len() <= target || s.len() == 0 {
    } else {
        lemma_first_oldest_idx(s);
        lemma_remove_keeps_cache_wf(s, first_oldest_idx(s), fanout);
        lemma_evict_oldest_wf(s.remove(first_oldest_idx(s)), target, fanout);
    }
}

impl GossipProtocol {
    /// Whether the cache currently suppresses this message identifier.
    pub fn is_duplicate(&self, message: &GossipMessage) -> (r: bool)
        ensures
            r == cache_has(self@.cache, message@.id),
    {
        let n = self.message_cache.len();
        let mut i: usize = 0;
        #[verifier::loop_isolation(false)]
        while i < n
            invariant
                i <= n,
                forall|j: int| 0 <= j < i ==> (#[trigger] self@.cache[j]).message.id != message@.id,
            decreases n - i,
        {
            if self.message_cache[i].message.id.eq(&message.id) {
                proof {
                    assert(self@.cache[i as int].message.id == message@.id);
                }
                return true;
            }
            i = i + 1;
        }
        false
    }

    /// Index of the first-oldest cache entry.
    #[verifier::loop_isolation(false)]
    fn find_first_oldest(&self) -> (r: usize)
        requires
            self.message_cache.len() > 0,
        ensures
            r == first_oldest_idx(self@.cache),
    {
        let n = self.message_cache.len();
        let mut best: usize = 0;
        let mut i: usize = 1;
        while i < n
            invariant
                1 <= i <= n,
                n == self.message_cache.len(),
                best == first_oldest_idx(self@.cache.take(i as int)),
                best < i,
            decreases n - i,
        {
            proof {
                assert(self@.cache.take(i + 1 as int).drop_last() =~= self@.cache.take(i as int));
            }
            if self.message_cache[i].received_at_ms < self.message_cache[best].received_at_ms {
                best = i;
            }
            i = i + 1;
        }
        proof {
            assert(self@.cache.take(n as int) =~= self@.cache);
        }
        best
    }

    /// Drop entries older than the duplicate window, then—if the cache
    /// still overflows—its oldest entries, down to the eviction target.
    #[verifier::loop_isolation(false)]
    fn cleanup_cache(&mut self, now_ms: u64)
        requires
            old(self).wf(),
        ensures
            final(self).wf(),
            final(self)@ == (ProtocolView {
                cache: spec_cleanup(old(self)@.cache, old(self)@.config, now_ms),
                ..old(self)@
            }),
    {
        let ghost pre = self@;
        let ghost pred = |e: EntryView| e.received_at_ms > window_cutoff(now_ms, pre.config.duplicate_window_ms);
        let cutoff = if now_ms >= self.config.duplicate_window_ms {
            now_ms - self.config.duplicate_window_ms
        } else {
            0
        };
        let mut kept: Vec<CacheEntry> = Vec::new();
        let n = self.message_cache.len();
        let mut i: usize = 0;
        while i < n
            invariant
                i <= n,
                n == self.message_cache.len(),
                self@.cache == pre.cache,
                cutoff == window_cutoff(now_ms, pre.config.duplicate_window_ms),
                entry_views(kept@) == pre.cache.take(i as int).filter(pred),
            decreases n - i,
        {
            let ghost prefix = pre.cache.take(i as int);
            proof {
                assert(pre.cache.take(i + 1 as int) =~= prefix.push(pre.cache[i as int]));
                lemma_filter_push(prefix, pred, pre.cache[i as int]);
            }
            if self.message_cache[i].received_at_ms > cutoff {
                kept.push(self.message_cache[i].duplicate());
                proof {
                    assert(entry_views(kept@) =~= prefix.filter(pred).push(pre.cache[i as int]));
                }
            }
            i = i + 1;
        }
        proof {
            assert(pre.cache.take(n as int) =~= pre.cache);
            lemma_filter_distinct_by(pre.cache, pred, |e: EntryView| e.message.id);
            broadcast use vstd::seq_lib::group_filter_ensures;

            assert forall|w: int| 0 <= w < pre.cache.filter(pred).len() implies entry_wf(
                #[trigger] pre.cache.filter(pred)[w],
                pre.config.fanout,
            ) by {
                assert(pre.cache.contains(pre.cache.filter(pred)[w]));
                let m = choose|m: int| 0 <= m < pre.cache.len() && pre.cache[m] == pre.cache.filter(pred)[w];
                assert(entry_wf(pre.cache[m], pre.config.fanout));
            }
        }
        self.message_cache = kept;
        let ghost fresh = pre.cache.filter(pred);
        if self.message_cache.len() > self.config.max_message_cache {
            let target: usize = if self.config.max_message_cache >= CACHE_EVICTION_HEADROOM {
                self.config.max_message_cache - CACHE_EVICTION_HEADROOM
            } else {
                0
            };
            while self.message_cache.len() > target
                invariant
                    cache_distinct(self@.cache),
                    forall|w: int|
                        0 <= w < self@.cache.len() ==> entry_wf(#[trigger] self@.cache[w], pre.config.fanout),
                    evict_oldest(self@.cache, target as int) == evict_oldest(fresh, target as int),
                    self@ == (ProtocolView { cache: self@.cache, ..pre }),
                decreases self.message_cache.len(),
            {
                let ghost cur = self@.cache;
                let j = self.find_first_oldest();
                proof {
                    lemma_first_oldest_idx(cur);
                    lemma_remove_keeps_cache_wf(cur, j as int, pre.config.fanout);
                }
                self.message_cache.remove(j);
                proof {
                    assert(self@.cache =~= cur.remove(j as int));
                    assert(evict_oldest(cur, target as int) == evict_oldest(
                        cur.remove(j as int),
                        target as int,
                    ));
                }
            }
            proof {
                lemma_evict_oldest_wf(fresh, target as int, pre.config.fanout);
            }
        }
    }

    /// Record a message in the duplicate-suppression cache at `now_ms`,
    /// cleaning the cache up when it overflows.
    fn cache_message(&mut self, message: GossipMessage, now_ms: u64)
        requires
            old(self).wf(),
        ensures
            final(self).wf(),
            final(self)@ == (ProtocolView {
                cache: spec_cache_insert(old(self)@.cache, message@, now_ms, old(self)@.config),
                ..old(self)@
            }),
            old(self)@.cache.len() < old(self)@.config.max_message_cache ==> cache_has(
                final(self)@.cache,
                message@.id,
            ),
    {
        let ghost pre = self@;
        let ghost m = message@;
        let ghost pred = |e: EntryView| e.message.id != m.id;
        let mut kept: Vec<CacheEntry> = Vec::new();
        let n = self.message_cache.len();
        let mut i: usize = 0;
        #[verifier::loop_isolation(false)]
        while i < n
            invariant
                i <= n,
                n == self.message_cache.len(),
                self@.cache == pre.cache,
                entry_views(kept@) == pre.cache.take(i as int).filter(pred),
            decreases n - i,
        {
            let ghost prefix = pre.cache.take(i as int);
            proof {
                assert(pre.cache.take(i + 1 as int) =~= prefix.push(pre.cache[i as int]));
                lemma_filter_push(prefix, pred, pre.cache[i as int]);
            }
            if !self.message_cache[i].message.id.eq(&message.id) {
                kept.push(self.message_cache[i].duplicate());
                proof {
                    assert(entry_views(kept@) =~= prefix.filter(pred).push(pre.cache[i as int]));
                }
            }
            i = i + 1;
        }
        proof {
            assert(pre.cache.take(n as int) =~= pre.cache);
            lemma_filter_distinct_by(pre.cache, pred, |e: EntryView| e.message.id);
            broadcast use vstd::seq_lib::group_filter_ensures;

            assert forall|w: int| 0 <= w < pre.cache.filter(pred).len() implies entry_wf(
                #[trigger] pre.cache.filter(pred)[w],
                pre.config.fanout,
            ) by {
                assert(pre.cache.contains(pre.cache.filter(pred)[w]));
                let q = choose|q: int| 0 <= q < pre.cache.len() && pre.cache[q] == pre.cache.filter(pred)[w];
                assert(entry_wf(pre.cache[q], pre.config.fanout));
            }
        }
        kept.push(CacheEntry { message, received_at_ms: now_ms, forwarded_to: Vec::new() });
        self.message_cache = kept;
        let ghost pushed = pre.cache.filter(pred).push(
            EntryView { message: m, received_at_ms: now_ms, forwarded_to: Seq::empty() },
        );
        proof {
            assert(names(Seq::<String>::empty()) =~= Seq::<Seq<char>>::empty());
            assert(entry_views(self.message_cache@) =~= pushed);
            assert(pushed[pushed.len() - 1].message.id == m.id);
            assert forall|a: int, b: int| 0 <= a < b < pushed.len() implies pushed[a].message.id
                != pushed[b].message.id by {
                if b < pushed.len() - 1 {
                } else {
                    assert(pred(pre.cache.filter(pred)[a]));
                }
            }
        }
        if self.message_cache.len() > self.config.max_message_cache {
            self.cleanup_cache(now_ms);
            proof {
                if cache_has(self@.cache, m.id) {
                } else {
                    let fresh = pushed.filter(
                        |e: EntryView| e.received_at_ms > window_cutoff(now_ms, pre.config.duplicate_window_ms),
                    );
                    if fresh.len() > pre.config.max_message_cache {
                        lemma_filter_distinct_by(
                            pushed,
                            |e: EntryView| e.received_at_ms > window_cutoff(now_ms, pre.config.duplicate_window_ms),
                            |e: EntryView| e.message.id,
                        );
                        assert forall|w: int| 0 <= w < fresh.len() implies entry_wf(
                            #[trigger] fresh[w],
                            pre.config.fanout,
                        ) by {
                            assert(pushed.contains(fresh[w]));
                            let q = choose|q: int| 0 <= q < pushed.len() && pushed[q] == fresh[w];
                        }
                        lemma_evict_oldest_wf(
                            fresh,
                            eviction_target(pre.config.max_message_cache),
                            pre.config.fanout,
                        );
                    }
                }
            }
        }
    }

    /// Refresh the liveness record of the peer a message arrived from: it
    /// is marked active with the receipt time and one more message
    /// counted.  An unknown sender leaves the registry unchanged.
    #[verifier::loop_isolation(false)]
    fn update_peer_info(&mut self, peer_id: &String, now_ms: u64)
        requires
            old(self).wf(),
        ensures
            final(self).wf(),
            final(self)@ == (ProtocolView {
                peers: touch_peer(old(self)@.peers, peer_id@, now_ms),
                ..old(self)@
            }),
    {
        let ghost pre = self@;
        let n = self.peers.len();
        let mut i: usize = 0;
        while i < n
            invariant
                i <= n,
                self@ == pre,
                n == self.peers.len(),
                forall|j: int| 0 <= j < i ==> (#[trigger] pre.peers[j]).id != peer_id@,
            decreases n - i,
        {
            if self.peers[i].id.eq(peer_id) {
                let updated = GossipPeer {
                    id: self.peers[i].id.clone(),
                    last_seen_ms: now_ms,
                    message_count: self.peers[i].message_count.saturating_add(1),
                    is_active: true,
                    latency_ms: self.peers[i].latency_ms,
                };
                self.peers.set(i, updated);
                proof {
                    assert(pre.peers[i as int].id == peer_id@);
                    assert(has_peer(pre.peers, peer_id@));
                    let c = peer_idx(pre.peers, peer_id@);
                    assert(0 <= c < pre.peers.len() && pre.peers[c].id == peer_id@);
                    assert(c == i as int) by {
                        if c < i as int {
                            assert(pre.peers[c].id != pre.peers[i as int].id);
                        } else if c > i as int {
                            assert(pre.peers[i as int].id != pre.peers[c].id);
                        }
                    }
                    assert(peer_views(self.peers@) =~= touch_peer(pre.peers, peer_id@, now_ms));
                    assert forall|a: int, b: int| 0 <= a < b < self@.peers.len() implies self@.peers[a].id
                        != self@.peers[b].id by {}
                }
                return ;
            }
            i = i + 1;
        }
        proof {
            if has_peer(pre.peers, peer_id@) {
                let w = choose|w: int| 0 <= w < pre.peers.len() && pre.peers[w].id == peer_id@;
            }
            assert(!has_peer(pre.peers, peer_id@));
        }
    }

    /// Mark peers unheard-from for the liveness window inactive (never
    /// deleting them) and purge cache entries older than the duplicate
    /// window.  Run periodically, independent of the request path.
    #[verifier::loop_isolation(false)]
    pub fn run_maintenance(&mut self, now_ms: u64)
        requires
            old(self).wf(),
        ensures
            final(self).wf(),
            final(self)@ == (ProtocolView {
                peers: old(self)@.peers.map_values(
                    |p: PeerView| (PeerView { is_active: liveness_active(p.last_seen_ms, now_ms), ..p }),
                ),
                cache: old(self)@.cache.filter(
                    |e: EntryView| e.received_at_ms > window_cutoff(now_ms, old(self)@.config.duplicate_window_ms),
                ),
                ..old(self)@
            }),
    {
        let ghost pre = self@;
        let ghost refresh = |p: PeerView| (PeerView { is_active: liveness_active(p.last_seen_ms, now_ms), ..p });
        let n = self.peers.len();
        let mut i: usize = 0;
        while i < n
            invariant
                i <= n,
                n == self.peers.len(),
                self@ == (ProtocolView { peers: self@.peers, ..pre }),
                self@.peers.len() == pre.peers.len(),
                forall|j: int| 0 <= j < i ==> self@.peers[j] == refresh(#[trigger] pre.peers[j]),
                forall|j: int| i <= j < n ==> self@.peers[j] == #[trigger] pre.peers[j],
            decreases n - i,
        {
            let ls = self.peers[i].last_seen_ms;
            let live = if ls > u64::MAX - PEER_LIVENESS_WINDOW_MS {
                true
            } else {
                now_ms < ls + PEER_LIVENESS_WINDOW_MS
            };
            let updated = GossipPeer {
                id: self.peers[i].id.clone(),
                last_seen_ms: self.peers[i].last_seen_ms,
                message_count: self.peers[i].message_count,
                is_active: live,
                latency_ms: self.peers[i].latency_ms,
            };
            self.peers.set(i, updated);
            i = i + 1;
        }
        proof {
            assert(self@.peers =~= pre.peers.map_values(refresh));
            assert forall|a: int, b: int| 0 <= a < b < self@.peers.len() implies self@.peers[a].id
                != self@.peers[b].id by {
                assert(self@.peers[a] == refresh(pre.peers[a]));
                assert(self@.peers[b] == refresh(pre.peers[b]));
            }
        }
        let ghost mid = self@;
        let ghost pred = |e: EntryView| e.received_at_ms > window_cutoff(now_ms, pre.config.duplicate_window_ms);
        let cutoff = if now_ms >= self.config.duplicate_window_ms {
            now_ms - self.config.duplicate_window_ms
        } else {
            0
        };
        let mut kept: Vec<CacheEntry> = Vec::new();
        let cn = self.message_cache.len();
        let mut k: usize = 0;
        while k < cn
            invariant
                k <= cn,
                cn == self.message_cache.len(),
                self@ == mid,
                cutoff == window_cutoff(now_ms, pre.config.duplicate_window_ms),
                entry_views(kept@) == pre.cache.take(k as int).filter(pred),
            decreases cn - k,
        {
            let ghost prefix = pre.cache.take(k as int);
            proof {
                assert(pre.cache.take(k + 1 as int) =~= prefix.push(pre.cache[k as int]));
                lemma_filter_push(prefix, pred, pre.cache[k as int]);
            }
            if self.message_cache[k].received_at_ms > cutoff {
                kept.push(self.message_cache[k].duplicate());
                proof {
                    assert(entry_views(kept@) =~= prefix.filter(pred).push(pre.cache[k as int]));
                }
            }
            k = k + 1;
        }
        proof {
            assert(pre.cache.take(cn as int) =~= pre.cache);
            lemma_filter_distinct_by(pre.cache, pred, |e: EntryView| e.message.id);
            broadcast use vstd::seq_lib::group_filter_ensures;

            assert forall|w: int| 0 <= w < pre.cache.filter(pred).len() implies entry_wf(
                #[trigger] pre.cache.filter(pred)[w],
                pre.config.fanout,
            ) by {
                assert(pre.cache.contains(pre.cache.filter(pred)[w]));
                let q = choose|q: int| 0 <= q < pre.cache.len() && pre.cache[q] == pre.cache.filter(pred)[w];
                assert(entry_wf(pre.cache[q], pre.config.fanout));
            }
        }
        self.message_cache = kept;
    }
}

/// Outcome of handling one incoming message: suppressed as a duplicate,
/// dropped as expired, or delivered.  A delivered outcome says whether a
/// handler is registered for the message's kind (the caller then runs
/// it) and whether the message was forwarded on.
#[derive(Clone, Copy, PartialEq, Eq, Structural, Debug)]
pub enum HandleOutcome {
    Duplicate,
    Expired,
    Delivered { handler_registered: bool, forwarded: bool },
}

/// The identifiers of a sequence of peers, in order.
pub open spec fn peer_ids(peers: Seq<PeerView>) -> Seq<Seq<char>> {
    peers.map_values(|p: PeerView| p.id)
}

/// Whether a peer is an admissible forward target for a message: active,
/// not the message's sender, and not already on its routing path.
pub open spec fn forward_eligible(p: PeerView, m: MessageView) -> bool {
    p.is_active && p.id != m.sender_id && !m.routing_path.contains(p.id)
}

/// The forward-eligibility test for a message, as a predicate on peers.
pub open spec fn forward_eligible_pred(m: MessageView) -> spec_fn(PeerView) -> bool {
    |p: PeerView| forward_eligible(p, m)
}

/// Number of admissible forward targets for a message.
pub open spec fn eligible_count(peers: Seq<PeerView>, m: MessageView) -> int {
    peers.filter(forward_eligible_pred(m)).len() as int
}

/// The identifiers of the admissible forward targets for a message, in
/// registry order.
pub open spec fn elig_ids(peers: Seq<PeerView>, m: MessageView) -> Seq<Seq<char>> {
    peer_ids(peers.filter(forward_eligible_pred(m)))
}

/// Every element of a filtered sequence occurs in the original.
pub proof fn lemma_filter_subset<A>(s: Seq<A>, pred: spec_fn(A) -> bool)
    ensures
        forall|i: int| 0 <= i < s.filter(pred).len() ==> s.contains(#[trigger] s.filter(pred)[i]),
    decreases s.len(),
{
    reveal_with_fuel(Seq::filter, 2);
    if s.len() == 0 {
    } else {
        let rest = s.drop_last();
        lemma_filter_subset(rest, pred);
        assert(rest.push(s.last()) =~= s);
        lemma_filter_push(rest, pred, s.last());
        assert forall|i: int| 0 <= i < s.filter(pred).len() implies s.contains(#[trigger] s.filter(pred)[i]) by {
            if i < rest.filter(pred).len() {
                assert(rest.contains(rest.filter(pred)[i]));
                let j = choose|j: int| 0 <= j < rest.len() && rest[j] == rest.filter(pred)[i];
                assert(s[j] == s.filter(pred)[i]);
            } else {
                assert(s.filter(pred)[i] == s.last());
                assert(s[s.len() - 1] == s.last());
            }
        }
    }
}

/// An identifier among the admissible forward targets belongs to some
/// admissible peer of the registry.
pub proof fn lemma_elig_member(peers: Seq<PeerView>, m: MessageView, id: Seq<char>)
    requires
        elig_ids(peers, m).contains(id),
    ensures
        exists|w: int|
            0 <= w < peers.len() && (#[trigger] peers[w]).id == id && forward_eligible(peers[w], m),
{
    let f = peers.filter(forward_eligible_pred(m));
    assert(elig_ids(peers, m) == peer_ids(f));
    assert(peer_ids(f).len() == f.len());
    assert(exists|i: int| 0 <= i < elig_ids(peers, m).len() && elig_ids(peers, m)[i] == id);
    let w = choose|w: int| 0 <= w < elig_ids(peers, m).len() && elig_ids(peers, m)[w] == id;
    assert(0 <= w < f.len());
    assert(elig_ids(peers, m)[w] == f[w].id);
    peers.lemma_filter_pred(forward_eligible_pred(m), w);
    lemma_filter_subset(peers, forward_eligible_pred(m));
    assert(peers.contains(f[w]));
    let v = choose|v: int| 0 <= v < peers.len() && peers[v] == f[w];
    assert(peers[v].id == id && forward_eligible(peers[v], m));
}

/// Index of the peer carrying the identifier (meaningful when present
/// and identifiers are distinct).
pub open spec fn peer_idx(peers: Seq<PeerView>, id: Seq<char>) -> int {
    choose|i: int| 0 <= i < peers.len() && peers[i].id == id
}

/// The registry after refreshing the liveness record of the peer a
/// message arrived from; an unknown sender changes nothing.
pub open spec fn touch_peer(peers: Seq<PeerView>, id: Seq<char>, now_ms: u64) -> Seq<PeerView> {
    if has_peer(peers, id) {
        let i = peer_idx(peers, id);
        peers.update(
            i,
            (PeerView {
                last_seen_ms: now_ms,
                message_count: sat_add(peers[i].message_count, 1),
                is_active: true,
                ..peers[i]
            }),
        )
    } else {
        peers
    }
}

/// Index of the cache entry for the identifier (meaningful when present
/// and identifiers are distinct).
pub open spec fn cache_idx(cache: Seq<EntryView>, id: Seq<char>) -> int {
    choose|i: int| 0 <= i < cache.len() && cache[i].message.id == id
}

/// How many more peers the message may still be forwarded to: the fanout
/// less the recorded forward-set, or the full fanout for an uncached
/// message.
pub open spec fn forward_budget(cache: Seq<EntryView>, id: Seq<char>, fanout: usize) -> int {
    if cache_has(cache, id) {
        fanout - cache[cache_idx(cache, id)].forwarded_to.len()
    } else {
        fanout as int
    }
}

/// The forwarding decision for a message in a given engine state: never
/// the node's own messages, never expired ones, and only while the
/// message's forward budget is not exhausted.
pub open spec fn spec_should_forward(v: ProtocolView, m: MessageView) -> bool {
    &&& m.sender_id != v.node_id
    &&& !m.is_expired()
    &&& (cache_has(v.cache, m.id) ==> v.cache[cache_idx(v.cache, m.id)].forwarded_to.len()
        < v.config.fanout)
}

/// What one gossip round guarantees: the message is cached, the sent
/// counter moves by one, and the outbound queue grows by exactly
/// `min(fanout, active peers)` pairs carrying the message to distinct
/// active peers.  Nothing else changes.
pub open spec fn gossip_post(pre: ProtocolView, post: ProtocolView, m: MessageView, now_ms: u64) -> bool {
    &&& post == (ProtocolView { cache: post.cache, stats: post.stats, outbound: post.outbound, ..pre })
    &&& post.cache == spec_cache_insert(pre.cache, m, now_ms, pre.config)
    &&& post.stats == (GossipStats { messages_sent: sat_add(pre.stats.messages_sent, 1), ..pre.stats })
    &&& post.outbound.len() == pre.outbound.len() + vstd::math::min(
        pre.config.fanout as int,
        active_count(pre.peers),
    )
    &&& forall|i: int| 0 <= i < pre.outbound.len() ==> post.outbound[i] == pre.outbound[i]
    &&& forall|i: int|
        pre.outbound.len() <= i < post.outbound.len() ==> (#[trigger] post.outbound[i]).1 == m
            && has_active_peer(pre.peers, post.outbound[i].0)
    &&& forall|i: int, j: int|
        pre.outbound.len() <= i < j < post.outbound.len() ==> (#[trigger] post.outbound[i]).0 != (
        #[trigger] post.outbound[j]).0
}

/// What forwarding a live message guarantees: the message moves one hop
/// (TTL down, hop count up, this node appended to the path), the queue
/// grows by exactly `min(budget, eligible peers)` pairs carrying the
/// forwarded message to distinct eligible peers, every enqueued target
/// is recorded in the message's forward-set, the forwarded counter moves
/// by one, and no other state changes.
pub open spec fn forward_post(pre: ProtocolView, post: ProtocolView, m: MessageView) -> bool {
    let fwd = m.forwarded_by(pre.node_id);
    &&& post == (ProtocolView { cache: post.cache, stats: post.stats, outbound: post.outbound, ..pre })
    &&& post.stats == (GossipStats {
        messages_forwarded: sat_add(pre.stats.messages_forwarded, 1),
        ..pre.stats
    })
    &&& post.outbound.len() == pre.outbound.len() + vstd::math::min(
        vstd::math::max(forward_budget(pre.cache, m.id, pre.config.fanout), 0),
        eligible_count(pre.peers, fwd),
    )
    &&& forall|i: int| 0 <= i < pre.outbound.len() ==> post.outbound[i] == pre.outbound[i]
    &&& forall|i: int|
        pre.outbound.len() <= i < post.outbound.len() ==> (#[trigger] post.outbound[i]).1 == fwd
            && exists|w: int|
            0 <= w < pre.peers.len() && (#[trigger] pre.peers[w]).id == post.outbound[i].0 && forward_eligible(
                pre.peers[w],
                fwd,
            )
    &&& forall|i: int, j: int|
        pre.outbound.len() <= i < j < post.outbound.len() ==> (#[trigger] post.outbound[i]).0 != (
        #[trigger] post.outbound[j]).0
    &&& post.cache.len() == pre.cache.len()
    &&& forall|i: int|
        0 <= i < pre.cache.len() && (#[trigger] pre.cache[i]).message.id != m.id ==> post.cache[i]
            == pre.cache[i]
    &&& forall|i: int|
        0 <= i < pre.cache.len() && (#[trigger] pre.cache[i]).message.id == m.id ==> (
        post.cache[i].message == pre.cache[i].message && post.cache[i].received_at_ms
            == pre.cache[i].received_at_ms && entry_wf(post.cache[i], pre.config.fanout) && forall|q: int|
            pre.outbound.len() <= q < post.outbound.len() ==> post.cache[i].forwarded_to.contains(
                (#[trigger] post.outbound[q]).0,
            ))
}

/// Everything `handle_incoming_message` does before the forwarding
/// decision on a deliverable message: receipt counters, caching, and the
/// sender's liveness refresh.
pub open spec fn delivered_mid(pre: ProtocolView, m: MessageView, now_ms: u64) -> ProtocolView {
    ProtocolView {
        cache: spec_cache_insert(pre.cache, m, now_ms, pre.config),
        peers: touch_peer(pre.peers, m.sender_id, now_ms),
        stats: (GossipStats {
            messages_received: sat_add(pre.stats.messages_received, 1),
            bytes_received: sat_add(pre.stats.bytes_received, m.payload.len() as u64),
            ..pre.stats
        }),
        ..pre
    }
}

/// Whether the vector holds a string with these contents.
#[verifier::loop_isolation(false)]
fn vec_contains_str(v: &Vec<String>, s: &String) -> (r: bool)
    ensures
        r == names(v@).contains(s@),
{
    let n = v.len();
    let mut i: usize = 0;
    while i < n
        invariant
            i <= n,
            forall|j: int| 0 <= j < i ==> names(v@)[j] != s@,
        decreases n - i,
    {
        if v[i].eq(s) {
            proof {
                assert(names(v@)[i as int] == s@);
            }
            return true;
        }
        i = i + 1;
    }
    proof {
        if names(v@).contains(s@) {
            let w = choose|w: int| 0 <= w < names(v@).len() && names(v@)[w] == s@;
        }
    }
    false
}

impl GossipProtocol {
    /// Whether a handler is registered for the kind.
    fn has_handler(&self, kind: &GossipMessageType) -> (r: bool)
        ensures
            r == self@.handlers.contains(kind@),
    {
        let n = self.registered_handlers.len();
        let mut i: usize = 0;
        #[verifier::loop_isolation(false)]
        while i < n
            invariant
                i <= n,
                forall|j: int| 0 <= j < i ==> self@.handlers[j] != kind@,
            decreases n - i,
        {
            if self.registered_handlers[i].eq(kind) {
                proof {
                    assert(self@.handlers[i as int] == kind@);
                }
                return true;
            }
            i = i + 1;
        }
        proof {
            if self@.handlers.contains(kind@) {
                let w = choose|w: int| 0 <= w < self@.handlers.len() && self@.handlers[w] == kind@;
            }
        }
        false
    }

    /// Select up to `fanout` distinct active peers, uniformly at random,
    /// as initial gossip targets.
    #[verifier::loop_isolation(false)]
    fn select_gossip_targets(&self) -> (r: Vec<String>)
        requires
            self.wf(),
        ensures
            names(r@).no_duplicates(),
            r@.len() == vstd::math::min(self@.config.fanout as int, active_count(self@.peers)),
            forall|i: int| 0 <= i < r@.len() ==> has_active_peer(self@.peers, names(r@)[i]),
    {
        let ghost pred = |p: PeerView| p.is_active;
        let mut eligible: Vec<String> = Vec::new();
        let n = self.peers.len();
        let mut i: usize = 0;
        while i < n
            invariant
                i <= n,
                names(eligible@) == peer_ids(self@.peers.take(i as int).filter(pred)),
            decreases n - i,
        {
            let ghost prefix = self@.peers.take(i as int);
            proof {
                assert(self@.peers.take(i + 1 as int) =~= prefix.push(self@.peers[i as int]));
                lemma_filter_push(prefix, pred, self@.peers[i as int]);
            }
            if self.peers[i].is_active {
                let ghost before = eligible@;
                let pushed = self.peers[i].id.clone();
                proof {
                    assert(pushed@ == self@.peers[i as int].id);
                }
                eligible.push(pushed);
                proof {
                    assert(eligible@ == before.push(pushed));
                    assert(names(eligible@) =~~= names(before).push(pushed@));
                    assert(pred(self@.peers[i as int]));
                    let f = prefix.filter(pred);
                    assert(self@.peers.take(i + 1 as int).filter(pred) == f.push(self@.peers[i as int]));
                    assert(peer_ids(f.push(self@.peers[i as int])) =~~= peer_ids(f).push(
                        self@.peers[i as int].id,
                    ));
                    assert(names(eligible@) =~~= peer_ids(prefix.filter(pred).push(self@.peers[i as int])));
                }
            } else {
                proof {
                    assert(names(eligible@) =~~= peer_ids(self@.peers.take(i + 1 as int).filter(pred)));
                }
            }
            i = i + 1;
        }
        proof {
            assert(self@.peers.take(n as int) =~= self@.peers);
            lemma_filter_distinct_by(self@.peers, pred, |p: PeerView| p.id);
            broadcast use vstd::seq_lib::group_filter_ensures;

            assert(names(eligible@).no_duplicates());
        }
        let count = if self.config.fanout < eligible.len() {
            self.config.fanout
        } else {
            eligible.len()
        };
        let r = sample_distinct(&eligible, count);
        proof {
            assert forall|q: int| 0 <= q < r@.len() implies has_active_peer(self@.peers, names(r@)[q]) by {
                assert(names(eligible@).contains(r@[q]@));
                let w = choose|w: int| 0 <= w < names(eligible@).len() && names(eligible@)[w] == r@[q]@;
                let fp = self@.peers.filter(pred);
                assert(fp[w].id == r@[q]@ && fp[w].is_active);
                assert(self@.peers.contains(fp[w]));
                let v = choose|v: int| 0 <= v < self@.peers.len() && self@.peers[v] == fp[w];
            }
        }
        r
    }

    /// Select up to `budget` distinct forward targets for a message:
    /// active peers other than the sender and everyone already on the
    /// routing path, uniformly at random.
    #[verifier::loop_isolation(false)]
    fn select_forward_targets(&self, message: &GossipMessage, budget: usize) -> (r: Vec<String>)
        requires
            self.wf(),
        ensures
            names(r@).no_duplicates(),
            r@.len() == vstd::math::min(budget as int, eligible_count(self@.peers, message@)),
            forall|i: int| 0 <= i < r@.len() ==> elig_ids(self@.peers, message@).contains(#[trigger] names(r@)[i]),
    {
        let ghost m = message@;
        let ghost pred = forward_eligible_pred(m);
        let mut eligible: Vec<String> = Vec::new();
        let n = self.peers.len();
        let mut i: usize = 0;
        while i < n
            invariant
                i <= n,
                names(eligible@) == peer_ids(self@.peers.take(i as int).filter(pred)),
            decreases n - i,
        {
            let ghost prefix = self@.peers.take(i as int);
            proof {
                assert(self@.peers.take(i + 1 as int) =~= prefix.push(self@.peers[i as int]));
                lemma_filter_push(prefix, pred, self@.peers[i as int]);
            }
            let admissible = self.peers[i].is_active && !str_eq(
                self.peers[i].id.as_str(),
                message.sender_id.as_str(),
            ) && !vec_contains_str(&message.routing_path, &self.peers[i].id);
            if admissible {
                let ghost before = eligible@;
                let pushed = self.peers[i].id.clone();
                proof {
                    assert(pushed@ == self@.peers[i as int].id);
                }
                eligible.push(pushed);
                proof {
                    assert(eligible@ == before.push(pushed));
                    assert(names(eligible@) =~~= names(before).push(pushed@));
                    assert(pred(self@.peers[i as int]));
                    let f = prefix.filter(pred);
                    assert(self@.peers.take(i + 1 as int).filter(pred) == f.push(self@.peers[i as int]));
                    assert(peer_ids(f.push(self@.peers[i as int])) =~~= peer_ids(f).push(
                        self@.peers[i as int].id,
                    ));
                    assert(names(eligible@) =~~= peer_ids(prefix.filter(pred).push(self@.peers[i as int])));
                }
            } else {
                proof {
                    assert(names(eligible@) =~~= peer_ids(self@.peers.take(i + 1 as int).filter(pred)));
                }
            }
            i = i + 1;
        }
        proof {
            assert(self@.peers.take(n as int) =~= self@.peers);
            lemma_filter_distinct_by(self@.peers, pred, |p: PeerView| p.id);
            broadcast use vstd::seq_lib::group_filter_ensures;

            assert(names(eligible@).no_duplicates());
        }
        proof {
            assert(eligible@.len() == self@.peers.filter(pred).len());
            assert(eligible_count(self@.peers, m) == self@.peers.filter(pred).len() as int);
        }
        let count = if budget < eligible.len() {
            budget
        } else {
            eligible.len()
        };
        let r = sample_distinct(&eligible, count);
        proof {
            assert(r@.len() == vstd::math::min(budget as int, eligible_count(self@.peers, m)));
        }
        proof {
            assert(names(eligible@) == elig_ids(self@.peers, m));
            assert forall|i: int| 0 <= i < r@.len() implies elig_ids(self@.peers, message@).contains(
                #[trigger] names(r@)[i],
            ) by {
                assert(names(eligible@).contains(r@[i]@));
                assert(names(r@)[i] == r@[i]@);
            }
        }
        r
    }
}

impl GossipProtocol {
    /// The forwarding decision: never the node's own messages, never
    /// expired ones, and only while the message's forward budget is not
    /// exhausted.
    fn should_forward(&self, message: &GossipMessage) -> (r: bool)
        requires
            self.wf(),
        ensures
            r == spec_should_forward(self@, message@),
    {
        if str_eq(message.sender_id.as_str(), self.node_id.as_str()) {
            return false;
        }
        if message.is_expired() {
            return false;
        }
        let n = self.message_cache.len();
        let mut i: usize = 0;
        #[verifier::loop_isolation(false)]
        while i < n
            invariant
                i <= n,
                forall|j: int| 0 <= j < i ==> (#[trigger] self@.cache[j]).message.id != message@.id,
            decreases n - i,
        {
            if self.message_cache[i].message.id.eq(&message.id) {
                proof {
                    assert(self@.cache[i as int].message.id == message@.id);
                    assert(cache_has(self@.cache, message@.id));
                    let c = cache_idx(self@.cache, message@.id);
                    assert(0 <= c < self@.cache.len() && self@.cache[c].message.id == message@.id);
                    assert(c == i as int) by {
                        if c < i as int {
                            assert(self@.cache[c].message.id != self@.cache[i as int].message.id);
                        } else if c > i as int {
                            assert(self@.cache[i as int].message.id != self@.cache[c].message.id);
                        }
                    }
                }
                return self.message_cache[i].forwarded_to.len() < self.config.fanout;
            }
            i = i + 1;
        }
        proof {
            if cache_has(self@.cache, message@.id) {
                let w = choose|w: int| 0 <= w < self@.cache.len() && self@.cache[w].message.id == message@.id;
            }
            assert(!cache_has(self@.cache, message@.id));
        }
        true
    }

    /// Forward a message that can still move: take it one hop, enqueue
    /// it to up to `fanout` fresh targets (excluding the sender and the
    /// routing path), and record the chosen targets in the message's
    /// cache entry.  A message that is expired or at the hop ceiling
    /// changes nothing.
    #[verifier::loop_isolation(false)]
    fn forward_message(&mut self, message: GossipMessage)
        requires
            old(self).wf(),
        ensures
            final(self).wf(),
            !message@.can_forward() ==> final(self)@ == old(self)@,
            message@.can_forward() ==> forward_post(old(self)@, final(self)@, message@),
    {
        let ghost pre = self@;
        let ghost m0 = message@;
        let mut message = message;
        let ok = message.forward(self.node_id.as_str());
        if !ok {
            return ;
        }
        let ghost fwd = message@;
        proof {
            assert(fwd == m0.forwarded_by(pre.node_id));
        }
        // The remaining forward budget for this message.
        let mut budget = self.config.fanout;
        let mut entry_idx: usize = 0;
        let mut have_entry = false;
        let n = self.message_cache.len();
        let mut i: usize = 0;
        while i < n
            invariant
                i <= n,
                self@ == pre,
                !have_entry ==> forall|j: int| 0 <= j < i ==> (#[trigger] pre.cache[j]).message.id != m0.id,
                have_entry ==> (entry_idx < n && pre.cache[entry_idx as int].message.id == m0.id && budget
                    == pre.config.fanout - pre.cache[entry_idx as int].forwarded_to.len()),
                !have_entry ==> budget == pre.config.fanout,
            decreases n - i,
        {
            if !have_entry && self.message_cache[i].message.id.eq(&message.id) {
                have_entry = true;
                entry_idx = i;
                budget = self.config.fanout - self.message_cache[i].forwarded_to.len();
            }
            i = i + 1;
        }
        proof {
            if have_entry {
                assert(cache_has(pre.cache, m0.id));
                let c = cache_idx(pre.cache, m0.id);
                assert(0 <= c < pre.cache.len() && pre.cache[c].message.id == m0.id);
                assert(c == entry_idx as int) by {
                    if c < entry_idx as int {
                        assert(pre.cache[c].message.id != pre.cache[entry_idx as int].message.id);
                    } else if c > entry_idx as int {
                        assert(pre.cache[entry_idx as int].message.id != pre.cache[c].message.id);
                    }
                }
                assert(budget as int == forward_budget(pre.cache, m0.id, pre.config.fanout));
            } else {
                if cache_has(pre.cache, m0.id) {
                    let w = choose|w: int| 0 <= w < pre.cache.len() && pre.cache[w].message.id == m0.id;
                }
                assert(!cache_has(pre.cache, m0.id));
                assert(budget as int == forward_budget(pre.cache, m0.id, pre.config.fanout));
            }
            assert(budget as int == vstd::math::max(forward_budget(pre.cache, m0.id, pre.config.fanout), 0));
        }
        let targets = self.select_forward_targets(&message, budget);
        let tcount = targets.len();
        let mut k: usize = 0;
        while k < tcount
            invariant
                k <= tcount,
                tcount == targets@.len(),
                self@ == (ProtocolView { outbound: self@.outbound, ..pre }),
                self@.outbound.len() == pre.outbound.len() + k,
                forall|q: int| 0 <= q < pre.outbound.len() ==> self@.outbound[q] == pre.outbound[q],
                forall|q: int|
                    pre.outbound.len() <= q < self@.outbound.len() ==> (#[trigger] self@.outbound[q]).1 == fwd
                        && self@.outbound[q].0 == names(targets@)[q - pre.outbound.len()],
            decreases tcount - k,
        {
            let ghost ob = self@.outbound;
            let t = targets[k].clone();
            self.outbound.push((t, message.duplicate()));
            proof {
                assert(pair_views(self.outbound@) =~= ob.push((names(targets@)[k as int], fwd)));
            }
            k = k + 1;
        }
        proof {
            assert forall|q: int|
                pre.outbound.len() <= q < self@.outbound.len() implies (#[trigger] self@.outbound[q]).1 == fwd
                && exists|w: int|
                0 <= w < pre.peers.len() && (#[trigger] pre.peers[w]).id == self@.outbound[q].0
                    && forward_eligible(pre.peers[w], fwd) by {
                let idx = q - pre.outbound.len();
                assert(self@.outbound[q].0 == names(targets@)[idx]);
                assert(elig_ids(pre.peers, fwd).contains(names(targets@)[idx]));
                lemma_elig_member(pre.peers, fwd, names(targets@)[idx]);
            }
            assert forall|a: int, b: int|
                pre.outbound.len() <= a < b < self@.outbound.len() implies (#[trigger] self@.outbound[a]).0 != (
            #[trigger] self@.outbound[b]).0 by {
                let ia = a - pre.outbound.len();
                let ib = b - pre.outbound.len();
                assert(names(targets@)[ia] != names(targets@)[ib]);
            }
        }
        let ghost qmid = self@;
        if have_entry {
            // Record the newly chosen targets in the entry's forward-set.
            let ghost fw0 = pre.cache[entry_idx as int].forwarded_to;
            let mut fw: Vec<String> = self.message_cache[entry_idx].forwarded_to.clone();
            proof {
                assert(names(fw@) =~= fw0);
            }
            let mut k2: usize = 0;
            while k2 < tcount
                invariant
                    k2 <= tcount,
                    tcount == targets@.len(),
                    self@ == qmid,
                    names(fw@).no_duplicates(),
                    forall|q: int| 0 <= q < fw0.len() ==> names(fw@)[q] == fw0[q],
                    forall|q: int| 0 <= q < k2 ==> names(fw@).contains(#[trigger] names(targets@)[q]),
                    names(fw@).len() <= fw0.len() + k2,
                    names(fw@).len() >= fw0.len(),
                decreases tcount - k2,
            {
                if !vec_contains_str(&fw, &targets[k2]) {
                    let ghost fwb = names(fw@);
                    fw.push(targets[k2].clone());
                    proof {
                        assert(names(fw@) =~= fwb.push(names(targets@)[k2 as int]));
                        assert forall|q: int| 0 <= q < k2 + 1 implies names(fw@).contains(
                            #[trigger] names(targets@)[q],
                        ) by {
                            if q < k2 {
                                let w = choose|w: int| 0 <= w < fwb.len() && fwb[w] == names(targets@)[q];
                                assert(names(fw@)[w] == names(targets@)[q]);
                            } else {
                                assert(names(fw@)[names(fw@).len() - 1] == names(targets@)[q]);
                            }
                        }
                        assert(names(fw@).no_duplicates());
                    }
                } else {
                    proof {
                        assert(names(fw@).contains(names(targets@)[k2 as int]));
                    }
                }
                k2 = k2 + 1;
            }
            let updated = CacheEntry {
                message: self.message_cache[entry_idx].message.duplicate(),
                received_at_ms: self.message_cache[entry_idx].received_at_ms,
                forwarded_to: fw,
            };
            self.message_cache.set(entry_idx, updated);
            proof {
                assert(self@.cache =~= qmid.cache.update(
                    entry_idx as int,
                    (EntryView {
                        message: qmid.cache[entry_idx as int].message,
                        received_at_ms: qmid.cache[entry_idx as int].received_at_ms,
                        forwarded_to: self@.cache[entry_idx as int].forwarded_to,
                    }),
                ));
                assert(names(targets@).len() <= budget);
                assert(self@.cache[entry_idx as int].forwarded_to.len() <= pre.config.fanout);
                assert forall|a: int, b: int| 0 <= a < b < self@.cache.len() implies self@.cache[a].message.id
                    != self@.cache[b].message.id by {}
                assert forall|i2: int|
                    0 <= i2 < pre.cache.len() && (#[trigger] pre.cache[i2]).message.id == m0.id implies (
                self@.cache[i2].message == pre.cache[i2].message && self@.cache[i2].received_at_ms
                    == pre.cache[i2].received_at_ms && entry_wf(self@.cache[i2], pre.config.fanout)
                    && forall|q: int|
                    pre.outbound.len() <= q < self@.outbound.len() ==> self@.cache[i2].forwarded_to.contains(
                        (#[trigger] self@.outbound[q]).0,
                    )) by {
                    assert(i2 == entry_idx as int) by {
                        if i2 < entry_idx as int {
                            assert(pre.cache[i2].message.id != pre.cache[entry_idx as int].message.id);
                        } else if i2 > entry_idx as int {
                            assert(pre.cache[entry_idx as int].message.id != pre.cache[i2].message.id);
                        }
                    }
                    assert forall|q: int|
                        pre.outbound.len() <= q < self@.outbound.len() implies self@.cache[i2].forwarded_to.contains(
                        (#[trigger] self@.outbound[q]).0,
                    ) by {
                        let idx = q - pre.outbound.len();
                        assert(self@.outbound[q].0 == names(targets@)[idx]);
                        assert(names(fw@).contains(names(targets@)[idx]));
                    }
                }
            }
        } else {
            proof {
                assert forall|i2: int|
                    0 <= i2 < pre.cache.len() && (#[trigger] pre.cache[i2]).message.id == m0.id implies false by {
                    assert(cache_has(pre.cache, m0.id));
                }
            }
        }
        self.stats.messages_forwarded = self.stats.messages_forwarded.saturating_add(1);
    }
}

impl GossipProtocol {
    /// Gossip a message: cache it and enqueue it to up to `fanout`
    /// distinct active peers chosen uniformly at random.  The call
    /// returns once the targets are enqueued, not once anything is
    /// delivered.
    #[verifier::loop_isolation(false)]
    pub fn gossip_message(&mut self, message: GossipMessage, now_ms: u64)
        requires
            old(self).wf(),
        ensures
            final(self).wf(),
            gossip_post(old(self)@, final(self)@, message@, now_ms),
    {
        let ghost pre = self@;
        let ghost m = message@;
        self.cache_message(message.duplicate(), now_ms);
        let targets = self.select_gossip_targets();
        let tcount = targets.len();
        let mut k: usize = 0;
        while k < tcount
            invariant
                k <= tcount,
                tcount == targets@.len(),
                self@ == (ProtocolView { cache: self@.cache, outbound: self@.outbound, ..pre }),
                self@.cache == spec_cache_insert(pre.cache, m, now_ms, pre.config),
                self@.outbound.len() == pre.outbound.len() + k,
                forall|q: int| 0 <= q < pre.outbound.len() ==> self@.outbound[q] == pre.outbound[q],
                forall|q: int|
                    pre.outbound.len() <= q < self@.outbound.len() ==> (#[trigger] self@.outbound[q]).1 == m
                        && self@.outbound[q].0 == names(targets@)[q - pre.outbound.len()],
            decreases tcount - k,
        {
            let ghost ob = self@.outbound;
            let t = targets[k].clone();
            self.outbound.push((t, message.duplicate()));
            proof {
                assert(pair_views(self.outbound@) =~= ob.push((names(targets@)[k as int], m)));
            }
            k = k + 1;
        }
        self.stats.messages_sent = self.stats.messages_sent.saturating_add(1);
        proof {
            assert forall|q: int|
                pre.outbound.len() <= q < self@.outbound.len() implies (#[trigger] self@.outbound[q]).1 == m
                && has_active_peer(pre.peers, self@.outbound[q].0) by {
                let idx = q - pre.outbound.len();
                assert(self@.outbound[q].0 == names(targets@)[idx]);
                assert(has_active_peer(pre.peers, names(targets@)[idx]));
            }
            assert forall|a: int, b: int|
                pre.outbound.len() <= a < b < self@.outbound.len() implies (#[trigger] self@.outbound[a]).0 != (
            #[trigger] self@.outbound[b]).0 by {
                let ia = a - pre.outbound.len();
                let ib = b - pre.outbound.len();
                assert(names(targets@)[ia] != names(targets@)[ib]);
            }
        }
    }

    /// Broadcast a fresh message of the given kind and payload to the
    /// mesh: wrap the payload with the configured default TTL, cache it,
    /// and enqueue it to up to `fanout` distinct active peers chosen
    /// uniformly at random.
    pub fn broadcast(&mut self, message_type: GossipMessageType, payload: Vec<u8>, now_ms: u64)
        requires
            old(self).wf(),
        ensures
            final(self).wf(),
            exists|m: MessageView|
                {
                    &&& #[trigger] gossip_post(old(self)@, final(self)@, m, now_ms)
                    &&& m.kind == message_type@
                    &&& m.sender_id == old(self)@.node_id
                    &&& m.timestamp_ms == now_ms
                    &&& m.ttl == old(self)@.config.message_ttl
                    &&& m.hop_count == 0
                    &&& m.payload == payload@
                    &&& m.signature is None
                    &&& m.routing_path == Seq::<Seq<char>>::empty()
                },
    {
        let ttl = self.config.message_ttl;
        let sender = self.node_id.clone();
        let message = GossipMessage::new(message_type, sender, payload, ttl, now_ms);
        let ghost m = message@;
        self.gossip_message(message, now_ms);
        proof {
            assert(gossip_post(old(self)@, self@, m, now_ms));
        }
    }

    /// Ingest one message from the transport: count its receipt, then
    /// suppress a duplicate, drop an expired message, or deliver it —
    /// caching it, refreshing the sender's liveness record, reporting
    /// whether a handler should run, and forwarding it to fresh peers
    /// while its forward budget lasts and it is below the hop ceiling.
    /// Repeated delivery of an already cached message only moves the
    /// duplicate counter.
    pub fn handle_incoming_message(&mut self, message: GossipMessage, now_ms: u64) -> (out: HandleOutcome)
        requires
            old(self).wf(),
        ensures
            final(self).wf(),
            cache_has(old(self)@.cache, message@.id) ==> (out == HandleOutcome::Duplicate && final(self)@
                == (ProtocolView {
                stats: (GossipStats {
                    messages_received: sat_add(old(self)@.stats.messages_received, 1),
                    bytes_received: sat_add(old(self)@.stats.bytes_received, message@.payload.len() as u64),
                    duplicates_filtered: sat_add(old(self)@.stats.duplicates_filtered, 1),
                    ..old(self)@.stats
                }),
                ..old(self)@
            })),
            !cache_has(old(self)@.cache, message@.id) && message@.is_expired() ==> (out
                == HandleOutcome::Expired && final(self)@ == (ProtocolView {
                stats: (GossipStats {
                    messages_received: sat_add(old(self)@.stats.messages_received, 1),
                    bytes_received: sat_add(old(self)@.stats.bytes_received, message@.payload.len() as u64),
                    expired_messages: sat_add(old(self)@.stats.expired_messages, 1),
                    ..old(self)@.stats
                }),
                ..old(self)@
            })),
            !cache_has(old(self)@.cache, message@.id) && !message@.is_expired() ==> (out
                == (HandleOutcome::Delivered {
                handler_registered: old(self)@.handlers.contains(message@.kind),
                forwarded: spec_should_forward(delivered_mid(old(self)@, message@, now_ms), message@)
                    && message@.can_forward(),
            }) && (if spec_should_forward(delivered_mid(old(self)@, message@, now_ms), message@)
                && message@.can_forward() {
                forward_post(delivered_mid(old(self)@, message@, now_ms), final(self)@, message@)
            } else {
                final(self)@ == delivered_mid(old(self)@, message@, now_ms)
            })),
    {
        let ghost pre = self@;
        let ghost m = message@;
        self.stats.messages_received = self.stats.messages_received.saturating_add(1);
        self.stats.bytes_received = self.stats.bytes_received.saturating_add(message.payload.len() as u64);
        if self.is_duplicate(&message) {
            self.stats.duplicates_filtered = self.stats.duplicates_filtered.saturating_add(1);
            return HandleOutcome::Duplicate;
        }
        if message.is_expired() {
            self.stats.expired_messages = self.stats.expired_messages.saturating_add(1);
            return HandleOutcome::Expired;
        }
        let handler_registered = self.has_handler(&message.message_type);
        self.cache_message(message.duplicate(), now_ms);
        self.update_peer_info(&message.sender_id, now_ms);
        proof {
            assert(self@ == delivered_mid(pre, m, now_ms));
        }
        let forwarded = self.should_forward(&message) && message.hop_count < MAX_HOP_LIMIT;
        if forwarded {
            self.forward_message(message);
        }
        HandleOutcome::Delivered { handler_registered, forwarded }
    }
}

impl CacheEntry {
    /// Copy of this cache entry.
    pub fn duplicate(&self) -> (r: CacheEntry)
        ensures
            r@ == self@,
    {
        let r = CacheEntry {
            message: self.message.duplicate(),
            received_at_ms: self.received_at_ms,
            forwarded_to: self.forwarded_to.clone(),
        };
        proof {
            assert(names(r.forwarded_to@) =~= names(self.forwarded_to@));
        }
        r
    }
}

/// The propagation bookkeeping a message created with TTL `t` satisfies:
/// TTL and hop count always sum to `t`, the routing path records one
/// node per successful forward, and the hop count stays within the
/// ceiling.  `GossipMessage::new` establishes it and `forward` is the
/// only mutator.
pub open spec fn propagation_invariant(m: MessageView, t: u32) -> bool {
    m.ttl + m.hop_count == t && m.routing_path.len() == m.hop_count && m.hop_count <= MAX_HOP_LIMIT
}

/// One successful forward preserves the propagation bookkeeping:
/// `GossipMessage::forward` mutates exactly when the message can still
/// move, and then moves one unit from TTL to hop count and appends one
/// node to the routing path.
pub proof fn lemma_propagation_invariant_forward(m: MessageView, t: u32, node: Seq<char>)
    requires
        propagation_invariant(m, t),
        m.can_forward(),
    ensures
        propagation_invariant(m.forwarded_by(node), t),
{
}

/// Bounded propagation: for a message created with TTL `t` (so that the
/// propagation bookkeeping holds), the hop count — which counts the
/// successful forwards — never exceeds `t`, the routing path is never
/// longer than `t`, and the hop count never exceeds `MAX_HOP_LIMIT`,
/// whatever the TTL.  Once TTL or the hop ceiling is exhausted,
/// `forward` fails and leaves the message unchanged, so no further
/// forward can succeed.
pub proof fn lemma_bounded_propagation(m: MessageView, t: u32)
    requires
        propagation_invariant(m, t),
    ensures
        m.hop_count <= t,
        m.routing_path.len() <= t,
        m.hop_count <= MAX_HOP_LIMIT,
{
}

/// Fanout cap: in a well-formed engine state no cached message has been
/// forwarded to more than `fanout` distinct peers, and every engine
/// operation preserves well-formedness.
pub proof fn lemma_fanout_cap(g: GossipProtocol, i: int)
    requires
        g.wf(),
        0 <= i < g@.cache.len(),
    ensures
        g@.cache[i].forwarded_to.len() <= g@.config.fanout,
        g@.cache[i].forwarded_to.no_duplicates(),
{
}

/// An entry that is strictly newer than every other entry survives
/// eviction down to any positive target size: eviction always removes a
/// first-oldest entry, which is never the strictly newest one while any
/// other remains.
proof fn lemma_evict_keeps_newest(s: Seq<EntryView>, target: int, p: int)
    requires
        1 <= target,
        0 <= p < s.len(),
        forall|k: int|
            0 <= k < s.len() && k != p ==> (#[trigger] s[k]).received_at_ms < s[p].received_at_ms,
    ensures
        exists|q: int|
            0 <= q < evict_oldest(s, target).len() && #[trigger] evict_oldest(s, target)[q] == s[p],
    decreases s.len(),
{
    if s.len() <= target {
        assert(evict_oldest(s, target)[p] == s[p]);
    } else {
        lemma_first_oldest_idx(s);
        let j = first_oldest_idx(s);
        assert(j != p) by {
            let k = if p == 0 {
                1int
            } else {
                0int
            };
            assert(s[k].received_at_ms < s[p].received_at_ms);
            assert(s[k].received_at_ms >= s[j].received_at_ms);
        }
        let r = s.remove(j);
        let p2: int = if p < j {
            p
        } else {
            p - 1
        };
        assert(r[p2] == s[p]);
        assert forall|k: int|
            0 <= k < r.len() && k != p2 implies (#[trigger] r[k]).received_at_ms
            < r[p2].received_at_ms by {
            let k0: int = if k < j {
                k
            } else {
                k + 1
            };
            assert(r[k] == s[k0]);
        }
        lemma_evict_keeps_newest(r, target, p2);
        assert(evict_oldest(s, target) == evict_oldest(r, target));
        let q = choose|q: int|
            0 <= q < evict_oldest(r, target).len() && #[trigger] evict_oldest(r, target)[q] == r[p2];
        assert(evict_oldest(s, target)[q] == s[p]);
    }
}

/// Idempotent delivery, caching half: a first delivery of a fresh, live
/// message to `handle_incoming_message` leaves its identifier in the
/// cache — whenever the cache is below capacity, and also on a full
/// cache whenever the duplicate window is open, the capacity exceeds
/// the eviction headroom, and every cached entry was received strictly
/// before `now_ms` (the one input family left out: with a full cache, a
/// delivery sharing its receipt time with old entries can be evicted in
/// their favor).  By the contract of `handle_incoming_message`, a later
/// delivery of a message whose identifier is cached is reported as a
/// duplicate and changes nothing but the receipt and duplicate
/// counters: the handler does not run again and nothing is forwarded.
pub proof fn lemma_delivery_caches(pre: ProtocolView, post: ProtocolView, m: MessageView, now_ms: u64)
    requires
        pre.cache.len() < pre.config.max_message_cache || (pre.config.duplicate_window_ms > 0
            && pre.config.max_message_cache > CACHE_EVICTION_HEADROOM && forall|k: int|
            0 <= k < pre.cache.len() ==> (#[trigger] pre.cache[k]).received_at_ms < now_ms),
        if spec_should_forward(delivered_mid(pre, m, now_ms), m) && m.can_forward() {
            forward_post(delivered_mid(pre, m, now_ms), post, m)
        } else {
            post == delivered_mid(pre, m, now_ms)
        },
    ensures
        cache_has(post.cache, m.id),
{
    broadcast use vstd::seq_lib::group_filter_ensures;

    let mid = delivered_mid(pre, m, now_ms);
    let kept = pre.cache.filter(|e: EntryView| e.message.id != m.id);
    let e = EntryView { message: m, received_at_ms: now_ms, forwarded_to: Seq::empty() };
    let pushed = kept.push(e);
    assert(kept.len() <= pre.cache.len());
    if pushed.len() <= pre.config.max_message_cache {
        assert(mid.cache == pushed);
        assert(pushed[pushed.len() - 1].message.id == m.id);
        assert(cache_has(mid.cache, m.id));
    } else {
        // The cache was full: the insert ran a cleanup.  The window is
        // open, so the fresh entry passes the window filter, and as the
        // strictly newest entry it survives the oldest-first eviction.
        let wpred = |x: EntryView| x.received_at_ms > window_cutoff(now_ms, pre.config.duplicate_window_ms);
        let fresh = pushed.filter(wpred);
        assert(pre.cache.len() >= pre.config.max_message_cache);
        assert(pre.config.duplicate_window_ms > 0);
        assert(pre.cache.len() >= 1);
        assert(pre.cache[0].received_at_ms < now_ms);
        assert(now_ms >= 1);
        assert(wpred(e));
        lemma_filter_push(kept, wpred, e);
        assert(fresh == kept.filter(wpred).push(e));
        let last = fresh.len() - 1;
        assert(fresh[last] == e);
        lemma_filter_subset(kept, wpred);
        lemma_filter_subset(pre.cache, |x: EntryView| x.message.id != m.id);
        assert forall|k: int|
            0 <= k < fresh.len() && k != last implies (#[trigger] fresh[k]).received_at_ms
            < e.received_at_ms by {
            assert(kept.contains(kept.filter(wpred)[k]));
            let w1 = choose|w1: int| 0 <= w1 < kept.len() && kept[w1] == fresh[k];
            assert(pre.cache.contains(kept[w1]));
            let w2 = choose|w2: int| 0 <= w2 < pre.cache.len() && pre.cache[w2] == kept[w1];
        }
        assert(mid.cache == spec_cleanup(pushed, pre.config, now_ms));
        if fresh.len() <= pre.config.max_message_cache {
            assert(mid.cache == fresh);
            assert(cache_has(mid.cache, m.id));
        } else {
            let target = eviction_target(pre.config.max_message_cache);
            assert(target >= 1);
            lemma_evict_keeps_newest(fresh, target, last);
            let q = choose|q: int|
                0 <= q < evict_oldest(fresh, target).len() && #[trigger] evict_oldest(
                    fresh,
                    target,
                )[q] == fresh[last];
            assert(mid.cache[q].message.id == m.id);
            assert(cache_has(mid.cache, m.id));
        }
    }
    if spec_should_forward(mid, m) && m.can_forward() {
        let w = choose|w: int| 0 <= w < mid.cache.len() && mid.cache[w].message.id == m.id;
        assert(post.cache[w].message == mid.cache[w].message);
        assert(cache_has(post.cache, m.id));
    }
}

impl GossipStats {
    /// The all-zero statistics record.
    pub open spec fn spec_zero() -> GossipStats {
        GossipStats {
            messages_sent: 0u64,
            messages_received: 0u64,
            messages_forwarded: 0u64,
            duplicates_filtered: 0u64,
            expired_messages: 0u64,
            bytes_sent: 0u64,
            bytes_received: 0u64,
            active_peers: 0usize,
        }
    }
}

} // verus!
