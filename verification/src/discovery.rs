//! Peer discovery bookkeeping: the membership rules for discovered
//! peers (blacklist, reputation threshold, capacity), connection state
//! and liveness-based cleanup.
//!
//! The enumeration mechanisms themselves (bootstrap, DHT, mDNS) are
//! network collaborators outside this crate; they hand discovered peer
//! records to [`PeerDiscovery::add_peer`].

use vstd::prelude::*;

use crate::strutil::str_eq;
use crate::types::names;

verus! {

/// Kinds of node in the network.
#[derive(Clone, Copy, PartialEq, Eq, Structural, Debug)]
pub enum NodeType {
    Agent,
    Validator,
    Relay,
    Bootstrap,
    Client,
}

/// How a peer was discovered.
#[derive(Clone, Copy, PartialEq, Eq, Structural, Debug)]
pub enum DiscoveryMethod {
    Bootstrap,
    DHT,
    Gossip,
    Manual,
    MDNS,
    DNS,
}

/// Counters of the discovery service.
#[derive(Clone, Copy, PartialEq, Eq, Structural, Debug)]
pub struct DiscoveryStats {
    pub total_discovered: u64,
    pub active_peers: usize,
    pub bootstrap_attempts: u64,
    pub dht_queries: u64,
    pub gossip_messages: u64,
    pub failed_connections: u64,
    pub peer_disconnections: u64,
}

impl Default for DiscoveryStats {
    /// All counters start at zero.
    fn default() -> (r: DiscoveryStats)
        ensures
            r == (DiscoveryStats {
                total_discovered: 0u64,
                active_peers: 0usize,
                bootstrap_attempts: 0u64,
                dht_queries: 0u64,
                gossip_messages: 0u64,
                failed_connections: 0u64,
                peer_disconnections: 0u64,
            }),
    {
        DiscoveryStats {
            total_discovered: 0,
            active_peers: 0,
            bootstrap_attempts: 0,
            dht_queries: 0,
            gossip_messages: 0,
            failed_connections: 0,
            peer_disconnections: 0,
        }
    }
}

/// Configuration of the discovery service.  Durations are milliseconds
/// and the reputation threshold is in ppm.
pub struct DiscoveryConfig {
    pub bootstrap_nodes: Vec<String>,
    pub max_peers: usize,
    pub discovery_interval_ms: u64,
    pub peer_timeout_ms: u64,
    pub enable_dht: bool,
    pub enable_gossip: bool,
    pub enable_mdns: bool,
    pub reputation_threshold_ppm: u32,
}

/// A discovered peer.
pub struct PeerInfo {
    pub id: String,
    pub address: String,
    pub public_key: String,
    pub capabilities: Vec<String>,
    pub reputation_ppm: u32,
    pub last_seen_ms: u64,
    pub protocol_version: String,
    pub node_type: NodeType,
}

/// Mathematical view of a discovered peer.
pub ghost struct PeerInfoView {
    pub id: Seq<char>,
    pub address: Seq<char>,
    pub public_key: Seq<char>,
    pub capabilities: Seq<Seq<char>>,
    pub reputation_ppm: u32,
    pub last_seen_ms: u64,
    pub protocol_version: Seq<char>,
    pub node_type: NodeType,
}

impl View for PeerInfo {
    type V = PeerInfoView;

    open spec fn view(&self) -> PeerInfoView {
        PeerInfoView {
            id: self.id@,
            address: self.address@,
            public_key: self.public_key@,
            capabilities: names(self.capabilities@),
            reputation_ppm: self.reputation_ppm,
            last_seen_ms: self.last_seen_ms,
            protocol_version: self.protocol_version@,
            node_type: self.node_type,
        }
    }
}

impl PeerInfo {
    /// Copy of this record.
    pub fn duplicate(&self) -> (r: PeerInfo)
        ensures
            r@ == self@,
    {
        let r = PeerInfo {
            id: self.id.clone(),
            address: self.address.clone(),
            public_key: self.public_key.clone(),
            capabilities: self.capabilities.clone(),
            reputation_ppm: self.reputation_ppm,
            last_seen_ms: self.last_seen_ms,
            protocol_version: self.protocol_version.clone(),
            node_type: self.node_type,
        };
        proof {
            assert(names(r.capabilities@) =~= names(self.capabilities@));
        }
        r
    }
}

/// Views of a list of discovered peers.
pub open spec fn info_views(v: Seq<PeerInfo>) -> Seq<PeerInfoView> {
    v.map_values(|p: PeerInfo| p@)
}

/// The identifiers of a list of discovered peers, in order.
pub open spec fn info_ids(ps: Seq<PeerInfoView>) -> Seq<Seq<char>> {
    ps.map_values(|p: PeerInfoView| p.id)
}

/// Whether some record in the list carries the identifier.
pub open spec fn known_has(ps: Seq<PeerInfoView>, id: Seq<char>) -> bool {
    exists|i: int| 0 <= i < ps.len() && ps[i].id == id
}

/// The peer discovery service: known peers, connection state, and the
/// blacklist.
pub struct PeerDiscovery {
    pub config: DiscoveryConfig,
    pub known_peers: Vec<PeerInfo>,
    pub connected_peers: Vec<String>,
    pub blacklisted_peers: Vec<String>,
    pub stats: DiscoveryStats,
}

impl PeerDiscovery {
    /// Known-peer identifiers are unique.
    pub open spec fn wf(&self) -> bool {
        forall|i: int, j: int|
            0 <= i < j < info_views(self.known_peers@).len() ==> info_views(self.known_peers@)[i].id
                != info_views(self.known_peers@)[j].id
    }

    /// Create an idle service with the given configuration.
    pub fn new(config: DiscoveryConfig) -> (r: PeerDiscovery)
        ensures
            r.wf(),
            r.known_peers@.len() == 0,
            r.connected_peers@.len() == 0,
            r.blacklisted_peers@.len() == 0,
            r.stats == DiscoveryStats::spec_zero(),
            r.config == config,
    {
        PeerDiscovery {
            config,
            known_peers: Vec::new(),
            connected_peers: Vec::new(),
            blacklisted_peers: Vec::new(),
            stats: DiscoveryStats::default(),
        }
    }

    /// Whether the membership rules admit this peer: not blacklisted,
    /// reputable enough, and room left in the registry.
    pub open spec fn spec_admits(&self, p: PeerInfoView) -> bool {
        &&& !names(self.blacklisted_peers@).contains(p.id)
        &&& p.reputation_ppm >= self.config.reputation_threshold_ppm
        &&& self.known_peers@.len() < self.config.max_peers
    }

    /// Record a discovered peer.  A blacklisted, under-reputed peer, or
    /// one arriving at a full registry, is ignored; an admitted peer
    /// replaces any record under the same identifier, and a first-seen
    /// identifier moves the discovery counter.  The discovery method is
    /// the caller's record; it does not change the outcome.
    #[verifier::loop_isolation(false)]
    pub fn add_peer(&mut self, peer: PeerInfo, method: DiscoveryMethod)
        requires
            old(self).wf(),
        ensures
            final(self).wf(),
            !old(self).spec_admits(peer@) ==> *final(self) == *old(self),
            old(self).spec_admits(peer@) ==> (info_views(final(self).known_peers@) == info_views(
                old(self).known_peers@,
            ).filter(|p: PeerInfoView| p.id != peer@.id).push(peer@) && final(self).stats == (DiscoveryStats {
                total_discovered: if known_has(info_views(old(self).known_peers@), peer@.id) {
                    old(self).stats.total_discovered
                } else {
                    crate::gossip::sat_add(old(self).stats.total_discovered, 1)
                },
                ..old(self).stats
            }) && final(self).connected_peers == old(self).connected_peers
                && final(self).blacklisted_peers == old(self).blacklisted_peers),
    {
        let ghost pre = info_views(self.known_peers@);
        if vec_has_str(&self.blacklisted_peers, self.peer_id_of(&peer)) {
            return ;
        }
        if peer.reputation_ppm < self.config.reputation_threshold_ppm {
            return ;
        }
        if self.known_peers.len() >= self.config.max_peers {
            return ;
        }
        let ghost pred = |p: PeerInfoView| p.id != peer@.id;
        let mut kept: Vec<PeerInfo> = Vec::new();
        let mut was_known = false;
        let n = self.known_peers.len();
        let mut i: usize = 0;
        while i < n
            invariant
                i <= n,
                n == self.known_peers@.len(),
                info_views(self.known_peers@) == pre,
                info_views(kept@) == pre.take(i as int).filter(pred),
                was_known == known_has(pre.take(i as int), peer@.id),
            decreases n - i,
        {
            let ghost prefix = pre.take(i as int);
            let ghost next = pre.take(i + 1 as int);
            proof {
                assert(next =~= prefix.push(pre[i as int]));
                crate::gossip::lemma_filter_push(prefix, pred, pre[i as int]);
            }
            if !self.known_peers[i].id.eq(&peer.id) {
                kept.push(self.known_peers[i].duplicate());
                proof {
                    assert(info_views(kept@) =~= prefix.filter(pred).push(pre[i as int]));
                    if known_has(next, peer@.id) && !known_has(prefix, peer@.id) {
                        assert(next[i as int].id == peer@.id);
                        assert(false);
                    }
                    if known_has(prefix, peer@.id) {
                        let w = choose|w: int| 0 <= w < prefix.len() && prefix[w].id == peer@.id;
                        assert(next[w].id == peer@.id);
                    }
                }
            } else {
                was_known = true;
                proof {
                    assert(next[i as int].id == peer@.id);
                    assert(known_has(next, peer@.id));
                }
            }
            i = i + 1;
        }
        proof {
            assert(pre.take(n as int) =~= pre);
            crate::gossip::lemma_filter_distinct_by(pre, pred, |p: PeerInfoView| p.id);
            broadcast use vstd::seq_lib::group_filter_ensures;

        }
        if !was_known {
            self.stats.total_discovered = self.stats.total_discovered.saturating_add(1);
        }
        kept.push(peer);
        self.known_peers = kept;
        proof {
            let fin = info_views(self.known_peers@);
            assert(fin =~= pre.filter(pred).push(fin[fin.len() - 1]));
            assert forall|a: int, b: int| 0 <= a < b < fin.len() implies fin[a].id != fin[b].id by {
                if b < fin.len() - 1 {
                } else {
                    assert(pred(pre.filter(pred)[a]));
                }
            }
        }
    }

    /// Borrow a peer's identifier (helper around the borrow checker).
    fn peer_id_of<'a>(&self, peer: &'a PeerInfo) -> (r: &'a String)
        ensures
            r@ == peer@.id,
    {
        &peer.id
    }

    /// Remove a peer entirely and drop its connection; removing an
    /// unknown identifier changes nothing.
    #[verifier::loop_isolation(false)]
    pub fn remove_peer(&mut self, peer_id: &str)
        requires
            old(self).wf(),
        ensures
            final(self).wf(),
            info_views(final(self).known_peers@) == info_views(old(self).known_peers@).filter(
                |p: PeerInfoView| p.id != peer_id@,
            ),
            names(final(self).connected_peers@) == (if known_has(
                info_views(old(self).known_peers@),
                peer_id@,
            ) {
                names(old(self).connected_peers@).filter(|s: Seq<char>| s != peer_id@)
            } else {
                names(old(self).connected_peers@)
            }),
            final(self).stats == (DiscoveryStats {
                peer_disconnections: if known_has(info_views(old(self).known_peers@), peer_id@) {
                    crate::gossip::sat_add(old(self).stats.peer_disconnections, 1)
                } else {
                    old(self).stats.peer_disconnections
                },
                ..old(self).stats
            }),
            final(self).blacklisted_peers == old(self).blacklisted_peers,
            final(self).config == old(self).config,
    {
        let ghost pre = info_views(self.known_peers@);
        let ghost pred = |p: PeerInfoView| p.id != peer_id@;
        let mut kept: Vec<PeerInfo> = Vec::new();
        let mut removed = false;
        let n = self.known_peers.len();
        let mut i: usize = 0;
        while i < n
            invariant
                i <= n,
                n == self.known_peers@.len(),
                info_views(self.known_peers@) == pre,
                info_views(kept@) == pre.take(i as int).filter(pred),
                removed == known_has(pre.take(i as int), peer_id@),
            decreases n - i,
        {
            let ghost prefix = pre.take(i as int);
            let ghost next = pre.take(i + 1 as int);
            proof {
                assert(next =~= prefix.push(pre[i as int]));
                crate::gossip::lemma_filter_push(prefix, pred, pre[i as int]);
            }
            if !str_eq(self.known_peers[i].id.as_str(), peer_id) {
                kept.push(self.known_peers[i].duplicate());
                proof {
                    assert(info_views(kept@) =~= prefix.filter(pred).push(pre[i as int]));
                    if known_has(next, peer_id@) && !known_has(prefix, peer_id@) {
                        assert(next[i as int].id == peer_id@);
                        assert(false);
                    }
                    if known_has(prefix, peer_id@) {
                        let w = choose|w: int| 0 <= w < prefix.len() && prefix[w].id == peer_id@;
                        assert(next[w].id == peer_id@);
                    }
                }
            } else {
                removed = true;
                proof {
                    assert(next[i as int].id == peer_id@);
                    assert(known_has(next, peer_id@));
                }
            }
            i = i + 1;
        }
        proof {
            assert(pre.take(n as int) =~= pre);
            crate::gossip::lemma_filter_distinct_by(pre, pred, |p: PeerInfoView| p.id);
            broadcast use vstd::seq_lib::group_filter_ensures;

        }
        self.known_peers = kept;
        if removed {
            let ghost cpre = names(self.connected_peers@);
            let ghost cpred = |s: Seq<char>| s != peer_id@;
            let mut ckept: Vec<String> = Vec::new();
            let cn = self.connected_peers.len();
            let mut k: usize = 0;
            while k < cn
                invariant
                    k <= cn,
                    cn == self.connected_peers@.len(),
                    names(self.connected_peers@) == cpre,
                    names(ckept@) == cpre.take(k as int).filter(cpred),
                decreases cn - k,
            {
                let ghost prefix = cpre.take(k as int);
                proof {
                    assert(cpre.take(k + 1 as int) =~= prefix.push(cpre[k as int]));
                    crate::gossip::lemma_filter_push(prefix, cpred, cpre[k as int]);
                }
                if !str_eq(self.connected_peers[k].as_str(), peer_id) {
                    ckept.push(self.connected_peers[k].clone());
                    proof {
                        assert(names(ckept@) =~= prefix.filter(cpred).push(cpre[k as int]));
                    }
                }
                k = k + 1;
            }
            proof {
                assert(cpre.take(cn as int) =~= cpre);
            }
            self.connected_peers = ckept;
            self.stats.peer_disconnections = self.stats.peer_disconnections.saturating_add(1);
        }
        proof {
            let fin = info_views(self.known_peers@);
            assert forall|a: int, b: int| 0 <= a < b < fin.len() implies fin[a].id != fin[b].id by {}
        }
    }

    /// Blacklist a peer: it is removed now and refused on every later
    /// discovery.
    pub fn blacklist_peer(&mut self, peer_id: &str)
        requires
            old(self).wf(),
        ensures
            final(self).wf(),
            names(final(self).blacklisted_peers@) == names(old(self).blacklisted_peers@).push(peer_id@),
            info_views(final(self).known_peers@) == info_views(old(self).known_peers@).filter(
                |p: PeerInfoView| p.id != peer_id@,
            ),
    {
        self.blacklisted_peers.push(peer_id.to_owned());
        proof {
            assert(names(self.blacklisted_peers@) =~= names(old(self).blacklisted_peers@).push(peer_id@));
        }
        self.remove_peer(peer_id);
    }

    /// Mark a known peer connected; fails for an unknown identifier.
    #[verifier::loop_isolation(false)]
    pub fn connect_peer(&mut self, peer_id: &str) -> (r: Result<(), crate::acp::ACPError>)
        requires
            old(self).wf(),
        ensures
            final(self).wf(),
            known_has(info_views(old(self).known_peers@), peer_id@) ==> (r is Ok && names(
                final(self).connected_peers@,
            ) == names(old(self).connected_peers@).push(peer_id@)),
            !known_has(info_views(old(self).known_peers@), peer_id@) ==> (r is Err && *final(self) == *old(
                self,
            )),
            final(self).known_peers == old(self).known_peers,
            final(self).blacklisted_peers == old(self).blacklisted_peers,
            final(self).stats == old(self).stats,
    {
        let n = self.known_peers.len();
        let mut i: usize = 0;
        while i < n
            invariant
                i <= n,
                *self == *old(self),
                n == self.known_peers@.len(),
                forall|j: int|
                    0 <= j < i ==> (#[trigger] info_views(self.known_peers@)[j]).id != peer_id@,
            decreases n - i,
        {
            if str_eq(self.known_peers[i].id.as_str(), peer_id) {
                proof {
                    assert(info_views(self.known_peers@)[i as int].id == peer_id@);
                }
                self.connected_peers.push(peer_id.to_owned());
                proof {
                    assert(names(self.connected_peers@) =~= names(old(self).connected_peers@).push(
                        peer_id@,
                    ));
                }
                return Ok(());
            }
            i = i + 1;
        }
        proof {
            if known_has(info_views(self.known_peers@), peer_id@) {
                let w = choose|w: int|
                    0 <= w < info_views(self.known_peers@).len() && info_views(self.known_peers@)[w].id
                        == peer_id@;
            }
        }
        Err(crate::acp::ACPError::Discovery("peer not found".to_owned()))
    }

    /// Drop a peer's connection; fails when it was not connected.
    #[verifier::loop_isolation(false)]
    pub fn disconnect_peer(&mut self, peer_id: &str) -> (r: Result<(), crate::acp::ACPError>)
        requires
            old(self).wf(),
        ensures
            final(self).wf(),
            names(old(self).connected_peers@).contains(peer_id@) ==> (r is Ok && names(
                final(self).connected_peers@,
            ) == names(old(self).connected_peers@).filter(|s: Seq<char>| s != peer_id@)),
            !names(old(self).connected_peers@).contains(peer_id@) ==> (r is Err && *final(self) == *old(
                self,
            )),
            final(self).known_peers == old(self).known_peers,
            final(self).blacklisted_peers == old(self).blacklisted_peers,
            final(self).stats == old(self).stats,
    {
        if !vec_has_str(&self.connected_peers, peer_id) {
            return Err(crate::acp::ACPError::Discovery("peer not connected".to_owned()));
        }
        let ghost cpre = names(self.connected_peers@);
        let ghost cpred = |s: Seq<char>| s != peer_id@;
        let mut ckept: Vec<String> = Vec::new();
        let cn = self.connected_peers.len();
        let mut k: usize = 0;
        while k < cn
            invariant
                k <= cn,
                cn == self.connected_peers@.len(),
                names(self.connected_peers@) == cpre,
                names(ckept@) == cpre.take(k as int).filter(cpred),
            decreases cn - k,
        {
            let ghost prefix = cpre.take(k as int);
            proof {
                assert(cpre.take(k + 1 as int) =~= prefix.push(cpre[k as int]));
                crate::gossip::lemma_filter_push(prefix, cpred, cpre[k as int]);
            }
            if !str_eq(self.connected_peers[k].as_str(), peer_id) {
                ckept.push(self.connected_peers[k].clone());
                proof {
                    assert(names(ckept@) =~= prefix.filter(cpred).push(cpre[k as int]));
                }
            }
            k = k + 1;
        }
        proof {
            assert(cpre.take(cn as int) =~= cpre);
        }
        self.connected_peers = ckept;
        Ok(())
    }

    /// Remove every peer unheard-from for longer than the configured
    /// timeout.  Peers removed this way also lose their connection, and
    /// the disconnection counter moves once per removed peer.
    #[verifier::loop_isolation(false)]
    pub fn cleanup_inactive_peers(&mut self, now_ms: u64)
        requires
            old(self).wf(),
        ensures
            final(self).wf(),
            info_views(final(self).known_peers@) == info_views(old(self).known_peers@).filter(
                |p: PeerInfoView| now_ms < p.last_seen_ms + old(self).config.peer_timeout_ms,
            ),
            names(final(self).connected_peers@) == names(old(self).connected_peers@).filter(
                |s: Seq<char>| !info_ids(
                    info_views(old(self).known_peers@).filter(
                        |p: PeerInfoView| !(now_ms < p.last_seen_ms + old(self).config.peer_timeout_ms),
                    ),
                ).contains(s),
            ),
            final(self).stats == (DiscoveryStats {
                peer_disconnections: crate::gossip::sat_add(
                    old(self).stats.peer_disconnections,
                    info_views(old(self).known_peers@).filter(
                        |p: PeerInfoView| !(now_ms < p.last_seen_ms + old(self).config.peer_timeout_ms),
                    ).len() as u64,
                ),
                ..old(self).stats
            }),
            final(self).blacklisted_peers == old(self).blacklisted_peers,
            final(self).config == old(self).config,
    {
        let ghost pre = info_views(self.known_peers@);
        let ghost pred = |p: PeerInfoView| now_ms < p.last_seen_ms + old(self).config.peer_timeout_ms;
        let ghost notpred = |p: PeerInfoView| !(now_ms < p.last_seen_ms + old(self).config.peer_timeout_ms);
        let timeout = self.config.peer_timeout_ms;
        let mut kept: Vec<PeerInfo> = Vec::new();
        let mut stale: Vec<String> = Vec::new();
        let n = self.known_peers.len();
        let mut i: usize = 0;
        while i < n
            invariant
                i <= n,
                n == self.known_peers@.len(),
                info_views(self.known_peers@) == pre,
                timeout == old(self).config.peer_timeout_ms,
                info_views(kept@) == pre.take(i as int).filter(pred),
                names(stale@) == info_ids(pre.take(i as int).filter(notpred)),
            decreases n - i,
        {
            let ghost prefix = pre.take(i as int);
            proof {
                assert(pre.take(i + 1 as int) =~= prefix.push(pre[i as int]));
                crate::gossip::lemma_filter_push(prefix, pred, pre[i as int]);
                crate::gossip::lemma_filter_push(prefix, notpred, pre[i as int]);
            }
            let ls = self.known_peers[i].last_seen_ms;
            let live = if ls > u64::MAX - timeout {
                true
            } else {
                now_ms < ls + timeout
            };
            if live {
                kept.push(self.known_peers[i].duplicate());
                proof {
                    assert(info_views(kept@) =~= prefix.filter(pred).push(pre[i as int]));
                }
            } else {
                let ghost sb = stale@;
                let pushed = self.known_peers[i].id.clone();
                proof {
                    assert(pushed@ == pre[i as int].id);
                }
                stale.push(pushed);
                proof {
                    assert(names(stale@) =~~= names(sb).push(pre[i as int].id));
                    let f = prefix.filter(notpred);
                    assert(info_ids(f.push(pre[i as int])) =~~= info_ids(f).push(pre[i as int].id));
                    assert(names(stale@) =~~= info_ids(prefix.filter(notpred).push(pre[i as int])));
                }
            }
            i = i + 1;
        }
        proof {
            assert(pre.take(n as int) =~= pre);
            crate::gossip::lemma_filter_distinct_by(pre, pred, |p: PeerInfoView| p.id);
            broadcast use vstd::seq_lib::group_filter_ensures;

        }
        self.known_peers = kept;
        let removed = stale.len();
        let ghost stale_ids = info_ids(pre.filter(notpred));
        let ghost cpre = names(self.connected_peers@);
        let ghost cpred = |s: Seq<char>| !stale_ids.contains(s);
        let mut ckept: Vec<String> = Vec::new();
        let cn = self.connected_peers.len();
        let mut k: usize = 0;
        while k < cn
            invariant
                k <= cn,
                cn == self.connected_peers@.len(),
                names(self.connected_peers@) == cpre,
                names(stale@) == stale_ids,
                removed == stale@.len(),
                names(ckept@) == cpre.take(k as int).filter(cpred),
            decreases cn - k,
        {
            let ghost prefix = cpre.take(k as int);
            proof {
                assert(cpre.take(k + 1 as int) =~= prefix.push(cpre[k as int]));
                crate::gossip::lemma_filter_push(prefix, cpred, cpre[k as int]);
            }
            if !vec_has_str(&stale, self.connected_peers[k].as_str()) {
                ckept.push(self.connected_peers[k].clone());
                proof {
                    assert(names(ckept@) =~= prefix.filter(cpred).push(cpre[k as int]));
                }
            }
            k = k + 1;
        }
        proof {
            assert(cpre.take(cn as int) =~= cpre);
        }
        self.connected_peers = ckept;
        self.stats.peer_disconnections = self.stats.peer_disconnections.saturating_add(removed as u64);
        proof {
            let fin = info_views(self.known_peers@);
            assert forall|a: int, b: int| 0 <= a < b < fin.len() implies fin[a].id != fin[b].id by {}
        }
    }

    /// The known peers, in registry order.
    pub fn get_known_peers(&self) -> (r: &Vec<PeerInfo>)
        ensures
            r == &self.known_peers,
    {
        &self.known_peers
    }

    /// Snapshot of the discovery counters.
    pub fn get_stats(&self) -> (r: DiscoveryStats)
        ensures
            r == self.stats,
    {
        self.stats
    }
}

impl DiscoveryStats {
    /// The all-zero statistics record.
    pub open spec fn spec_zero() -> DiscoveryStats {
        DiscoveryStats {
            total_discovered: 0u64,
            active_peers: 0usize,
            bootstrap_attempts: 0u64,
            dht_queries: 0u64,
            gossip_messages: 0u64,
            failed_connections: 0u64,
            peer_disconnections: 0u64,
        }
    }
}

/// Whether the vector holds a string with these contents.
#[verifier::loop_isolation(false)]
fn vec_has_str(v: &Vec<String>, s: &str) -> (r: bool)
    ensures
        r == names(v@).contains(s@),
{
    let n = v.len();
    let mut i: usize = 0;
    while i < n
        invariant
            i <= n,
            forall|j: int| 0 <= j < i ==> names(v@)[j] != s@,
        decreases n - i,
    {
        if str_eq(v[i].as_str(), s) {
            proof {
                assert(names(v@)[i as int] == s@);
            }
            return true;
        }
        i = i + 1;
    }
    proof {
        if names(v@).contains(s@) {
            let w = choose|w: int| 0 <= w < names(v@).len() && names(v@)[w] == s@;
        }
    }
    false
}

} // verus!
