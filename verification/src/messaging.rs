//! Message envelopes of the commerce protocol: typed messages with a
//! header map, TTL-based expiry, responses, and a priority queue for
//! outbound handling.
//!
//! Serialization of envelopes for the wire is a transport concern and
//! stays outside the crate; the envelope itself carries plain values.

use vstd::prelude::*;

use crate::random::new_uuid_string;
use crate::strutil::str_eq;
use crate::version::all_digits;
use crate::version::digits_val;

verus! {

/// Kinds of commerce-protocol message.
pub enum MessageType {
    TransactionRequest,
    TransactionProposal,
    TransactionResponse,
    TransactionComplete,
    ReputationUpdate,
    Heartbeat,
    PeerDiscovery,
    Gossip,
    Handshake,
    Custom(String),
}

/// Mathematical view of a message kind.
pub ghost enum MessageKindView {
    TransactionRequest,
    TransactionProposal,
    TransactionResponse,
    TransactionComplete,
    ReputationUpdate,
    Heartbeat,
    PeerDiscovery,
    Gossip,
    Handshake,
    Custom(Seq<char>),
}

impl View for MessageType {
    type V = MessageKindView;

    open spec fn view(&self) -> MessageKindView {
        match self {
            MessageType::TransactionRequest => MessageKindView::TransactionRequest,
            MessageType::TransactionProposal => MessageKindView::TransactionProposal,
            MessageType::TransactionResponse => MessageKindView::TransactionResponse,
            MessageType::TransactionComplete => MessageKindView::TransactionComplete,
            MessageType::ReputationUpdate => MessageKindView::ReputationUpdate,
            MessageType::Heartbeat => MessageKindView::Heartbeat,
            MessageType::PeerDiscovery => MessageKindView::PeerDiscovery,
            MessageType::Gossip => MessageKindView::Gossip,
            MessageType::Handshake => MessageKindView::Handshake,
            MessageType::Custom(s) => MessageKindView::Custom(s@),
        }
    }
}

/// One header of a message.
pub struct Header {
    pub key: String,
    pub value: String,
}

/// Mathematical view of a header list.
pub open spec fn header_views(h: Seq<Header>) -> Seq<(Seq<char>, Seq<char>)> {
    h.map_values(|p: Header| (p.key@, p.value@))
}

/// Whether the header list carries the key.
pub open spec fn has_header(h: Seq<(Seq<char>, Seq<char>)>, key: Seq<char>) -> bool {
    exists|i: int| 0 <= i < h.len() && h[i].0 == key
}

/// Index of the header carrying the key (meaningful when present and
/// keys are distinct).
pub open spec fn header_idx(h: Seq<(Seq<char>, Seq<char>)>, key: Seq<char>) -> int {
    choose|i: int| 0 <= i < h.len() && h[i].0 == key
}

/// Pairwise-distinct header keys.
pub open spec fn headers_distinct(h: Seq<(Seq<char>, Seq<char>)>) -> bool {
    forall|i: int, j: int| 0 <= i < j < h.len() ==> h[i].0 != h[j].0
}

/// A message envelope of the commerce protocol.
pub struct ACPMessage {
    /// Unique message identifier.
    pub id: String,
    pub message_type: MessageType,
    /// Source node identifier.
    pub from: String,
    /// Destination node identifier; `None` for broadcasts.
    pub to: Option<String>,
    pub timestamp_ms: u64,
    /// Protocol version the message was produced under.
    pub version: String,
    pub payload: Vec<u8>,
    pub headers: Vec<Header>,
    pub signature: Option<Vec<u8>>,
}

/// Mathematical view of a message envelope.
pub ghost struct AcpMessageView {
    pub id: Seq<char>,
    pub kind: MessageKindView,
    pub from: Seq<char>,
    pub to: Option<Seq<char>>,
    pub timestamp_ms: u64,
    pub version: Seq<char>,
    pub payload: Seq<u8>,
    pub headers: Seq<(Seq<char>, Seq<char>)>,
    pub signature: Option<Seq<u8>>,
}

impl View for ACPMessage {
    type V = AcpMessageView;

    open spec fn view(&self) -> AcpMessageView {
        AcpMessageView {
            id: self.id@,
            kind: self.message_type@,
            from: self.from@,
            to: match self.to {
                Some(ref t) => Some(t@),
                None => None,
            },
            timestamp_ms: self.timestamp_ms,
            version: self.version@,
            payload: self.payload@,
            headers: header_views(self.headers@),
            signature: match self.signature {
                Some(ref s) => Some(s@),
                None => None,
            },
        }
    }
}

/// The expiry rule: a message with a numeric `ttl` header (in seconds)
/// expires that long after its creation; without one it never expires.
pub open spec fn spec_is_expired(m: AcpMessageView, now_ms: u64) -> bool {
    if has_header(m.headers, "ttl"@) {
        let v = m.headers[header_idx(m.headers, "ttl"@)].1;
        if v.len() > 0 && all_digits(v) && digits_val(v) <= u64::MAX {
            now_ms > m.timestamp_ms + digits_val(v) * 1000
        } else {
            false
        }
    } else {
        false
    }
}

impl ACPMessage {
    /// Header keys are unique.
    pub open spec fn wf(&self) -> bool {
        headers_distinct(self@.headers)
    }

    /// Create a fresh message with a random identifier under the current
    /// protocol version.
    pub fn new(message_type: MessageType, from: String, to: Option<String>, payload: Vec<u8>, now_ms: u64) -> (r:
        ACPMessage)
        ensures
            r.wf(),
            r@.id.len() == 36,
            r@.kind == message_type@,
            r@.from == from@,
            r@.to == (match to {
                Some(t) => Some(t@),
                None => None::<Seq<char>>,
            }),
            r@.timestamp_ms == now_ms,
            r@.version == crate::acp::ACP_VERSION@,
            r@.payload == payload@,
            r@.headers == Seq::<(Seq<char>, Seq<char>)>::empty(),
            r@.signature is None,
    {
        let r = ACPMessage {
            id: new_uuid_string(),
            message_type,
            from,
            to,
            timestamp_ms: now_ms,
            version: crate::acp::ACP_VERSION.to_owned(),
            payload,
            headers: Vec::new(),
            signature: None,
        };
        proof {
            assert(header_views(r.headers@) =~= Seq::<(Seq<char>, Seq<char>)>::empty());
        }
        r
    }

    /// Set a header, replacing any existing header under the same key.
    #[verifier::loop_isolation(false)]
    pub fn add_header(&mut self, key: String, value: String)
        requires
            old(self).wf(),
        ensures
            final(self).wf(),
            final(self)@ == (AcpMessageView {
                headers: old(self)@.headers.filter(|p: (Seq<char>, Seq<char>)| p.0 != key@).push(
                    (key@, value@),
                ),
                ..old(self)@
            }),
            has_header(final(self)@.headers, key@),
    {
        let ghost pre = self@;
        let ghost pred = |p: (Seq<char>, Seq<char>)| p.0 != key@;
        let mut kept: Vec<Header> = Vec::new();
        let n = self.headers.len();
        let mut i: usize = 0;
        while i < n
            invariant
                i <= n,
                n == self.headers.len(),
                self@ == pre,
                header_views(kept@) == pre.headers.take(i as int).filter(pred),
            decreases n - i,
        {
            let ghost prefix = pre.headers.take(i as int);
            proof {
                assert(pre.headers.take(i + 1 as int) =~= prefix.push(pre.headers[i as int]));
                crate::gossip::lemma_filter_push(prefix, pred, pre.headers[i as int]);
            }
            if !self.headers[i].key.eq(&key) {
                kept.push(
                    Header { key: self.headers[i].key.clone(), value: self.headers[i].value.clone() },
                );
                proof {
                    assert(header_views(kept@) =~= prefix.filter(pred).push(pre.headers[i as int]));
                }
            }
            i = i + 1;
        }
        proof {
            assert(pre.headers.take(n as int) =~= pre.headers);
            crate::gossip::lemma_filter_distinct_by(pre.headers, pred, |p: (Seq<char>, Seq<char>)| p.0);
            broadcast use vstd::seq_lib::group_filter_ensures;

        }
        kept.push(Header { key, value });
        self.headers = kept;
        proof {
            let fin = self@.headers;
            assert(fin =~= pre.headers.filter(pred).push(fin[fin.len() - 1]));
            assert forall|a: int, b: int| 0 <= a < b < fin.len() implies fin[a].0 != fin[b].0 by {
                if b < fin.len() - 1 {
                } else {
                    assert(pred(pre.headers.filter(pred)[a]));
                }
            }
            assert(has_header(fin, fin[fin.len() - 1].0));
        }
    }

    /// Look a header up by key.
    #[verifier::loop_isolation(false)]
    pub fn get_header(&self, key: &str) -> (r: Option<&String>)
        requires
            self.wf(),
        ensures
            r is Some ==> (has_header(self@.headers, key@) && r.unwrap()@ == self@.headers[header_idx(
                self@.headers,
                key@,
            )].1),
            r is None ==> !has_header(self@.headers, key@),
    {
        let n = self.headers.len();
        let mut i: usize = 0;
        while i < n
            invariant
                i <= n,
                forall|j: int| 0 <= j < i ==> (#[trigger] self@.headers[j]).0 != key@,
            decreases n - i,
        {
            if str_eq(self.headers[i].key.as_str(), key) {
                proof {
                    assert(self@.headers[i as int].0 == key@);
                    let c = header_idx(self@.headers, key@);
                    assert(0 <= c < self@.headers.len() && self@.headers[c].0 == key@);
                    assert(c == i as int) by {
                        if c < i as int {
                            assert(self@.headers[c].0 != self@.headers[i as int].0);
                        } else if c > i as int {
                            assert(self@.headers[i as int].0 != self@.headers[c].0);
                        }
                    }
                }
                return Some(&self.headers[i].value);
            }
            i = i + 1;
        }
        proof {
            if has_header(self@.headers, key@) {
                let w = choose|w: int| 0 <= w < self@.headers.len() && self@.headers[w].0 == key@;
            }
        }
        None
    }

    /// Attach a signature.
    pub fn set_signature(&mut self, signature: Vec<u8>)
        ensures
            final(self)@ == (AcpMessageView { signature: Some(signature@), ..old(self)@ }),
    {
        self.signature = Some(signature);
    }

    /// Whether the message is signed.
    pub fn is_signed(&self) -> (r: bool)
        ensures
            r == (self@.signature is Some),
    {
        self.signature.is_some()
    }

    /// Whether the message has expired at `now_ms`, by its `ttl` header
    /// (in seconds).  A missing or malformed header means no expiry.
    #[verifier::loop_isolation(false)]
    pub fn is_expired(&self, now_ms: u64) -> (r: bool)
        requires
            self.wf(),
        ensures
            r == spec_is_expired(self@, now_ms),
    {
        let ttl = match self.get_header("ttl") {
            Some(v) => v,
            None => {
                return false;
            },
        };
        let ghost tv = self@.headers[header_idx(self@.headers, "ttl"@)].1;
        let s = ttl.as_str();
        let n = s.unicode_len();
        if n == 0 {
            return false;
        }
        let mut val: u64 = 0;
        let mut overflow = false;
        let mut i: usize = 0;
        while i < n
            invariant
                i <= n,
                n == tv.len(),
                s@ == tv,
                all_digits(tv.take(i as int)),
                !overflow ==> (digits_val(tv.take(i as int)) <= u64::MAX && val == digits_val(
                    tv.take(i as int),
                )),
                overflow ==> digits_val(tv.take(i as int)) > u64::MAX,
            decreases n - i,
        {
            let ghost prefix = tv.take(i as int);
            let c = s.get_char(i);
            let cv = c as u32;
            proof {
                assert(tv.take(i + 1 as int) =~= prefix.push(tv[i as int]));
                assert(tv.take(i + 1 as int).drop_last() =~= prefix);
            }
            if cv < 48 || cv > 57 {
                proof {
                    let sub = tv.take(i + 1 as int);
                    assert(sub[sub.len() - 1] == tv[i as int]);
                    assert(!crate::version::is_digit(sub[sub.len() - 1]));
                    assert(!all_digits(tv)) by {
                        if all_digits(tv) {
                            assert(crate::version::is_digit(tv[i as int]));
                        }
                    }
                }
                return false;
            }
            proof {
                let sub = tv.take(i + 1 as int);
                assert(sub[sub.len() - 1] == tv[i as int]);
                assert(crate::version::is_digit(tv[i as int]));
                assert(all_digits(sub)) by {
                    assert(forall|q: int| 0 <= q < prefix.len() ==> crate::version::is_digit(#[trigger] prefix[q]));
                }
            }
            if !overflow {
                let d = (cv - 48) as u64;
                if val > (u64::MAX - d) / 10 {
                    overflow = true;
                    proof {
                        assert(digits_val(tv.take(i + 1 as int)) > u64::MAX) by (nonlinear_arith)
                            requires
                                digits_val(tv.take(i + 1 as int)) == digits_val(prefix) * 10
                                    + crate::version::digit_val(tv[i as int]),
                                crate::version::digit_val(tv[i as int]) == d,
                                digits_val(prefix) == val,
                                val > (u64::MAX - d) / 10,
                                0 <= d <= 9,
                        ;
                    }
                } else {
                    proof {
                        assert(val * 10 + d <= u64::MAX) by (nonlinear_arith)
                            requires
                                val <= (u64::MAX - d) / 10,
                                0 <= d <= 9,
                        ;
                    }
                    val = val * 10 + d;
                }
            } else {
                proof {
                    assert(digits_val(tv.take(i + 1 as int)) > u64::MAX) by (nonlinear_arith)
                        requires
                            digits_val(tv.take(i + 1 as int)) == digits_val(prefix) * 10
                                + crate::version::digit_val(tv[i as int]),
                            digits_val(prefix) > u64::MAX,
                            crate::version::digit_val(tv[i as int]) >= 0,
                    ;
                }
            }
            i = i + 1;
        }
        proof {
            assert(tv.take(n as int) =~= tv);
        }
        if overflow {
            return false;
        }
        // Expiry time in milliseconds; saturated arithmetic cannot make a
        // message expire early, because a saturated expiry is never in the
        // past of any u64 clock except when exact arithmetic also is.
        let scaled = if val > u64::MAX / 1000 {
            u64::MAX
        } else {
            val * 1000
        };
        let expiry = self.timestamp_ms.saturating_add(scaled);
        let r = now_ms > expiry;
        proof {
            let exact = self@.timestamp_ms + digits_val(tv) * 1000;
            if val > u64::MAX / 1000 {
                assert(digits_val(tv) * 1000 > u64::MAX) by (nonlinear_arith)
                    requires
                        digits_val(tv) == val,
                        val > u64::MAX / 1000,
                ;
                assert(!r && !(now_ms > exact));
            } else {
                assert(val * 1000 == digits_val(tv) * 1000);
            }
        }
        r
    }

    /// Create a response to this message: the direction is reversed (an
    /// absent destination answers from an empty identity) and the
    /// original message's identifier is recorded as the correlation
    /// header.
    pub fn create_response(&self, response_type: MessageType, payload: Vec<u8>, now_ms: u64) -> (r: ACPMessage)
        ensures
            r.wf(),
            r@.kind == response_type@,
            r@.from == (match self@.to {
                Some(t) => t,
                None => Seq::<char>::empty(),
            }),
            r@.to == Some(self@.from),
            r@.timestamp_ms == now_ms,
            r@.payload == payload@,
            has_header(r@.headers, "correlation_id"@),
            r@.headers[header_idx(r@.headers, "correlation_id"@)].1 == self@.id,
    {
        let from = match &self.to {
            Some(t) => t.clone(),
            None => String::new(),
        };
        let mut r = ACPMessage::new(response_type, from, Some(self.from.clone()), payload, now_ms);
        r.add_header("correlation_id".to_owned(), self.id.clone());
        proof {
            let fin = r@.headers;
            assert(fin[fin.len() - 1].0 == "correlation_id"@);
            let c = header_idx(fin, "correlation_id"@);
            assert(0 <= c < fin.len() && fin[c].0 == "correlation_id"@);
            assert(c == fin.len() - 1) by {
                if c < fin.len() - 1 {
                    assert(fin[c].0 != fin[fin.len() - 1].0);
                }
            }
        }
        r
    }

    /// Create a heartbeat message from a node.
    pub fn heartbeat(from: String, now_ms: u64) -> (r: ACPMessage)
        ensures
            r.wf(),
            r@.kind == MessageKindView::Heartbeat,
            r@.from == from@,
            r@.to is None,
            r@.timestamp_ms == now_ms,
            r@.payload == Seq::<u8>::empty(),
    {
        let r = ACPMessage::new(MessageType::Heartbeat, from, None, Vec::new(), now_ms);
        proof {
            assert(r@.payload =~= Seq::<u8>::empty());
        }
        r
    }
}

/// Priority levels of a message, lowest first.
#[derive(Clone, Copy, PartialEq, Eq, Structural, Debug)]
pub enum MessagePriority {
    Low,
    Normal,
    High,
    Critical,
}

impl MessagePriority {
    /// Numeric level, from 1 (`Low`) to 4 (`Critical`).
    pub open spec fn spec_level(&self) -> u8 {
        match self {
            MessagePriority::Low => 1,
            MessagePriority::Normal => 2,
            MessagePriority::High => 3,
            MessagePriority::Critical => 4,
        }
    }

    /// Numeric level, from 1 (`Low`) to 4 (`Critical`).
    pub fn level(&self) -> (r: u8)
        ensures
            r == self.spec_level(),
    {
        match self {
            MessagePriority::Low => 1,
            MessagePriority::Normal => 2,
            MessagePriority::High => 3,
            MessagePriority::Critical => 4,
        }
    }
}

impl Default for MessagePriority {
    /// The default priority is `Normal`.
    fn default() -> (r: MessagePriority)
        ensures
            r == MessagePriority::Normal,
    {
        MessagePriority::Normal
    }
}

/// A message wrapped with a delivery priority and retry budget.
pub struct PriorityMessage {
    pub message: ACPMessage,
    pub priority: MessagePriority,
    pub retry_count: u32,
    pub max_retries: u32,
}

impl PriorityMessage {
    /// Wrap a message with a priority and the default retry budget.
    pub fn new(message: ACPMessage, priority: MessagePriority) -> (r: PriorityMessage)
        ensures
            r.message@ == message@,
            r.priority == priority,
            r.retry_count == 0,
            r.max_retries == 3,
    {
        PriorityMessage { message, priority, retry_count: 0, max_retries: 3 }
    }

    /// Whether the retry budget allows another attempt.
    pub fn can_retry(&self) -> (r: bool)
        ensures
            r == (self.retry_count < self.max_retries),
    {
        self.retry_count < self.max_retries
    }

    /// Count one retry.
    pub fn increment_retry(&mut self)
        ensures
            final(self).retry_count == crate::consensus::sat_add32(old(self).retry_count, 1),
            final(self).max_retries == old(self).max_retries,
            final(self).priority == old(self).priority,
            final(self).message@ == old(self).message@,
    {
        self.retry_count = self.retry_count.saturating_add(1);
    }
}

/// Index of the first message with the highest priority.
pub open spec fn first_top_idx(q: Seq<MessagePriority>) -> int
    decreases q.len(),
{
    if q.len() <= 1 {
        0
    } else {
        let j = first_top_idx(q.drop_last());
        if q.last().spec_level() > q[j].spec_level() {
            q.len() - 1
        } else {
            j
        }
    }
}

/// The index picked by `first_top_idx` is in range and is the first
/// position holding the maximum priority.
pub proof fn lemma_first_top_idx(q: Seq<MessagePriority>)
    requires
        q.len() > 0,
    ensures
        0 <= first_top_idx(q) < q.len(),
        forall|k: int|
            0 <= k < q.len() ==> (#[trigger] q[k]).spec_level() <= q[first_top_idx(q)].spec_level(),
    decreases q.len(),
{
    if q.len() > 1 {
        let rest = q.drop_last();
        lemma_first_top_idx(rest);
        let j = first_top_idx(rest);
        assert forall|k: int| 0 <= k < q.len() implies (#[trigger] q[k]).spec_level() <= q[first_top_idx(
            q,
        )].spec_level() by {
            if k < q.len() - 1 {
                assert(rest[k] == q[k]);
                assert(rest[k].spec_level() <= rest[j].spec_level());
            }
        }
    }
}

/// A queue of prioritized messages: the highest-priority message leaves
/// first, ties broken by arrival order.
pub struct MessageQueue {
    pub messages: Vec<PriorityMessage>,
}

/// The priorities currently queued, in arrival order.
pub open spec fn queue_priorities(q: Seq<PriorityMessage>) -> Seq<MessagePriority> {
    q.map_values(|m: PriorityMessage| m.priority)
}

impl MessageQueue {
    /// Create an empty queue.
    pub fn new() -> (r: MessageQueue)
        ensures
            r.messages@.len() == 0,
    {
        MessageQueue { messages: Vec::new() }
    }

    /// Enqueue a message.
    pub fn push(&mut self, message: PriorityMessage) -> (r: Result<(), crate::acp::ACPError>)
        ensures
            r is Ok,
            final(self).messages@ == old(self).messages@.push(message),
    {
        self.messages.push(message);
        Ok(())
    }

    /// Dequeue the first message of the highest queued priority; `None`
    /// when the queue is empty.
    #[verifier::loop_isolation(false)]
    pub fn pop(&mut self) -> (r: Option<PriorityMessage>)
        ensures
            old(self).messages@.len() == 0 ==> (r is None && final(self).messages@ == old(self).messages@),
            old(self).messages@.len() > 0 ==> {
                let j = first_top_idx(queue_priorities(old(self).messages@));
                &&& r == Some(old(self).messages@[j])
                &&& final(self).messages@ == old(self).messages@.remove(j)
                &&& forall|k: int|
                    0 <= k < old(self).messages@.len() ==> (#[trigger] old(
                        self,
                    ).messages@[k]).priority.spec_level() <= old(self).messages@[j].priority.spec_level()
            },
    {
        let n = self.messages.len();
        if n == 0 {
            return None;
        }
        let ghost prios = queue_priorities(self.messages@);
        let mut best: usize = 0;
        let mut i: usize = 1;
        while i < n
            invariant
                1 <= i <= n,
                n == self.messages@.len(),
                best < i,
                best == first_top_idx(queue_priorities(self.messages@).take(i as int)),
            decreases n - i,
        {
            proof {
                assert(queue_priorities(self.messages@).take(i + 1 as int).drop_last() =~= queue_priorities(
                    self.messages@,
                ).take(i as int));
            }
            if self.messages[i].priority.level() > self.messages[best].priority.level() {
                best = i;
            }
            i = i + 1;
        }
        proof {
            assert(queue_priorities(self.messages@).take(n as int) =~= queue_priorities(self.messages@));
            lemma_first_top_idx(prios);
            let j = first_top_idx(prios);
            assert forall|k: int| 0 <= k < self.messages@.len() implies (
            #[trigger] self.messages@[k]).priority.spec_level()
                <= self.messages@[j].priority.spec_level() by {
                assert(prios[k] == self.messages@[k].priority);
                assert(prios[j] == self.messages@[j].priority);
                assert(prios[k].spec_level() <= prios[j].spec_level());
            }
        }
        let r = self.messages.remove(best);
        Some(r)
    }

    /// Number of queued messages.
    pub fn len(&self) -> (r: usize)
        ensures
            r == self.messages@.len(),
    {
        self.messages.len()
    }

    /// Whether the queue is empty.
    pub fn is_empty(&self) -> (r: bool)
        ensures
            r == (self.messages@.len() == 0),
    {
        self.messages.is_empty()
    }
}

} // verus!
