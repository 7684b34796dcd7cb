//! The resolver loop as an explicit, total state machine. A pending
//! query starts awaiting a UDP response from the first candidate
//! server; every transition is triggered by exactly one transport
//! event: a datagram, a timeout, a send error, or a TCP outcome.
//! Responses are matched by transaction ID and question; mismatches
//! are silently discarded and the wait continues. A matched truncated
//! response triggers exactly one TCP retry to the same server. A
//! matched response — whatever its RCODE — succeeds; exhausting the
//! servers fails, carrying the per-server history. The caller performs
//! the sends and waits and feeds the outcomes back in.

use crate::codec::parse_message;
use crate::codec::DecodeError;
use crate::codec::EncodeError;
use crate::config::AppConfig;
use crate::dns::DnsMessage;
use crate::dns::DnsQueryClass;
use crate::dns::DnsQueryType;
use crate::dns::DnsRecordType;
use crate::dns::DomainName;
use crate::dns::QueryZone;
use crate::dns::SpecMessage;
use crate::dns::SpecQuestion;
use vstd::prelude::*;

verus! {

/// Whether two byte vectors hold the same bytes.
fn bytes_equal(a: &Vec<u8>, b: &Vec<u8>) -> (r: bool)
    ensures
        r == (a@ == b@),
{
    if a.len() != b.len() {
        return false;
    }
    let mut i: usize = 0;
    while i < a.len()
        invariant
            i <= a@.len(),
            a@.len() == b@.len(),
            forall|j: int| 0 <= j < i ==> a@[j] == b@[j],
        decreases a@.len() - i,
    {
        if a[i] != b[i] {
            return false;
        }
        i = i + 1;
    }
    proof {
        assert(a@ =~= b@);
    }
    true
}

/// Whether two domain names hold the same labels.
pub fn names_equal(a: &DomainName, b: &DomainName) -> (r: bool)
    ensures
        r == (a@ == b@),
{
    if a.labels.len() != b.labels.len() {
        proof {
            assert(a@.len() == a.labels@.len());
            assert(b@.len() == b.labels@.len());
        }
        return false;
    }
    let mut i: usize = 0;
    while i < a.labels.len()
        invariant
            i <= a.labels@.len(),
            a.labels@.len() == b.labels@.len(),
            forall|j: int| 0 <= j < i ==> a@[j] == b@[j],
        decreases a.labels@.len() - i,
    {
        proof {
            assert(a@[i as int] == a.labels@[i as int]@);
            assert(b@[i as int] == b.labels@[i as int]@);
        }
        if !bytes_equal(&a.labels[i], &b.labels[i]) {
            return false;
        }
        i = i + 1;
    }
    proof {
        assert(a@ =~= b@);
    }
    true
}

/// Whether two questions agree in name, type, and class.
pub fn questions_match(a: &QueryZone, b: &QueryZone) -> (r: bool)
    ensures
        r == (a@ == b@),
{
    let same = names_equal(&a.qz_name, &b.qz_name) && a.qz_type == b.qz_type && a.qz_class
        == b.qz_class;
    proof {
        if same {
            assert(a@ =~~= b@);
        }
    }
    same
}

/// Whether a decoded message answers the given pending query: its
/// transaction ID echoes the query's and its question section holds
/// exactly the query's question.
pub open spec fn spec_matches(id: u16, q: SpecQuestion, m: SpecMessage) -> bool {
    m.transaction_id == id && m.queries.len() == 1 && m.queries[0] == q
}

/// Whether a response matches a pending query by transaction ID and
/// question.
pub fn response_matches(id: u16, q: &QueryZone, m: &DnsMessage) -> (r: bool)
    ensures
        r == spec_matches(id, q@, m@),
{
    if m.transaction_id != id {
        return false;
    }
    if m.records.queries.len() != 1 {
        return false;
    }
    proof {
        assert(m@.queries[0] == m.records.queries@[0]@);
    }
    questions_match(&m.records.queries[0], q)
}

/// The outcome recorded for one server that failed to answer.
#[derive(Clone, Copy, Debug, PartialEq, Eq, Structural)]
pub enum AttemptError {
    /// The server could not be reached at all.
    Unreachable,
    /// The datagram could not be sent.
    SendFailed,
    /// No response arrived before the deadline.
    Timeout,
    /// The TCP retry could not be completed.
    TcpFailed,
    /// A response arrived but its bytes did not decode.
    Malformed(DecodeError),
    /// The TCP reply decoded but did not match the query.
    Mismatched,
}

/// One entry of the failure history: which server, and why.
#[derive(Clone, Copy, Debug, PartialEq, Eq, Structural)]
pub struct AttemptRecord {
    /// The index of the server in the pending query's list.
    pub server_index: usize,
    /// Why the attempt against it failed.
    pub error: AttemptError,
}

/// Where a pending query stands.
#[derive(Debug)]
pub enum ResolvePhase {
    /// A UDP query is out to the current server.
    AwaitingUdp,
    /// A truncated response forced a TCP retry to the current server.
    AwaitingTcp,
    /// A matched response arrived; it may carry any RCODE.
    Succeeded(DnsMessage),
    /// Every server was tried without a validated match.
    Failed,
}

/// What the transport hands back after performing an action.
#[derive(Debug)]
pub enum TransportEvent {
    /// A datagram arrived on the UDP socket.
    Datagram(Vec<u8>),
    /// A complete framed reply arrived on the TCP stream.
    TcpReply(Vec<u8>),
    /// The deadline passed without a usable response.
    Timeout,
    /// The query could not be sent.
    SendFailed,
    /// The server could not be reached.
    Unreachable,
    /// The TCP connection failed or closed early.
    TcpFailed,
}

/// What the caller must do next.
#[derive(Clone, Copy, Debug, PartialEq, Eq, Structural)]
pub enum ResolverAction {
    /// Send the query bytes by UDP to the server at this index.
    SendUdp(usize),
    /// Send the framed query bytes by TCP to the server at this index.
    SendTcp(usize),
    /// Keep waiting on the same deadline.
    KeepWaiting,
    /// The query reached a terminal phase.
    Finished,
}

/// One outstanding question: its transaction ID, the question, the
/// encoded query, the candidate servers, where the attempt stands, and
/// the per-server failure history. Created when a query is issued and
/// dropped when it reaches a terminal phase.
#[derive(Debug)]
pub struct PendingQuery {
    pub trans_id: u16,
    pub question: QueryZone,
    pub query_bytes: Vec<u8>,
    pub servers: Vec<String>,
    pub current: usize,
    pub history: Vec<AttemptRecord>,
    pub phase: ResolvePhase,
}

impl PendingQuery {
    /// While awaiting a response, the current server index is in
    /// range; the transaction ID is never zero.
    pub open spec fn wf(self) -> bool {
        &&& (self.phase is AwaitingUdp || self.phase is AwaitingTcp) ==> self.current
            < self.servers@.len()
        &&& self.trans_id != 0
    }

    /// Whether the query reached a terminal phase.
    pub open spec fn is_done(self) -> bool {
        self.phase is Succeeded || self.phase is Failed
    }
}

/// The parts of a pending query no event may change: its identity and
/// its inputs.
pub open spec fn unchanged_core(pre: PendingQuery, post: PendingQuery) -> bool {
    &&& post.trans_id == pre.trans_id
    &&& post.question == pre.question
    &&& post.query_bytes == pre.query_bytes
    &&& post.servers == pre.servers
}

/// A failed attempt: the outcome is appended to the history and the
/// next server is tried by UDP, or the query fails when none is left.
pub open spec fn advanced(
    pre: PendingQuery,
    post: PendingQuery,
    action: ResolverAction,
    err: AttemptError,
) -> bool {
    &&& unchanged_core(pre, post)
    &&& post.history@ == pre.history@.push(
        AttemptRecord { server_index: pre.current, error: err },
    )
    &&& post.current == pre.current + 1
    &&& if pre.current + 1 < pre.servers@.len() {
        post.phase is AwaitingUdp && action == ResolverAction::SendUdp(
            (pre.current + 1) as usize,
        )
    } else {
        post.phase is Failed && action == ResolverAction::Finished
    }
}

/// A discarded event: the pending query is untouched and the wait
/// continues on the same deadline.
pub open spec fn ignored(pre: PendingQuery, post: PendingQuery, action: ResolverAction) -> bool {
    post == pre && action == ResolverAction::KeepWaiting
}

/// A matched final answer: the query succeeds carrying the decoded
/// message, whatever its RCODE, and nothing is added to the history.
pub open spec fn succeeded_with(
    pre: PendingQuery,
    post: PendingQuery,
    action: ResolverAction,
    sm: SpecMessage,
) -> bool {
    &&& unchanged_core(pre, post)
    &&& post.history == pre.history
    &&& post.current == pre.current
    &&& (post.phase matches ResolvePhase::Succeeded(m) && m@ == sm)
    &&& action == ResolverAction::Finished
}

/// The whole transition relation of the resolver: what each event does
/// to a pending query in each phase. This is the state machine's
/// contract; `on_event` is proved to implement exactly this.
pub open spec fn step_spec(
    pre: PendingQuery,
    event: TransportEvent,
    post: PendingQuery,
    action: ResolverAction,
) -> bool {
    if pre.is_done() {
        post == pre && action == ResolverAction::Finished
    } else if pre.phase is AwaitingUdp {
        match event {
            TransportEvent::Datagram(bytes) => match parse_message(bytes@) {
                Err(e) => advanced(pre, post, action, AttemptError::Malformed(e)),
                Ok(sm) => if !spec_matches(pre.trans_id, pre.question@, sm) {
                    ignored(pre, post, action)
                } else if sm.is_truncated() {
                    unchanged_core(pre, post) && post.history == pre.history && post.current
                        == pre.current && post.phase is AwaitingTcp && action
                        == ResolverAction::SendTcp(pre.current)
                } else {
                    succeeded_with(pre, post, action, sm)
                },
            },
            TransportEvent::TcpReply(_) => ignored(pre, post, action),
            TransportEvent::Timeout => advanced(pre, post, action, AttemptError::Timeout),
            TransportEvent::SendFailed => advanced(pre, post, action, AttemptError::SendFailed),
            TransportEvent::Unreachable => advanced(pre, post, action, AttemptError::Unreachable),
            TransportEvent::TcpFailed => advanced(pre, post, action, AttemptError::TcpFailed),
        }
    } else {
        match event {
            TransportEvent::TcpReply(bytes) => match parse_message(bytes@) {
                Err(e) => advanced(pre, post, action, AttemptError::Malformed(e)),
                Ok(sm) => if spec_matches(pre.trans_id, pre.question@, sm) {
                    succeeded_with(pre, post, action, sm)
                } else {
                    advanced(pre, post, action, AttemptError::Mismatched)
                },
            },
            TransportEvent::Datagram(_) => ignored(pre, post, action),
            TransportEvent::Timeout => advanced(pre, post, action, AttemptError::Timeout),
            TransportEvent::SendFailed => advanced(pre, post, action, AttemptError::SendFailed),
            TransportEvent::Unreachable => advanced(pre, post, action, AttemptError::Unreachable),
            TransportEvent::TcpFailed => advanced(pre, post, action, AttemptError::TcpFailed),
        }
    }
}

impl PendingQuery {
    /// Record a failed attempt against the current server and move to
    /// the next, or fail when none is left.
    fn record_failure(&mut self, err: AttemptError) -> (action: ResolverAction)
        requires
            old(self).wf(),
            !old(self).is_done(),
        ensures
            final(self).wf(),
            advanced(*old(self), *final(self), action, err),
    {
        let n = self.servers.len();
        self.history.push(AttemptRecord { server_index: self.current, error: err });
        self.current = self.current + 1;
        if self.current < n {
            self.phase = ResolvePhase::AwaitingUdp;
            ResolverAction::SendUdp(self.current)
        } else {
            self.phase = ResolvePhase::Failed;
            ResolverAction::Finished
        }
    }

    /// Feed one transport event to the state machine and learn what to
    /// do next: exactly the transition `step_spec` describes.
    pub fn on_event(&mut self, event: TransportEvent) -> (action: ResolverAction)
        requires
            old(self).wf(),
        ensures
            final(self).wf(),
            step_spec(*old(self), event, *final(self), action),
    {
        let done = match &self.phase {
            ResolvePhase::Succeeded(_) => true,
            ResolvePhase::Failed => true,
            _ => false,
        };
        if done {
            return ResolverAction::Finished;
        }
        let awaiting_udp = match &self.phase {
            ResolvePhase::AwaitingUdp => true,
            _ => false,
        };
        if awaiting_udp {
            match event {
                TransportEvent::Datagram(bytes) => match crate::codec::decode(bytes.as_slice()) {
                    Err(e) => self.record_failure(AttemptError::Malformed(e)),
                    Ok(m) => {
                        if !response_matches(self.trans_id, &self.question, &m) {
                            ResolverAction::KeepWaiting
                        } else if m.is_truncated() {
                            self.phase = ResolvePhase::AwaitingTcp;
                            ResolverAction::SendTcp(self.current)
                        } else {
                            self.phase = ResolvePhase::Succeeded(m);
                            ResolverAction::Finished
                        }
                    },
                },
                TransportEvent::TcpReply(_) => ResolverAction::KeepWaiting,
                TransportEvent::Timeout => self.record_failure(AttemptError::Timeout),
                TransportEvent::SendFailed => self.record_failure(AttemptError::SendFailed),
                TransportEvent::Unreachable => self.record_failure(AttemptError::Unreachable),
                TransportEvent::TcpFailed => self.record_failure(AttemptError::TcpFailed),
            }
        } else {
            match event {
                TransportEvent::TcpReply(bytes) => match crate::codec::decode(bytes.as_slice()) {
                    Err(e) => self.record_failure(AttemptError::Malformed(e)),
                    Ok(m) => {
                        if response_matches(self.trans_id, &self.question, &m) {
                            self.phase = ResolvePhase::Succeeded(m);
                            ResolverAction::Finished
                        } else {
                            self.record_failure(AttemptError::Mismatched)
                        }
                    },
                },
                TransportEvent::Datagram(_) => ResolverAction::KeepWaiting,
                TransportEvent::Timeout => self.record_failure(AttemptError::Timeout),
                TransportEvent::SendFailed => self.record_failure(AttemptError::SendFailed),
                TransportEvent::Unreachable => self.record_failure(AttemptError::Unreachable),
                TransportEvent::TcpFailed => self.record_failure(AttemptError::TcpFailed),
            }
        }
    }
}

/// Open a pending query over a question already encoded to its wire
/// bytes: the first server is tried at once, or the query fails
/// immediately when the server list is empty.
pub fn start(
    question: QueryZone,
    trans_id: u16,
    query_bytes: Vec<u8>,
    servers: Vec<String>,
) -> (r: (PendingQuery, ResolverAction))
    requires
        trans_id != 0,
    ensures
        r.0.wf(),
        r.0.trans_id == trans_id,
        r.0.question == question,
        r.0.query_bytes == query_bytes,
        r.0.servers == servers,
        r.0.history@ == Seq::<AttemptRecord>::empty(),
        r.0.current == 0,
        servers@.len() == 0 ==> r.0.phase is Failed && r.1 == ResolverAction::Finished,
        servers@.len() > 0 ==> r.0.phase is AwaitingUdp && r.1 == ResolverAction::SendUdp(0usize),
{
    let empty = servers.len() == 0;
    let pq = PendingQuery {
        trans_id,
        question,
        query_bytes,
        servers,
        current: 0,
        history: Vec::new(),
        phase: if empty {
            ResolvePhase::Failed
        } else {
            ResolvePhase::AwaitingUdp
        },
    };
    let action = if empty {
        ResolverAction::Finished
    } else {
        ResolverAction::SendUdp(0)
    };
    (pq, action)
}

/// The message a query sends: the transaction ID, the RD flag per the
/// query type, and the single question.
pub open spec fn query_message(trans_id: u16, qtype: DnsQueryType, q: SpecQuestion) -> SpecMessage {
    SpecMessage {
        transaction_id: trans_id,
        flags: (crate::dns::FLAG_RD * qtype.spec_value()) as u16,
        query_count: 1,
        answer_count: 0,
        authority_count: 0,
        additional_count: 0,
        queries: seq![q],
        answers: Seq::empty(),
        authority: Seq::empty(),
        additional: Seq::empty(),
    }
}

/// Issue a query for the configured hostname: build the question for
/// the Internet class, encode the message with a fresh non-zero
/// transaction ID and the RD flag per the query type, and open the
/// pending query over the configured servers. Succeeds exactly when
/// the hostname's labels fit the wire; the caller then performs the
/// returned action.
pub fn query(config: AppConfig, qtype: DnsQueryType, rtype: DnsRecordType, trans_id: u16) -> (r:
    Result<(PendingQuery, ResolverAction), EncodeError>)
    requires
        trans_id != 0,
    ensures
        ({
            let name = crate::dns::spec_split_labels(
                vstd::utf8::encode_utf8(config.hostname@),
            );
            let q = SpecQuestion {
                name,
                qtype: rtype,
                qclass: DnsQueryClass::InternetClass,
            };
            match r {
                Ok(p) => {
                    &&& crate::codec::name_ok(name)
                    &&& p.0.wf()
                    &&& p.0.trans_id == trans_id
                    &&& p.0.question@ == q
                    &&& p.0.query_bytes@ == crate::codec::spec_encode(
                        query_message(trans_id, qtype, q),
                    )
                    &&& p.0.servers == config.dns_server
                    &&& p.0.history@ == Seq::<AttemptRecord>::empty()
                    &&& p.0.current == 0
                    &&& config.dns_server@.len() == 0 ==> p.0.phase is Failed && p.1
                        == ResolverAction::Finished
                    &&& config.dns_server@.len() > 0 ==> p.0.phase is AwaitingUdp && p.1
                        == ResolverAction::SendUdp(0usize)
                },
                Err(e) => e == EncodeError::NameTooLong && !crate::codec::name_ok(name),
            }
        }),
{
    let name = DomainName::from_hostname(config.hostname.as_str().as_bytes());
    let question = QueryZone::new(name, rtype, DnsQueryClass::InternetClass);
    let mut msg = DnsMessage::new(trans_id);
    msg.set_query(config.hostname, qtype, rtype);
    proof {
        let fv = (crate::dns::FLAG_RD * qtype.spec_value()) as u16;
        assert(0u16 | fv == fv) by (bit_vector);
        assert(msg@ =~~= query_message(trans_id, qtype, question@));
    }
    let bytes = match crate::codec::encode(&msg) {
        Ok(b) => b,
        Err(e) => {
            proof {
                lemma_query_message_fits(trans_id, qtype, question@);
            }
            return Err(e);
        },
    };
    Ok(start(question, trans_id, bytes, config.dns_server))
}

/// A single-question query message whose name fits the wire always
/// fits the classic UDP limit: its size is at most the header plus a
/// 255-byte name plus four bytes.
proof fn lemma_query_message_fits(trans_id: u16, qtype: DnsQueryType, q: SpecQuestion)
    ensures
        crate::codec::msg_names_ok(query_message(trans_id, qtype, q)) == crate::codec::name_ok(
            q.name,
        ),
        crate::codec::name_ok(q.name) ==> crate::codec::sections_fit(
            query_message(trans_id, qtype, q),
        ),
{
    let m = query_message(trans_id, qtype, q);
    assert(m.queries[0] == q);
    if crate::codec::name_ok(q.name) {
        crate::codec::lemma_encoded_questions_len(m.queries);
        crate::codec::lemma_encoded_question_len(q);
        crate::codec::lemma_encoded_questions_len(m.queries.drop_first());
        assert(m.queries.drop_first() =~= Seq::<SpecQuestion>::empty());
        crate::codec::lemma_encoded_records_len(m.answers);
        crate::codec::lemma_encoded_records_len(m.authority);
        crate::codec::lemma_encoded_records_len(m.additional);
        assert(crate::codec::spec_encode(m).len() == 12 + crate::codec::name_wire_len(q.name) + 4);
        assert(crate::codec::spec_find_edns_size(m.additional) is None);
        assert(crate::codec::max_size(m) == crate::codec::CLASSIC_MAX_SIZE as int);
    } else {
        assert(!crate::codec::msg_names_ok(m));
    }
}

// ---------------------------------------------------------------------
// Laws of the state machine.
// ---------------------------------------------------------------------

/// A response whose transaction ID or question does not match the
/// pending query is ignored outright, and the matching response that
/// arrives afterwards — before the deadline — still succeeds: the
/// stray datagram changes nothing.
pub proof fn lemma_late_match_still_succeeds(
    pre: PendingQuery,
    mid: PendingQuery,
    post: PendingQuery,
    stray: Seq<u8>,
    good: Seq<u8>,
    e1: TransportEvent,
    e2: TransportEvent,
    a1: ResolverAction,
    a2: ResolverAction,
    sm1: SpecMessage,
    sm2: SpecMessage,
)
    requires
        pre.phase is AwaitingUdp,
        e1 matches TransportEvent::Datagram(b1) && b1@ == stray,
        parse_message(stray) == Ok::<SpecMessage, DecodeError>(sm1),
        !spec_matches(pre.trans_id, pre.question@, sm1),
        step_spec(pre, e1, mid, a1),
        e2 matches TransportEvent::Datagram(b2) && b2@ == good,
        parse_message(good) == Ok::<SpecMessage, DecodeError>(sm2),
        spec_matches(pre.trans_id, pre.question@, sm2),
        !sm2.is_truncated(),
        step_spec(mid, e2, post, a2),
    ensures
        mid == pre,
        a1 == ResolverAction::KeepWaiting,
        post.phase matches ResolvePhase::Succeeded(m) && m@ == sm2,
        a2 == ResolverAction::Finished,
        post.history == pre.history,
{
}

/// A matched truncated UDP response triggers exactly one TCP retry,
/// to the same server, and a matched framed TCP reply is then the
/// final answer: no further retry and no failure entry.
pub proof fn lemma_truncated_then_tcp(
    pre: PendingQuery,
    mid: PendingQuery,
    post: PendingQuery,
    udp: Seq<u8>,
    tcp: Seq<u8>,
    e1: TransportEvent,
    e2: TransportEvent,
    a1: ResolverAction,
    a2: ResolverAction,
    sm1: SpecMessage,
    sm2: SpecMessage,
)
    requires
        pre.phase is AwaitingUdp,
        e1 matches TransportEvent::Datagram(b1) && b1@ == udp,
        parse_message(udp) == Ok::<SpecMessage, DecodeError>(sm1),
        spec_matches(pre.trans_id, pre.question@, sm1),
        sm1.is_truncated(),
        step_spec(pre, e1, mid, a1),
        e2 matches TransportEvent::TcpReply(b2) && b2@ == tcp,
        parse_message(tcp) == Ok::<SpecMessage, DecodeError>(sm2),
        spec_matches(pre.trans_id, pre.question@, sm2),
        step_spec(mid, e2, post, a2),
    ensures
        a1 == ResolverAction::SendTcp(pre.current),
        mid.phase is AwaitingTcp,
        mid.current == pre.current,
        post.phase matches ResolvePhase::Succeeded(m) && m@ == sm2,
        a2 == ResolverAction::Finished,
        post.history == pre.history,
{
}

} // verus!