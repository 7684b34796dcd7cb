use dig_rs::codec::encode;
use dig_rs::config::AppConfig;
use dig_rs::dns::{
    DnsMessage, DnsQueryClass, DnsQueryType, DnsRecordType, DomainName, QueryZone, RData,
    ResourceRecord,
};
use dig_rs::resolver::{
    query, AttemptError, ResolvePhase, ResolverAction, TransportEvent,
};
use dig_rs::transport::{frame_tcp, tcp_payload_len, unframe_tcp};

fn servers(addrs: &[&str]) -> Vec<String> {
    addrs.iter().map(|a| a.to_string()).collect()
}

fn example_config(hosts: &[&str]) -> AppConfig {
    AppConfig::new(String::from("example.com"), servers(hosts))
}

fn response_for(id: u16, flags: u16, answers: Vec<ResourceRecord>) -> Vec<u8> {
    let mut m = DnsMessage::new(id);
    m.flags = flags;
    m.records.queries.push(QueryZone {
        qz_name: DomainName::from_hostname(b"example.com"),
        qz_type: DnsRecordType::A,
        qz_class: DnsQueryClass::InternetClass,
    });
    m.query_count = 1;
    m.answer_count = answers.len() as u16;
    m.records.answers = answers;
    encode(&m).unwrap()
}

fn a_record(ttl: u32, addr: (u8, u8, u8, u8)) -> ResourceRecord {
    ResourceRecord {
        rr_name: DomainName::from_hostname(b"example.com"),
        rr_type: DnsRecordType::A,
        rr_class: DnsQueryClass::InternetClass,
        rr_ttl: ttl,
        rr_data: RData::Ipv4(addr.0, addr.1, addr.2, addr.3),
    }
}

#[test]
fn test_query_starts_against_first_server() {
    let (pq, action) = query(
        example_config(&["9.9.9.9", "8.8.8.8"]),
        DnsQueryType::Recursive,
        DnsRecordType::A,
        77,
    )
    .unwrap();
    assert_eq!(action, ResolverAction::SendUdp(0));
    assert_eq!(pq.trans_id, 77);
    assert_eq!(pq.servers, servers(&["9.9.9.9", "8.8.8.8"]));
    assert!(matches!(pq.phase, ResolvePhase::AwaitingUdp));
    assert!(pq.history.is_empty());
    // The query on the wire: RD set, one question for example.com A.
    assert_eq!(&pq.query_bytes[0..4], &[0, 77, 0x01, 0x00]);
}

#[test]
fn test_query_with_no_servers_fails_immediately() {
    let (pq, action) = query(
        example_config(&[]),
        DnsQueryType::Recursive,
        DnsRecordType::A,
        5,
    )
    .unwrap();
    assert_eq!(action, ResolverAction::Finished);
    assert!(matches!(pq.phase, ResolvePhase::Failed));
}

#[test]
fn test_query_bad_hostname_is_rejected() {
    let config = AppConfig::new(
        String::from_utf8(vec![b'a'; 300]).unwrap(),
        servers(&["9.9.9.9"]),
    );
    let r = query(config, DnsQueryType::Recursive, DnsRecordType::A, 5);
    assert!(r.is_err());
}

#[test]
fn test_end_to_end_single_a_record() {
    let (mut pq, action) = query(
        example_config(&["9.9.9.9"]),
        DnsQueryType::Recursive,
        DnsRecordType::A,
        100,
    )
    .unwrap();
    assert_eq!(action, ResolverAction::SendUdp(0));
    let reply = response_for(100, 0x8180, vec![a_record(3600, (93, 184, 216, 34))]);
    let action = pq.on_event(TransportEvent::Datagram(reply));
    assert_eq!(action, ResolverAction::Finished);
    match &pq.phase {
        ResolvePhase::Succeeded(m) => {
            assert_eq!(m.rcode(), 0);
            assert_eq!(m.records.answers.len(), 1);
            let rec = &m.records.answers[0];
            assert_eq!(rec.rr_type, DnsRecordType::A);
            assert_eq!(rec.rr_ttl, 3600);
            assert!(matches!(rec.rr_data, RData::Ipv4(93, 184, 216, 34)));
        }
        _ => panic!("expected success"),
    }
    assert!(pq.history.is_empty());
}

#[test]
fn test_mismatched_id_ignored_then_match_succeeds() {
    let (mut pq, _) = query(
        example_config(&["9.9.9.9"]),
        DnsQueryType::Recursive,
        DnsRecordType::A,
        100,
    )
    .unwrap();
    // A response for some other transaction is silently discarded.
    let stray = response_for(999, 0x8180, vec![a_record(1, (1, 2, 3, 4))]);
    let action = pq.on_event(TransportEvent::Datagram(stray));
    assert_eq!(action, ResolverAction::KeepWaiting);
    assert!(matches!(pq.phase, ResolvePhase::AwaitingUdp));
    assert!(pq.history.is_empty());
    // The matching response that arrives later still wins.
    let good = response_for(100, 0x8180, vec![a_record(60, (5, 6, 7, 8))]);
    let action = pq.on_event(TransportEvent::Datagram(good));
    assert_eq!(action, ResolverAction::Finished);
    assert!(matches!(pq.phase, ResolvePhase::Succeeded(_)));
}

#[test]
fn test_truncated_response_triggers_one_tcp_retry() {
    let (mut pq, _) = query(
        example_config(&["9.9.9.9"]),
        DnsQueryType::Recursive,
        DnsRecordType::A,
        100,
    )
    .unwrap();
    // TC=1: the server truncated the UDP answer.
    let truncated = response_for(100, 0x8380, Vec::new());
    let action = pq.on_event(TransportEvent::Datagram(truncated));
    assert_eq!(action, ResolverAction::SendTcp(0));
    assert!(matches!(pq.phase, ResolvePhase::AwaitingTcp));
    // The full answer arrives framed over TCP.
    let full = response_for(100, 0x8180, vec![a_record(3600, (93, 184, 216, 34))]);
    let framed = frame_tcp(&full);
    assert_eq!(framed.len(), full.len() + 2);
    assert_eq!(
        tcp_payload_len(framed[0], framed[1]) as usize,
        full.len()
    );
    let payload = unframe_tcp(&framed).unwrap();
    assert_eq!(payload, full);
    let action = pq.on_event(TransportEvent::TcpReply(payload));
    assert_eq!(action, ResolverAction::Finished);
    match &pq.phase {
        ResolvePhase::Succeeded(m) => assert_eq!(m.records.answers.len(), 1),
        _ => panic!("expected success"),
    }
    assert!(pq.history.is_empty());
}

#[test]
fn test_unframe_rejects_wrong_length() {
    assert_eq!(unframe_tcp(&[0]), None);
    assert_eq!(unframe_tcp(&[0, 3, 1, 2]), None);
    assert_eq!(unframe_tcp(&[0, 2, 1, 2]), Some(vec![1, 2]));
}

#[test]
fn test_nxdomain_is_success_with_rcode() {
    let (mut pq, _) = query(
        example_config(&["9.9.9.9"]),
        DnsQueryType::Recursive,
        DnsRecordType::A,
        100,
    )
    .unwrap();
    let reply = response_for(100, 0x8183, Vec::new());
    let action = pq.on_event(TransportEvent::Datagram(reply));
    assert_eq!(action, ResolverAction::Finished);
    match &pq.phase {
        ResolvePhase::Succeeded(m) => {
            assert_eq!(m.rcode(), 3);
            assert_eq!(m.records.answers.len(), 0);
        }
        _ => panic!("NXDOMAIN must be a protocol result, not a failure"),
    }
}

#[test]
fn test_first_server_timeout_second_answers() {
    let (mut pq, _) = query(
        example_config(&["9.9.9.9", "8.8.8.8"]),
        DnsQueryType::Recursive,
        DnsRecordType::A,
        100,
    )
    .unwrap();
    let action = pq.on_event(TransportEvent::Timeout);
    assert_eq!(action, ResolverAction::SendUdp(1));
    assert!(matches!(pq.phase, ResolvePhase::AwaitingUdp));
    let reply = response_for(100, 0x8180, vec![a_record(30, (9, 9, 9, 9))]);
    let action = pq.on_event(TransportEvent::Datagram(reply));
    assert_eq!(action, ResolverAction::Finished);
    assert!(matches!(pq.phase, ResolvePhase::Succeeded(_)));
    // The failure history records exactly the one timeout.
    assert_eq!(pq.history.len(), 1);
    assert_eq!(pq.history[0].server_index, 0);
    assert_eq!(pq.history[0].error, AttemptError::Timeout);
}

#[test]
fn test_all_servers_exhausted_fails_with_history() {
    let (mut pq, _) = query(
        example_config(&["9.9.9.9", "8.8.8.8"]),
        DnsQueryType::Recursive,
        DnsRecordType::A,
        100,
    )
    .unwrap();
    let action = pq.on_event(TransportEvent::Unreachable);
    assert_eq!(action, ResolverAction::SendUdp(1));
    let action = pq.on_event(TransportEvent::Timeout);
    assert_eq!(action, ResolverAction::Finished);
    assert!(matches!(pq.phase, ResolvePhase::Failed));
    assert_eq!(pq.history.len(), 2);
    assert_eq!(pq.history[0].error, AttemptError::Unreachable);
    assert_eq!(pq.history[0].server_index, 0);
    assert_eq!(pq.history[1].error, AttemptError::Timeout);
    assert_eq!(pq.history[1].server_index, 1);
}

#[test]
fn test_malformed_datagram_counts_against_server() {
    let (mut pq, _) = query(
        example_config(&["9.9.9.9"]),
        DnsQueryType::Recursive,
        DnsRecordType::A,
        100,
    )
    .unwrap();
    let action = pq.on_event(TransportEvent::Datagram(vec![1, 2, 3]));
    assert_eq!(action, ResolverAction::Finished);
    assert!(matches!(pq.phase, ResolvePhase::Failed));
    assert_eq!(pq.history.len(), 1);
    assert!(matches!(pq.history[0].error, AttemptError::Malformed(_)));
}

#[test]
fn test_terminal_phase_ignores_events() {
    let (mut pq, _) = query(
        example_config(&["9.9.9.9"]),
        DnsQueryType::Recursive,
        DnsRecordType::A,
        100,
    )
    .unwrap();
    pq.on_event(TransportEvent::Timeout);
    assert!(matches!(pq.phase, ResolvePhase::Failed));
    let action = pq.on_event(TransportEvent::Timeout);
    assert_eq!(action, ResolverAction::Finished);
    assert_eq!(pq.history.len(), 1);
}
#[test]
fn test_empty_hostname_is_rejected() {
    let config = AppConfig::new(String::new(), servers(&["9.9.9.9"]));
    let r = query(config, DnsQueryType::Recursive, DnsRecordType::A, 3);
    assert!(r.is_err());
}

#[test]
fn test_trailing_dot_makes_empty_label() {
    let config = AppConfig::new(String::from("example.com."), servers(&["9.9.9.9"]));
    let r = query(config, DnsQueryType::Recursive, DnsRecordType::A, 3);
    assert!(r.is_err());
}

#[test]
fn test_same_id_wrong_question_is_ignored() {
    let (mut pq, _) = query(
        example_config(&["9.9.9.9"]),
        DnsQueryType::Recursive,
        DnsRecordType::A,
        100,
    )
    .unwrap();
    // Same transaction ID, but the question section asks for another name.
    let mut m = DnsMessage::new(100);
    m.flags = 0x8180;
    m.records.queries.push(QueryZone {
        qz_name: DomainName::from_hostname(b"evil.example"),
        qz_type: DnsRecordType::A,
        qz_class: DnsQueryClass::InternetClass,
    });
    m.query_count = 1;
    let stray = encode(&m).unwrap();
    let action = pq.on_event(TransportEvent::Datagram(stray));
    assert_eq!(action, ResolverAction::KeepWaiting);
    assert!(matches!(pq.phase, ResolvePhase::AwaitingUdp));
    assert!(pq.history.is_empty());
}
