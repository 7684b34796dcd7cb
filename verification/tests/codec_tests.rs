use dig_rs::codec::{decode, encode, DecodeError, EncodeError};
use dig_rs::dns::{
    DnsMessage, DnsMessageSection, DnsQueryClass, DnsQueryType, DnsRecordType, DomainName,
    QueryZone, RData, ResourceRecord,
};

fn name(parts: &[&str]) -> DomainName {
    DomainName {
        labels: parts.iter().map(|p| p.as_bytes().to_vec()).collect(),
    }
}

fn question(parts: &[&str], qtype: DnsRecordType, qclass: DnsQueryClass) -> QueryZone {
    QueryZone {
        qz_name: name(parts),
        qz_type: qtype,
        qz_class: qclass,
    }
}

fn labels_of(n: &DomainName) -> Vec<Vec<u8>> {
    n.labels.clone()
}

#[test]
fn test_record_type_wire_values() {
    assert_eq!(DnsRecordType::A.value(), 1);
    assert_eq!(DnsRecordType::NS.value(), 2);
    assert_eq!(DnsRecordType::CNAME.value(), 5);
    assert_eq!(DnsRecordType::SOA.value(), 6);
    assert_eq!(DnsRecordType::PTR.value(), 12);
    assert_eq!(DnsRecordType::MX.value(), 15);
    assert_eq!(DnsRecordType::TXT.value(), 16);
    assert_eq!(DnsRecordType::AAAA.value(), 28);
    assert_eq!(DnsRecordType::SRV.value(), 33);
    assert_eq!(DnsRecordType::NAPTR.value(), 35);
    assert_eq!(DnsRecordType::OPT.value(), 41);
    assert_eq!(DnsRecordType::IXFR.value(), 251);
    assert_eq!(DnsRecordType::AXFR.value(), 252);
    assert_eq!(DnsRecordType::ANY.value(), 255);
    assert_eq!(DnsQueryType::Iterative.value(), 0);
    assert_eq!(DnsQueryType::Recursive.value(), 1);
    assert_eq!(DnsQueryClass::InternetClass.wire_value(), 1);
    assert_eq!(DnsQueryClass::NoClass.wire_value(), 254);
    assert_eq!(DnsQueryClass::AllClass.wire_value(), 255);
}

#[test]
fn test_record_type_from_wire_roundtrip() {
    for v in [1u16, 2, 5, 6, 12, 15, 16, 28, 33, 35, 41, 251, 252, 255, 7, 999] {
        let t = DnsRecordType::from_wire(v);
        assert_eq!(t.wire_value(), v);
    }
    assert_eq!(DnsRecordType::from_wire(1), DnsRecordType::A);
    assert_eq!(DnsRecordType::from_wire(999), DnsRecordType::Unknown(999));
    assert_eq!(DnsQueryClass::from_wire(1), DnsQueryClass::InternetClass);
    assert_eq!(DnsQueryClass::from_wire(7), DnsQueryClass::Unknown(7));
}

#[test]
fn test_from_hostname_splits_on_dots() {
    let n = DomainName::from_hostname(b"example.com");
    assert_eq!(n.labels, vec![b"example".to_vec(), b"com".to_vec()]);
    let n2 = DomainName::from_hostname(b"a..b");
    assert_eq!(n2.labels, vec![b"a".to_vec(), Vec::new(), b"b".to_vec()]);
}

#[test]
fn test_new_message_is_empty() {
    let m = DnsMessage::new(0x1234);
    assert_eq!(m.transaction_id, 0x1234);
    assert_eq!(m.flags, 0);
    assert_eq!(m.query_count, 0);
    assert_eq!(m.answer_count, 0);
    assert_eq!(m.authority_count, 0);
    assert_eq!(m.additional_count, 0);
    assert!(m.records.queries.is_empty());
    assert!(m.records.answers.is_empty());
}

#[test]
fn test_set_query_sets_rd_and_question() {
    let mut m = DnsMessage::new(7);
    m.set_query(
        String::from("example.com"),
        DnsQueryType::Recursive,
        DnsRecordType::A,
    );
    assert_eq!(m.flags, 0x0100);
    assert_eq!(m.query_count, 1);
    assert_eq!(m.records.queries.len(), 1);
    assert_eq!(
        m.records.queries[0].qz_name.labels,
        vec![b"example".to_vec(), b"com".to_vec()]
    );
    assert_eq!(m.records.queries[0].qz_type, DnsRecordType::A);
    assert_eq!(m.records.queries[0].qz_class, DnsQueryClass::InternetClass);

    let mut m2 = DnsMessage::new(8);
    m2.set_query(
        String::from("example.com"),
        DnsQueryType::Iterative,
        DnsRecordType::AAAA,
    );
    assert_eq!(m2.flags, 0);
}

#[test]
fn test_encode_query_wire_layout() {
    let mut m = DnsMessage::new(0xabcd);
    m.set_query(String::from("ab.c"), DnsQueryType::Recursive, DnsRecordType::A);
    let b = encode(&m).unwrap();
    let expected: Vec<u8> = vec![
        0xab, 0xcd, // transaction id
        0x01, 0x00, // flags: RD
        0x00, 0x01, // one question
        0x00, 0x00, 0x00, 0x00, 0x00, 0x00, // no records
        2, b'a', b'b', 1, b'c', 0, // the name
        0x00, 0x01, // type A
        0x00, 0x01, // class Internet
    ];
    assert_eq!(b, expected);
}

#[test]
fn test_roundtrip_full_message() {
    let mut m = DnsMessage::new(42);
    m.flags = 0x8180;
    m.records.queries.push(question(
        &["example", "com"],
        DnsRecordType::A,
        DnsQueryClass::InternetClass,
    ));
    m.query_count = 1;
    m.records.answers.push(ResourceRecord {
        rr_name: name(&["example", "com"]),
        rr_type: DnsRecordType::A,
        rr_class: DnsQueryClass::InternetClass,
        rr_ttl: 3600,
        rr_data: RData::Ipv4(93, 184, 216, 34),
    });
    m.records.answers.push(ResourceRecord {
        rr_name: name(&["example", "com"]),
        rr_type: DnsRecordType::AAAA,
        rr_class: DnsQueryClass::InternetClass,
        rr_ttl: 60,
        rr_data: RData::Ipv6(vec![0x20, 1, 0xd, 0xb8, 0, 0, 0, 0, 0, 0, 0, 0, 0, 0, 0, 1]),
    });
    m.answer_count = 2;
    m.records.authority.push(ResourceRecord {
        rr_name: name(&["com"]),
        rr_type: DnsRecordType::NS,
        rr_class: DnsQueryClass::InternetClass,
        rr_ttl: 86400,
        rr_data: RData::Name(name(&["ns1", "example", "com"])),
    });
    m.authority_count = 1;
    m.records.additional.push(ResourceRecord {
        rr_name: name(&["example", "com"]),
        rr_type: DnsRecordType::TXT,
        rr_class: DnsQueryClass::InternetClass,
        rr_ttl: 30,
        rr_data: RData::Opaque(vec![4, b't', b'e', b's', b't']),
    });
    m.records.additional.push(ResourceRecord {
        rr_name: name(&["example", "com"]),
        rr_type: DnsRecordType::Unknown(4711),
        rr_class: DnsQueryClass::Unknown(9),
        rr_ttl: 1,
        rr_data: RData::Opaque(vec![1, 2, 3, 4]),
    });
    m.additional_count = 2;

    let bytes = encode(&m).unwrap();
    let m2 = decode(&bytes).unwrap();

    assert_eq!(m2.transaction_id, 42);
    assert_eq!(m2.flags, 0x8180);
    assert_eq!(m2.query_count, 1);
    assert_eq!(m2.answer_count, 2);
    assert_eq!(m2.authority_count, 1);
    assert_eq!(m2.additional_count, 2);
    assert_eq!(
        labels_of(&m2.records.queries[0].qz_name),
        vec![b"example".to_vec(), b"com".to_vec()]
    );
    assert_eq!(m2.records.queries[0].qz_type, DnsRecordType::A);
    assert!(matches!(
        m2.records.answers[0].rr_data,
        RData::Ipv4(93, 184, 216, 34)
    ));
    assert_eq!(m2.records.answers[0].rr_ttl, 3600);
    match &m2.records.answers[1].rr_data {
        RData::Ipv6(v) => assert_eq!(v.len(), 16),
        _ => panic!("expected an address payload"),
    }
    match &m2.records.authority[0].rr_data {
        RData::Name(n) => assert_eq!(
            labels_of(n),
            vec![b"ns1".to_vec(), b"example".to_vec(), b"com".to_vec()]
        ),
        _ => panic!("expected a name payload"),
    }
    match &m2.records.additional[1].rr_data {
        RData::Opaque(v) => assert_eq!(v, &vec![1, 2, 3, 4]),
        _ => panic!("expected an opaque payload"),
    }
    assert_eq!(m2.records.additional[1].rr_type, DnsRecordType::Unknown(4711));

    // Re-encoding the decoded message reproduces the bytes exactly.
    let bytes2 = encode(&m2).unwrap();
    assert_eq!(bytes, bytes2);
}

#[test]
fn test_decode_short_buffer_is_truncated() {
    for n in 0..12usize {
        let buf = vec![0u8; n];
        assert!(matches!(decode(&buf), Err(DecodeError::Truncated)));
    }
}

#[test]
fn test_decode_self_pointer_is_compression_loop() {
    // One question whose name is a pointer to its own offset.
    let mut buf = vec![0u8, 1, 0, 0, 0, 1, 0, 0, 0, 0, 0, 0];
    buf.extend_from_slice(&[0xc0, 0x0c]); // pointer to offset 12: itself
    buf.extend_from_slice(&[0, 1, 0, 1]);
    assert!(matches!(decode(&buf), Err(DecodeError::CompressionLoop)));
}

#[test]
fn test_decode_pointer_cycle_is_compression_loop() {
    // Two pointers that refer to each other.
    let mut buf = vec![0u8, 2, 0, 0, 0, 1, 0, 0, 0, 0, 0, 0];
    buf.extend_from_slice(&[0xc0, 0x0e]); // offset 12 points at offset 14
    buf.extend_from_slice(&[0xc0, 0x0c]); // offset 14 points back at 12
    buf.extend_from_slice(&[0, 1, 0, 1]);
    assert!(matches!(decode(&buf), Err(DecodeError::CompressionLoop)));
}

#[test]
fn test_decode_compressed_name_resolves() {
    // A response whose answer name points back into the question.
    let mut m = DnsMessage::new(9);
    m.records.queries.push(question(
        &["ab", "cd"],
        DnsRecordType::A,
        DnsQueryClass::InternetClass,
    ));
    m.query_count = 1;
    let mut buf = encode(&m).unwrap();
    // Append one answer record by hand: name is a pointer to offset 12.
    buf[7] = 1; // answer count 1
    buf.extend_from_slice(&[0xc0, 0x0c]); // pointer to the question name
    buf.extend_from_slice(&[0, 1, 0, 1]); // type A, class Internet
    buf.extend_from_slice(&[0, 0, 0, 5]); // ttl
    buf.extend_from_slice(&[0, 4, 10, 0, 0, 1]); // rdlength 4, address
    let m2 = decode(&buf).unwrap();
    assert_eq!(
        labels_of(&m2.records.answers[0].rr_name),
        vec![b"ab".to_vec(), b"cd".to_vec()]
    );
    assert!(matches!(m2.records.answers[0].rr_data, RData::Ipv4(10, 0, 0, 1)));
}

#[test]
fn test_decode_trailing_bytes_is_count_mismatch() {
    let mut m = DnsMessage::new(1);
    m.records.queries.push(question(
        &["x"],
        DnsRecordType::A,
        DnsQueryClass::InternetClass,
    ));
    m.query_count = 1;
    let mut buf = encode(&m).unwrap();
    buf.push(0);
    assert!(matches!(decode(&buf), Err(DecodeError::CountMismatch)));
}

#[test]
fn test_decode_reserved_label_tag_is_bad_label() {
    let mut buf = vec![0u8, 1, 0, 0, 0, 1, 0, 0, 0, 0, 0, 0];
    buf.extend_from_slice(&[0x50, 0, 0, 1, 0, 1]); // 0x50 uses the reserved tag
    assert!(matches!(decode(&buf), Err(DecodeError::BadLabel)));
}

#[test]
fn test_encode_long_label_is_name_too_long() {
    let mut m = DnsMessage::new(1);
    let long = vec![b'a'; 64];
    m.records.queries.push(QueryZone {
        qz_name: DomainName { labels: vec![long] },
        qz_type: DnsRecordType::A,
        qz_class: DnsQueryClass::InternetClass,
    });
    m.query_count = 1;
    assert!(matches!(encode(&m), Err(EncodeError::NameTooLong)));
}

#[test]
fn test_encode_empty_label_is_name_too_long() {
    let mut m = DnsMessage::new(1);
    m.records.queries.push(question(
        &["a", "", "b"],
        DnsRecordType::A,
        DnsQueryClass::InternetClass,
    ));
    m.query_count = 1;
    assert!(matches!(encode(&m), Err(EncodeError::NameTooLong)));
}

#[test]
fn test_encode_long_name_is_name_too_long() {
    // Five 63-byte labels make a 321-byte name, over the 255 limit.
    let mut m = DnsMessage::new(1);
    let labels: Vec<Vec<u8>> = (0..5).map(|_| vec![b'a'; 63]).collect();
    m.records.queries.push(QueryZone {
        qz_name: DomainName { labels },
        qz_type: DnsRecordType::A,
        qz_class: DnsQueryClass::InternetClass,
    });
    m.query_count = 1;
    assert!(matches!(encode(&m), Err(EncodeError::NameTooLong)));
}

#[test]
fn test_encode_over_classic_limit_is_section_too_large() {
    let mut m = DnsMessage::new(1);
    m.records.answers.push(ResourceRecord {
        rr_name: name(&["big"]),
        rr_type: DnsRecordType::TXT,
        rr_class: DnsQueryClass::InternetClass,
        rr_ttl: 0,
        rr_data: RData::Opaque(vec![0u8; 600]),
    });
    m.answer_count = 1;
    assert!(matches!(encode(&m), Err(EncodeError::SectionTooLarge)));
}

#[test]
fn test_opt_record_raises_size_limit() {
    // The same oversized message passes once an OPT pseudo-record
    // advertises a 4096-byte payload.
    let mut m = DnsMessage::new(1);
    m.records.answers.push(ResourceRecord {
        rr_name: name(&["big"]),
        rr_type: DnsRecordType::TXT,
        rr_class: DnsQueryClass::InternetClass,
        rr_ttl: 0,
        rr_data: RData::Opaque(vec![0u8; 600]),
    });
    m.answer_count = 1;
    m.records.additional.push(ResourceRecord {
        rr_name: DomainName::root(),
        rr_type: DnsRecordType::OPT,
        rr_class: DnsQueryClass::Unknown(4096),
        rr_ttl: 0,
        rr_data: RData::Opaque(Vec::new()),
    });
    m.additional_count = 1;
    let bytes = encode(&m).unwrap();
    let m2 = decode(&bytes).unwrap();
    assert_eq!(m2.records.additional[0].rr_type, DnsRecordType::OPT);
    assert_eq!(m2.records.additional[0].rr_class, DnsQueryClass::Unknown(4096));
}

#[test]
fn test_flag_helpers() {
    let mut m = DnsMessage::new(1);
    m.flags = 0x8203;
    assert!(m.is_response());
    assert!(m.is_truncated());
    assert_eq!(m.rcode(), 3);
    m.flags = 0x0100;
    assert!(!m.is_response());
    assert!(!m.is_truncated());
    assert_eq!(m.rcode(), 0);
}

#[test]
fn test_message_section_new_is_empty() {
    let s = DnsMessageSection::new();
    assert!(s.queries.is_empty());
    assert!(s.answers.is_empty());
    assert!(s.authority.is_empty());
    assert!(s.additional.is_empty());
}