use dnsfwd::message::Dns;
use dnsfwd::wire::DnsError;

/// A 512-byte datagram whose first bytes are `prefix`, zero-filled after it.
fn datagram(prefix: &[u8]) -> [u8; 512] {
    let mut buf = [0u8; 512];
    buf[..prefix.len()].copy_from_slice(prefix);
    buf
}

/// Transaction 0x1337, one question for www.example.com, type A, class IN.
fn simple_query_bytes() -> Vec<u8> {
    vec![
        0x13, 0x37, 0x01, 0x00, 0x00, 0x01, 0x00, 0x00, 0x00, 0x00, 0x00, 0x00, 0x03, 0x77,
        0x77, 0x77, 0x07, 0x65, 0x78, 0x61, 0x6D, 0x70, 0x6C, 0x65, 0x03, 0x63, 0x6F, 0x6D,
        0x00, 0x00, 0x01, 0x00, 0x01,
    ]
}

#[test]
fn parses_simple_query() {
    let payload = datagram(&simple_query_bytes());
    let d = Dns::parse(&payload).unwrap();
    assert_eq!(d.transaction_id, [0x13, 0x37]);
    assert_eq!(d.flags, 0x0100);
    assert_eq!(d.question_count, 1);
    assert_eq!(d.answer_count, 0);
    assert_eq!(d.authority_count, 0);
    assert_eq!(d.additional_count, 0);
    assert_eq!(d.query.domain_name_len, 17);
    assert_eq!(
        &d.query.domain_name[..17],
        &simple_query_bytes()[12..29]
    );
    assert_eq!(d.query.record_type, 1);
    assert_eq!(d.query.record_class, 1);
    assert!(d.answer.is_none());
}

#[test]
fn rejects_label_too_long() {
    let mut prefix = vec![0u8; 12];
    prefix[5] = 1;
    prefix.push(64);
    let payload = datagram(&prefix);
    assert_eq!(Dns::parse(&payload).unwrap_err(), DnsError::LabelTooLong);
}

#[test]
fn rejects_name_too_long() {
    let mut prefix = vec![0u8; 12];
    prefix[5] = 1;
    for _ in 0..4 {
        prefix.push(63);
        prefix.extend(std::iter::repeat(0x61).take(63));
    }
    let payload = datagram(&prefix);
    assert_eq!(Dns::parse(&payload).unwrap_err(), DnsError::NameTooLong);
}

#[test]
fn rejects_two_questions() {
    let mut prefix = vec![0u8; 12];
    prefix[5] = 2;
    let payload = datagram(&prefix);
    assert_eq!(
        Dns::parse(&payload).unwrap_err(),
        DnsError::UnsupportedQuestionCount
    );
}

#[test]
fn question_count_checked_before_name() {
    let mut prefix = vec![0u8; 12];
    prefix[5] = 2;
    prefix.push(64);
    let payload = datagram(&prefix);
    assert_eq!(
        Dns::parse(&payload).unwrap_err(),
        DnsError::UnsupportedQuestionCount
    );
}

#[test]
fn accepts_name_of_exactly_253_bytes() {
    let mut prefix = vec![0u8; 12];
    prefix[5] = 1;
    for _ in 0..4 {
        prefix.push(62);
        prefix.extend(std::iter::repeat(0x61).take(62));
    }
    prefix.push(0);
    prefix.extend([0x00, 0x01, 0x00, 0x01]);
    let payload = datagram(&prefix);
    let d = Dns::parse(&payload).unwrap();
    assert_eq!(d.query.domain_name_len, 253);
    assert_eq!(d.query.record_type, 1);
}

#[test]
fn rejects_name_of_254_bytes() {
    let mut prefix = vec![0u8; 12];
    prefix[5] = 1;
    for _ in 0..3 {
        prefix.push(62);
        prefix.extend(std::iter::repeat(0x61).take(62));
    }
    prefix.push(63);
    prefix.extend(std::iter::repeat(0x61).take(63));
    prefix.push(0);
    let payload = datagram(&prefix);
    assert_eq!(Dns::parse(&payload).unwrap_err(), DnsError::NameTooLong);
}

#[test]
fn serialises_parsed_query_verbatim() {
    let bytes = simple_query_bytes();
    let payload = datagram(&bytes);
    let d = Dns::parse(&payload).unwrap();
    let mut out = [0u8; 512];
    let len = d.serialise(&mut out).unwrap();
    assert_eq!(len, bytes.len());
    assert_eq!(&out[..len], &bytes[..]);
}

#[test]
fn round_trips_query_without_answer() {
    let payload = datagram(&simple_query_bytes());
    let d = Dns::parse(&payload).unwrap();
    let mut out = [0u8; 512];
    let len = d.serialise(&mut out).unwrap();
    let d2 = Dns::parse(&out).unwrap();
    let d = Dns::parse(&payload).unwrap();
    assert_eq!(len, 33);
    assert_eq!(d2.transaction_id, d.transaction_id);
    assert_eq!(d2.flags, d.flags);
    assert_eq!(d2.question_count, d.question_count);
    assert_eq!(d2.answer_count, d.answer_count);
    assert_eq!(d2.authority_count, d.authority_count);
    assert_eq!(d2.additional_count, d.additional_count);
    assert_eq!(d2.query.domain_name, d.query.domain_name);
    assert_eq!(d2.query.domain_name_len, d.query.domain_name_len);
    assert_eq!(d2.query.record_type, d.query.record_type);
    assert_eq!(d2.query.record_class, d.query.record_class);
    assert!(d2.answer.is_none());
}

/// The simple query answered upstream with 142.250.200.3, TTL 0x26.
fn upstream_reply_bytes() -> Vec<u8> {
    let mut bytes = simple_query_bytes();
    bytes[2] = 0x81;
    bytes[3] = 0x80;
    bytes[7] = 0x01;
    bytes.extend([
        0xC0, 0x0C, 0x00, 0x01, 0x00, 0x01, 0x00, 0x00, 0x00, 0x26, 0x00, 0x04, 0x8E, 0xFA,
        0xC8, 0x03,
    ]);
    bytes
}

#[test]
fn parses_reply_with_answer() {
    let payload = datagram(&upstream_reply_bytes());
    let d = Dns::parse(&payload).unwrap();
    assert_eq!(d.answer_count, 1);
    let a = d.answer.unwrap();
    assert_eq!(a.name, [0xC0, 0x0C]);
    assert_eq!(a.record_type, 1);
    assert_eq!(a.record_class, 1);
    assert_eq!(a.ttl, 0x26);
    assert_eq!(a.rdata_len, 4);
    assert_eq!(a.address, [142, 250, 200, 3]);
}

#[test]
fn round_trips_reply_with_answer() {
    let bytes = upstream_reply_bytes();
    let payload = datagram(&bytes);
    let d = Dns::parse(&payload).unwrap();
    let mut out = [0u8; 512];
    let len = d.serialise(&mut out).unwrap();
    assert_eq!(len, bytes.len());
    assert_eq!(&out[..len], &bytes[..]);
    let d2 = Dns::parse(&out).unwrap();
    let d = Dns::parse(&payload).unwrap();
    assert_eq!(d2.transaction_id, d.transaction_id);
    assert_eq!(d2.flags, d.flags);
    assert_eq!(d2.query.domain_name, d.query.domain_name);
    let a = d.answer.unwrap();
    let a2 = d2.answer.unwrap();
    assert_eq!(a2.name, a.name);
    assert_eq!(a2.record_type, a.record_type);
    assert_eq!(a2.record_class, a.record_class);
    assert_eq!(a2.ttl, a.ttl);
    assert_eq!(a2.rdata_len, a.rdata_len);
    assert_eq!(a2.address, a.address);
}
