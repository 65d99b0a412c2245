use dnsfwd::message::{Answer, Dns};

/// A 512-byte datagram whose first bytes are `prefix`, zero-filled after it.
fn client_datagram(prefix: &[u8]) -> [u8; 512] {
    let mut buf = [0u8; 512];
    buf[..prefix.len()].copy_from_slice(prefix);
    buf
}

/// Transaction 0x1337, one question for www.example.com, type A, class IN.
fn client_query_bytes() -> Vec<u8> {
    vec![
        0x13, 0x37, 0x01, 0x00, 0x00, 0x01, 0x00, 0x00, 0x00, 0x00, 0x00, 0x00, 0x03, 0x77,
        0x77, 0x77, 0x07, 0x65, 0x78, 0x61, 0x6D, 0x70, 0x6C, 0x65, 0x03, 0x63, 0x6F, 0x6D,
        0x00, 0x00, 0x01, 0x00, 0x01,
    ]
}

#[test]
fn request_builds_fresh_upstream_query() {
    let payload = client_datagram(&client_query_bytes());
    let d = Dns::parse(&payload).unwrap();
    let forward = Dns::request(d.query);
    assert_eq!(forward.transaction_id, [0x13, 0x37]);
    assert_eq!(forward.flags, 0x0100);
    assert_eq!(forward.question_count, 1);
    assert_eq!(forward.answer_count, 0);
    assert_eq!(forward.authority_count, 0);
    assert_eq!(forward.additional_count, 0);
    assert_eq!(forward.query.domain_name_len, d.query.domain_name_len);
    assert_eq!(forward.query.domain_name, d.query.domain_name);
    assert!(forward.answer.is_none());
}

#[test]
fn respond_merges_upstream_answer() {
    let mut prefix = client_query_bytes();
    prefix[0] = 0xAB;
    prefix[1] = 0xCD;
    let payload = client_datagram(&prefix);
    let mut original = Dns::parse(&payload).unwrap();

    let answer = Answer {
        name: [0xC0, 0x0C],
        record_type: 1,
        record_class: 1,
        ttl: 0x26,
        rdata_len: 4,
        address: [142, 250, 200, 3],
    };
    let mut upstream = Dns::request(original.query);
    upstream.flags = 0x8180;
    upstream.answer_count = 1;
    upstream.answer = Some(answer);

    original.respond(&upstream);
    assert_eq!(original.transaction_id, [0xAB, 0xCD]);
    assert_eq!(original.flags, 0x8000);
    assert_eq!(original.question_count, 1);
    assert_eq!(original.answer_count, 1);
    assert_eq!(original.authority_count, 0);
    assert_eq!(original.additional_count, 0);
    let merged = original.answer.unwrap();
    assert_eq!(merged.name, [0xC0, 0x0C]);
    assert_eq!(merged.ttl, 0x26);
    assert_eq!(merged.address, [142, 250, 200, 3]);
}

#[test]
fn forwarded_response_ends_in_upstream_address() {
    let payload = client_datagram(&client_query_bytes());
    let mut original = Dns::parse(&payload).unwrap();

    let mut upstream = Dns::request(original.query);
    upstream.flags = 0x8180;
    upstream.answer_count = 1;
    upstream.answer = Some(Answer {
        name: [0xC0, 0x0C],
        record_type: 1,
        record_class: 1,
        ttl: 0x26,
        rdata_len: 4,
        address: [0x8E, 0xFA, 0xC8, 0x03],
    });

    original.respond(&upstream);
    let mut out = [0u8; 512];
    let len = original.serialise(&mut out).unwrap();
    assert_eq!(len, 49);
    assert_eq!(&out[len - 4..len], &[0x8E, 0xFA, 0xC8, 0x03]);
    assert_eq!(&out[0..2], &[0x13, 0x37]);
    assert_eq!(&out[2..4], &[0x80, 0x00]);
    assert_eq!(&out[6..8], &[0x00, 0x01]);
}

#[test]
fn append_to_buffer_advances_offset() {
    let mut buf = [0u8; 512];
    let mut buf_ptr: usize = 5;
    Dns::append_to_buffer(&mut buf, &mut buf_ptr, &[1, 2, 3]);
    assert_eq!(buf_ptr, 8);
    assert_eq!(&buf[..9], &[0, 0, 0, 0, 0, 1, 2, 3, 0]);
}
