//! The properties the codec is answerable for, proved once and for all:
//! rejection of malformed names and multi-question headers, the bound on an
//! accepted name, uniqueness of the parse, and the round trip from a
//! well-formed message through its serialisation back to itself.

use vstd::prelude::*;

use crate::message::{answer_parses_to, parses_to, spec_serialise, spec_serialise_answer, Dns};
use crate::wire::{
    be16, be16_bytes, be32, be32_bytes, lemma_scan_name_agree, parse_error, scan_name, DnsError,
};

verus! {

/// Reading back the two big-endian bytes of a 16-bit value recovers it.
proof fn lemma_be16_bytes_roundtrip(x: u16)
    ensures
        be16(be16_bytes(x)[0], be16_bytes(x)[1]) == x,
{
    assert(x / 0x100 <= 0xff);
}

/// Reading back the four big-endian bytes of a 32-bit value recovers it.
proof fn lemma_be32_bytes_roundtrip(x: u32)
    ensures
        be32(be32_bytes(x)[0], be32_bytes(x)[1], be32_bytes(x)[2], be32_bytes(x)[3]) == x,
{
    let hi: u16 = (x / 0x1_0000) as u16;
    let lo: u16 = (x % 0x1_0000) as u16;
    lemma_be16_bytes_roundtrip(hi);
    lemma_be16_bytes_roundtrip(lo);
    assert(x / 0x1_0000 <= 0xffff);
    assert(hi * 0x1_0000 + lo == x);
}

/// A label length byte of 64 or more stops the name scan with `LabelTooLong`,
/// wherever in the name it occurs.
pub proof fn lemma_label_too_long_rejected(s: Seq<u8>, ptr: int)
    requires
        s[ptr] > 63,
    ensures
        scan_name(s, ptr) == Err::<int, DnsError>(DnsError::LabelTooLong),
{
}

/// A label that would carry the name past 253 encoded bytes stops the scan
/// with `NameTooLong`, wherever in the name it occurs.
pub proof fn lemma_name_too_long_rejected(s: Seq<u8>, ptr: int)
    requires
        s[ptr] <= 63,
        ptr + s[ptr] + 1 > 253,
    ensures
        scan_name(s, ptr) == Err::<int, DnsError>(DnsError::NameTooLong),
{
}

/// A header that declares more than one question is rejected with
/// `UnsupportedQuestionCount`, whatever the rest of the datagram holds.
pub proof fn lemma_multiple_questions_rejected(payload: Seq<u8>)
    requires
        be16(payload[4], payload[5]) > 1,
    ensures
        parse_error(payload) == Some(DnsError::UnsupportedQuestionCount),
{
}

/// A datagram decodes to at most one message: any two messages it parses to
/// are equal in every field.
pub proof fn lemma_parses_to_unique(payload: Seq<u8>, d1: Dns, d2: Dns)
    requires
        parses_to(payload, d1),
        parses_to(payload, d2),
    ensures
        d1 == d2,
{
    assert(d1.transaction_id =~= d2.transaction_id);
    assert(d1.query.domain_name =~= d2.query.domain_name);
    if d1.answer_count > 0 {
        let a1 = d1.answer->Some_0;
        let a2 = d2.answer->Some_0;
        assert(a1.name =~= a2.name);
        assert(a1.address =~= a2.address);
    }
}

/// Round trip: a 512-byte buffer whose prefix is the serialisation of a
/// well-formed message parses without error, and the one message it parses
/// to is that message, every field preserved exactly.
pub proof fn lemma_round_trip(m: Dns, payload: Seq<u8>)
    requires
        m.wf(),
        payload.len() == 512,
        payload.take(spec_serialise(m).len() as int) == spec_serialise(m),
    ensures
        parse_error(payload) is None,
        parses_to(payload, m),
{
    let ser = spec_serialise(m);
    let nlen: int = m.query.domain_name_len as int;
    let name_end: int = 12 + nlen;
    assert(m.transaction_id@.len() == 2);
    assert(m.query.name_seq().len() == nlen);
    assert(ser.len() == name_end + 4 + (if m.answer is Some { 16int } else { 0int }));

    assert forall|i: int| 0 <= i < ser.len() implies payload[i] == ser[i] by {
        assert(payload.take(ser.len() as int)[i] == payload[i]);
    }

    // The name region of the buffer carries exactly the stored name bytes.
    let s_pay = payload.skip(12);
    let s_name = m.query.name_seq();
    assert(forall|i: int| 0 <= i < nlen ==> s_pay[i] == #[trigger] ser[12 + i]);
    assert(forall|i: int| 0 <= i < nlen ==> #[trigger] ser[12 + i] == s_name[i]);
    lemma_scan_name_agree(s_name, s_pay, 0, nlen);
    assert(scan_name(s_pay, 0) == Ok::<int, DnsError>(nlen));

    lemma_be16_bytes_roundtrip(m.flags);
    lemma_be16_bytes_roundtrip(m.question_count);
    lemma_be16_bytes_roundtrip(m.answer_count);
    lemma_be16_bytes_roundtrip(m.authority_count);
    lemma_be16_bytes_roundtrip(m.additional_count);
    lemma_be16_bytes_roundtrip(m.query.record_type);
    lemma_be16_bytes_roundtrip(m.query.record_class);
    assert(be16(payload[4], payload[5]) == m.question_count);
    assert(parse_error(payload) is None);

    assert(m.transaction_id@ =~= seq![payload[0], payload[1]]);
    assert(m.query.domain_name@ =~= payload.subrange(12, name_end)
        + Seq::new((253 - nlen) as nat, |i: int| 0u8));
    assert(be16(payload[name_end], payload[name_end + 1]) == m.query.record_type);
    assert(be16(payload[name_end + 2], payload[name_end + 3]) == m.query.record_class);

    if m.answer is Some {
        let a = m.answer->Some_0;
        let off: int = name_end + 4;
        assert(a.name@.len() == 2);
        assert(a.address@.len() == 4);
        assert(forall|i: int| 0 <= i < 16 ==> #[trigger] payload[off + i]
            == spec_serialise_answer(a)[i]);
        lemma_be16_bytes_roundtrip(a.record_type);
        lemma_be16_bytes_roundtrip(a.record_class);
        lemma_be32_bytes_roundtrip(a.ttl);
        lemma_be16_bytes_roundtrip(a.rdata_len);
        assert(a.name@ =~= payload.subrange(off, off + 2));
        assert(a.address@ =~= payload.subrange(off + 12, off + 16));
        assert(answer_parses_to(payload, off, a));
    }
    assert(parses_to(payload, m));
}

} // verus!
