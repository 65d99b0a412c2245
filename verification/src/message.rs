//! Structured DNS messages over fixed 512-byte buffers: parsing a datagram
//! into a header, one question and an optional answer record, serialising a
//! message back into bytes, and the forwarding steps that build an upstream
//! query and merge its reply into the response for the original client.

use vstd::prelude::*;

use crate::wire::{
    be16, be16_bytes, be32, be32_bytes, parse_error, scan_name, DnsError, FLAGS_RESPONSE,
    MAX_LABEL_LEN, MAX_NAME_LEN,
};

verus! {

/// The question section of a message: a domain name kept in its raw
/// length-prefixed encoding, plus the query type and class.
#[derive(Debug, Clone, Copy)]
pub struct Query {
    /// Raw encoding of the domain name: each label preceded by its length
    /// byte, terminated by a zero-length label. Only the first
    /// `domain_name_len` bytes are meaningful; the rest are zero.
    pub domain_name: [u8; 253],
    /// Number of valid bytes in `domain_name`, terminating zero included.
    pub domain_name_len: usize,
    /// 16-bit query type, opaque pass-through.
    pub record_type: u16,
    /// 16-bit query class, opaque pass-through.
    pub record_class: u16,
}

/// One resource record in A-record shape.
#[derive(Debug, Clone, Copy)]
pub struct Answer {
    /// 2 raw bytes, in practice a compression pointer to the question name;
    /// treated opaquely and copied through.
    pub name: [u8; 2],
    /// 16-bit record type, opaque pass-through.
    pub record_type: u16,
    /// 16-bit record class, opaque pass-through.
    pub record_class: u16,
    /// Time-to-live in seconds.
    pub ttl: u32,
    /// Declared length of the address data.
    pub rdata_len: u16,
    /// 4 raw bytes: the IPv4 address.
    pub address: [u8; 4],
}

/// One parsed or to-be-serialised DNS message: the fixed header, exactly one
/// question, and zero or one answer record.
#[derive(Debug)]
pub struct Dns {
    /// 2 raw bytes, opaque correlation token copied verbatim between a
    /// request and its response.
    pub transaction_id: [u8; 2],
    /// 16-bit flags field; bit 15 distinguishes a response from a query.
    pub flags: u16,
    /// Declared number of questions; only 0 and 1 are accepted.
    pub question_count: u16,
    /// Declared number of answer records.
    pub answer_count: u16,
    /// Declared number of authority records.
    pub authority_count: u16,
    /// Declared number of additional records.
    pub additional_count: u16,
    /// The single question.
    pub query: Query,
    /// The answer record, present exactly when `answer_count > 0` at parse
    /// time.
    pub answer: Option<Answer>,
}

impl Query {
    /// The meaningful prefix of the stored domain name.
    pub open spec fn name_seq(self) -> Seq<u8> {
        self.domain_name@.take(self.domain_name_len as int)
    }

    /// Well-formedness: the stored bytes are a complete name encoding of
    /// exactly `domain_name_len` bytes, and the storage beyond it is zeroed.
    pub open spec fn wf(self) -> bool {
        &&& 1 <= self.domain_name_len <= 253
        &&& scan_name(self.name_seq(), 0) == Ok::<int, DnsError>(self.domain_name_len as int)
        &&& forall|i: int|
            self.domain_name_len <= i < 253 ==> self.domain_name@[i] == 0
    }
}

impl Dns {
    /// Well-formedness: at most one question, and an answer record stored
    /// exactly when the header claims one.
    pub open spec fn wf(self) -> bool {
        &&& self.question_count <= 1
        &&& self.answer is Some <==> self.answer_count > 0
        &&& self.query.wf()
    }
}

/// The answer record that the 16 bytes of `payload` starting at `off` decode
/// to.
pub open spec fn answer_parses_to(payload: Seq<u8>, off: int, a: Answer) -> bool {
    &&& a.name@ == payload.subrange(off, off + 2)
    &&& a.record_type == be16(payload[off + 2], payload[off + 3])
    &&& a.record_class == be16(payload[off + 4], payload[off + 5])
    &&& a.ttl == be32(payload[off + 6], payload[off + 7], payload[off + 8], payload[off + 9])
    &&& a.rdata_len == be16(payload[off + 10], payload[off + 11])
    &&& a.address@ == payload.subrange(off + 12, off + 16)
}

/// The message that a 512-byte datagram decodes to: header fields at their
/// fixed offsets, the domain name as the exact span the label scan accepts,
/// type and class right after it, and an answer record after those exactly
/// when the header declares one.
pub open spec fn parses_to(payload: Seq<u8>, d: Dns) -> bool {
    &&& parse_error(payload) is None
    &&& scan_name(payload.skip(12), 0) matches Ok(nlen) && {
        let name_end = 12 + nlen;
        &&& d.transaction_id@ == seq![payload[0], payload[1]]
        &&& d.flags == be16(payload[2], payload[3])
        &&& d.question_count == be16(payload[4], payload[5])
        &&& d.answer_count == be16(payload[6], payload[7])
        &&& d.authority_count == be16(payload[8], payload[9])
        &&& d.additional_count == be16(payload[10], payload[11])
        &&& d.query.domain_name_len == nlen
        &&& d.query.domain_name@ == payload.subrange(12, name_end)
            + Seq::new((253 - nlen) as nat, |i: int| 0u8)
        &&& d.query.record_type == be16(payload[name_end], payload[name_end + 1])
        &&& d.query.record_class == be16(payload[name_end + 2], payload[name_end + 3])
        &&& (d.answer_count > 0 ==> (d.answer matches Some(a)
            && answer_parses_to(payload, name_end + 4, a)))
        &&& (d.answer_count == 0 ==> d.answer is None)
    }
}

/// The byte encoding of an answer record.
pub open spec fn spec_serialise_answer(a: Answer) -> Seq<u8> {
    a.name@ + be16_bytes(a.record_type) + be16_bytes(a.record_class) + be32_bytes(a.ttl)
        + be16_bytes(a.rdata_len) + a.address@
}

/// The byte encoding of a whole message: the 12-byte header, the raw domain
/// name, question type and class, then the answer record if one is present.
pub open spec fn spec_serialise(d: Dns) -> Seq<u8> {
    d.transaction_id@ + be16_bytes(d.flags) + be16_bytes(d.question_count)
        + be16_bytes(d.answer_count) + be16_bytes(d.authority_count)
        + be16_bytes(d.additional_count) + d.query.name_seq()
        + be16_bytes(d.query.record_type) + be16_bytes(d.query.record_class)
        + (match d.answer {
            Some(a) => spec_serialise_answer(a),
            None => Seq::<u8>::empty(),
        })
}

/// Big-endian read of a 16-bit field.
fn read_u16(payload: &[u8; 512], off: usize) -> (x: u16)
    requires
        off + 2 <= 512,
    ensures
        x == be16(payload@[off as int], payload@[off as int + 1]),
{
    (payload[off] as u16) * 0x100 + payload[off + 1] as u16
}

/// Big-endian split of a 16-bit value into its two bytes.
fn u16_be(x: u16) -> (r: [u8; 2])
    ensures
        r@ == be16_bytes(x),
{
    let r = [(x / 0x100) as u8, (x % 0x100) as u8];
    proof {
        assert(r@ =~= be16_bytes(x));
    }
    r
}

impl Dns {
    /// Walks the length-prefixed labels that start at offset 12 and yields
    /// the encoded length of the domain name, terminating zero included, or
    /// the failure that stops the scan.
    #[verifier::loop_isolation(false)]
    fn decode_name_len(payload: &[u8; 512]) -> (r: Result<usize, DnsError>)
        ensures
            match r {
                Ok(n) => scan_name(payload@.skip(12), 0) == Ok::<int, DnsError>(n as int)
                    && 1 <= n <= 253,
                Err(e) => scan_name(payload@.skip(12), 0) == Err::<int, DnsError>(e),
            },
    {
        let ghost s = payload@.skip(12);
        let mut ptr: usize = 0;
        loop
            invariant
                ptr <= 253,
                scan_name(s, 0) == scan_name(s, ptr as int),
            decreases 253 - ptr,
        {
            let label_len: usize = payload[12 + ptr] as usize;
            proof {
                assert(s[ptr as int] == payload@[12 + ptr as int]);
            }
            if label_len > MAX_LABEL_LEN {
                return Err(DnsError::LabelTooLong);
            }
            let next: usize = ptr + label_len + 1;
            if next > MAX_NAME_LEN {
                return Err(DnsError::NameTooLong);
            }
            if label_len == 0 {
                return Ok(next);
            }
            ptr = next;
        }
    }

    /// Decodes a 512-byte datagram into a structured message: the header at
    /// its fixed offsets, the single question, and the answer record exactly
    /// when the header declares one. Rejects a header with more than one
    /// question, a label over 63 bytes, and a name over 253 bytes.
    pub fn parse(payload: &[u8; 512]) -> (r: Result<Dns, DnsError>)
        ensures
            match r {
                Ok(d) => parse_error(payload@) is None && parses_to(payload@, d) && d.wf(),
                Err(e) => parse_error(payload@) == Some(e),
            },
    {
        let transaction_id: [u8; 2] = [payload[0], payload[1]];
        let flags: u16 = read_u16(payload, 2);
        let question_count: u16 = read_u16(payload, 4);

        if question_count > 1 {
            return Err(DnsError::UnsupportedQuestionCount);
        }

        let answer_count: u16 = read_u16(payload, 6);
        let authority_count: u16 = read_u16(payload, 8);
        let additional_count: u16 = read_u16(payload, 10);

        let domain_name_len: usize = match Self::decode_name_len(payload) {
            Ok(n) => n,
            Err(e) => {
                return Err(e);
            },
        };

        let mut domain_name = [0u8; 253];
        let mut i: usize = 0;
        #[verifier::loop_isolation(false)]
        while i < domain_name_len
            invariant
                i <= domain_name_len,
                forall|j: int| 0 <= j < i ==> domain_name@[j] == payload@[12 + j],
                forall|j: int| i <= j < 253 ==> domain_name@[j] == 0,
            decreases domain_name_len - i,
        {
            domain_name[i] = payload[12 + i];
            i = i + 1;
        }

        let name_end: usize = 12 + domain_name_len;
        let record_type: u16 = read_u16(payload, name_end);
        let record_class: u16 = read_u16(payload, name_end + 2);
        let query_end: usize = name_end + 4;

        let answer: Option<Answer> = if answer_count > 0 {
            let name: [u8; 2] = [payload[query_end], payload[query_end + 1]];
            let ttl_hi: u16 = read_u16(payload, query_end + 6);
            let ttl_lo: u16 = read_u16(payload, query_end + 8);
            let address: [u8; 4] = [
                payload[query_end + 12],
                payload[query_end + 13],
                payload[query_end + 14],
                payload[query_end + 15],
            ];
            let a = Answer {
                name,
                record_type: read_u16(payload, query_end + 2),
                record_class: read_u16(payload, query_end + 4),
                ttl: (ttl_hi as u32) * 0x1_0000 + ttl_lo as u32,
                rdata_len: read_u16(payload, query_end + 10),
                address,
            };
            proof {
                assert(a.name@ =~= payload@.subrange(query_end as int, query_end as int + 2));
                assert(a.address@ =~= payload@.subrange(
                    query_end as int + 12,
                    query_end as int + 16,
                ));
            }
            Some(a)
        } else {
            None
        };

        let d = Dns {
            transaction_id,
            flags,
            question_count,
            answer_count,
            authority_count,
            additional_count,
            query: Query { domain_name, domain_name_len, record_type, record_class },
            answer,
        };
        proof {
            assert(d.transaction_id@ =~= seq![payload@[0], payload@[1]]);
            assert(d.query.domain_name@ =~= payload@.subrange(12, name_end as int)
                + Seq::new((253 - domain_name_len) as nat, |k: int| 0u8));
            assert(d.query.name_seq() =~= payload@.skip(12).take(domain_name_len as int));
            crate::wire::lemma_scan_name_within(payload@.skip(12), 0, domain_name_len as int);
            crate::wire::lemma_scan_name_agree(
                payload@.skip(12),
                d.query.name_seq(),
                0,
                domain_name_len as int,
            );
        }
        Ok(d)
    }

    /// Crafts the query that is forwarded to the upstream resolver: a fixed
    /// transaction id distinct from client traffic, plain-query flags with
    /// recursion desired, exactly one question, no records.
    pub fn request(query: Query) -> (r: Dns)
        ensures
            r.transaction_id@ == seq![0x13u8, 0x37u8],
            r.flags == 0x100,
            r.question_count == 1,
            r.answer_count == 0,
            r.authority_count == 0,
            r.additional_count == 0,
            r.query == query,
            r.answer is None,
            query.wf() ==> r.wf(),
    {
        let r = Dns {
            transaction_id: [0x13, 0x37],
            flags: 0x100,
            question_count: 1,
            answer_count: 0,
            authority_count: 0,
            additional_count: 0,
            query,
            answer: None,
        };
        proof {
            assert(r.transaction_id@ =~= seq![0x13u8, 0x37u8]);
        }
        r
    }

    /// Merges the upstream reply into this message, turning the original
    /// query into the response for the client: the response flag replaces the
    /// query's flags, the header claims exactly one answer and no other
    /// records, and the reply's answer is copied in. The transaction id and
    /// the question section stay untouched, preserving correlation with the
    /// original request.
    pub fn respond(&mut self, response_from_forward_dns: &Dns)
        ensures
            final(self).transaction_id == old(self).transaction_id,
            final(self).flags == FLAGS_RESPONSE,
            final(self).question_count == old(self).question_count,
            final(self).answer_count == 1,
            final(self).authority_count == 0,
            final(self).additional_count == 0,
            final(self).query == old(self).query,
            final(self).answer == response_from_forward_dns.answer,
            old(self).question_count <= 1 && old(self).query.wf()
                && response_from_forward_dns.answer is Some ==> final(self).wf(),
    {
        self.flags = FLAGS_RESPONSE;
        self.answer_count = 1;
        self.authority_count = 0;
        self.additional_count = 0;
        self.answer = response_from_forward_dns.answer;
    }

    /// Writes the message into `buf` and yields the number of bytes written:
    /// the 12-byte header, the raw domain name, question type and class, and
    /// the answer record if one is present. The bytes past the written prefix
    /// keep whatever the buffer held. Serialisation itself cannot fail.
    pub fn serialise(self, buf: &mut [u8; 512]) -> (r: Result<usize, DnsError>)
        requires
            self.query.domain_name_len <= 253,
        ensures
            r == Ok::<usize, DnsError>(spec_serialise(self).len() as usize),
            final(buf)@.take(spec_serialise(self).len() as int) == spec_serialise(self),
            forall|i: int|
                spec_serialise(self).len() <= i < 512 ==> final(buf)@[i] == old(buf)@[i],
    {
        let mut buf_ptr: usize = 0;
        let ghost mut written: Seq<u8> = Seq::empty();

        let field = self.transaction_id.as_slice();
        Self::append_to_buffer(buf, &mut buf_ptr, field);
        proof {
            written = written + field@;
            assert(buf@.take(buf_ptr as int) =~= written);
        }

        let flags_bytes = u16_be(self.flags);
        let field = flags_bytes.as_slice();
        Self::append_to_buffer(buf, &mut buf_ptr, field);
        proof {
            written = written + field@;
            assert(buf@.take(buf_ptr as int) =~= written);
        }

        let question_count_bytes = u16_be(self.question_count);
        let field = question_count_bytes.as_slice();
        Self::append_to_buffer(buf, &mut buf_ptr, field);
        proof {
            written = written + field@;
            assert(buf@.take(buf_ptr as int) =~= written);
        }

        let answer_count_bytes = u16_be(self.answer_count);
        let field = answer_count_bytes.as_slice();
        Self::append_to_buffer(buf, &mut buf_ptr, field);
        proof {
            written = written + field@;
            assert(buf@.take(buf_ptr as int) =~= written);
        }

        let authority_count_bytes = u16_be(self.authority_count);
        let field = authority_count_bytes.as_slice();
        Self::append_to_buffer(buf, &mut buf_ptr, field);
        proof {
            written = written + field@;
            assert(buf@.take(buf_ptr as int) =~= written);
        }

        let additional_count_bytes = u16_be(self.additional_count);
        let field = additional_count_bytes.as_slice();
        Self::append_to_buffer(buf, &mut buf_ptr, field);
        proof {
            written = written + field@;
            assert(buf@.take(buf_ptr as int) =~= written);
        }

        let field = vstd::slice::slice_subrange(
            self.query.domain_name.as_slice(),
            0,
            self.query.domain_name_len,
        );
        Self::append_to_buffer(buf, &mut buf_ptr, field);
        proof {
            written = written + field@;
            assert(buf@.take(buf_ptr as int) =~= written);
        }

        let record_type_bytes = u16_be(self.query.record_type);
        let field = record_type_bytes.as_slice();
        Self::append_to_buffer(buf, &mut buf_ptr, field);
        proof {
            written = written + field@;
            assert(buf@.take(buf_ptr as int) =~= written);
        }

        let record_class_bytes = u16_be(self.query.record_class);
        let field = record_class_bytes.as_slice();
        Self::append_to_buffer(buf, &mut buf_ptr, field);
        proof {
            written = written + field@;
            assert(buf@.take(buf_ptr as int) =~= written);
        }

        if let Some(answer) = self.answer {
            let field = answer.name.as_slice();
            Self::append_to_buffer(buf, &mut buf_ptr, field);
            proof {
                written = written + field@;
                assert(buf@.take(buf_ptr as int) =~= written);
            }

            let record_type_bytes = u16_be(answer.record_type);
            let field = record_type_bytes.as_slice();
            Self::append_to_buffer(buf, &mut buf_ptr, field);
            proof {
                written = written + field@;
                assert(buf@.take(buf_ptr as int) =~= written);
            }

            let record_class_bytes = u16_be(answer.record_class);
            let field = record_class_bytes.as_slice();
            Self::append_to_buffer(buf, &mut buf_ptr, field);
            proof {
                written = written + field@;
                assert(buf@.take(buf_ptr as int) =~= written);
            }

            let ttl_bytes = u32_be(answer.ttl);
            let field = ttl_bytes.as_slice();
            Self::append_to_buffer(buf, &mut buf_ptr, field);
            proof {
                written = written + field@;
                assert(buf@.take(buf_ptr as int) =~= written);
            }

            let rdata_len_bytes = u16_be(answer.rdata_len);
            let field = rdata_len_bytes.as_slice();
            Self::append_to_buffer(buf, &mut buf_ptr, field);
            proof {
                written = written + field@;
                assert(buf@.take(buf_ptr as int) =~= written);
            }

            let field = answer.address.as_slice();
            Self::append_to_buffer(buf, &mut buf_ptr, field);
            proof {
                written = written + field@;
                assert(buf@.take(buf_ptr as int) =~= written);
            }
        }

        proof {
            assert(written =~= spec_serialise(self));
        }
        Ok(buf_ptr)
    }

    /// Copies `bytes` into `buf` at the running offset `buf_ptr` and advances
    /// the offset by the number of bytes copied; everything outside the
    /// copied span keeps its value.
    pub fn append_to_buffer(buf: &mut [u8; 512], buf_ptr: &mut usize, bytes: &[u8])
        requires
            *old(buf_ptr) + bytes@.len() <= 512,
        ensures
            *final(buf_ptr) == *old(buf_ptr) + bytes@.len(),
            final(buf)@.subrange(*old(buf_ptr) as int, *final(buf_ptr) as int) == bytes@,
            forall|i: int| 0 <= i < *old(buf_ptr) ==> final(buf)@[i] == old(buf)@[i],
            forall|i: int| *final(buf_ptr) <= i < 512 ==> final(buf)@[i] == old(buf)@[i],
    {
        let start: usize = *buf_ptr;
        let mut i: usize = 0;
        while i < bytes.len()
            invariant
                start + bytes@.len() <= 512,
                i <= bytes@.len(),
                forall|j: int| 0 <= j < i ==> buf@[start + j] == bytes@[j],
                forall|j: int| 0 <= j < start ==> buf@[j] == old(buf)@[j],
                forall|j: int| start + bytes@.len() <= j < 512 ==> buf@[j] == old(buf)@[j],
            decreases bytes@.len() - i,
        {
            buf[start + i] = bytes[i];
            i = i + 1;
        }
        *buf_ptr = start + bytes.len();
        proof {
            assert(buf@.subrange(start as int, start as int + bytes@.len() as int) =~= bytes@);
        }
    }
}

/// Big-endian split of a 32-bit value into its four bytes.
fn u32_be(x: u32) -> (r: [u8; 4])
    ensures
        r@ == be32_bytes(x),
{
    let hi: u16 = (x / 0x1_0000) as u16;
    let lo: u16 = (x % 0x1_0000) as u16;
    let r = [(hi / 0x100) as u8, (hi % 0x100) as u8, (lo / 0x100) as u8, (lo % 0x100) as u8];
    proof {
        assert(r@ =~= be32_bytes(x));
    }
    r
}

} // verus!
