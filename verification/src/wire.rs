//! Byte-level model of the DNS wire format: big-endian multi-byte fields and
//! length-prefixed domain-name labels.

use vstd::prelude::*;

verus! {

/// Structural failures when decoding a datagram. Every failure is a rejection
/// of malformed input; there is no partial success.
#[derive(Debug, Clone, Copy, PartialEq, Eq, Structural)]
pub enum DnsError {
    /// A label length byte exceeds 63.
    LabelTooLong,
    /// The cumulative encoded domain name exceeds 253 bytes.
    NameTooLong,
    /// The header declares more than one question.
    UnsupportedQuestionCount,
}

/// Longest allowed encoding of a domain name, terminating zero included.
pub const MAX_NAME_LEN: usize = 253;

/// Longest allowed single label.
pub const MAX_LABEL_LEN: usize = 63;

/// Flags value of a response message: bit 15 set, all other bits clear.
pub const FLAGS_RESPONSE: u16 = 0x8000;

/// The value of a 16-bit field stored big-endian in two bytes.
pub open spec fn be16(hi: u8, lo: u8) -> int {
    hi * 0x100 + lo
}

/// The value of a 32-bit field stored big-endian in four bytes.
pub open spec fn be32(b0: u8, b1: u8, b2: u8, b3: u8) -> int {
    be16(b0, b1) * 0x1_0000 + be16(b2, b3)
}

/// High byte of a 16-bit value.
pub open spec fn u16_hi(x: u16) -> u8 {
    (x / 0x100) as u8
}

/// Low byte of a 16-bit value.
pub open spec fn u16_lo(x: u16) -> u8 {
    (x % 0x100) as u8
}

/// Big-endian encoding of a 16-bit value.
pub open spec fn be16_bytes(x: u16) -> Seq<u8> {
    seq![u16_hi(x), u16_lo(x)]
}

/// Big-endian encoding of a 32-bit value.
pub open spec fn be32_bytes(x: u32) -> Seq<u8> {
    be16_bytes((x / 0x1_0000) as u16) + be16_bytes((x % 0x1_0000) as u16)
}

/// Scan of the length-prefixed labels of a domain name. `s` is the byte region
/// that starts at the first label; `ptr` is the offset of the next length byte.
/// Yields the total encoded length of the name, terminating zero included, or
/// the structural failure that stops the scan: a length byte over 63 is
/// `LabelTooLong`, and a name that would run past 253 bytes is `NameTooLong`.
pub open spec fn scan_name(s: Seq<u8>, ptr: int) -> Result<int, DnsError>
    decreases 253 - ptr,
{
    let label_len: int = s[ptr] as int;
    if label_len > MAX_LABEL_LEN as int {
        Err(DnsError::LabelTooLong)
    } else if ptr + label_len + 1 > MAX_NAME_LEN as int {
        Err(DnsError::NameTooLong)
    } else if label_len == 0 {
        Ok(ptr + 1)
    } else {
        scan_name(s, ptr + label_len + 1)
    }
}

/// A scan that accepts a name stays within bounds: the encoded length it
/// yields lies strictly beyond the offset it started at and never exceeds
/// 253 bytes.
pub proof fn lemma_scan_name_within(s: Seq<u8>, ptr: int, e: int)
    requires
        0 <= ptr,
        scan_name(s, ptr) == Ok::<int, DnsError>(e),
    ensures
        ptr < e <= 253,
    decreases 253 - ptr,
{
    let label_len: int = s[ptr] as int;
    if label_len > 63 {
    } else if ptr + label_len + 1 > 253 {
    } else if label_len == 0 {
    } else {
        lemma_scan_name_within(s, ptr + label_len + 1, e);
    }
}

/// A scan that accepts a name reads only the bytes of the name itself, so it
/// accepts the same name in any region that carries the same bytes there.
pub proof fn lemma_scan_name_agree(s1: Seq<u8>, s2: Seq<u8>, ptr: int, e: int)
    requires
        0 <= ptr,
        scan_name(s1, ptr) == Ok::<int, DnsError>(e),
        forall|i: int| ptr <= i < e ==> s1[i] == s2[i],
    ensures
        scan_name(s2, ptr) == Ok::<int, DnsError>(e),
    decreases 253 - ptr,
{
    lemma_scan_name_within(s1, ptr, e);
    let label_len: int = s1[ptr] as int;
    if label_len > 0 {
        lemma_scan_name_agree(s1, s2, ptr + label_len + 1, e);
    }
}

/// The failure that `Dns::parse` reports for a 512-byte datagram, if any:
/// a multi-question header is rejected before the name is scanned.
pub open spec fn parse_error(payload: Seq<u8>) -> Option<DnsError> {
    if be16(payload[4], payload[5]) > 1 {
        Some(DnsError::UnsupportedQuestionCount)
    } else {
        match scan_name(payload.skip(12), 0) {
            Ok(_) => None,
            Err(e) => Some(e),
        }
    }
}

} // verus!
