//! DNS protocol log parser: turns a DNS message carried over UDP or TCP into
//! a query/response log record, following compressed names safely.
use vstd::prelude::*;
use vstd::utf8::{decode_utf8, valid_utf8};
use crate::text::{
    decimal_text, ends_with_char, hex_text, push_char, push_decimal, push_hex, push_text,
    utf8_text,
};

verus! {

pub const DNS_HEADER_SIZE: usize = 12;
pub const DNS_HEADER_FLAGS_OFFSET: usize = 2;
pub const DNS_HEADER_QDCOUNT_OFFSET: usize = 4;
pub const DNS_HEADER_ANCOUNT_OFFSET: usize = 6;
pub const DNS_HEADER_NSCOUNT_OFFSET: usize = 8;
pub const DNS_TCP_PAYLOAD_OFFSET: usize = 2;
pub const QUESTION_CLASS_TYPE_SIZE: usize = 4;
pub const RR_DATALENGTH_OFFSET: usize = 8;
pub const RR_RDATA_OFFSET: usize = 10;
pub const DNS_NAME_TAIL: u8 = 0x00;
pub const DNS_NAME_COMPRESS_POINTER: u8 = 0xc0;
pub const DNS_NAME_RESERVED_40: u8 = 0x40;
pub const DNS_NAME_MAX_SIZE: usize = 255;
/// How many compression pointers one name may follow before it is refused.
pub const DNS_NAME_MAX_POINTERS: u32 = 128;
pub const DNS_REQUEST: u8 = 0x00;
pub const DNS_RESPONSE: u8 = 0x80;
pub const DNS_TYPE_A: u16 = 1;
pub const DNS_TYPE_NS: u16 = 2;
pub const DNS_TYPE_WKS: u16 = 11;
pub const DNS_TYPE_PTR: u16 = 12;
pub const DNS_TYPE_AAAA: u16 = 28;
pub const DNS_TYPE_DNAME: u16 = 39;
pub const DNS_TYPE_WKS_LENGTH: usize = 5;
pub const DNS_TYPE_PTR_LENGTH: usize = 2;
pub const IPV4_ADDR_LEN: usize = 4;
pub const IPV6_ADDR_LEN: usize = 16;
pub const DOMAIN_NAME_SPLIT: char = ';';
/// Slack kept between a payload's length and `usize::MAX`, so that an offset
/// plus a record's declared data length always fits.
pub const DNS_PAYLOAD_SLACK: usize = 0x1_0010;

/// What went wrong while decoding a DNS payload.
#[derive(Debug, Clone, Copy, PartialEq, Eq, Structural)]
pub enum DnsFault {
    /// The payload ends before the field that was to be read.
    PayloadTooShort,
    /// A label starts with the reserved prefix `0b01` or `0b10`.
    ReservedLabelType,
    /// A compression pointer is cut off or points outside the payload.
    PointerOutOfRange,
    /// A label runs past the end of the payload.
    LabelOutOfRange,
    /// The decoded name is longer than `DNS_NAME_MAX_SIZE`.
    OversizedName,
    /// A label is not valid UTF-8.
    InvalidUtf8,
    /// A name follows more than `DNS_NAME_MAX_POINTERS` pointers.
    PointerLoop,
    /// A question lacks its type and class.
    QuestionTooShort,
    /// A resource record lacks its fixed part.
    RecordTooShort,
    /// A record's data length does not suit its type, or the type is unknown.
    InvalidRdata,
    /// The TCP length prefix disagrees with the payload.
    TcpLengthMismatch,
    /// The transport protocol does not carry DNS here.
    UnsupportedProtocol,
    /// The payload is too close to the address-space limit to be indexed.
    PayloadTooLong,
}

#[derive(Debug, Clone, Copy, PartialEq, Eq, Structural)]
pub enum Error {
    DnsLogParse(DnsFault),
}

/// Big-endian 16-bit value at `i`.
pub open spec fn be16(p: Seq<u8>, i: int) -> u16 {
    (p[i] as int * 256 + p[i + 1] as int) as u16
}

fn read_u16_be(p: &[u8], i: usize) -> (r: u16)
    requires
        i + 2 <= p@.len(),
    ensures
        r == be16(p@, i as int),
{
    (p[i] as u16) * 256 + (p[i + 1] as u16)
}

/// The name decoded so far, with one more label appended after a dot
/// (no dot before the first label).
pub open spec fn extend_name(name: Seq<char>, total: int, label: Seq<char>) -> Seq<char> {
    if total > 0 { name.push('.') + label } else { name + label }
}

/// Decoded length of the name after a label of `len` bytes is appended.
pub open spec fn extend_total(total: int, len: int) -> int {
    if total > 0 { total + 1 + len } else { len }
}

/// Walks a name from `index`: `name` and `total` are what was decoded so far,
/// `outer` the offset just past the first pointer followed, if any, and
/// `hops` how many pointers may still be followed. The result is the name and
/// the offset just past it on the forward path.
pub open spec fn name_walk(
    p: Seq<u8>,
    index: int,
    hops: nat,
    name: Seq<char>,
    total: int,
    outer: Option<int>,
) -> Result<(Seq<char>, int), DnsFault>
    decreases hops, p.len() - index,
{
    if index < 0 || index >= p.len() {
        Err(DnsFault::LabelOutOfRange)
    } else {
        let b = p[index];
        if b == 0 {
            Ok((name, match outer { Some(o) => o, None => index + 1 }))
        } else if b >= 0xc0 {
            if index + 2 > p.len() {
                Err(DnsFault::PointerOutOfRange)
            } else {
                let ptr = (b - 0xc0) * 256 + p[index + 1];
                if ptr >= p.len() {
                    Err(DnsFault::PointerOutOfRange)
                } else if hops == 0 {
                    Err(DnsFault::PointerLoop)
                } else {
                    name_walk(p, ptr, (hops - 1) as nat, name, total,
                        if outer is Some { outer } else { Some(index + 2) })
                }
            }
        } else if b >= 0x40 {
            Err(DnsFault::ReservedLabelType)
        } else {
            let size = index + 1 + b;
            if size > p.len() {
                Err(DnsFault::LabelOutOfRange)
            } else if extend_total(total, b as int) > DNS_NAME_MAX_SIZE {
                Err(DnsFault::OversizedName)
            } else if !valid_utf8(p.subrange(index + 1, size)) {
                Err(DnsFault::InvalidUtf8)
            } else if size >= p.len() {
                Err(DnsFault::LabelOutOfRange)
            } else {
                name_walk(p, size, hops,
                    extend_name(name, total, decode_utf8(p.subrange(index + 1, size))),
                    extend_total(total, b as int), outer)
            }
        }
    }
}

/// The name that starts at `g`, and the offset where the data after it begins.
pub open spec fn name_at(p: Seq<u8>, g: int) -> Result<(Seq<char>, int), DnsFault> {
    if p.len() <= g {
        Err(DnsFault::PayloadTooShort)
    } else {
        name_walk(p, g, DNS_NAME_MAX_POINTERS as nat, Seq::empty(), 0, None)
    }
}

/// An offset of the forward path, if one was fixed.
pub open spec fn opt_int(o: Option<usize>) -> Option<int> {
    match o {
        Some(v) => Some(v as int),
        None => None,
    }
}

/// Decoding UTF-8 never yields more characters than there are bytes.
proof fn lemma_decode_utf8_len(b: Seq<u8>)
    requires
        valid_utf8(b),
    ensures
        decode_utf8(b).len() <= b.len(),
    decreases b.len(),
{
    if b.len() > 0 {
        let k = vstd::utf8::length_of_first_scalar(b);
        assert(1 <= k <= b.len());
        let rest = vstd::utf8::pop_first_scalar(b);
        assert(rest.len() == b.len() - k);
        lemma_decode_utf8_len(rest);
    }
}

/// A walk that has decoded no more characters than its running length
/// ends with a name of at most `DNS_NAME_MAX_SIZE` characters.
proof fn lemma_name_walk_len(p: Seq<u8>, index: int, hops: nat, name: Seq<char>, total: int, outer: Option<int>)
    requires
        name.len() <= total,
        total <= DNS_NAME_MAX_SIZE,
    ensures
        name_walk(p, index, hops, name, total, outer) matches Ok((n, _)) ==> n.len() <= DNS_NAME_MAX_SIZE,
    decreases hops, p.len() - index,
{
    if 0 <= index < p.len() {
        let b = p[index];
        if b >= 0xc0 && index + 2 <= p.len() {
            let ptr = (b - 0xc0) * 256 + p[index + 1];
            if ptr < p.len() && hops > 0 {
                lemma_name_walk_len(p, ptr, (hops - 1) as nat, name, total,
                    if outer is Some { outer } else { Some(index + 2) });
            }
        } else if 0 < b < 0x40 {
            let size = index + 1 + b;
            if size < p.len() && extend_total(total, b as int) <= DNS_NAME_MAX_SIZE
                && valid_utf8(p.subrange(index + 1, size)) {
                lemma_decode_utf8_len(p.subrange(index + 1, size));
                lemma_name_walk_len(p, size, hops,
                    extend_name(name, total, decode_utf8(p.subrange(index + 1, size))),
                    extend_total(total, b as int), outer);
            }
        }
    }
}

/// A name whose expansion would be longer than `DNS_NAME_MAX_SIZE` is
/// refused: every name that decodes, pointers followed, has at most that
/// many characters.
pub proof fn lemma_name_expansion_bounded(p: Seq<u8>, g: int)
    ensures
        name_at(p, g) matches Ok((n, _)) ==> n.len() <= DNS_NAME_MAX_SIZE,
{
    lemma_name_walk_len(p, g, DNS_NAME_MAX_POINTERS as nat, Seq::empty(), 0, None);
}

/// Every outcome of a name walk ends inside the payload.
proof fn lemma_name_walk_end(p: Seq<u8>, index: int, hops: nat, name: Seq<char>, total: int, outer: Option<int>)
    requires
        outer matches Some(o) ==> o <= p.len(),
    ensures
        name_walk(p, index, hops, name, total, outer) matches Ok((_, e)) ==> e <= p.len(),
    decreases hops, p.len() - index,
{
    if 0 <= index < p.len() {
        let b = p[index];
        if b >= 0xc0 && index + 2 <= p.len() {
            let ptr = (b - 0xc0) * 256 + p[index + 1];
            if ptr < p.len() && hops > 0 {
                lemma_name_walk_end(p, ptr, (hops - 1) as nat, name, total,
                    if outer is Some { outer } else { Some(index + 2) });
            }
        } else if 0 < b < 0x40 {
            let size = index + 1 + b;
            if size < p.len() && extend_total(total, b as int) <= DNS_NAME_MAX_SIZE
                && valid_utf8(p.subrange(index + 1, size)) {
                lemma_name_walk_end(p, size, hops,
                    extend_name(name, total, decode_utf8(p.subrange(index + 1, size))),
                    extend_total(total, b as int), outer);
            }
        }
    }
}

/// The offset a successful name decode returns lies within the payload.
pub proof fn lemma_name_end_in_payload(p: Seq<u8>, g: int)
    ensures
        name_at(p, g) matches Ok((_, e)) ==> e <= p.len(),
{
    lemma_name_walk_end(p, g, DNS_NAME_MAX_POINTERS as nat, Seq::empty(), 0, None);
}

/// Dotted-quad text of the four bytes at `g`.
pub open spec fn ipv4_text(p: Seq<u8>, g: int) -> Seq<char> {
    decimal_text(p[g]) + seq!['.'] + decimal_text(p[g + 1]) + seq!['.'] + decimal_text(p[g + 2])
        + seq!['.'] + decimal_text(p[g + 3])
}

/// The eight 16-bit groups of the IPv6 address at `g`.
pub open spec fn ipv6_segments(p: Seq<u8>, g: int) -> Seq<u16> {
    Seq::new(8, |i: int| be16(p, g + 2 * i))
}

/// Groups in hexadecimal, joined by colons.
pub open spec fn joined_hex(gs: Seq<u16>) -> Seq<char>
    decreases gs.len(),
{
    if gs.len() == 0 {
        Seq::empty()
    } else if gs.len() == 1 {
        hex_text(gs[0])
    } else {
        joined_hex(gs.drop_last()).push(':') + hex_text(gs.last())
    }
}

/// The first longest run of zero groups, as (start, length), scanning from
/// `i` with the run in progress (`cs`, `cl`) and the longest so far (`bs`, `bl`).
pub open spec fn zero_run(gs: Seq<u16>, i: int, cs: int, cl: int, bs: int, bl: int) -> (int, int)
    decreases gs.len() - i,
{
    if i >= gs.len() || i < 0 {
        (bs, bl)
    } else if gs[i] == 0 {
        let ncs = if cl == 0 { i } else { cs };
        if cl + 1 > bl {
            zero_run(gs, i + 1, ncs, cl + 1, ncs, cl + 1)
        } else {
            zero_run(gs, i + 1, ncs, cl + 1, bs, bl)
        }
    } else {
        zero_run(gs, i + 1, 0, 0, bs, bl)
    }
}

/// Whether the address is an IPv4 address mapped into IPv6 (`::ffff:a.b.c.d`).
pub open spec fn ipv4_mapped(gs: Seq<u16>) -> bool {
    gs[0] == 0 && gs[1] == 0 && gs[2] == 0 && gs[3] == 0 && gs[4] == 0 && gs[5] == 0xffff
}

/// Text of the IPv6 address at `g`: lowercase hexadecimal groups, the first
/// longest run of two or more zero groups written `::`, and a mapped IPv4
/// address written `::ffff:` and dotted.
pub open spec fn ipv6_text(p: Seq<u8>, g: int) -> Seq<char> {
    let gs = ipv6_segments(p, g);
    if ipv4_mapped(gs) {
        seq![':', ':', 'f', 'f', 'f', 'f', ':'] + ipv4_text(p, g + 12)
    } else {
        let (st, len) = zero_run(gs, 0, 0, 0, 0, 0);
        if len > 1 {
            joined_hex(gs.subrange(0, st)) + seq![':', ':'] + joined_hex(gs.subrange(st + len, 8))
        } else {
            joined_hex(gs)
        }
    }
}

/// Text of the address held in the `len` bytes at `g` (4 or 16 of them);
/// nothing where those bytes are not all in the payload.
pub open spec fn address_text(p: Seq<u8>, g: int, len: int) -> Seq<char> {
    if g + len > p.len() {
        Seq::empty()
    } else if len == 4 {
        ipv4_text(p, g)
    } else {
        ipv6_text(p, g)
    }
}

/// The answers text, with a separator appended unless it is empty or
/// already ends with one.
pub open spec fn separated(a: Seq<char>) -> Seq<char> {
    if a.len() > 0 && a.last() != DOMAIN_NAME_SPLIT { a.push(DOMAIN_NAME_SPLIT) } else { a }
}

/// The answers text after the data of a record of type `dom`, `len` bytes
/// at `g`, is decoded.
pub open spec fn rdata_answers(a: Seq<char>, p: Seq<u8>, dom: u16, g: int, len: int) -> Result<Seq<char>, DnsFault> {
    let s = separated(a);
    if dom == DNS_TYPE_A || dom == DNS_TYPE_AAAA {
        if len == IPV4_ADDR_LEN || len == IPV6_ADDR_LEN {
            Ok(s + address_text(p, g, len))
        } else {
            Err(DnsFault::InvalidRdata)
        }
    } else if dom == DNS_TYPE_NS || dom == DNS_TYPE_DNAME {
        if len > DNS_NAME_MAX_SIZE {
            Err(DnsFault::InvalidRdata)
        } else {
            match name_at(p, g) {
                Ok((n, _)) => Ok(s + n),
                Err(e) => Err(e),
            }
        }
    } else if dom == DNS_TYPE_WKS {
        if len < DNS_TYPE_WKS_LENGTH {
            Err(DnsFault::InvalidRdata)
        } else {
            Ok(s + address_text(p, g, 4))
        }
    } else if dom == DNS_TYPE_PTR {
        if len != DNS_TYPE_PTR_LENGTH { Err(DnsFault::InvalidRdata) } else { Ok(s) }
    } else {
        Err(DnsFault::InvalidRdata)
    }
}

/// The state after the question at `g`, and the offset after it; `first`
/// tells whether it is the message's first question.
pub open spec fn question_step(v: DnsState, p: Seq<u8>, g: int, first: bool) -> Result<(DnsState, int), DnsFault> {
    match name_at(p, g) {
        Err(e) => Err(e),
        Ok((n, off)) => if p.len() - off < QUESTION_CLASS_TYPE_SIZE {
            Err(DnsFault::QuestionTooShort)
        } else {
            let qn = if v.query_name.len() > 0 { v.query_name.push(DOMAIN_NAME_SPLIT) + n } else { v.query_name + n };
            let v2 = DnsState { query_name: qn, ..v };
            if first && v.query_type == DNS_REQUEST {
                Ok((DnsState { domain_type: be16(p, off), msg_type: LogMessageType::Request, ..v2 }, off + QUESTION_CLASS_TYPE_SIZE))
            } else {
                Ok((v2, off + QUESTION_CLASS_TYPE_SIZE))
            }
        }
    }
}

/// `n` questions in a row from `g`; `first` tells whether the first of
/// them is the message's first question.
pub open spec fn questions(v: DnsState, p: Seq<u8>, g: int, n: nat, first: bool) -> Result<(DnsState, int), DnsFault>
    decreases n,
{
    if n == 0 {
        Ok((v, g))
    } else {
        match question_step(v, p, g, first) {
            Ok((v2, g2)) => questions(v2, p, g2, (n - 1) as nat, false),
            Err(e) => Err(e),
        }
    }
}

/// The state after the resource record at `g`, and the offset after it.
pub open spec fn record_step(v: DnsState, p: Seq<u8>, g: int) -> Result<(DnsState, int), DnsFault> {
    match name_at(p, g) {
        Err(e) => Err(e),
        Ok((_, off)) => if p.len() - off < RR_RDATA_OFFSET {
            Err(DnsFault::RecordTooShort)
        } else {
            let dom = be16(p, off);
            let len = be16(p, off + RR_DATALENGTH_OFFSET) as int;
            let v2 = DnsState { domain_type: dom, ..v };
            if len != 0 {
                match rdata_answers(v2.answers, p, dom, off + RR_RDATA_OFFSET, len) {
                    Ok(a) => Ok((DnsState { answers: a, ..v2 }, off + RR_RDATA_OFFSET + len)),
                    Err(e) => Err(e),
                }
            } else {
                Ok((v2, off + RR_RDATA_OFFSET))
            }
        }
    }
}

/// `n` resource records in a row from `g`.
pub open spec fn records(v: DnsState, p: Seq<u8>, g: int, n: nat) -> Result<(DnsState, int), DnsFault>
    decreases n,
{
    if n == 0 {
        Ok((v, g))
    } else {
        match record_step(v, p, g) {
            Ok((v2, g2)) => records(v2, p, g2, (n - 1) as nat),
            Err(e) => Err(e),
        }
    }
}

/// The state after a whole DNS message: header, questions, and for a
/// response its answer and authority records.
pub open spec fn message(v: DnsState, p: Seq<u8>) -> Result<DnsState, DnsFault> {
    if p.len() <= DNS_HEADER_SIZE {
        Err(DnsFault::PayloadTooShort)
    } else {
        let qt = (p[2] & 0x80u8) as u8;
        let v1 = DnsState { trans_id: be16(p, 0), query_type: qt, ..v };
        match questions(v1, p, DNS_HEADER_SIZE as int, be16(p, 4) as nat, true) {
            Err(e) => Err(e),
            Ok((v2, g)) => if qt == DNS_RESPONSE {
                match records(DnsState { query_type: 1, ..v2 }, p, g, (be16(p, 6) + be16(p, 8)) as nat) {
                    Ok((v3, _)) => Ok(DnsState { msg_type: LogMessageType::Response, ..v3 }),
                    Err(e) => Err(e),
                }
            } else {
                Ok(v2)
            },
        }
    }
}

/// The state that a failed resource record leaves: unchanged where its name
/// or its fixed part is at fault; otherwise it holds the record's type and
/// the answers end with a separator.
pub open spec fn record_err_state(v: DnsState, p: Seq<u8>, g: int) -> DnsState {
    match name_at(p, g) {
        Err(_) => v,
        Ok((_, off)) => if p.len() - off < RR_RDATA_OFFSET {
            v
        } else {
            DnsState { domain_type: be16(p, off), answers: separated(v.answers), ..v }
        },
    }
}

/// The state that `n` questions from `g` leave, up to the first one that
/// fails (a failed question changes nothing).
pub open spec fn questions_state(v: DnsState, p: Seq<u8>, g: int, n: nat, first: bool) -> DnsState
    decreases n,
{
    if n == 0 {
        v
    } else {
        match question_step(v, p, g, first) {
            Ok((v2, g2)) => questions_state(v2, p, g2, (n - 1) as nat, false),
            Err(_) => v,
        }
    }
}

/// The state that `n` resource records from `g` leave, up to and including
/// the first one that fails.
pub open spec fn records_state(v: DnsState, p: Seq<u8>, g: int, n: nat) -> DnsState
    decreases n,
{
    if n == 0 {
        v
    } else {
        match record_step(v, p, g) {
            Ok((v2, g2)) => records_state(v2, p, g2, (n - 1) as nat),
            Err(_) => record_err_state(v, p, g),
        }
    }
}

/// The state that decoding a message leaves, whether it succeeds or not: a
/// failure keeps the work done before it.
pub open spec fn message_state(v: DnsState, p: Seq<u8>) -> DnsState {
    if p.len() <= DNS_HEADER_SIZE {
        v
    } else {
        let qt = (p[2] & 0x80u8) as u8;
        let v1 = DnsState { trans_id: be16(p, 0), query_type: qt, ..v };
        let qd = be16(p, 4) as nat;
        match questions(v1, p, DNS_HEADER_SIZE as int, qd, true) {
            Err(_) => questions_state(v1, p, DNS_HEADER_SIZE as int, qd, true),
            Ok((v2, g)) => if qt == DNS_RESPONSE {
                let v3 = DnsState { query_type: 1, ..v2 };
                let n = (be16(p, 6) + be16(p, 8)) as nat;
                match records(v3, p, g, n) {
                    Ok((v4, _)) => DnsState { msg_type: LogMessageType::Response, ..v4 },
                    Err(_) => records_state(v3, p, g, n),
                }
            } else {
                v2
            },
        }
    }
}

/// The state that parsing a payload carried by `proto` leaves, whether it
/// succeeds or not: the reset state where the framing or the protocol is at
/// fault, else what decoding the message leaves.
pub open spec fn parse_state(v: DnsState, p: Seq<u8>, proto: IpProtocol) -> DnsState {
    let v0 = reset(v);
    if p.len() + DNS_PAYLOAD_SLACK > usize::MAX {
        v0
    } else if proto == IpProtocol::Udp {
        message_state(v0, p)
    } else if proto == IpProtocol::Tcp {
        if p.len() <= DNS_TCP_PAYLOAD_OFFSET || (be16(p, 0) as int) < p.len() - DNS_TCP_PAYLOAD_OFFSET {
            v0
        } else {
            message_state(v0, p.subrange(DNS_TCP_PAYLOAD_OFFSET as int, p.len() as int))
        }
    } else {
        v0
    }
}

/// The state that `reset_logs` leaves.
pub open spec fn reset(v: DnsState) -> DnsState {
    DnsState {
        trans_id: 0,
        query_type: 0,
        query_name: Seq::empty(),
        answers: Seq::empty(),
        domain_type: 0,
        msg_type: LogMessageType::Other,
    }
}

/// The state after parsing a payload carried by `proto`.
pub open spec fn parsed(v: DnsState, p: Seq<u8>, proto: IpProtocol) -> Result<DnsState, DnsFault> {
    let v0 = reset(v);
    if p.len() + DNS_PAYLOAD_SLACK > usize::MAX {
        Err(DnsFault::PayloadTooLong)
    } else if proto == IpProtocol::Udp {
        message(v0, p)
    } else if proto == IpProtocol::Tcp {
        if p.len() <= DNS_TCP_PAYLOAD_OFFSET {
            Err(DnsFault::PayloadTooShort)
        } else if (be16(p, 0) as int) < p.len() - DNS_TCP_PAYLOAD_OFFSET {
            Err(DnsFault::TcpLengthMismatch)
        } else {
            message(v0, p.subrange(DNS_TCP_PAYLOAD_OFFSET as int, p.len() as int))
        }
    } else {
        Err(DnsFault::UnsupportedProtocol)
    }
}

/// A parse does not depend on what the decoder held before: two decoders
/// given one payload reach the same result and the same state.
pub proof fn lemma_parse_ignores_prior(v1: DnsState, v2: DnsState, p: Seq<u8>, proto: IpProtocol)
    ensures
        parsed(v1, p, proto) == parsed(v2, p, proto),
        parse_state(v1, p, proto) == parse_state(v2, p, proto),
{
    assert(reset(v1) == reset(v2));
}

/// A TCP payload parses as the UDP payload without its two-byte length
/// prefix, when the prefix covers the rest.
pub proof fn lemma_tcp_is_framed_udp(v: DnsState, p: Seq<u8>)
    requires
        p.len() > DNS_TCP_PAYLOAD_OFFSET,
        be16(p, 0) as int >= p.len() - DNS_TCP_PAYLOAD_OFFSET,
    ensures
        parsed(v, p, IpProtocol::Tcp) == parsed(v, p.subrange(DNS_TCP_PAYLOAD_OFFSET as int, p.len() as int), IpProtocol::Udp),
        parse_state(v, p, IpProtocol::Tcp) == parse_state(v, p.subrange(DNS_TCP_PAYLOAD_OFFSET as int, p.len() as int), IpProtocol::Udp),
{
}

/// A unit result against its model.
pub open spec fn unit_matches(r: Result<(), Error>, m: Result<DnsState, DnsFault>, after: DnsState) -> bool {
    match m {
        Ok(v) => r is Ok && after == v,
        Err(e) => r == Err::<(), Error>(Error::DnsLogParse(e)),
    }
}

/// An offset result against its model.
pub open spec fn step_matches(r: Result<usize, Error>, m: Result<(DnsState, int), DnsFault>, after: DnsState) -> bool {
    match m {
        Ok((v, o)) => r matches Ok(x) && x as int == o && after == v,
        Err(e) => r == Err::<usize, Error>(Error::DnsLogParse(e)),
    }
}

/// Kind of a protocol log record.
#[derive(Debug, Clone, Copy, PartialEq, Eq, Structural)]
pub enum LogMessageType {
    Request,
    Response,
    Session,
    Other,
}

/// Transport protocol of a packet.
#[derive(Debug, Clone, Copy, PartialEq, Eq, Structural)]
pub enum IpProtocol {
    Icmpv4,
    Tcp,
    Udp,
    Icmpv6,
    Unknown,
}

/// Direction of a packet within its flow.
#[derive(Debug, Clone, Copy, PartialEq, Eq, Structural)]
pub enum PacketDirection {
    ClientToServer,
    ServerToClient,
}

/// The fields of a DNS log record.
#[derive(Debug, Clone)]
pub struct DnsInfo {
    pub trans_id: u16,
    pub query_type: u8,
    pub query_name: String,
    pub answers: String,
}

/// Decoder state for one DNS payload.
#[derive(Debug)]
pub struct DnsLog {
    pub info: DnsInfo,
    pub domain_type: u16,
    pub msg_type: LogMessageType,
}

/// What a `DnsLog` holds, with its texts as character sequences.
pub struct DnsState {
    pub trans_id: u16,
    pub query_type: u8,
    pub query_name: Seq<char>,
    pub answers: Seq<char>,
    pub domain_type: u16,
    pub msg_type: LogMessageType,
}

impl View for DnsLog {
    type V = DnsState;

    open spec fn view(&self) -> DnsState {
        DnsState {
            trans_id: self.info.trans_id,
            query_type: self.info.query_type,
            query_name: self.info.query_name@,
            answers: self.info.answers@,
            domain_type: self.domain_type,
            msg_type: self.msg_type,
        }
    }
}

/// A decode result, as its model: the name's characters and the offset.
pub open spec fn name_result_matches(
    r: Result<(String, usize), Error>,
    m: Result<(Seq<char>, int), DnsFault>,
) -> bool {
    match (r, m) {
        (Ok((s, o)), Ok((n, e))) => s@ == n && o as int == e,
        (Err(Error::DnsLogParse(f)), Err(g)) => f == g,
        _ => false,
    }
}

fn push_ipv4(s: &mut String, p: &[u8], g: usize)
    requires
        g + 4 <= p@.len(),
    ensures
        final(s)@ == old(s)@ + ipv4_text(p@, g as int),
{
    let ghost s0 = s@;
    push_decimal(s, p[g]);
    push_char(s, '.');
    push_decimal(s, p[g + 1]);
    push_char(s, '.');
    push_decimal(s, p[g + 2]);
    push_char(s, '.');
    push_decimal(s, p[g + 3]);
    assert(s@ =~= s0 + ipv4_text(p@, g as int));
}

fn push_joined(s: &mut String, gs: &Vec<u16>, from: usize, to: usize)
    requires
        from <= to <= gs@.len(),
    ensures
        final(s)@ == old(s)@ + joined_hex(gs@.subrange(from as int, to as int)),
{
    let ghost s0 = s@;
    let mut j: usize = from;
    assert(gs@.subrange(from as int, from as int) =~= Seq::<u16>::empty());
    while j < to
        invariant
            from <= j <= to <= gs@.len(),
            s@ == s0 + joined_hex(gs@.subrange(from as int, j as int)),
        decreases to - j,
    {
        let ghost before = s@;
        let ghost head = gs@.subrange(from as int, j as int);
        let ghost next = gs@.subrange(from as int, j as int + 1);
        assert(next.drop_last() =~= head);
        assert(next.last() == gs@[j as int]);
        if j > from {
            push_char(s, ':');
        } else {
            assert(head.len() == 0);
        }
        push_hex(s, gs[j]);
        assert(s@ =~= s0 + joined_hex(next));
        j = j + 1;
    }
}

fn push_ipv6(s: &mut String, p: &[u8], g: usize)
    requires
        g + 16 <= p.len(),
    ensures
        final(s)@ == old(s)@ + ipv6_text(p@, g as int),
{
    let ghost s0 = s@;
    let mut gs: Vec<u16> = Vec::new();
    let mut i: usize = 0;
    while i < 8
        invariant
            i <= 8,
            g + 16 <= p.len(),
            gs@.len() == i,
            forall |k: int| 0 <= k < i ==> #[trigger] gs@[k] == be16(p@, g + 2 * k),
        decreases 8 - i,
    {
        gs.push(read_u16_be(p, g + 2 * i));
        i = i + 1;
    }
    assert(gs@ =~= ipv6_segments(p@, g as int));
    if gs[0] == 0 && gs[1] == 0 && gs[2] == 0 && gs[3] == 0 && gs[4] == 0 && gs[5] == 0xffff {
        push_char(s, ':');
        push_char(s, ':');
        push_char(s, 'f');
        push_char(s, 'f');
        push_char(s, 'f');
        push_char(s, 'f');
        push_char(s, ':');
        push_ipv4(s, p, g + 12);
        assert(s@ =~= s0 + ipv6_text(p@, g as int));
        return;
    }
    let ghost seg = gs@;
    let mut cs: usize = 0;
    let mut cl: usize = 0;
    let mut bs: usize = 0;
    let mut bl: usize = 0;
    let mut k: usize = 0;
    while k < 8
        invariant
            gs@ == seg,
            seg.len() == 8,
            k <= 8,
            bs + bl <= k,
            cl > 0 ==> cs + cl == k,
            cl == 0 ==> cs == 0,
            cl <= k,
            zero_run(seg, k as int, cs as int, cl as int, bs as int, bl as int) == zero_run(seg, 0, 0, 0, 0, 0),
        decreases 8 - k,
    {
        if gs[k] == 0 {
            if cl == 0 {
                cs = k;
            }
            cl = cl + 1;
            if cl > bl {
                bs = cs;
                bl = cl;
            }
        } else {
            cs = 0;
            cl = 0;
        }
        k = k + 1;
    }
    if bl > 1 {
        push_joined(s, &gs, 0, bs);
        push_char(s, ':');
        push_char(s, ':');
        push_joined(s, &gs, bs + bl, 8);
        assert(s@ =~= s0 + ipv6_text(p@, g as int));
    } else {
        push_joined(s, &gs, 0, 8);
        assert(gs@.subrange(0, 8) =~= gs@);
    }
}

/// Appends the text of the address in the `len` bytes at `g`, if they are
/// all in the payload.
fn push_address(s: &mut String, p: &[u8], g: usize, len: usize)
    requires
        len == 4 || len == 16,
    ensures
        final(s)@ == old(s)@ + address_text(p@, g as int, len as int),
{
    if len <= p.len() && g <= p.len() - len {
        if len == 4 {
            push_ipv4(s, p, g);
        } else {
            push_ipv6(s, p, g);
        }
    } else {
        assert(s@ =~= s@ + Seq::<char>::empty());
    }
}

impl DnsLog {
    pub fn new() -> (r: Self)
        ensures
            r@.trans_id == 0,
            r@.query_type == 0,
            r@.query_name.len() == 0,
            r@.answers.len() == 0,
            r@.domain_type == 0,
            r@.msg_type == LogMessageType::Other,
    {
        DnsLog {
            info: DnsInfo {
                trans_id: 0,
                query_type: 0,
                query_name: String::new(),
                answers: String::new(),
            },
            domain_type: 0,
            msg_type: LogMessageType::Other,
        }
    }

    /// Decodes the name that starts at `g_offset`, following compression
    /// pointers, and returns it with the offset of the data after it.
    pub fn decode_name(&self, payload: &[u8], g_offset: usize) -> (r: Result<(String, usize), Error>)
        ensures
            name_result_matches(r, name_at(payload@, g_offset as int)),
    {
        let ghost p = payload@;
        if payload.len() <= g_offset {
            return Err(Error::DnsLogParse(DnsFault::PayloadTooShort));
        }
        let mut index: usize = g_offset;
        let mut hops: u32 = DNS_NAME_MAX_POINTERS;
        let mut buffer = String::new();
        let mut total: usize = 0;
        let mut outer: Option<usize> = None;
        loop
            invariant
                p == payload@,
                index < payload@.len(),
                total <= DNS_NAME_MAX_SIZE,
                outer matches Some(o) ==> o <= payload@.len(),
                name_walk(p, index as int, hops as nat, buffer@, total as int, opt_int(outer))
                    == name_at(p, g_offset as int),
            decreases hops, payload@.len() - index,
        {
            let b = payload[index];
            if b == DNS_NAME_TAIL {
                let end = match outer {
                    Some(o) => o,
                    None => index + 1,
                };
                return Ok((buffer, end));
            } else if b >= DNS_NAME_COMPRESS_POINTER {
                if index + 1 >= payload.len() {
                    return Err(Error::DnsLogParse(DnsFault::PointerOutOfRange));
                }
                let ptr: usize = ((b - DNS_NAME_COMPRESS_POINTER) as usize) * 256 + (payload[index + 1] as usize);
                if ptr >= payload.len() {
                    return Err(Error::DnsLogParse(DnsFault::PointerOutOfRange));
                }
                if hops == 0 {
                    return Err(Error::DnsLogParse(DnsFault::PointerLoop));
                }
                if outer.is_none() {
                    outer = Some(index + 2);
                }
                hops = hops - 1;
                index = ptr;
            } else if b >= DNS_NAME_RESERVED_40 {
                return Err(Error::DnsLogParse(DnsFault::ReservedLabelType));
            } else {
                if b as usize > payload.len() - index - 1 {
                    return Err(Error::DnsLogParse(DnsFault::LabelOutOfRange));
                }
                let size = index + 1 + b as usize;
                let new_total = if total > 0 { total + 1 + b as usize } else { b as usize };
                if new_total > DNS_NAME_MAX_SIZE {
                    return Err(Error::DnsLogParse(DnsFault::OversizedName));
                }
                let label = match utf8_text(payload, index + 1, size) {
                    Some(l) => l,
                    None => {
                        return Err(Error::DnsLogParse(DnsFault::InvalidUtf8));
                    },
                };
                if size >= payload.len() {
                    return Err(Error::DnsLogParse(DnsFault::LabelOutOfRange));
                }
                if total > 0 {
                    push_char(&mut buffer, '.');
                }
                push_text(&mut buffer, label.as_str());
                total = new_total;
                index = size;
            }
        }
    }

    /// Clears the record before a new payload is parsed.
    pub fn reset_logs(&mut self)
        ensures
            final(self)@ == reset(old(self)@),
    {
        self.info.trans_id = 0;
        self.info.query_type = 0;
        self.info.query_name = String::new();
        self.info.answers = String::new();
        self.domain_type = 0;
        self.msg_type = LogMessageType::Other;
    }

    /// Hands out the decoded record.
    pub fn get_log_data_special_info(self) -> (r: DnsInfo)
        ensures
            r.trans_id == self.info.trans_id,
            r.query_type == self.info.query_type,
            r.query_name@ == self.info.query_name@,
            r.answers@ == self.info.answers@,
    {
        self.info
    }

    /// Decodes the question at `g_offset`, appending its name to
    /// `query_name`; the first question of a request gives the question
    /// type and marks the record as a request.
    pub fn decode_question(&mut self, payload: &[u8], g_offset: usize, first: bool) -> (r: Result<usize, Error>)
        ensures
            step_matches(r, question_step(old(self)@, payload@, g_offset as int, first), final(self)@),
            r is Err ==> final(self)@ == old(self)@,
    {
        let (name, offset) = match self.decode_name(payload, g_offset) {
            Ok(x) => x,
            Err(e) => {
                return Err(e);
            },
        };
        proof {
            lemma_name_end_in_payload(payload@, g_offset as int);
        }
        let qtype_size = payload.len() - offset;
        if qtype_size < QUESTION_CLASS_TYPE_SIZE {
            return Err(Error::DnsLogParse(DnsFault::QuestionTooShort));
        }
        if !self.info.query_name.as_str().is_empty() {
            push_char(&mut self.info.query_name, DOMAIN_NAME_SPLIT);
        }
        push_text(&mut self.info.query_name, name.as_str());
        if first && self.info.query_type == DNS_REQUEST {
            self.domain_type = read_u16_be(payload, offset);
            self.msg_type = LogMessageType::Request;
        }
        Ok(offset + QUESTION_CLASS_TYPE_SIZE)
    }

    /// Decodes the data of a record of type `domain_type`, `data_length`
    /// bytes at `g_offset`, appending what it names to `answers`.
    pub fn decode_rdata(&mut self, payload: &[u8], g_offset: usize, data_length: usize) -> (r: Result<(), Error>)
        ensures
            match rdata_answers(old(self)@.answers, payload@, old(self)@.domain_type, g_offset as int, data_length as int) {
                Ok(a) => r is Ok && final(self)@ == (DnsState { answers: a, ..old(self)@ }),
                Err(e) => r == Err::<(), Error>(Error::DnsLogParse(e)),
            },
            r is Err ==> final(self)@ == (DnsState { answers: separated(old(self)@.answers), ..old(self)@ }),
    {
        if ends_with_char(&self.info.answers, DOMAIN_NAME_SPLIT) || self.info.answers.as_str().is_empty() {
        } else {
            push_char(&mut self.info.answers, DOMAIN_NAME_SPLIT);
        }
        let dom = self.domain_type;
        if dom == DNS_TYPE_A || dom == DNS_TYPE_AAAA {
            if data_length == IPV4_ADDR_LEN || data_length == IPV6_ADDR_LEN {
                push_address(&mut self.info.answers, payload, g_offset, data_length);
            } else {
                return Err(Error::DnsLogParse(DnsFault::InvalidRdata));
            }
        } else if dom == DNS_TYPE_NS || dom == DNS_TYPE_DNAME {
            if data_length > DNS_NAME_MAX_SIZE {
                return Err(Error::DnsLogParse(DnsFault::InvalidRdata));
            }
            let (name, _) = match self.decode_name(payload, g_offset) {
                Ok(x) => x,
                Err(e) => {
                    return Err(e);
                },
            };
            push_text(&mut self.info.answers, name.as_str());
        } else if dom == DNS_TYPE_WKS {
            if data_length < DNS_TYPE_WKS_LENGTH {
                return Err(Error::DnsLogParse(DnsFault::InvalidRdata));
            }
            push_address(&mut self.info.answers, payload, g_offset, IPV4_ADDR_LEN);
        } else if dom == DNS_TYPE_PTR {
            if data_length != DNS_TYPE_PTR_LENGTH {
                return Err(Error::DnsLogParse(DnsFault::InvalidRdata));
            }
        } else {
            return Err(Error::DnsLogParse(DnsFault::InvalidRdata));
        }
        Ok(())
    }

    /// Decodes the resource record at `g_offset` and returns the offset
    /// after its data.
    pub fn decode_resource_record(&mut self, payload: &[u8], g_offset: usize) -> (r: Result<usize, Error>)
        requires
            payload@.len() + DNS_PAYLOAD_SLACK <= usize::MAX,
        ensures
            step_matches(r, record_step(old(self)@, payload@, g_offset as int), final(self)@),
            r is Err ==> final(self)@ == record_err_state(old(self)@, payload@, g_offset as int),
    {
        let (_, offset) = match self.decode_name(payload, g_offset) {
            Ok(x) => x,
            Err(e) => {
                return Err(e);
            },
        };
        proof {
            lemma_name_end_in_payload(payload@, g_offset as int);
        }
        let resource_len = payload.len() - offset;
        if resource_len < RR_RDATA_OFFSET {
            return Err(Error::DnsLogParse(DnsFault::RecordTooShort));
        }
        self.domain_type = read_u16_be(payload, offset);
        let data_length = read_u16_be(payload, offset + RR_DATALENGTH_OFFSET) as usize;
        if data_length != 0 {
            match self.decode_rdata(payload, offset + RR_RDATA_OFFSET, data_length) {
                Ok(()) => {},
                Err(e) => {
                    return Err(e);
                },
            }
        }
        Ok(offset + RR_RDATA_OFFSET + data_length)
    }

    /// Decodes a whole DNS message: header, questions, and for a response
    /// its answer and authority records.
    pub fn decode_payload(&mut self, payload: &[u8]) -> (r: Result<(), Error>)
        requires
            payload@.len() + DNS_PAYLOAD_SLACK <= usize::MAX,
        ensures
            unit_matches(r, message(old(self)@, payload@), final(self)@),
            r is Err ==> final(self)@ == message_state(old(self)@, payload@),
    {
        let ghost p = payload@;
        if payload.len() <= DNS_HEADER_SIZE {
            return Err(Error::DnsLogParse(DnsFault::PayloadTooShort));
        }
        self.info.trans_id = read_u16_be(payload, 0);
        self.info.query_type = payload[DNS_HEADER_FLAGS_OFFSET] & 0x80;
        let qd_count = read_u16_be(payload, DNS_HEADER_QDCOUNT_OFFSET);
        let an_count = read_u16_be(payload, DNS_HEADER_ANCOUNT_OFFSET);
        let ns_count = read_u16_be(payload, DNS_HEADER_NSCOUNT_OFFSET);
        let ghost v1 = self@;
        assert(v1 == (DnsState { trans_id: be16(p, 0), query_type: (p[2] & 0x80u8) as u8, ..old(self)@ }));
        let mut g_offset: usize = DNS_HEADER_SIZE;
        let mut i: u16 = 0;
        while i < qd_count
            invariant
                p == payload@,
                p.len() + DNS_PAYLOAD_SLACK <= usize::MAX,
                i <= qd_count,
                g_offset <= p.len(),
                p.len() > DNS_HEADER_SIZE,
                qd_count == be16(p, 4),
                v1 == (DnsState { trans_id: be16(p, 0), query_type: (p[2] & 0x80u8) as u8, ..old(self)@ }),
                self@.query_type == v1.query_type,
                questions(self@, p, g_offset as int, (qd_count - i) as nat, i == 0)
                    == questions(v1, p, DNS_HEADER_SIZE as int, qd_count as nat, true),
                questions_state(self@, p, g_offset as int, (qd_count - i) as nat, i == 0)
                    == questions_state(v1, p, DNS_HEADER_SIZE as int, qd_count as nat, true),
                self@.trans_id == be16(p, 0),
                self@.query_type == (p[2] & 0x80u8) as u8,
            decreases qd_count - i,
        {
            g_offset = match self.decode_question(payload, g_offset, i == 0) {
                Ok(o) => o,
                Err(e) => {
                    return Err(e);
                },
            };
            i = i + 1;
        }
        if self.info.query_type == DNS_RESPONSE {
            self.info.query_type = 1;
            let ghost v2 = self@;
            let ghost g2 = g_offset;
            let n: u32 = an_count as u32 + ns_count as u32;
            assert(message(old(self)@, p) == match records(v2, p, g2 as int, n as nat) {
                Ok((v3, _)) => Ok(DnsState { msg_type: LogMessageType::Response, ..v3 }),
                Err(e) => Err(e),
            });
            assert(message_state(old(self)@, p) == match records(v2, p, g2 as int, n as nat) {
                Ok((v3, _)) => DnsState { msg_type: LogMessageType::Response, ..v3 },
                Err(_) => records_state(v2, p, g2 as int, n as nat),
            });
            let mut j: u32 = 0;
            while j < n
                invariant
                    p == payload@,
                    p.len() + DNS_PAYLOAD_SLACK <= usize::MAX,
                    j <= n,
                    g_offset <= p.len() + 0x1_0009,
                    p.len() > DNS_HEADER_SIZE,
                    self@.trans_id == be16(p, 0),
                    self@.query_type == 1,
                    (p[2] & 0x80u8) as u8 == DNS_RESPONSE,
                    records(self@, p, g_offset as int, (n - j) as nat)
                        == records(v2, p, g2 as int, n as nat),
                    records_state(self@, p, g_offset as int, (n - j) as nat)
                        == records_state(v2, p, g2 as int, n as nat),
                    message_state(old(self)@, p) == match records(v2, p, g2 as int, n as nat) {
                        Ok((v3, _)) => DnsState { msg_type: LogMessageType::Response, ..v3 },
                        Err(_) => records_state(v2, p, g2 as int, n as nat),
                    },
                    message(old(self)@, p) == match records(v2, p, g2 as int, n as nat) {
                        Ok((v3, _)) => Ok(DnsState { msg_type: LogMessageType::Response, ..v3 }),
                        Err(e) => Err(e),
                    },
                decreases n - j,
            {
                g_offset = match self.decode_resource_record(payload, g_offset) {
                    Ok(o) => o,
                    Err(e) => {
                        return Err(e);
                    },
                };
                j = j + 1;
            }
            self.msg_type = LogMessageType::Response;
        }
        Ok(())
    }

    /// Parses a DNS payload carried by `proto`: a UDP payload is the
    /// message itself, a TCP one starts with a two-byte length.
    pub fn parse(&mut self, payload: &[u8], proto: IpProtocol, _direction: PacketDirection) -> (r: Result<(), Error>)
        ensures
            unit_matches(r, parsed(old(self)@, payload@, proto), final(self)@),
            r is Err ==> final(self)@ == parse_state(old(self)@, payload@, proto),
    {
        self.reset_logs();
        if payload.len() > usize::MAX - DNS_PAYLOAD_SLACK {
            return Err(Error::DnsLogParse(DnsFault::PayloadTooLong));
        }
        match proto {
            IpProtocol::Udp => self.decode_payload(payload),
            IpProtocol::Tcp => {
                if payload.len() <= DNS_TCP_PAYLOAD_OFFSET {
                    return Err(Error::DnsLogParse(DnsFault::PayloadTooShort));
                }
                let size = read_u16_be(payload, 0);
                if (size as usize) < payload.len() - DNS_TCP_PAYLOAD_OFFSET {
                    return Err(Error::DnsLogParse(DnsFault::TcpLengthMismatch));
                }
                let body = vstd::slice::slice_subrange(payload, DNS_TCP_PAYLOAD_OFFSET, payload.len());
                self.decode_payload(body)
            },
            _ => Err(Error::DnsLogParse(DnsFault::UnsupportedProtocol)),
        }
    }
}

} // verus!
