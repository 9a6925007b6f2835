use flowlog::dns::{DnsFault, DnsLog, Error, IpProtocol, LogMessageType, PacketDirection};

fn header(flags: [u8; 2], qd: u16, an: u16) -> Vec<u8> {
    let mut p = vec![0x12, 0x34, flags[0], flags[1]];
    p.extend_from_slice(&qd.to_be_bytes());
    p.extend_from_slice(&an.to_be_bytes());
    p.extend_from_slice(&[0, 0, 0, 0]);
    p
}

fn example_question(p: &mut Vec<u8>, qtype: u16) {
    p.push(7);
    p.extend_from_slice(b"example");
    p.push(3);
    p.extend_from_slice(b"com");
    p.push(0);
    p.extend_from_slice(&qtype.to_be_bytes());
    p.extend_from_slice(&[0, 1]);
}

fn query() -> Vec<u8> {
    let mut p = header([0x01, 0x00], 1, 0);
    example_question(&mut p, 1);
    p
}

fn response_with_pointer(ptr: u16, rtype: u16, rdata: &[u8]) -> Vec<u8> {
    let mut p = header([0x81, 0x80], 1, 1);
    example_question(&mut p, rtype);
    p.extend_from_slice(&(0xc000 | ptr).to_be_bytes());
    p.extend_from_slice(&rtype.to_be_bytes());
    p.extend_from_slice(&[0, 1, 0, 0, 0x0e, 0x10]);
    p.extend_from_slice(&(rdata.len() as u16).to_be_bytes());
    p.extend_from_slice(rdata);
    p
}

fn fault(r: Result<(), Error>) -> DnsFault {
    match r {
        Err(Error::DnsLogParse(f)) => f,
        Ok(()) => panic!("expected a parse error"),
    }
}

#[test]
fn udp_query_single_question() {
    let mut dns = DnsLog::new();
    let r = dns.parse(&query(), IpProtocol::Udp, PacketDirection::ClientToServer);
    assert_eq!(r, Ok(()));
    assert_eq!(dns.info.query_name, "example.com");
    assert_eq!(dns.info.query_type, 0);
    assert_eq!(dns.info.trans_id, 0x1234);
    assert_eq!(dns.domain_type, 1);
    assert_eq!(dns.msg_type, LogMessageType::Request);
    assert_eq!(dns.info.answers, "");
}

#[test]
fn response_pointer_to_question_name() {
    let p = response_with_pointer(12, 1, &[93, 184, 216, 34]);
    let mut dns = DnsLog::new();
    assert_eq!(dns.parse(&p, IpProtocol::Udp, PacketDirection::ServerToClient), Ok(()));
    assert_eq!(dns.info.answers, "93.184.216.34");
    assert_eq!(dns.info.query_name, "example.com");
    assert_eq!(dns.info.query_type, 1);
    assert_eq!(dns.msg_type, LogMessageType::Response);
}

#[test]
fn response_pointer_past_payload() {
    let len = response_with_pointer(0, 1, &[93, 184, 216, 34]).len() as u16;
    let p = response_with_pointer(len + 1, 1, &[93, 184, 216, 34]);
    let mut dns = DnsLog::new();
    let r = dns.parse(&p, IpProtocol::Udp, PacketDirection::ServerToClient);
    assert_eq!(fault(r), DnsFault::PointerOutOfRange);
}

#[test]
fn aaaa_answer_text() {
    let addr = [0x20, 0x01, 0x0d, 0xb8, 0, 0, 0, 0, 0, 0, 0, 0, 0, 0, 0x00, 0x01];
    let p = response_with_pointer(12, 28, &addr);
    let mut dns = DnsLog::new();
    assert_eq!(dns.parse(&p, IpProtocol::Udp, PacketDirection::ServerToClient), Ok(()));
    assert_eq!(dns.info.answers, "2001:db8::1");
    assert_eq!(dns.domain_type, 28);
}

fn aaaa_text(segments: [u16; 8]) -> String {
    let mut addr = Vec::new();
    for s in segments {
        addr.extend_from_slice(&s.to_be_bytes());
    }
    let p = response_with_pointer(12, 28, &addr);
    let mut dns = DnsLog::new();
    assert_eq!(dns.parse(&p, IpProtocol::Udp, PacketDirection::ServerToClient), Ok(()));
    dns.info.answers
}

#[test]
fn aaaa_zero_runs() {
    assert_eq!(aaaa_text([0, 0, 0, 0, 0, 0, 0, 0]), "::");
    assert_eq!(aaaa_text([0, 0, 0, 0, 0, 0, 0, 1]), "::1");
    assert_eq!(aaaa_text([1, 0, 2, 3, 4, 5, 6, 7]), "1:0:2:3:4:5:6:7");
    assert_eq!(aaaa_text([1, 0, 0, 2, 0, 0, 3, 4]), "1::2:0:0:3:4");
    assert_eq!(aaaa_text([1, 0, 0, 2, 0, 0, 0, 0xabcd]), "1:0:0:2::abcd");
    assert_eq!(aaaa_text([0, 0, 0, 0, 0, 0xffff, 0xc000, 0x0201]), "::ffff:192.0.2.1");
}

#[test]
fn aaaa_record_with_four_bytes_is_ipv4() {
    let p = response_with_pointer(12, 28, &[10, 0, 0, 7]);
    let mut dns = DnsLog::new();
    assert_eq!(dns.parse(&p, IpProtocol::Udp, PacketDirection::ServerToClient), Ok(()));
    assert_eq!(dns.info.answers, "10.0.0.7");
}

#[test]
fn tcp_framing() {
    let q = query();
    let mut p = (q.len() as u16).to_be_bytes().to_vec();
    p.extend_from_slice(&q);
    let mut dns = DnsLog::new();
    assert_eq!(dns.parse(&p, IpProtocol::Tcp, PacketDirection::ClientToServer), Ok(()));
    assert_eq!(dns.info.query_name, "example.com");

    let mut short = (q.len() as u16 - 1).to_be_bytes().to_vec();
    short.extend_from_slice(&q);
    let r = dns.parse(&short, IpProtocol::Tcp, PacketDirection::ClientToServer);
    assert_eq!(fault(r), DnsFault::TcpLengthMismatch);
    assert_eq!(fault(dns.parse(&[0, 1], IpProtocol::Tcp, PacketDirection::ClientToServer)), DnsFault::PayloadTooShort);
}

#[test]
fn other_protocol_rejected() {
    let mut dns = DnsLog::new();
    let r = dns.parse(&query(), IpProtocol::Icmpv4, PacketDirection::ClientToServer);
    assert_eq!(fault(r), DnsFault::UnsupportedProtocol);
}

#[test]
fn header_too_short() {
    let mut dns = DnsLog::new();
    let r = dns.parse(&[0u8; 12], IpProtocol::Udp, PacketDirection::ClientToServer);
    assert_eq!(fault(r), DnsFault::PayloadTooShort);
}

#[test]
fn lone_terminator_name() {
    let dns = DnsLog::new();
    let r = dns.decode_name(&[0x00], 0);
    assert_eq!(r, Ok((String::new(), 1)));
    assert_eq!(dns.decode_name(&[0x00], 1), Err(Error::DnsLogParse(DnsFault::PayloadTooShort)));
}

#[test]
fn name_after_pointer_ends_past_pointer() {
    let mut p = vec![3, b'w', b'w', b'w', 0];
    p.extend_from_slice(&[2, b'a', b'b', 0xc0, 0x00, 0xff]);
    let dns = DnsLog::new();
    assert_eq!(dns.decode_name(&p, 5), Ok(("ab.www".to_string(), 10)));
}

#[test]
fn pointer_loop_terminates() {
    let dns = DnsLog::new();
    let r = dns.decode_name(&[0xc0, 0x00, 0x00], 0);
    assert_eq!(r, Err(Error::DnsLogParse(DnsFault::PointerLoop)));
    let r = dns.decode_name(&[1, b'a', 0xc0, 0x00], 0);
    assert_eq!(r, Err(Error::DnsLogParse(DnsFault::OversizedName)));
}

#[test]
fn oversized_name_rejected() {
    let mut p = Vec::new();
    for _ in 0..5 {
        p.push(63);
        p.extend_from_slice(&[b'x'; 63]);
    }
    p.push(0);
    let dns = DnsLog::new();
    assert_eq!(dns.decode_name(&p, 0), Err(Error::DnsLogParse(DnsFault::OversizedName)));
}

#[test]
fn reserved_and_bad_labels() {
    let dns = DnsLog::new();
    assert_eq!(dns.decode_name(&[0x40, 0], 0), Err(Error::DnsLogParse(DnsFault::ReservedLabelType)));
    assert_eq!(dns.decode_name(&[0x80, 0], 0), Err(Error::DnsLogParse(DnsFault::ReservedLabelType)));
    assert_eq!(dns.decode_name(&[5, b'a', 0], 0), Err(Error::DnsLogParse(DnsFault::LabelOutOfRange)));
    assert_eq!(dns.decode_name(&[1, 0xff, 0], 0), Err(Error::DnsLogParse(DnsFault::InvalidUtf8)));
    assert_eq!(dns.decode_name(&[0xc0], 0), Err(Error::DnsLogParse(DnsFault::PointerOutOfRange)));
}

#[test]
fn unknown_record_type_rejected() {
    let p = response_with_pointer(12, 16, &[1, 2, 3]);
    let mut dns = DnsLog::new();
    let r = dns.parse(&p, IpProtocol::Udp, PacketDirection::ServerToClient);
    assert_eq!(fault(r), DnsFault::InvalidRdata);
    let p = response_with_pointer(12, 1, &[1, 2, 3]);
    assert_eq!(fault(dns.parse(&p, IpProtocol::Udp, PacketDirection::ServerToClient)), DnsFault::InvalidRdata);
}

#[test]
fn ns_answer_and_separator() {
    let mut p = header([0x81, 0x80], 1, 2);
    example_question(&mut p, 2);
    for _ in 0..2 {
        p.extend_from_slice(&[0xc0, 12, 0, 2, 0, 1, 0, 0, 0, 60, 0, 5]);
        p.extend_from_slice(&[2, b'n', b's', 0xc0, 12]);
    }
    let mut dns = DnsLog::new();
    assert_eq!(dns.parse(&p, IpProtocol::Udp, PacketDirection::ServerToClient), Ok(()));
    assert_eq!(dns.info.answers, "ns.example.com;ns.example.com");
}

#[test]
fn two_questions_joined() {
    let mut p = header([0x01, 0x00], 2, 0);
    example_question(&mut p, 1);
    p.extend_from_slice(&[0xc0, 20, 0, 28, 0, 1]);
    let mut dns = DnsLog::new();
    assert_eq!(dns.parse(&p, IpProtocol::Udp, PacketDirection::ClientToServer), Ok(()));
    assert_eq!(dns.info.query_name, "example.com;com");
    assert_eq!(dns.domain_type, 1);
    assert_eq!(dns.msg_type, LogMessageType::Request);
}

#[test]
fn parse_resets_previous_record() {
    let mut dns = DnsLog::new();
    let _ = dns.parse(&query(), IpProtocol::Udp, PacketDirection::ClientToServer);
    let _ = dns.parse(&query(), IpProtocol::Udp, PacketDirection::ClientToServer);
    assert_eq!(dns.info.query_name, "example.com");
    dns.reset_logs();
    assert_eq!(dns.info.query_name, "");
    assert_eq!(dns.domain_type, 0);
    assert_eq!(dns.msg_type, LogMessageType::Other);
    assert_eq!(dns.info.trans_id, 0);
    let info = dns.get_log_data_special_info();
    assert_eq!(info.answers, "");
}

#[test]
fn first_question_type_on_reused_log() {
    let mut dns = DnsLog::new();
    dns.msg_type = LogMessageType::Request;
    dns.domain_type = 0;
    assert_eq!(dns.decode_payload(&query()), Ok(()));
    assert_eq!(dns.domain_type, 1);
    assert_eq!(dns.info.query_name, "example.com");
    assert_eq!(dns.msg_type, LogMessageType::Request);
}

#[test]
fn failed_decodes_leave_state() {
    let mut dns = DnsLog::new();
    dns.domain_type = 7;
    let r = dns.decode_payload(&[0u8; 12]);
    assert_eq!(r, Err(Error::DnsLogParse(DnsFault::PayloadTooShort)));
    assert_eq!(dns.domain_type, 7);
    assert_eq!(dns.info.trans_id, 0);
    let r = dns.decode_question(&[5, b'a', 0], 0, true);
    assert_eq!(r, Err(Error::DnsLogParse(DnsFault::LabelOutOfRange)));
    assert_eq!(dns.info.query_name, "");
    let mut p = header([0x01, 0x00], 1, 0);
    p.extend_from_slice(&[0x40, 0]);
    assert_eq!(dns.decode_payload(&p), Err(Error::DnsLogParse(DnsFault::ReservedLabelType)));
    assert_eq!(dns.info.trans_id, 0x1234);
    assert_eq!(dns.info.query_type, 0);
    dns.parse(&[1, 2, 3], IpProtocol::Icmpv6, PacketDirection::ClientToServer).unwrap_err();
    assert_eq!(dns.info.trans_id, 0);
    assert_eq!(dns.domain_type, 0);
}

#[test]
fn parse_agrees_across_prior_states_and_framing() {
    let mut bad = header([0x81, 0x80], 1, 1);
    example_question(&mut bad, 1);
    bad.extend_from_slice(&[0xc0, 12, 0, 16, 0, 1, 0, 0, 0, 1, 0, 1, 9]);
    let mut a = DnsLog::new();
    let mut b = DnsLog::new();
    let _ = b.parse(&query(), IpProtocol::Udp, PacketDirection::ClientToServer);
    let ra = a.parse(&bad, IpProtocol::Udp, PacketDirection::ClientToServer);
    let rb = b.parse(&bad, IpProtocol::Udp, PacketDirection::ServerToClient);
    assert_eq!(ra, rb);
    assert_eq!(ra, Err(Error::DnsLogParse(DnsFault::InvalidRdata)));
    assert_eq!((a.info.trans_id, a.info.query_type), (b.info.trans_id, b.info.query_type));
    assert_eq!(a.info.query_type, 1);
    assert_eq!((&a.info.query_name, &a.info.answers), (&b.info.query_name, &b.info.answers));
    assert_eq!(a.domain_type, 16);
    let mut framed = (bad.len() as u16).to_be_bytes().to_vec();
    framed.extend_from_slice(&bad);
    let mut c = DnsLog::new();
    assert_eq!(c.parse(&framed, IpProtocol::Tcp, PacketDirection::ClientToServer), ra);
    assert_eq!(c.info.query_name, a.info.query_name);
    assert_eq!(c.info.answers, a.info.answers);
    assert_eq!(c.domain_type, a.domain_type);
}
