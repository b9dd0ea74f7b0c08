use local_fqdn_filter::dns::address::{ipv4_to_string, ipv6_to_string};
use local_fqdn_filter::dns::{
    BytePacketBuffer, Error, Header, Message, QueryType, Question, RData, Record, ResultCode,
    SrvRecord,
};

fn buffer_of(bytes: &[u8]) -> BytePacketBuffer {
    let mut b = BytePacketBuffer::new();
    b.buf[..bytes.len()].copy_from_slice(bytes);
    b
}

#[test]
fn reads_big_endian_values() {
    let mut b = buffer_of(&[0x12, 0x34, 0xde, 0xad, 0xbe, 0xef, 7]);
    assert_eq!(0x1234, b.read_u16().unwrap());
    assert_eq!(0xdeadbeef, b.read_u32().unwrap());
    assert_eq!(7, b.read().unwrap());
    assert_eq!(7, b.pos());
}

#[test]
fn reads_u128() {
    let bytes: Vec<u8> = (1..=16).collect();
    let mut b = buffer_of(&bytes);
    assert_eq!(0x0102030405060708090a0b0c0d0e0f10u128, b.read_u128().unwrap());
}

#[test]
fn read_past_end_fails() {
    let mut b = BytePacketBuffer::new();
    b.seek(511).unwrap();
    assert_eq!(0, b.read().unwrap());
    assert!(matches!(b.read(), Err(Error::EndOfBuffer)));
    b.seek(511).unwrap();
    assert!(matches!(b.read_u16(), Err(Error::EndOfBuffer)));
    assert!(matches!(b.seek(513), Err(Error::EndOfBuffer)));
    assert!(matches!(b.step(2), Err(Error::EndOfBuffer)));
}

#[test]
fn ranges_may_end_at_the_buffer_end() {
    let mut b = BytePacketBuffer::new();
    b.buf[511] = 9;
    assert_eq!(vec![0, 9], b.get_range(510, 2).unwrap());
    assert!(matches!(b.get_range(511, 2), Err(Error::EndOfBuffer)));
    b.seek(510).unwrap();
    assert_eq!(vec![0, 9], b.read_range(2).unwrap());
    assert_eq!(512, b.pos());
    assert!(matches!(b.get(512), Err(Error::EndOfBuffer)));
    assert_eq!(9, b.get(511).unwrap());
}

#[test]
fn writes_big_endian_values() {
    let mut b = BytePacketBuffer::new();
    b.write_u8(1).unwrap();
    b.write_u16(0x0203).unwrap();
    b.write_u32(0x04050607).unwrap();
    b.write_range(&vec![8, 9]).unwrap();
    assert_eq!(vec![1, 2, 3, 4, 5, 6, 7, 8, 9], b.get_all().unwrap());
}

#[test]
fn write_past_end_fails_and_writes_nothing() {
    let mut b = BytePacketBuffer::new();
    b.seek(511).unwrap();
    assert!(matches!(b.write_u16(0xffff), Err(Error::EndOfBuffer)));
    assert_eq!(511, b.pos());
    assert_eq!(0, b.buf[511]);
}

#[test]
fn writes_names_as_labels() {
    let mut b = BytePacketBuffer::new();
    b.write_qname("www.Example.com").unwrap();
    let mut expected = vec![3u8];
    expected.extend_from_slice(b"www");
    expected.push(7);
    expected.extend_from_slice(b"Example");
    expected.push(3);
    expected.extend_from_slice(b"com");
    expected.push(0);
    assert_eq!(expected, b.get_all().unwrap());
}

#[test]
fn name_round_trip_lowercases() {
    let mut b = BytePacketBuffer::new();
    b.write_qname("WWW.Example.COM").unwrap();
    let end = b.pos();
    b.seek(0).unwrap();
    assert_eq!("www.example.com", b.read_qname().unwrap());
    assert_eq!(end, b.pos());
}

#[test]
fn long_label_is_refused() {
    let mut b = BytePacketBuffer::new();
    let label = "a".repeat(64);
    let name = format!("{label}.com");
    assert!(matches!(b.write_qname(&name), Err(Error::SingleLabelLimit)));
    assert_eq!(0, b.pos());
    let ok = "a".repeat(63);
    b.write_qname(&ok).unwrap();
    assert_eq!(65, b.pos());
}

#[test]
fn name_pointer_is_followed() {
    // "a.b" at 0, then at 5 the label "c" and a pointer to 0.
    let mut b = buffer_of(&[1, b'a', 1, b'b', 0, 1, b'c', 0xC0, 0x00, 0xff]);
    b.seek(5).unwrap();
    assert_eq!("c.a.b", b.read_qname().unwrap());
    assert_eq!(9, b.pos());
}

#[test]
fn pointer_cycle_hits_jump_limit() {
    let mut b = buffer_of(&[0xC0, 0x00]);
    assert!(matches!(b.read_qname(), Err(Error::JumpLimit(5))));
    assert_eq!(0, b.pos());
}

#[test]
fn header_round_trip() {
    let mut h = Header::new();
    h.id = 0xbeef;
    h.recursion_desired = true;
    h.response = true;
    h.opcode = 2;
    h.rescode = ResultCode::NXDomain;
    h.recursion_available = true;
    h.questions = 1;
    h.answers = 2;
    let mut b = BytePacketBuffer::new();
    h.write(&mut b).unwrap();
    assert_eq!(
        vec![0xbe, 0xef, 0x91, 0x83, 0, 1, 0, 2, 0, 0, 0, 0],
        b.get_all().unwrap()
    );
    b.seek(0).unwrap();
    let mut r = Header::new();
    r.read(&mut b).unwrap();
    assert_eq!(0xbeef, r.id);
    assert!(r.recursion_desired && r.response && r.recursion_available);
    assert!(!r.truncated_message && !r.authoritative_answer);
    assert_eq!(2, r.opcode);
    assert_eq!(ResultCode::NXDomain, r.rescode);
    assert_eq!(1, r.questions);
    assert_eq!(2, r.answers);
}

#[test]
fn unknown_rcode_reads_as_no_error() {
    let mut b = buffer_of(&[0, 1, 0, 0x0d, 0, 0, 0, 0, 0, 0, 0, 0]);
    let mut h = Header::new();
    h.read(&mut b).unwrap();
    assert_eq!(ResultCode::NoError, h.rescode);
    assert_eq!(ResultCode::BADCOOKIE, ResultCode::from(23u8));
    assert_eq!(23, ResultCode::BADCOOKIE.code());
}

#[test]
fn query_type_codes() {
    assert_eq!(QueryType::A, QueryType::from(1u16));
    assert_eq!(QueryType::CNAME, QueryType::from(5u16));
    assert_eq!(QueryType::AAAA, QueryType::from(28u16));
    assert_eq!(QueryType::SRV, QueryType::from(33u16));
    assert_eq!(QueryType::UNKNOWN(15), QueryType::from(15u16));
    assert_eq!(15u16, u16::from(QueryType::UNKNOWN(15)));
    assert_eq!(28u16, u16::from(QueryType::AAAA));
    assert_eq!("UNKNOWN(15)", QueryType::UNKNOWN(15).to_string());
    assert_eq!("AAAA", QueryType::AAAA.to_string());
    assert_eq!("Non-Existent Domain", ResultCode::NXDomain.to_string());
}

fn record(name: &str, rdata: RData, qtype: QueryType, rdlength: u16) -> Record {
    Record { name: name.to_string(), qtype, class: 1, ttl: 300, rdlength, rdata }
}

#[test]
fn message_round_trip() {
    let mut m = Message::new();
    m.header.id = 7;
    m.header.response = true;
    m.questions.push(Question::new("example.com".to_string(), QueryType::A, 1));
    m.answers.push(record("example.com", RData::A([93, 184, 216, 34]), QueryType::A, 4));
    m.answers.push(record(
        "example.com",
        RData::AAAA([0x2001, 0xdb8, 0, 0, 0, 0, 0, 1]),
        QueryType::AAAA,
        16,
    ));
    m.authorities.push(record(
        "www.example.com",
        RData::CNAME(13, "example.com".to_string()),
        QueryType::CNAME,
        13,
    ));
    m.resources.push(record(
        "_sip._udp.example.com",
        RData::SRV(
            19,
            SrvRecord::new(10, 20, 5060, "sip.example.com".to_string()),
        ),
        QueryType::SRV,
        19,
    ));
    m.resources.push(record(
        "example.com",
        RData::Unknown(QueryType::UNKNOWN(16), vec![3, b'a', b'b', b'c']),
        QueryType::UNKNOWN(16),
        4,
    ));
    let mut b = BytePacketBuffer::new();
    m.write(&mut b).unwrap();
    assert_eq!(1, m.header.questions);
    assert_eq!(2, m.header.answers);
    assert_eq!(1, m.header.authoritative_entries);
    assert_eq!(2, m.header.resource_entries);
    let end = b.pos();
    b.seek(0).unwrap();
    let r = Message::read(&mut b).unwrap();
    assert_eq!(end, b.pos());
    assert_eq!(7, r.header.id);
    assert_eq!("example.com", r.questions[0].name);
    assert_eq!(QueryType::A, r.questions[0].qtype);
    assert!(matches!(r.answers[0].rdata, RData::A([93, 184, 216, 34])));
    assert!(matches!(r.answers[1].rdata, RData::AAAA([0x2001, 0xdb8, 0, 0, 0, 0, 0, 1])));
    match &r.authorities[0].rdata {
        RData::CNAME(13, t) => assert_eq!("example.com", t),
        other => panic!("{other:?}"),
    }
    match &r.resources[0].rdata {
        RData::SRV(19, s) => {
            assert_eq!((10, 20, 5060), (s.priority, s.weight, s.port));
            assert_eq!("sip.example.com", s.target);
            assert_eq!("10 20 5060 sip.example.com", s.to_string());
        }
        other => panic!("{other:?}"),
    }
    match &r.resources[1].rdata {
        RData::Unknown(QueryType::UNKNOWN(16), v) => assert_eq!(&vec![3, b'a', b'b', b'c'], v),
        other => panic!("{other:?}"),
    }
    assert_eq!(300, r.answers[0].ttl);
}

#[test]
fn record_write_counts_bytes() {
    let rec = record("a.b", RData::A([1, 2, 3, 4]), QueryType::A, 4);
    let mut b = BytePacketBuffer::new();
    assert_eq!(5 + 10 + 4, rec.write(&mut b).unwrap());
}

#[test]
fn address_text() {
    assert_eq!("93.184.216.34", ipv4_to_string(&[93, 184, 216, 34]));
    assert_eq!("2001:db8::1", ipv6_to_string(&[0x2001, 0xdb8, 0, 0, 0, 0, 0, 1]));
    assert_eq!("::", ipv6_to_string(&[0; 8]));
    assert_eq!("::1", ipv6_to_string(&[0, 0, 0, 0, 0, 0, 0, 1]));
    assert_eq!("1:0:2::3", ipv6_to_string(&[1, 0, 2, 0, 0, 0, 0, 3]));
    assert_eq!("1:0:1:1:1:1:1:1", ipv6_to_string(&[1, 0, 1, 1, 1, 1, 1, 1]));
    assert_eq!("::ffff:192.0.2.1", ipv6_to_string(&[0, 0, 0, 0, 0, 0xffff, 0xc000, 0x0201]));
    assert_eq!("fe80:0:0:1::ab", ipv6_to_string(&[0xfe80, 0, 0, 1, 0, 0, 0, 0xab]));
}

#[test]
fn header_debug_listing() {
    let mut h = Header::new();
    h.id = 5;
    h.rescode = ResultCode::ServFail;
    h.answers = 2;
    let text = h.debug_fmt(1);
    assert!(text.starts_with("\tid: 5\n\trecursion_desired: false\n"));
    assert!(text.contains("\trescode: Server Failure\n"));
    assert!(text.ends_with("\tanswers: 2\n\tauthoritative_entries: 0\n\tresource_entries: 0\n"));
    assert_eq!(15, text.lines().count());
}

#[test]
fn message_debug_listing() {
    let mut m = Message::new();
    m.questions.push(Question::new("a".to_string(), QueryType::A, 1));
    let text = m.debug_fmt();
    assert!(text.starts_with("Header:\n\tid: 0\n"));
    assert!(text.ends_with("Questions(1)\nAnswers(0)\nAuthorities(0)\nResources(0)\n"));
}

#[test]
fn invalid_utf8_label_reads_with_replacement() {
    let mut b = buffer_of(&[2, 0xff, b'A', 0]);
    assert_eq!("\u{FFFD}a", b.read_qname().unwrap());
    assert_eq!(4, b.pos());
}

#[test]
fn empty_name_is_two_zero_bytes() {
    let mut b = BytePacketBuffer::new();
    b.write_qname("").unwrap();
    assert_eq!(vec![0, 0], b.get_all().unwrap());
}

#[test]
fn name_that_does_not_fit_is_refused() {
    let mut b = BytePacketBuffer::new();
    b.seek(505).unwrap();
    assert!(matches!(b.write_qname("abcdef.gh"), Err(Error::EndOfBuffer)));
    assert_eq!(505, b.pos());
    b.seek(501).unwrap();
    b.write_qname("abcdef.gh").unwrap();
    assert_eq!(512, b.pos());
}
