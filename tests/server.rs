use local_fqdn_filter::dns::{BytePacketBuffer, Message, QueryType, Question, RData, Record, ResultCode};
use local_fqdn_filter::server::{answer_upstream, decide, lookup_request, make_error_resp_msg, Config, Decision};
use local_fqdn_filter::{CheckList, CheckStatus, CompositeCheckList, ResolvedStatus};

fn lists(allow: &[&str], deny: &[&str]) -> CompositeCheckList {
    let mut a = CheckList::in_memory();
    for n in allow {
        a.add(n);
    }
    let mut d = CheckList::in_memory();
    for n in deny {
        d.add(n);
    }
    CompositeCheckList::new(a, d)
}

fn parse(bytes: &[u8]) -> Message {
    let mut b = BytePacketBuffer::new();
    b.buf[..bytes.len()].copy_from_slice(bytes);
    Message::read(&mut b).unwrap()
}

fn request(id: u16, name: &str, qtype: QueryType) -> Message {
    parse(&lookup_request(id, name.to_string(), qtype, 1).unwrap())
}

fn upstream_reply(req: &Message, answers: Vec<Record>, rcode: ResultCode) -> Vec<u8> {
    let mut m = Message::new();
    m.header.id = req.header.id;
    m.header.response = true;
    m.header.recursion_desired = true;
    m.header.recursion_available = true;
    m.header.rescode = rcode;
    let q = &req.questions[0];
    m.questions.push(Question::new(q.name.clone(), q.qtype, q.class));
    m.answers = answers;
    let mut b = BytePacketBuffer::new();
    m.write(&mut b).unwrap();
    b.get_all().unwrap()
}

fn a_record(name: &str, o: [u8; 4]) -> Record {
    Record { name: name.to_string(), qtype: QueryType::A, class: 1, ttl: 60, rdlength: 4, rdata: RData::A(o) }
}

fn forward(d: Decision) -> (u16, Question, bool) {
    match d {
        Decision::Forward { id, question, checked } => (id, question, checked),
        _ => panic!("expected a forward"),
    }
}

fn denied(d: Decision) -> (Vec<u8>, ResolvedStatus) {
    match d {
        Decision::Deny { reply, status } => (reply, status),
        _ => panic!("expected a denial"),
    }
}

#[test]
fn allowed_name_is_forwarded_and_relayed() {
    let filter = lists(&["www.example.com"], &[]);
    let req = request(0x1234, "www.example.com", QueryType::A);
    let (id, question, checked) = forward(decide(&req, &filter));
    assert_eq!(0x1234, id);
    assert!(checked);
    assert_eq!("www.example.com", question.name);
    let up = upstream_reply(&req, vec![a_record("www.example.com", [93, 184, 216, 34])], ResultCode::NoError);
    let (reply, status) = answer_upstream(&req, &question, checked, Some(up.clone()));
    assert_eq!(up, reply);
    match &status {
        ResolvedStatus::Allow(d) => {
            assert_eq!(1, d.resp.len());
            assert_eq!(QueryType::A, d.resp[0].0);
            assert_eq!(vec!["93.184.216.34".to_string()], d.resp[0].1);
        }
        _ => panic!("expected Allow"),
    }
    assert_eq!("[Allow] <A> www.example.com => A(93.184.216.34)", status.pretty_fmt());
}

#[test]
fn unknown_name_is_denied_without_upstream() {
    let filter = lists(&[], &[]);
    let req = request(9, "www.example.com", QueryType::A);
    let (reply, status) = denied(decide(&req, &filter));
    let resp = parse(&reply);
    assert_eq!(ResultCode::NXDomain, resp.header.rescode);
    assert_eq!(9, resp.header.id);
    assert!(resp.header.recursion_desired);
    assert!(resp.questions.is_empty());
    assert!(matches!(status, ResolvedStatus::Deny(_, ResultCode::NXDomain)));
    assert_eq!("[Deny] <A> www.example.com: Non-Existent Domain", status.to_string());
}

#[test]
fn pattern_allows_aaaa_request() {
    let filter = lists(&["*.debian.org"], &[]);
    let req = request(3, "ftp.jp.debian.org", QueryType::AAAA);
    let (_, question, checked) = forward(decide(&req, &filter));
    assert!(checked);
    let rec = Record {
        name: "ftp.jp.debian.org".to_string(),
        qtype: QueryType::AAAA,
        class: 1,
        ttl: 60,
        rdlength: 16,
        rdata: RData::AAAA([0x2001, 0xdb8, 0, 0, 0, 0, 0, 1]),
    };
    let up = upstream_reply(&req, vec![rec], ResultCode::NoError);
    let (_, status) = answer_upstream(&req, &question, checked, Some(up));
    match &status {
        ResolvedStatus::Allow(d) => assert_eq!(vec!["2001:db8::1".to_string()], d.resp[0].1),
        _ => panic!("expected Allow"),
    }
}

#[test]
fn deny_list_wins() {
    let filter = lists(&["example.com"], &["example.com"]);
    let req = request(4, "example.com", QueryType::A);
    let (reply, status) = denied(decide(&req, &filter));
    assert_eq!(ResultCode::NXDomain, parse(&reply).header.rescode);
    assert!(matches!(status, ResolvedStatus::Deny(_, _)));
}

#[test]
fn other_types_go_upstream_unchecked() {
    let filter = lists(&[], &[]);
    let req = request(5, "example.com", QueryType::UNKNOWN(15));
    let (_, question, checked) = forward(decide(&req, &filter));
    assert!(!checked);
    assert_eq!(QueryType::UNKNOWN(15), question.qtype);
    let up = upstream_reply(&req, vec![], ResultCode::NoError);
    let (_, status) = answer_upstream(&req, &question, checked, Some(up));
    assert!(matches!(status, ResolvedStatus::NoCheck(_)));
    let (reply, status) = answer_upstream(&req, &question, checked, None);
    assert!(matches!(status, ResolvedStatus::NoCheckButError(_, ResultCode::ServFail)));
    assert_eq!(ResultCode::ServFail, parse(&reply).header.rescode);
}

#[test]
fn upstream_error_code_is_reported() {
    let filter = lists(&["a.test"], &[]);
    let req = request(6, "a.test", QueryType::A);
    let (_, question, checked) = forward(decide(&req, &filter));
    let up = upstream_reply(&req, vec![], ResultCode::Refused);
    let (reply, status) = answer_upstream(&req, &question, checked, Some(up.clone()));
    assert_eq!(up, reply);
    assert!(matches!(status, ResolvedStatus::AllowButError(_, ResultCode::Refused)));
    assert_eq!("[Allow] <A> a.test: Query Refused", status.pretty_fmt());
}

#[test]
fn request_without_question_is_a_format_error() {
    let mut m = Message::new();
    m.header.id = 77;
    let mut b = BytePacketBuffer::new();
    m.write(&mut b).unwrap();
    let req = parse(&b.get_all().unwrap());
    let filter = lists(&[], &[]);
    match decide(&req, &filter) {
        Decision::FormErr { reply, message } => {
            assert_eq!(ResultCode::FormErr, parse(&reply).header.rescode);
            assert_eq!("77: Form Error", message);
        }
        _ => panic!("expected a format error"),
    }
}

#[test]
fn error_reply_mirrors_request() {
    let mut req = Message::new();
    req.header.id = 0xabcd;
    req.header.recursion_desired = true;
    req.header.opcode = 1;
    let (resp, buf) = make_error_resp_msg(&req, ResultCode::ServFail).unwrap();
    assert_eq!(0xabcd, resp.header.id);
    assert!(resp.header.recursion_desired);
    assert_eq!(0, resp.header.opcode);
    assert_eq!(vec![0xab, 0xcd, 0x01, 0x02, 0, 0, 0, 0, 0, 0, 0, 0], buf.get_all().unwrap());
}

#[test]
fn query_sent_upstream() {
    let bytes = lookup_request(0x0102, "a.b".to_string(), QueryType::A, 1).unwrap();
    assert_eq!(
        vec![1, 2, 1, 0, 0, 1, 0, 0, 0, 0, 0, 0, 1, b'a', 1, b'b', 0, 0, 1, 0, 1],
        bytes
    );
}

#[test]
fn config_text() {
    let c = Config::default();
    assert_eq!("Address: 127.0.0.1, Port: 53, Default DNS Server: 8.8.8.8", c.to_string());
    let c = Config::new("0.0.0.0".to_string(), 5353);
    assert_eq!("Address: 0.0.0.0, Port: 5353, Default DNS Server: 8.8.8.8", c.to_string());
}

#[test]
fn resolved_data_lists_answers_by_type() {
    let mut d = local_fqdn_filter::ResolvedData::new(QueryType::A, "x.test".to_string());
    d.insert(QueryType::CNAME, "y.test".to_string());
    d.insert(QueryType::A, "1.2.3.4".to_string());
    d.insert(QueryType::A, "5.6.7.8".to_string());
    d.insert(QueryType::UNKNOWN(99), "".to_string());
    assert_eq!(QueryType::UNKNOWN(99), d.resp[0].0);
    assert_eq!(QueryType::A, d.resp[1].0);
    assert_eq!(QueryType::CNAME, d.resp[2].0);
    assert_eq!("<A> x.test => A(1.2.3.4, 5.6.7.8) UNKNOWN(99)(1) CNAME(1)", d.pretty_fmt());
}

struct Quiet;

impl local_fqdn_filter::event::ResolveEvent for Quiet {
    fn resolving(&self, _name: &str) {}
    fn resolved(&self, _status: ResolvedStatus) {}
    fn error(&self, _message: &str) {}
}

#[test]
fn builders_carry_their_parts() {
    let runner = local_fqdn_filter::server::Server::from_config(Config::new("127.0.0.1".to_string(), 5300))
        .checklist(lists(&["a.test"], &[]))
        .event(Quiet)
        .build();
    assert_eq!(5300, runner.config.port);
    assert_eq!(CheckStatus::Allow, runner.checklist.check("a.test"));
}

#[test]
fn srv_answer_is_reported_by_target() {
    let filter = lists(&[], &[]);
    let req = request(8, "_sip._udp.example.com", QueryType::SRV);
    let (_, question, checked) = forward(decide(&req, &filter));
    let rec = Record {
        name: "_sip._udp.example.com".to_string(),
        qtype: QueryType::SRV,
        class: 1,
        ttl: 60,
        rdlength: 23,
        rdata: RData::SRV(23, local_fqdn_filter::dns::SrvRecord::new(10, 20, 5060, "sip.example.com".to_string())),
    };
    let up = upstream_reply(&req, vec![rec], ResultCode::NoError);
    let (_, status) = answer_upstream(&req, &question, checked, Some(up));
    match &status {
        ResolvedStatus::NoCheck(d) => {
            assert_eq!(QueryType::SRV, d.resp[0].0);
            assert_eq!(vec!["sip.example.com".to_string()], d.resp[0].1);
        }
        _ => panic!("expected NoCheck"),
    }
    assert_eq!("[NoCheck] <SRV> _sip._udp.example.com => SRV(sip.example.com)", status.pretty_fmt());
}
