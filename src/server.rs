//! The decisions of the filtering DNS server, one datagram at a time: what
//! to answer, whether to ask the upstream server, and what to report.
use vstd::prelude::*;
use vstd::string::*;

use crate::allowlist::AllowList;
use crate::composite::{verdict, CheckStatus, CompositeCheckList};
use crate::event::ResolveEvent;
use crate::dns::address::{ipv4_text, ipv4_to_string, ipv6_text, ipv6_to_string};
use crate::dns::byte_packet_buffer::{BytePacketBuffer, Decoded, BUF_SIZE};
use crate::dns::error::Result;
use crate::dns::header::Header;
use crate::dns::message::{Message, MessageView};
use crate::dns::query_type::QueryType;
use crate::dns::question::{Question, QuestionView};
use crate::dns::record::{RData, RDataView, RecordView};
use crate::dns::result_code::ResultCode;
use crate::resolved_data::{with_answer, ResolvedData, ResolvedDataView};
use crate::resolved_status::{ResolvedStatus, ResolvedStatusView};
use crate::text::{decimal, decimal_text};

verus! {

/// The port of DNS.
pub const DNS_PORT: u16 = 53;

/// Where the server listens and which upstream server it asks.
#[derive(Debug)]
pub struct Config {
    pub address: String,
    pub port: u16,
    /// The upstream server's IPv4 address, as its four octets.
    pub default_dns_server: [u8; 4],
}

impl Config {
    /// A configuration that asks 8.8.8.8 upstream.
    pub fn new(address: String, port: u16) -> (r: Self)
        ensures
            r.address@ == address@,
            r.port == port,
            r.default_dns_server@ == seq![8u8, 8, 8, 8],
    {
        let r = Config { address, port, default_dns_server: [8, 8, 8, 8] };
        assert(r.default_dns_server@ =~= seq![8u8, 8, 8, 8]);
        r
    }

    /// `Address: a, Port: p, Default DNS Server: d`.
    pub fn to_string(&self) -> (r: String)
        ensures
            r@ == "Address: "@ + self.address@ + ", Port: "@ + decimal_text(self.port as nat)
                + ", Default DNS Server: "@ + ipv4_text(self.default_dns_server@),
    {
        String::from_str("Address: ").concat(self.address.as_str()).concat(", Port: ").concat(
            decimal(self.port as u64).as_str(),
        ).concat(", Default DNS Server: ").concat(ipv4_to_string(&self.default_dns_server).as_str())
    }
}

impl Default for Config {
    /// Listens on 127.0.0.1:53 and asks 8.8.8.8.
    fn default() -> (r: Self)
        ensures
            r.address@ == "127.0.0.1"@,
            r.port == DNS_PORT,
            r.default_dns_server@ == seq![8u8, 8, 8, 8],
    {
        Config::new(String::from_str("127.0.0.1"), DNS_PORT)
    }
}

/// The header of a reply synthesized for `req`: its id, recursion flags and
/// response flag, the code `rcode`, and every other field clear.
pub open spec fn error_header(req: Header, rcode: ResultCode) -> Header {
    Header {
        id: req.id,
        recursion_desired: req.recursion_desired,
        recursion_available: req.recursion_available,
        response: req.response,
        rescode: rcode,
        ..Header::empty()
    }
}

/// The bytes of the reply synthesized for a request with header `req`.
pub open spec fn error_reply(req: Header, rcode: ResultCode) -> Seq<u8> {
    error_header(req, rcode).encode()
}

/// Synthesizes a reply to `req` with code `result_code` and empty sections,
/// and writes it into a fresh buffer.
pub fn make_error_resp_msg(req: &Message, result_code: ResultCode) -> (r: Result<
    (Message, BytePacketBuffer),
>)
    ensures
        r is Ok,
        r->Ok_0.0@.header == error_header(req.header, result_code),
        r->Ok_0.0@.questions.len() == 0,
        r->Ok_0.0@.answers.len() == 0,
        r->Ok_0.0@.authorities.len() == 0,
        r->Ok_0.0@.resources.len() == 0,
        r->Ok_0.1.pos == error_reply(req.header, result_code).len(),
        r->Ok_0.1.buf@.subrange(0, r->Ok_0.1.pos as int) == error_reply(req.header, result_code),
{
    let mut resp = Message::new();
    resp.header.id = req.header.id;
    resp.header.recursion_desired = req.header.recursion_desired;
    resp.header.recursion_available = req.header.recursion_available;
    resp.header.response = req.header.response;
    resp.header.rescode = result_code;
    let mut resp_buffer = BytePacketBuffer::new();
    let ghost m0 = resp@;
    assert(m0.counted() =~= m0);
    assert(resp@.labels_ok());
    assert(resp@.counted().encode() =~= resp.header.encode());
    let w = resp.write(&mut resp_buffer);
    match w {
        Ok(()) => {
            assert(resp_buffer.buf@.subrange(0, resp_buffer.pos as int) =~= error_reply(
                req.header,
                result_code,
            ));
            Ok((resp, resp_buffer))
        },
        Err(e) => Err(e),
    }
}

/// The reply bytes synthesized for `req` with code `rcode`.
fn error_reply_bytes(req: &Message, rcode: ResultCode) -> (r: Vec<u8>)
    ensures
        r@ == error_reply(req.header, rcode),
{
    match make_error_resp_msg(req, rcode) {
        Ok((_, buf)) => match buf.get_all() {
            Ok(v) => v,
            Err(_) => Vec::new(),
        },
        Err(_) => Vec::new(),
    }
}

/// The query sent upstream: a recursive request with id `id` and the one
/// question given.
pub open spec fn query_view(id: u16, q: QuestionView) -> MessageView {
    MessageView {
        header: Header { id, questions: 1, recursion_desired: true, ..Header::empty() },
        questions: seq![q],
        answers: seq![],
        authorities: seq![],
        resources: seq![],
    }
}

/// The bytes of the query to send upstream for `name`. A label over 63
/// bytes fails with `SingleLabelLimit`, a query over 512 bytes with
/// `EndOfBuffer`.
pub fn lookup_request(id: u16, name: String, qtype: QueryType, class: u16) -> (r: Result<Vec<u8>>)
    ensures
        r is Ok <==> query_view(id, QuestionView { name: name@, qtype, class }).labels_ok()
            && query_view(id, QuestionView { name: name@, qtype, class }).encode().len()
            <= BUF_SIZE,
        r is Ok ==> r->Ok_0@ == query_view(id, QuestionView { name: name@, qtype, class }).encode(),
        r is Err ==> r->Err_0 is SingleLabelLimit || r->Err_0 is EndOfBuffer,
        r is Err && query_view(id, QuestionView { name: name@, qtype, class }).labels_ok()
            ==> r->Err_0 is EndOfBuffer,
{
    let ghost nm = name@;
    let mut msg = Message::new();
    msg.header.id = id;
    msg.header.questions = 1;
    msg.header.recursion_desired = true;
    msg.questions.push(Question::new(name, qtype, class));
    let ghost m0 = msg@;
    let ghost target = query_view(id, QuestionView { name: nm, qtype, class });
    assert(m0.questions =~= seq![QuestionView { name: nm, qtype, class }]);
    assert(m0.counted().header == target.header);
    assert(m0.counted().answers =~= target.answers);
    assert(m0.counted().authorities =~= target.authorities);
    assert(m0.counted().resources =~= target.resources);
    assert(m0.counted() == target);
    assert(m0.labels_ok() == target.labels_ok());
    let mut req = BytePacketBuffer::new();
    msg.write(&mut req)?;
    let v = req.get_all();
    match v {
        Ok(v) => {
            assert(v@ =~= target.encode());
            Ok(v)
        },
        Err(e) => Err(e),
    }
}

/// What to do with a request.
pub enum Decision {
    /// Answer with `reply` and report `status`: the request was denied.
    Deny { reply: Vec<u8>, status: ResolvedStatus },
    /// Answer a request without a question with `reply`, a format error, and
    /// report `message`.
    FormErr { reply: Vec<u8>, message: String },
    /// Ask the upstream server `question`; `checked` tells whether the lists
    /// governed the request (A and AAAA) or not (any other type).
    Forward { id: u16, question: Question, checked: bool },
}

/// The request is one that the lists govern: A or AAAA.
pub open spec fn is_checked_type(q: QueryType) -> bool {
    q == QueryType::A || q == QueryType::AAAA
}

/// Decides what to do with a decoded request: a request without a question
/// gets a format error; a type other than A and AAAA goes upstream unchecked;
/// an A or AAAA request goes upstream where the lists allow its name, and is
/// answered `NXDomain` and reported as denied where they deny it or do not
/// know it.
pub fn decide(req: &Message, filter: &CompositeCheckList) -> (r: Decision)
    requires
        filter.wf(),
    ensures
        req@.questions.len() == 0 ==> match r {
            Decision::FormErr { reply, message } => reply@ == error_reply(
                req.header,
                ResultCode::FormErr,
            ) && message@ == decimal_text(req.header.id as nat) + ": "@
                + ResultCode::FormErr.spec_text(),
            _ => false,
        },
        req@.questions.len() > 0 ==> {
            let q = req@.questions[0];
            if !is_checked_type(q.qtype) {
                r == Decision::Forward { id: req.header.id, question: r->question, checked: false }
                    && r->question@ == q
            } else if verdict(filter.allowlist@, filter.denylist@, q.name) == CheckStatus::Allow {
                r == Decision::Forward { id: req.header.id, question: r->question, checked: true }
                    && r->question@ == q
            } else {
                match r {
                    Decision::Deny { reply, status } => reply@ == error_reply(
                        req.header,
                        ResultCode::NXDomain,
                    ) && status@ == ResolvedStatusView::Deny(
                        ResolvedDataView { req_qtype: q.qtype, req_name: q.name, resp: seq![] },
                        ResultCode::NXDomain,
                    ),
                    _ => false,
                }
            }
        },
{
    if req.questions.len() == 0 {
        let reply = error_reply_bytes(req, ResultCode::FormErr);
        let message = decimal(req.header.id as u64).concat(": ").concat(
            ResultCode::FormErr.to_string().as_str(),
        );
        return Decision::FormErr { reply, message };
    }
    let q = &req.questions[0];
    assert(q@ == req@.questions[0]);
    let question = Question::new(String::from_str(q.name.as_str()), q.qtype, q.class);
    if !(q.qtype == QueryType::A || q.qtype == QueryType::AAAA) {
        return Decision::Forward { id: req.header.id, question, checked: false };
    }
    match filter.check(q.name.as_str()) {
        CheckStatus::Allow => Decision::Forward { id: req.header.id, question, checked: true },
        _ => {
            let reply = error_reply_bytes(req, ResultCode::NXDomain);
            let data = ResolvedData::new(q.qtype, String::from_str(q.name.as_str()));
            let status = ResolvedStatus::Deny(data, ResultCode::NXDomain);
            assert(status@ == ResolvedStatusView::Deny(
                ResolvedDataView { req_qtype: q.qtype, req_name: q@.name, resp: seq![] },
                ResultCode::NXDomain,
            )) by {
                assert(data@.resp =~= seq![]);
            }
            Decision::Deny { reply, status }
        },
    }
}

/// The type and text under which the data of an answer is reported: the
/// address for A and AAAA, the target for CNAME and SRV, nothing for other
/// types.
pub open spec fn answer_entry(d: RDataView) -> (QueryType, Seq<char>) {
    match d {
        RDataView::A(o) => (QueryType::A, ipv4_text(o)),
        RDataView::AAAA(s) => (QueryType::AAAA, ipv6_text(s)),
        RDataView::CNAME(_, t) => (QueryType::CNAME, t),
        RDataView::SRV(_, _, _, _, t) => (QueryType::SRV, t),
        RDataView::Unknown(qt, _) => (QueryType::UNKNOWN(qt.code()), seq![]),
    }
}

/// The answers of `rs` added in order to `resp`.
pub open spec fn collect_answers(
    resp: Seq<(QueryType, Seq<Seq<char>>)>,
    rs: Seq<RecordView>,
) -> Seq<(QueryType, Seq<Seq<char>>)>
    decreases rs.len(),
{
    if rs.len() == 0 {
        resp
    } else {
        let e = answer_entry(rs.last().rdata);
        with_answer(collect_answers(resp, rs.drop_last()), e.0, e.1)
    }
}

/// The message that the upstream server's reply holds, where it decodes.
pub open spec fn upstream_message(bytes: Seq<u8>) -> Option<MessageView> {
    if bytes.len() <= BUF_SIZE {
        match MessageView::decode(bytes + Seq::new((BUF_SIZE - bytes.len()) as nat, |i: int| 0u8), 0) {
            Decoded::Value(m, _) => Some(m),
            _ => None,
        }
    } else {
        None
    }
}

/// The status reported for a forwarded request: as it is for a checked
/// request, with the allow outcomes as unchecked ones otherwise.
pub open spec fn reported(checked: bool, s: ResolvedStatusView) -> ResolvedStatusView {
    if checked {
        s
    } else {
        s.nocheck()
    }
}

fn answer_text(d: &RData) -> (r: (QueryType, String))
    ensures
        r.0 == answer_entry(d@).0,
        r.1@ == answer_entry(d@).1,
{
    match d {
        RData::A(o) => (QueryType::A, ipv4_to_string(o)),
        RData::AAAA(s) => (QueryType::AAAA, ipv6_to_string(s)),
        RData::CNAME(_, t) => (QueryType::CNAME, String::from_str(t.as_str())),
        RData::SRV(_, srv) => (QueryType::SRV, String::from_str(srv.target.as_str())),
        RData::Unknown(qt, _) => (QueryType::UNKNOWN(crate::dns::query_type::code_of(*qt)), String::new()),
    }
}

/// The reply to relay and the status to report once the upstream server
/// was asked `question` for the request `req`. `upstream` is its reply, or
/// `None` where asking failed. A reply that decodes is relayed as it came,
/// and its answers are reported: `Allow` where its code is `NoError`, else
/// `AllowButError` with its code. Otherwise the client gets a synthesized
/// `ServFail` and the report is `AllowButError` with `ServFail`. For an
/// unchecked request the report is `NoCheck` or `NoCheckButError` instead.
pub fn answer_upstream(req: &Message, question: &Question, checked: bool, upstream: Option<Vec<u8>>) -> (r: (
    Vec<u8>,
    ResolvedStatus,
))
    ensures
        ({
            let data0 = ResolvedDataView {
                req_qtype: question.qtype,
                req_name: question.name@,
                resp: seq![],
            };
            match upstream {
                Some(bytes) if upstream_message(bytes@) is Some => {
                    let m = upstream_message(bytes@)->0;
                    let data = ResolvedDataView {
                        resp: collect_answers(seq![], m.answers),
                        ..data0
                    };
                    r.0@ == bytes@ && r.1@ == reported(
                        checked,
                        if m.header.rescode == ResultCode::NoError {
                            ResolvedStatusView::Allow(data)
                        } else {
                            ResolvedStatusView::AllowButError(data, m.header.rescode)
                        },
                    )
                },
                _ => r.0@ == error_reply(req.header, ResultCode::ServFail) && r.1@ == reported(
                    checked,
                    ResolvedStatusView::AllowButError(data0, ResultCode::ServFail),
                ),
            }
        }),
{
    let mut data = ResolvedData::new(question.qtype, String::from_str(question.name.as_str()));
    let ghost data0 = data@;
    assert(data0.resp =~= seq![]);
    let mut parsed: Option<(Vec<u8>, Message)> = None;
    match upstream {
        Some(bytes) => {
            if bytes.len() <= BUF_SIZE {
                let mut buf = BytePacketBuffer::new();
                let mut i: usize = 0;
                while i < bytes.len()
                    invariant
                        0 <= i <= bytes@.len() <= BUF_SIZE,
                        buf.pos == 0,
                        buf.buf@ == bytes@.subrange(0, i as int) + Seq::new(
                            (BUF_SIZE - i) as nat,
                            |k: int| 0u8,
                        ),
                    decreases bytes@.len() - i,
                {
                    buf.buf[i] = bytes[i];
                    i = i + 1;
                    assert(buf.buf@ =~= bytes@.subrange(0, i as int) + Seq::new(
                        (BUF_SIZE - i) as nat,
                        |k: int| 0u8,
                    ));
                }
                assert(bytes@.subrange(0, i as int) =~= bytes@);
                match Message::read(&mut buf) {
                    Ok(m) => {
                        parsed = Some((bytes, m));
                    },
                    Err(_) => {},
                }
            }
        },
        None => {},
    }
    let (reply, status) = match parsed {
        Some((bytes, m)) => {
            let ghost mv = m@;
            let mut k: usize = 0;
            assert(mv.answers.subrange(0, 0) =~= seq![]);
            while k < m.answers.len()
                invariant
                    mv == m@,
                    0 <= k <= m.answers@.len(),
                    data@ == (ResolvedDataView {
                        resp: collect_answers(seq![], mv.answers.subrange(0, k as int)),
                        ..data0
                    }),
                decreases m.answers@.len() - k,
            {
                let (t, text) = answer_text(&m.answers[k].rdata);
                data.insert(t, text);
                assert(mv.answers.subrange(0, k + 1).drop_last() =~= mv.answers.subrange(
                    0,
                    k as int,
                ));
                assert(mv.answers[k as int] == m.answers@[k as int]@);
                k = k + 1;
            }
            assert(mv.answers.subrange(0, k as int) =~= mv.answers);
            if m.header.rescode == ResultCode::NoError {
                (bytes, ResolvedStatus::Allow(data))
            } else {
                (bytes, ResolvedStatus::AllowButError(data, m.header.rescode))
            }
        },
        None => (error_reply_bytes(req, ResultCode::ServFail), ResolvedStatus::AllowButError(data, ResultCode::ServFail)),
    };
    if checked {
        (reply, status)
    } else {
        (reply, status.into_nocheck())
    }
}

/// The entry point for setting up a server.
pub struct Server;

/// A server being set up: its configuration and its lists.
pub struct ServerConfigBuilder {
    pub config: Config,
    pub checklist: CompositeCheckList,
}

/// A server being set up, with the sink of its events.
pub struct ServerBuilder<E: ResolveEvent> {
    pub config: Config,
    pub checklist: CompositeCheckList,
    pub event: E,
}

/// A server ready to serve: its configuration, its event sink and its
/// lists, which the datagram loop and the control channel share.
pub struct Runner<E: ResolveEvent> {
    pub config: Config,
    pub event: E,
    pub checklist: CompositeCheckList,
}

impl Server {
    /// Starts setting up a server with `config` and empty lists.
    pub fn from_config(config: Config) -> (r: ServerConfigBuilder)
        ensures
            r.config == config,
            r.checklist.wf(),
            r.checklist.allowlist@.entries().is_empty(),
            r.checklist.denylist@.entries().is_empty(),
    {
        let checklist = CompositeCheckList::new(AllowList::in_memory(), AllowList::in_memory());
        assert(checklist.allowlist@.entries() =~= Set::empty());
        assert(checklist.denylist@.entries() =~= Set::empty());
        ServerConfigBuilder { config, checklist }
    }
}

impl ServerConfigBuilder {
    /// The same setup with the lists `checklist`.
    pub fn checklist(self, checklist: CompositeCheckList) -> (r: Self)
        ensures
            r.config == self.config,
            r.checklist == checklist,
    {
        ServerConfigBuilder { config: self.config, checklist }
    }

    /// The same setup with the event sink `event`.
    pub fn event<E: ResolveEvent>(self, event: E) -> (r: ServerBuilder<E>)
        ensures
            r.config == self.config,
            r.checklist == self.checklist,
            r.event == event,
    {
        ServerBuilder { config: self.config, checklist: self.checklist, event }
    }
}

impl<E: ResolveEvent> ServerBuilder<E> {
    /// The same setup with the lists `checklist`.
    pub fn checklist(self, checklist: CompositeCheckList) -> (r: Self)
        ensures
            r.config == self.config,
            r.checklist == checklist,
            r.event == self.event,
    {
        ServerBuilder { config: self.config, checklist, event: self.event }
    }

    /// The server ready to serve.
    pub fn build(self) -> (r: Runner<E>)
        ensures
            r.config == self.config,
            r.checklist == self.checklist,
            r.event == self.event,
    {
        Runner { config: self.config, event: self.event, checklist: self.checklist }
    }
}

} // verus!
