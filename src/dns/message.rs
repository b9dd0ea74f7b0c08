use vstd::prelude::*;

use super::byte_packet_buffer::{fail, BytePacketBuffer, Decoded, BUF_SIZE};
use super::error::{Error, Result};
use super::header::{law_header_round_trip, Header, HEADER_SIZE};
use crate::text::{decimal, decimal_text};
use vstd::string::*;
use super::question::{law_question_round_trip, Question, QuestionView};
use super::record::{lemma_part, law_record_round_trip, Record, RecordView};

verus! {

/// A DNS message: a header and four sections. On the wire the header's
/// counters say how many entries each section holds.
pub struct Message {
    pub header: Header,
    pub questions: Vec<Question>,
    pub answers: Vec<Record>,
    pub authorities: Vec<Record>,
    pub resources: Vec<Record>,
}

/// A message as a value.
pub struct MessageView {
    pub header: Header,
    pub questions: Seq<QuestionView>,
    pub answers: Seq<RecordView>,
    pub authorities: Seq<RecordView>,
    pub resources: Seq<RecordView>,
}

impl View for Message {
    type V = MessageView;

    open spec fn view(&self) -> MessageView {
        MessageView {
            header: self.header,
            questions: self.questions@.map_values(|q: Question| q@),
            answers: self.answers@.map_values(|r: Record| r@),
            authorities: self.authorities@.map_values(|r: Record| r@),
            resources: self.resources@.map_values(|r: Record| r@),
        }
    }
}

/// `n` questions one after the other from `p` of `b`.
pub open spec fn decode_questions(b: Seq<u8>, p: int, n: nat) -> Decoded<Seq<QuestionView>>
    decreases n,
{
    if n == 0 {
        Decoded::Value(seq![], p)
    } else {
        match decode_questions(b, p, (n - 1) as nat) {
            Decoded::Value(qs, e) => match QuestionView::decode(b, e) {
                Decoded::Value(q, e2) => Decoded::Value(qs.push(q), e2),
                other => fail(other),
            },
            other => fail(other),
        }
    }
}

/// `n` records one after the other from `p` of `b`.
pub open spec fn decode_records(b: Seq<u8>, p: int, n: nat) -> Decoded<Seq<RecordView>>
    decreases n,
{
    if n == 0 {
        Decoded::Value(seq![], p)
    } else {
        match decode_records(b, p, (n - 1) as nat) {
            Decoded::Value(rs, e) => match RecordView::decode(b, e) {
                Decoded::Value(r, e2) => Decoded::Value(rs.push(r), e2),
                other => fail(other),
            },
            other => fail(other),
        }
    }
}

/// The questions on the wire, one after the other.
pub open spec fn encode_questions(qs: Seq<QuestionView>) -> Seq<u8>
    decreases qs.len(),
{
    if qs.len() == 0 {
        seq![]
    } else {
        encode_questions(qs.drop_last()) + qs.last().encode()
    }
}

/// The records on the wire, one after the other.
pub open spec fn encode_records(rs: Seq<RecordView>) -> Seq<u8>
    decreases rs.len(),
{
    if rs.len() == 0 {
        seq![]
    } else {
        encode_records(rs.drop_last()) + rs.last().encode()
    }
}

impl MessageView {
    /// The message at `p` of `b`: the header, then as many entries in each
    /// section as its counters say.
    pub open spec fn decode(b: Seq<u8>, p: int) -> Decoded<MessageView> {
        if p + HEADER_SIZE > BUF_SIZE {
            Decoded::EndOfBuffer
        } else {
            let h = Header::decode(b, p);
            match decode_questions(b, p + HEADER_SIZE, h.questions as nat) {
                Decoded::Value(qs, e1) => match decode_records(b, e1, h.answers as nat) {
                    Decoded::Value(an, e2) => match decode_records(
                        b,
                        e2,
                        h.authoritative_entries as nat,
                    ) {
                        Decoded::Value(au, e3) => match decode_records(
                            b,
                            e3,
                            h.resource_entries as nat,
                        ) {
                            Decoded::Value(rs, e4) => Decoded::Value(
                                MessageView {
                                    header: h,
                                    questions: qs,
                                    answers: an,
                                    authorities: au,
                                    resources: rs,
                                },
                                e4,
                            ),
                            other => fail(other),
                        },
                        other => fail(other),
                    },
                    other => fail(other),
                },
                other => fail(other),
            }
        }
    }

    /// The message on the wire: the header, then each section in order.
    pub open spec fn encode(self) -> Seq<u8> {
        self.header.encode() + encode_questions(self.questions) + encode_records(self.answers)
            + encode_records(self.authorities) + encode_records(self.resources)
    }

    /// No label of any name in the message is longer than 63 bytes.
    pub open spec fn labels_ok(self) -> bool {
        &&& forall|i: int| 0 <= i < self.questions.len() ==> #[trigger] self.questions[i].labels_ok()
        &&& forall|i: int| 0 <= i < self.answers.len() ==> #[trigger] self.answers[i].labels_ok()
        &&& forall|i: int|
            0 <= i < self.authorities.len() ==> #[trigger] self.authorities[i].labels_ok()
        &&& forall|i: int| 0 <= i < self.resources.len() ==> #[trigger] self.resources[i].labels_ok()
    }

    /// This message with its header's counters set from its sections.
    pub open spec fn counted(self) -> MessageView {
        MessageView {
            header: Header {
                questions: self.questions.len() as u16,
                answers: self.answers.len() as u16,
                authoritative_entries: self.authorities.len() as u16,
                resource_entries: self.resources.len() as u16,
                ..self.header
            },
            ..self
        }
    }
}

proof fn lemma_records_stay_failed(b: Seq<u8>, p: int, k: nat, m: nat)
    requires
        k <= m,
        !(decode_records(b, p, k) is Value),
    ensures
        decode_records(b, p, m) == decode_records(b, p, k),
    decreases m - k,
{
    if m > k {
        lemma_records_stay_failed(b, p, k, (m - 1) as nat);
    }
}

proof fn lemma_questions_stay_failed(b: Seq<u8>, p: int, k: nat, m: nat)
    requires
        k <= m,
        !(decode_questions(b, p, k) is Value),
    ensures
        decode_questions(b, p, m) == decode_questions(b, p, k),
    decreases m - k,
{
    if m > k {
        lemma_questions_stay_failed(b, p, k, (m - 1) as nat);
    }
}

/// The questions as they read back.
pub open spec fn questions_read_form(qs: Seq<QuestionView>) -> Seq<QuestionView>
    decreases qs.len(),
{
    if qs.len() == 0 {
        seq![]
    } else {
        questions_read_form(qs.drop_last()).push(qs.last().read_form())
    }
}

/// The records as they read back.
pub open spec fn records_read_form(rs: Seq<RecordView>) -> Seq<RecordView>
    decreases rs.len(),
{
    if rs.len() == 0 {
        seq![]
    } else {
        records_read_form(rs.drop_last()).push(rs.last().read_form())
    }
}

proof fn lemma_records_round_trip(b: Seq<u8>, p: int, rs: Seq<RecordView>)
    requires
        0 <= p,
        b.len() == BUF_SIZE,
        p + encode_records(rs).len() <= b.len(),
        b.subrange(p, p + encode_records(rs).len()) == encode_records(rs),
        forall|i: int| 0 <= i < rs.len() ==> (#[trigger] rs[i]).round_trips(),
    ensures
        decode_records(b, p, rs.len()) == Decoded::Value(
            records_read_form(rs),
            p + encode_records(rs).len(),
        ),
    decreases rs.len(),
{
    if rs.len() > 0 {
        let r0 = rs.drop_last();
        let enc = encode_records(rs);
        let enc0 = encode_records(r0);
        let last = rs.last();
        assert(enc == enc0 + last.encode());
        lemma_part(b, p, enc, 0, enc0.len() as int);
        assert(enc.subrange(0, enc0.len() as int) =~= enc0);
        assert forall|i: int| 0 <= i < r0.len() implies (#[trigger] r0[i]).round_trips() by {
            assert(r0[i] == rs[i]);
        }
        lemma_records_round_trip(b, p, r0);
        lemma_part(b, p, enc, enc0.len() as int, enc.len() as int);
        assert(enc.subrange(enc0.len() as int, enc.len() as int) =~= last.encode());
        assert(rs[rs.len() - 1] == last);
        law_record_round_trip(b, p + enc0.len(), last);
        assert((rs.len() - 1) as nat == r0.len());
    }
}

proof fn lemma_questions_round_trip(b: Seq<u8>, p: int, qs: Seq<QuestionView>)
    requires
        0 <= p,
        b.len() == BUF_SIZE,
        p + encode_questions(qs).len() <= b.len(),
        b.subrange(p, p + encode_questions(qs).len()) == encode_questions(qs),
        forall|i: int| 0 <= i < qs.len() ==> (#[trigger] qs[i]).round_trips(),
    ensures
        decode_questions(b, p, qs.len()) == Decoded::Value(
            questions_read_form(qs),
            p + encode_questions(qs).len(),
        ),
    decreases qs.len(),
{
    if qs.len() > 0 {
        let q0 = qs.drop_last();
        let enc = encode_questions(qs);
        let enc0 = encode_questions(q0);
        let last = qs.last();
        assert(enc == enc0 + last.encode());
        lemma_part(b, p, enc, 0, enc0.len() as int);
        assert(enc.subrange(0, enc0.len() as int) =~= enc0);
        assert forall|i: int| 0 <= i < q0.len() implies (#[trigger] q0[i]).round_trips() by {
            assert(q0[i] == qs[i]);
        }
        lemma_questions_round_trip(b, p, q0);
        lemma_part(b, p, enc, enc0.len() as int, enc.len() as int);
        assert(enc.subrange(enc0.len() as int, enc.len() as int) =~= last.encode());
        assert(qs[qs.len() - 1] == last);
        law_question_round_trip(b, p + enc0.len(), last);
        assert((qs.len() - 1) as nat == q0.len());
    }
}

/// The sections of `m` on the wire, one after the other.
pub open spec fn encode_sections(m: MessageView) -> Seq<u8> {
    encode_questions(m.questions) + encode_records(m.answers) + encode_records(m.authorities)
        + encode_records(m.resources)
}

proof fn lemma_sections_round_trip(b: Seq<u8>, p: int, m: MessageView)
    requires
        0 <= p,
        b.len() == BUF_SIZE,
        p + encode_sections(m).len() <= b.len(),
        b.subrange(p, p + encode_sections(m).len()) == encode_sections(m),
        forall|i: int| 0 <= i < m.questions.len() ==> (#[trigger] m.questions[i]).round_trips(),
        forall|i: int| 0 <= i < m.answers.len() ==> (#[trigger] m.answers[i]).round_trips(),
        forall|i: int| 0 <= i < m.authorities.len() ==> (#[trigger] m.authorities[i]).round_trips(),
        forall|i: int| 0 <= i < m.resources.len() ==> (#[trigger] m.resources[i]).round_trips(),
    ensures
        decode_questions(b, p, m.questions.len()) == Decoded::Value(
            questions_read_form(m.questions),
            p + encode_questions(m.questions).len(),
        ),
        decode_records(b, p + encode_questions(m.questions).len(), m.answers.len())
            == Decoded::Value(
            records_read_form(m.answers),
            p + encode_questions(m.questions).len() + encode_records(m.answers).len(),
        ),
        decode_records(
            b,
            p + encode_questions(m.questions).len() + encode_records(m.answers).len(),
            m.authorities.len(),
        ) == Decoded::Value(
            records_read_form(m.authorities),
            p + encode_questions(m.questions).len() + encode_records(m.answers).len()
                + encode_records(m.authorities).len(),
        ),
        decode_records(
            b,
            p + encode_questions(m.questions).len() + encode_records(m.answers).len()
                + encode_records(m.authorities).len(),
            m.resources.len(),
        ) == Decoded::Value(records_read_form(m.resources), p + encode_sections(m).len()),
{
    let e = encode_sections(m);
    let eq = encode_questions(m.questions);
    let ea = encode_records(m.answers);
    let eu = encode_records(m.authorities);
    let er = encode_records(m.resources);
    let n1 = eq.len() as int;
    let n2 = n1 + ea.len();
    let n3 = n2 + eu.len();
    let n4 = n3 + er.len();
    lemma_part(b, p, e, 0, n1);
    assert(e.subrange(0, n1) =~= eq);
    lemma_questions_round_trip(b, p, m.questions);
    lemma_part(b, p, e, n1, n2);
    assert(e.subrange(n1, n2) =~= ea);
    lemma_records_round_trip(b, p + n1, m.answers);
    lemma_part(b, p, e, n2, n3);
    assert(e.subrange(n2, n3) =~= eu);
    lemma_records_round_trip(b, p + n2, m.authorities);
    lemma_part(b, p, e, n3, n4);
    assert(e.subrange(n3, n4) =~= er);
    lemma_records_round_trip(b, p + n3, m.resources);
}

/// A message written at `p` reads back from `p` with its counters set from
/// its sections and its names as the dotted text of their labels, each
/// decoded and lowercased: for sections of fewer than 65536 entries, an
/// opcode and a response code that fit their four bits, and entries that
/// read back as written.
pub proof fn law_message_round_trip(b: Seq<u8>, p: int, m: MessageView)
    requires
        0 <= p,
        b.len() == BUF_SIZE,
        p + m.counted().encode().len() <= b.len(),
        b.subrange(p, p + m.counted().encode().len()) == m.counted().encode(),
        m.header.opcode < 16,
        m.header.rescode.spec_code() < 16,
        m.questions.len() < 0x10000,
        m.answers.len() < 0x10000,
        m.authorities.len() < 0x10000,
        m.resources.len() < 0x10000,
        forall|i: int| 0 <= i < m.questions.len() ==> (#[trigger] m.questions[i]).round_trips(),
        forall|i: int| 0 <= i < m.answers.len() ==> (#[trigger] m.answers[i]).round_trips(),
        forall|i: int| 0 <= i < m.authorities.len() ==> (#[trigger] m.authorities[i]).round_trips(),
        forall|i: int| 0 <= i < m.resources.len() ==> (#[trigger] m.resources[i]).round_trips(),
    ensures
        MessageView::decode(b, p) == Decoded::Value(
            MessageView {
                header: m.counted().header,
                questions: questions_read_form(m.questions),
                answers: records_read_form(m.answers),
                authorities: records_read_form(m.authorities),
                resources: records_read_form(m.resources),
            },
            p + m.counted().encode().len(),
        ),
{
    let c = m.counted();
    let e = c.encode();
    let h = c.header.encode();
    let es = encode_sections(m);
    assert(e =~= h + es);
    lemma_part(b, p, e, 0, HEADER_SIZE as int);
    assert(e.subrange(0, HEADER_SIZE as int) =~= h);
    law_header_round_trip(b, p, c.header);
    lemma_part(b, p, e, HEADER_SIZE as int, e.len() as int);
    assert(e.subrange(HEADER_SIZE as int, e.len() as int) =~= es);
    lemma_sections_round_trip(b, p + HEADER_SIZE, m);
}

fn read_records(buf: &mut BytePacketBuffer, n: u16) -> (r: Result<Vec<Record>>)
    ensures
        final(buf).buf == old(buf).buf,
        decode_records(old(buf).buf@, old(buf).pos as int, n as nat).failure_matches(r),
        match decode_records(old(buf).buf@, old(buf).pos as int, n as nat) {
            Decoded::Value(v, e) => r->Ok_0@.map_values(|x: Record| x@) == v && final(buf).pos
                == e,
            _ => true,
        },
{
    let ghost b = buf.buf@;
    let ghost p = buf.pos as int;
    let mut out: Vec<Record> = Vec::new();
    let mut i: u16 = 0;
    assert(out@.map_values(|x: Record| x@) =~= seq![]);
    while i < n
        invariant
            buf.buf == old(buf).buf,
            b == old(buf).buf@,
            p == old(buf).pos,
            i <= n,
            decode_records(b, p, i as nat) == Decoded::Value(
                out@.map_values(|x: Record| x@),
                buf.pos as int,
            ),
        decreases n - i,
    {
        let rec = Record::read(buf);
        match rec {
            Ok(rec) => {
                let ghost o0 = out@;
                out.push(rec);
                assert(out@.map_values(|x: Record| x@) =~= o0.map_values(|x: Record| x@).push(
                    rec@,
                ));
            },
            Err(err) => {
                proof {
                    lemma_records_stay_failed(b, p, (i + 1) as nat, n as nat);
                }
                return Err(err);
            },
        }
        i = i + 1;
    }
    Ok(out)
}

fn read_questions(buf: &mut BytePacketBuffer, n: u16) -> (r: Result<Vec<Question>>)
    ensures
        final(buf).buf == old(buf).buf,
        decode_questions(old(buf).buf@, old(buf).pos as int, n as nat).failure_matches(r),
        match decode_questions(old(buf).buf@, old(buf).pos as int, n as nat) {
            Decoded::Value(v, e) => r->Ok_0@.map_values(|x: Question| x@) == v && final(buf).pos
                == e,
            _ => true,
        },
{
    let ghost b = buf.buf@;
    let ghost p = buf.pos as int;
    let mut out: Vec<Question> = Vec::new();
    let mut i: u16 = 0;
    assert(out@.map_values(|x: Question| x@) =~= seq![]);
    while i < n
        invariant
            buf.buf == old(buf).buf,
            b == old(buf).buf@,
            p == old(buf).pos,
            i <= n,
            decode_questions(b, p, i as nat) == Decoded::Value(
                out@.map_values(|x: Question| x@),
                buf.pos as int,
            ),
        decreases n - i,
    {
        let q = Question::read(buf);
        match q {
            Ok(q) => {
                let ghost o0 = out@;
                out.push(q);
                assert(out@.map_values(|x: Question| x@) =~= o0.map_values(|x: Question| x@).push(
                    q@,
                ));
            },
            Err(err) => {
                proof {
                    lemma_questions_stay_failed(b, p, (i + 1) as nat, n as nat);
                }
                return Err(err);
            },
        }
        i = i + 1;
    }
    Ok(out)
}

proof fn lemma_records_prefix_len(rs: Seq<RecordView>, k: int)
    requires
        0 <= k <= rs.len(),
    ensures
        encode_records(rs.subrange(0, k)).len() <= encode_records(rs).len(),
    decreases rs.len(),
{
    if k < rs.len() {
        assert(rs.drop_last().subrange(0, k) =~= rs.subrange(0, k));
        lemma_records_prefix_len(rs.drop_last(), k);
    } else {
        assert(rs.subrange(0, k) =~= rs);
    }
}

proof fn lemma_questions_prefix_len(qs: Seq<QuestionView>, k: int)
    requires
        0 <= k <= qs.len(),
    ensures
        encode_questions(qs.subrange(0, k)).len() <= encode_questions(qs).len(),
    decreases qs.len(),
{
    if k < qs.len() {
        assert(qs.drop_last().subrange(0, k) =~= qs.subrange(0, k));
        lemma_questions_prefix_len(qs.drop_last(), k);
    } else {
        assert(qs.subrange(0, k) =~= qs);
    }
}

/// No label of any name in the records is longer than 63 bytes.
pub open spec fn records_ok(rs: Seq<RecordView>) -> bool {
    forall|i: int| 0 <= i < rs.len() ==> #[trigger] rs[i].labels_ok()
}

/// No label of any name in the questions is longer than 63 bytes.
pub open spec fn questions_ok(qs: Seq<QuestionView>) -> bool {
    forall|i: int| 0 <= i < qs.len() ==> #[trigger] qs[i].labels_ok()
}

fn write_records(recs: &Vec<Record>, buf: &mut BytePacketBuffer) -> (r: Result<()>)
    requires
        old(buf).buf@.len() == BUF_SIZE,
        old(buf).pos <= BUF_SIZE,
    ensures
        r is Ok <==> records_ok(recs@.map_values(|x: Record| x@)) && old(buf).fits(
            encode_records(recs@.map_values(|x: Record| x@)).len() as int,
        ),
        r is Ok ==> final(buf).wrote(old(buf), encode_records(recs@.map_values(|x: Record| x@))),
        r is Err ==> r->Err_0 is SingleLabelLimit || r->Err_0 is EndOfBuffer,
        r is Err && records_ok(recs@.map_values(|x: Record| x@)) ==> r->Err_0 is EndOfBuffer,
        r is Err && r->Err_0 is SingleLabelLimit ==> !records_ok(
            recs@.map_values(|x: Record| x@),
        ),
{
    let ghost rs = recs@.map_values(|x: Record| x@);
    let ghost b0 = *buf;
    let mut k: usize = 0;
    assert(rs.subrange(0, 0) =~= seq![]);
    assert(buf.buf@ =~= crate::dns::byte_packet_buffer::overwrite(b0.buf@, b0.pos as int, seq![]));
    while k < recs.len()
        invariant
            rs == recs@.map_values(|x: Record| x@),
            b0 == *old(buf),
            b0.buf@.len() == BUF_SIZE,
            0 <= k <= recs@.len(),
            buf.wrote(&b0, encode_records(rs.subrange(0, k as int))),
            b0.pos + encode_records(rs.subrange(0, k as int)).len() <= BUF_SIZE,
            forall|j: int| 0 <= j < k ==> #[trigger] rs[j].labels_ok(),
        decreases recs@.len() - k,
    {
        let ghost b1 = *buf;
        let ghost pre = encode_records(rs.subrange(0, k as int));
        assert(rs.subrange(0, k + 1).drop_last() =~= rs.subrange(0, k as int));
        proof {
            lemma_records_prefix_len(rs, k + 1);
        }
        match recs[k].write(buf) {
            Ok(_) => {
                proof {
                    buf.lemma_wrote_twice(&b1, &b0, pre, rs[k as int].encode());
                }
            },
            Err(e) => {
                return Err(e);
            },
        }
        k = k + 1;
    }
    assert(rs.subrange(0, k as int) =~= rs);
    Ok(())
}

fn write_questions(qs: &Vec<Question>, buf: &mut BytePacketBuffer) -> (r: Result<()>)
    requires
        old(buf).buf@.len() == BUF_SIZE,
        old(buf).pos <= BUF_SIZE,
    ensures
        r is Ok <==> questions_ok(qs@.map_values(|x: Question| x@)) && old(buf).fits(
            encode_questions(qs@.map_values(|x: Question| x@)).len() as int,
        ),
        r is Ok ==> final(buf).wrote(old(buf), encode_questions(qs@.map_values(|x: Question| x@))),
        r is Err ==> r->Err_0 is SingleLabelLimit || r->Err_0 is EndOfBuffer,
        r is Err && questions_ok(qs@.map_values(|x: Question| x@)) ==> r->Err_0 is EndOfBuffer,
        r is Err && r->Err_0 is SingleLabelLimit ==> !questions_ok(
            qs@.map_values(|x: Question| x@),
        ),
{
    let ghost vs = qs@.map_values(|x: Question| x@);
    let ghost b0 = *buf;
    let mut k: usize = 0;
    assert(vs.subrange(0, 0) =~= seq![]);
    assert(buf.buf@ =~= crate::dns::byte_packet_buffer::overwrite(b0.buf@, b0.pos as int, seq![]));
    while k < qs.len()
        invariant
            vs == qs@.map_values(|x: Question| x@),
            b0 == *old(buf),
            b0.buf@.len() == BUF_SIZE,
            0 <= k <= qs@.len(),
            buf.wrote(&b0, encode_questions(vs.subrange(0, k as int))),
            b0.pos + encode_questions(vs.subrange(0, k as int)).len() <= BUF_SIZE,
            forall|j: int| 0 <= j < k ==> #[trigger] vs[j].labels_ok(),
        decreases qs@.len() - k,
    {
        let ghost b1 = *buf;
        let ghost pre = encode_questions(vs.subrange(0, k as int));
        assert(vs.subrange(0, k + 1).drop_last() =~= vs.subrange(0, k as int));
        proof {
            lemma_questions_prefix_len(vs, k + 1);
        }
        match qs[k].write(buf) {
            Ok(_) => {
                proof {
                    buf.lemma_wrote_twice(&b1, &b0, pre, vs[k as int].encode());
                }
            },
            Err(e) => {
                return Err(e);
            },
        }
        k = k + 1;
    }
    assert(vs.subrange(0, k as int) =~= vs);
    Ok(())
}

impl Message {
    pub fn new() -> (r: Self)
        ensures
            r@.header == Header::empty(),
            r@.questions.len() == 0,
            r@.answers.len() == 0,
            r@.authorities.len() == 0,
            r@.resources.len() == 0,
    {
        Message {
            header: Header::new(),
            questions: Vec::new(),
            answers: Vec::new(),
            authorities: Vec::new(),
            resources: Vec::new(),
        }
    }

    /// Reads a message at the cursor: the header, then as many entries in
    /// each section as its counters say.
    pub fn read(buf: &mut BytePacketBuffer) -> (r: Result<Self>)
        ensures
            final(buf).buf == old(buf).buf,
            MessageView::decode(old(buf).buf@, old(buf).pos as int).failure_matches(r),
            match MessageView::decode(old(buf).buf@, old(buf).pos as int) {
                Decoded::Value(v, e) => r->Ok_0@ == v && final(buf).pos == e,
                _ => true,
            },
    {
        let mut header = Header::new();
        header.read(buf)?;
        let questions = read_questions(buf, header.questions)?;
        let answers = read_records(buf, header.answers)?;
        let authorities = read_records(buf, header.authoritative_entries)?;
        let resources = read_records(buf, header.resource_entries)?;
        Ok(Message { header, questions, answers, authorities, resources })
    }

    /// `Header:`, the header's fields one tab in, then a line with the size
    /// of each section.
    pub fn debug_fmt(&self) -> (r: String)
        ensures
            r@ == "Header:\n"@ + self.header.debug_text(1) + "Questions("@ + decimal_text(
                self.questions@.len(),
            ) + ")\n"@ + "Answers("@ + decimal_text(self.answers@.len()) + ")\n"@
                + "Authorities("@ + decimal_text(self.authorities@.len()) + ")\n"@
                + "Resources("@ + decimal_text(self.resources@.len()) + ")\n"@,
    {
        let mut out = String::from_str("Header:\n");
        out.append(self.header.debug_fmt(1).as_str());
        out.append("Questions(");
        out.append(decimal(self.questions.len() as u64).as_str());
        out.append(")\n");
        out.append("Answers(");
        out.append(decimal(self.answers.len() as u64).as_str());
        out.append(")\n");
        out.append("Authorities(");
        out.append(decimal(self.authorities.len() as u64).as_str());
        out.append(")\n");
        out.append("Resources(");
        out.append(decimal(self.resources.len() as u64).as_str());
        out.append(")\n");
        out
    }

    /// Writes this message at the cursor. The header's counters are first
    /// set from the lengths of the sections; then the header and each
    /// section are written in order. A label over 63 bytes fails with
    /// `SingleLabelLimit`, a message that does not fit with `EndOfBuffer`.
    #[verifier::rlimit(50)]
    pub fn write(&mut self, buf: &mut BytePacketBuffer) -> (r: Result<()>)
        ensures
            final(self)@ == old(self)@.counted(),
            r is Ok <==> old(self)@.labels_ok() && old(buf).fits(
                old(self)@.counted().encode().len() as int,
            ),
            r is Ok ==> final(buf).wrote(old(buf), old(self)@.counted().encode()),
            r is Err ==> r->Err_0 is SingleLabelLimit || r->Err_0 is EndOfBuffer,
            r is Err && old(self)@.labels_ok() ==> r->Err_0 is EndOfBuffer,
            r is Err && r->Err_0 is SingleLabelLimit ==> !old(self)@.labels_ok(),
    {
        self.header.questions = self.questions.len() as u16;
        self.header.answers = self.answers.len() as u16;
        self.header.authoritative_entries = self.authorities.len() as u16;
        self.header.resource_entries = self.resources.len() as u16;
        assert(self@ =~= old(self)@.counted());
        let ghost m = self@;
        if buf.pos > BUF_SIZE {
            return Err(Error::EndOfBuffer);
        }
        let ghost b0 = *buf;
        self.header.write(buf)?;
        let ghost b1 = *buf;
        let ghost w1 = self.header.encode();
        write_questions(&self.questions, buf)?;
        let ghost b2 = *buf;
        let ghost w2 = encode_questions(m.questions);
        proof {
            buf.lemma_wrote_twice(&b1, &b0, w1, w2);
        }
        write_records(&self.answers, buf)?;
        let ghost b3 = *buf;
        let ghost w3 = encode_records(m.answers);
        proof {
            buf.lemma_wrote_twice(&b2, &b0, w1 + w2, w3);
        }
        write_records(&self.authorities, buf)?;
        let ghost b4 = *buf;
        let ghost w4 = encode_records(m.authorities);
        proof {
            buf.lemma_wrote_twice(&b3, &b0, w1 + w2 + w3, w4);
        }
        write_records(&self.resources, buf)?;
        let ghost w5 = encode_records(m.resources);
        proof {
            buf.lemma_wrote_twice(&b4, &b0, w1 + w2 + w3 + w4, w5);
        }
        Ok(())
    }
}

} // verus!
