use vstd::prelude::*;

use super::byte_packet_buffer::{
    lemma_scan_encoded,
    name_text,
    split_dots,
    be16,
    bytes16,
    decode_name,
    encode_name,
    fail,
    has_long_label,
    BytePacketBuffer,
    Decoded,
    BUF_SIZE,
};
use super::error::{Error, Result};
use super::query_type::{code_of, query_type_of, QueryType};
use vstd::string::*;
use vstd::utf8::encode_utf8;

verus! {

/// An entry of the question section.
#[derive(Debug)]
pub struct Question {
    pub name: String,
    pub qtype: QueryType,
    pub class: u16,
}

/// A question as a value.
pub struct QuestionView {
    pub name: Seq<char>,
    pub qtype: QueryType,
    pub class: u16,
}

impl View for Question {
    type V = QuestionView;

    open spec fn view(&self) -> QuestionView {
        QuestionView { name: self.name@, qtype: self.qtype, class: self.class }
    }
}

impl QuestionView {
    /// The question at `p` of `b`, and the position after it.
    pub open spec fn decode(b: Seq<u8>, p: int) -> Decoded<QuestionView> {
        match decode_name(b, p) {
            Decoded::Value(name, e) => if e + 4 <= BUF_SIZE {
                Decoded::Value(
                    QuestionView {
                        name,
                        qtype: QueryType::from_code(be16(b, e) as u16),
                        class: be16(b, e + 2) as u16,
                    },
                    e + 4,
                )
            } else {
                Decoded::EndOfBuffer
            },
            other => fail(other),
        }
    }

    /// No label of the name is longer than 63 bytes.
    pub open spec fn labels_ok(self) -> bool {
        !has_long_label(encode_utf8(self.name))
    }

    /// The question on the wire.
    pub open spec fn encode(self) -> Seq<u8> {
        encode_name(encode_utf8(self.name)) + bytes16(self.qtype.code()) + bytes16(self.class)
    }
}

impl QuestionView {
    /// The question as it reads back: its name as the dotted text of its
    /// labels, each decoded and lowercased.
    pub open spec fn read_form(self) -> QuestionView {
        QuestionView { name: name_text(split_dots(encode_utf8(self.name))), ..self }
    }

    /// The question reads back as it was written: its name's labels are 1
    /// to 63 bytes long and its type's code reads back as the same type.
    pub open spec fn round_trips(self) -> bool {
        &&& QueryType::from_code(self.qtype.code()) == self.qtype
        &&& forall|i: int|
            0 <= i < split_dots(encode_utf8(self.name)).len() ==> 1 <= (#[trigger] split_dots(
                encode_utf8(self.name),
            )[i]).len() <= 63
    }
}

/// A question written at `p` reads back from `p` in its read form.
pub proof fn law_question_round_trip(b: Seq<u8>, p: int, q: QuestionView)
    requires
        0 <= p,
        b.len() == BUF_SIZE,
        p + q.encode().len() <= b.len(),
        b.subrange(p, p + q.encode().len()) == q.encode(),
        q.round_trips(),
    ensures
        QuestionView::decode(b, p) == Decoded::Value(q.read_form(), p + q.encode().len()),
{
    let nb = encode_utf8(q.name);
    let en = encode_name(nb);
    let w = q.encode();
    let e = p + en.len();
    assert forall|k: int| 0 <= k < w.len() implies #[trigger] b[p + k] == w[k] by {
        assert(b[p + k] == b.subrange(p, p + w.len())[k]);
    }
    assert(b.subrange(p, p + en.len()) =~= en) by {
        assert forall|k: int| 0 <= k < en.len() implies #[trigger] b.subrange(p, p + en.len())[k]
            == en[k] by {
            assert(b[p + k] == w[k]);
        }
    }
    lemma_scan_encoded(b, p, split_dots(nb));
    assert(b[e] == w[en.len() as int]);
    assert(b[e + 1] == w[en.len() as int + 1]);
    assert(b[e + 2] == w[en.len() as int + 2]);
    assert(b[e + 3] == w[en.len() as int + 3]);
    assert(be16(b, e) == q.qtype.code());
    assert(be16(b, e + 2) == q.class);
}

impl Question {
    pub fn new(name: String, qtype: QueryType, class: u16) -> (r: Self)
        ensures
            r@ == (QuestionView { name: name@, qtype, class }),
    {
        Question { name, qtype, class }
    }

    /// Reads a question at the cursor: a name, a type and a class.
    pub fn read(buf: &mut BytePacketBuffer) -> (r: Result<Self>)
        ensures
            final(buf).buf == old(buf).buf,
            QuestionView::decode(old(buf).buf@, old(buf).pos as int).failure_matches(r),
            match QuestionView::decode(old(buf).buf@, old(buf).pos as int) {
                Decoded::Value(v, e) => r->Ok_0@ == v && final(buf).pos == e,
                _ => true,
            },
    {
        let name = buf.read_qname()?;
        if !(buf.pos <= BUF_SIZE - 4) {
            return Err(Error::EndOfBuffer);
        }
        let qtype = query_type_of(buf.read_u16()?);
        let class = buf.read_u16()?;
        Ok(Question::new(name, qtype, class))
    }

    /// Writes this question at the cursor. A label over 63 bytes fails with
    /// `SingleLabelLimit`, a question that does not fit with `EndOfBuffer`.
    pub fn write(&self, buffer: &mut BytePacketBuffer) -> (r: Result<()>)
        ensures
            r is Ok <==> self@.labels_ok() && old(buffer).fits(self@.encode().len() as int),
            r is Ok ==> final(buffer).wrote(old(buffer), self@.encode()),
            r is Err ==> (r->Err_0 is SingleLabelLimit <==> !self@.labels_ok()),
            r is Err ==> (r->Err_0 is EndOfBuffer <==> self@.labels_ok()),
    {
        let ghost b0 = *buffer;
        buffer.write_qname(self.name.as_str())?;
        let ghost b1 = *buffer;
        let typenum = code_of(self.qtype);
        let r1 = buffer.write_u16(typenum);
        if r1.is_err() {
            return r1;
        }
        let ghost b2 = *buffer;
        let r2 = buffer.write_u16(self.class);
        if r2.is_err() {
            return r2;
        }
        proof {
            let wn = encode_name(encode_utf8(self.name@));
            buffer.lemma_wrote_twice(&b2, &b1, bytes16(typenum), bytes16(self.class));
            buffer.lemma_wrote_twice(&b1, &b0, wn, bytes16(typenum) + bytes16(self.class));
            assert(wn + (bytes16(typenum) + bytes16(self.class)) =~= self@.encode());
        }
        Ok(())
    }
}

} // verus!
