use vstd::prelude::*;

use super::byte_packet_buffer::{
    lemma_scan_encoded,
    name_text,
    split_dots,
    be16,
    be32,
    bytes16,
    bytes32,
    decode_name,
    encode_name,
    fail,
    has_long_label,
    BytePacketBuffer,
    Decoded,
    BUF_SIZE,
};
use super::error::{Error, Result};
use super::query_type::{code_of, query_type_of, QueryType};
use vstd::string::*;
use vstd::utf8::encode_utf8;

use crate::text::{decimal, decimal_text};

verus! {

/// A resource record.
#[derive(Debug)]
pub struct Record {
    pub name: String,
    pub qtype: QueryType,
    pub class: u16,
    pub ttl: u32,
    pub rdlength: u16,
    pub rdata: RData,
}

/// The data of a resource record, by type. The length that a `CNAME` or
/// `SRV` record had on the wire is kept and written back.
#[derive(Debug)]
pub enum RData {
    Unknown(QueryType, Vec<u8>),
    /// An IPv4 address, as its four octets.
    A([u8; 4]),
    /// An IPv6 address, as its eight 16-bit segments.
    AAAA([u16; 8]),
    CNAME(u16, String),
    SRV(u16, SrvRecord),
}

/// The data of a service locator record.
#[derive(Debug)]
pub struct SrvRecord {
    pub priority: u16,
    pub weight: u16,
    pub port: u16,
    pub target: String,
}

/// Record data as a value.
pub enum RDataView {
    Unknown(QueryType, Seq<u8>),
    A(Seq<u8>),
    AAAA(Seq<u16>),
    CNAME(u16, Seq<char>),
    SRV(u16, u16, u16, u16, Seq<char>),
}

/// A record as a value.
pub struct RecordView {
    pub name: Seq<char>,
    pub qtype: QueryType,
    pub class: u16,
    pub ttl: u32,
    pub rdlength: u16,
    pub rdata: RDataView,
}

impl View for RData {
    type V = RDataView;

    open spec fn view(&self) -> RDataView {
        match self {
            RData::Unknown(t, v) => RDataView::Unknown(*t, v@),
            RData::A(o) => RDataView::A(o@),
            RData::AAAA(s) => RDataView::AAAA(s@),
            RData::CNAME(len, t) => RDataView::CNAME(*len, t@),
            RData::SRV(len, s) => RDataView::SRV(*len, s.priority, s.weight, s.port, s.target@),
        }
    }
}

impl View for Record {
    type V = RecordView;

    open spec fn view(&self) -> RecordView {
        RecordView {
            name: self.name@,
            qtype: self.qtype,
            class: self.class,
            ttl: self.ttl,
            rdlength: self.rdlength,
            rdata: self.rdata@,
        }
    }
}

/// The bytes of 16-bit values, each most significant first.
pub open spec fn segments_bytes(s: Seq<u16>) -> Seq<u8>
    decreases s.len(),
{
    if s.len() == 0 {
        seq![]
    } else {
        segments_bytes(s.drop_last()) + bytes16(s.last())
    }
}

/// The eight big-endian 16-bit values at `d` of `b`.
pub open spec fn segments_at(b: Seq<u8>, d: int) -> Seq<u16> {
    Seq::new(8, |k: int| be16(b, d + 2 * k) as u16)
}

/// The wire form of a name given as text.
pub open spec fn encode_text_name(t: Seq<char>) -> Seq<u8> {
    encode_name(encode_utf8(t))
}

impl RDataView {
    /// The data of a record of type `qtype` at `d` of `b`, whose length field
    /// reads `rdlen`.
    pub open spec fn decode(b: Seq<u8>, d: int, qtype: QueryType, rdlen: u16) -> Decoded<RDataView> {
        match qtype {
            QueryType::A => if d + 4 <= BUF_SIZE {
                Decoded::Value(RDataView::A(b.subrange(d, d + 4)), d + 4)
            } else {
                Decoded::EndOfBuffer
            },
            QueryType::AAAA => if d + 16 <= BUF_SIZE {
                Decoded::Value(RDataView::AAAA(segments_at(b, d)), d + 16)
            } else {
                Decoded::EndOfBuffer
            },
            QueryType::CNAME => match decode_name(b, d) {
                Decoded::Value(t, e) => Decoded::Value(RDataView::CNAME(rdlen, t), e),
                other => fail(other),
            },
            QueryType::SRV => if d + 6 <= BUF_SIZE {
                match decode_name(b, d + 6) {
                    Decoded::Value(t, e) => Decoded::Value(
                        RDataView::SRV(
                            rdlen,
                            be16(b, d) as u16,
                            be16(b, d + 2) as u16,
                            be16(b, d + 4) as u16,
                            t,
                        ),
                        e,
                    ),
                    other => fail(other),
                }
            } else {
                Decoded::EndOfBuffer
            },
            QueryType::UNKNOWN(_) => if d + rdlen <= BUF_SIZE {
                Decoded::Value(RDataView::Unknown(qtype, b.subrange(d, d + rdlen)), d + rdlen)
            } else {
                Decoded::EndOfBuffer
            },
        }
    }

    /// The type code, the length field and the data of a record on the wire.
    pub open spec fn encode(self) -> (Seq<u8>, Seq<u8>, Seq<u8>) {
        match self {
            RDataView::A(o) => (bytes16(1), bytes16(4), o),
            RDataView::AAAA(s) => (bytes16(28), bytes16(16), segments_bytes(s)),
            RDataView::CNAME(len, t) => (bytes16(5), bytes16(len), encode_text_name(t)),
            RDataView::SRV(len, p, w, port, t) => (
                bytes16(33),
                bytes16(len),
                bytes16(p) + bytes16(w) + bytes16(port) + encode_text_name(t),
            ),
            RDataView::Unknown(qt, v) => (bytes16(qt.code()), bytes16(v.len() as u16), v),
        }
    }

    /// No label of a name in the data is longer than 63 bytes.
    pub open spec fn labels_ok(self) -> bool {
        match self {
            RDataView::CNAME(_, t) => !has_long_label(encode_utf8(t)),
            RDataView::SRV(_, _, _, _, t) => !has_long_label(encode_utf8(t)),
            _ => true,
        }
    }
}

impl RecordView {
    /// The record at `p` of `b`, and the position after it.
    pub open spec fn decode(b: Seq<u8>, p: int) -> Decoded<RecordView> {
        match decode_name(b, p) {
            Decoded::Value(name, e) => if e + 10 <= BUF_SIZE {
                let qtype = QueryType::from_code(be16(b, e) as u16);
                let rdlen = be16(b, e + 8) as u16;
                match RDataView::decode(b, e + 10, qtype, rdlen) {
                    Decoded::Value(rdata, e2) => Decoded::Value(
                        RecordView {
                            name,
                            qtype,
                            class: be16(b, e + 2) as u16,
                            ttl: be32(b, e + 4) as u32,
                            rdlength: rdlen,
                            rdata,
                        },
                        e2,
                    ),
                    other => fail(other),
                }
            } else {
                Decoded::EndOfBuffer
            },
            other => fail(other),
        }
    }

    /// The record on the wire. The type code comes from the data.
    pub open spec fn encode(self) -> Seq<u8> {
        let (t, len, body) = self.rdata.encode();
        encode_text_name(self.name) + t + bytes16(self.class) + bytes32(self.ttl) + len + body
    }

    /// No label of a name in the record is longer than 63 bytes.
    pub open spec fn labels_ok(self) -> bool {
        !has_long_label(encode_utf8(self.name)) && self.rdata.labels_ok()
    }
}

impl Record {
    /// Reads a record at the cursor: name, type, class, TTL, data length, and
    /// the data as its type gives it.
    pub fn read(buf: &mut BytePacketBuffer) -> (r: Result<Self>)
        ensures
            final(buf).buf == old(buf).buf,
            RecordView::decode(old(buf).buf@, old(buf).pos as int).failure_matches(r),
            match RecordView::decode(old(buf).buf@, old(buf).pos as int) {
                Decoded::Value(v, e) => r->Ok_0@ == v && final(buf).pos == e,
                _ => true,
            },
    {
        let ghost b = buf.buf@;
        let name = buf.read_qname()?;
        if !(buf.pos <= BUF_SIZE - 10) {
            return Err(Error::EndOfBuffer);
        }
        let qtype = query_type_of(buf.read_u16()?);
        let class = buf.read_u16()?;
        let ttl = buf.read_u32()?;
        let rdlen = buf.read_u16()?;
        let d = buf.pos;
        let rdata = match qtype {
            QueryType::A => {
                if !(buf.pos <= BUF_SIZE - 4) {
                    return Err(Error::EndOfBuffer);
                }
                let o0 = buf.read()?;
                let o1 = buf.read()?;
                let o2 = buf.read()?;
                let o3 = buf.read()?;
                let o = [o0, o1, o2, o3];
                assert(o@ =~= b.subrange(d as int, d + 4));
                RData::A(o)
            },
            QueryType::AAAA => {
                if !(buf.pos <= BUF_SIZE - 16) {
                    return Err(Error::EndOfBuffer);
                }
                let s0 = buf.read_u16()?;
                let s1 = buf.read_u16()?;
                let s2 = buf.read_u16()?;
                let s3 = buf.read_u16()?;
                let s4 = buf.read_u16()?;
                let s5 = buf.read_u16()?;
                let s6 = buf.read_u16()?;
                let s7 = buf.read_u16()?;
                let s = [s0, s1, s2, s3, s4, s5, s6, s7];
                assert(s@ =~= segments_at(b, d as int));
                RData::AAAA(s)
            },
            QueryType::CNAME => {
                let target = buf.read_qname()?;
                RData::CNAME(rdlen, target)
            },
            QueryType::SRV => {
                if !(buf.pos <= BUF_SIZE - 6) {
                    return Err(Error::EndOfBuffer);
                }
                let priority = buf.read_u16()?;
                let weight = buf.read_u16()?;
                let port = buf.read_u16()?;
                let target = buf.read_qname()?;
                RData::SRV(rdlen, SrvRecord::new(priority, weight, port, target))
            },
            QueryType::UNKNOWN(_) => {
                let v = buf.read_range(rdlen as usize)?;
                RData::Unknown(qtype, v)
            },
        };
        Ok(Record { name, qtype, class, ttl, rdlength: rdlen, rdata })
    }
}

/// The text that a name written as `t` reads back as: its labels, decoded
/// and lowercased, joined by dots.
pub open spec fn read_back(t: Seq<char>) -> Seq<char> {
    name_text(split_dots(encode_utf8(t)))
}

/// Every label of the name is 1 to 63 bytes long.
pub open spec fn labels_in_range(t: Seq<char>) -> bool {
    forall|i: int|
        0 <= i < split_dots(encode_utf8(t)).len() ==> 1 <= (#[trigger] split_dots(
            encode_utf8(t),
        )[i]).len() <= 63
}

impl RecordView {
    /// The record reads back as it was written: its names have labels of 1
    /// to 63 bytes, its type and length fields agree with its data, and an
    /// unknown type's code is not one of the known ones.
    pub open spec fn round_trips(self) -> bool {
        &&& labels_in_range(self.name)
        &&& match self.rdata {
            RDataView::A(o) => o.len() == 4 && self.qtype == QueryType::A && self.rdlength == 4,
            RDataView::AAAA(s) => s.len() == 8 && self.qtype == QueryType::AAAA && self.rdlength
                == 16,
            RDataView::CNAME(len, t) => labels_in_range(t) && self.qtype == QueryType::CNAME
                && self.rdlength == len,
            RDataView::SRV(len, _, _, _, t) => labels_in_range(t) && self.qtype == QueryType::SRV
                && self.rdlength == len,
            RDataView::Unknown(qt, v) => qt is UNKNOWN && QueryType::from_code(qt.code()) == qt
                && self.qtype == qt && v.len() == self.rdlength,
        }
    }

    /// The record as it reads back: its names as `read_back` gives them.
    pub open spec fn read_form(self) -> RecordView {
        RecordView { name: read_back(self.name), rdata: self.rdata.read_form(), ..self }
    }
}

proof fn lemma_segments_bytes(s: Seq<u16>, k: int)
    requires
        0 <= k < s.len(),
    ensures
        segments_bytes(s).len() == 2 * s.len(),
        segments_bytes(s)[2 * k] == (s[k] / 256) as u8,
        segments_bytes(s)[2 * k + 1] == (s[k] % 256) as u8,
    decreases s.len(),
{
    if k < s.len() - 1 {
        lemma_segments_bytes(s.drop_last(), k);
    } else if s.len() > 1 {
        lemma_segments_bytes(s.drop_last(), 0);
    }
}

/// The bytes at `p` of `b` are `w`; so is any part of them.
pub(crate) proof fn lemma_part(b: Seq<u8>, p: int, w: Seq<u8>, i: int, j: int)
    requires
        0 <= p,
        p + w.len() <= b.len(),
        b.subrange(p, p + w.len()) == w,
        0 <= i <= j <= w.len(),
    ensures
        b.subrange(p + i, p + j) == w.subrange(i, j),
{
    assert(b.subrange(p + i, p + j) =~= w.subrange(i, j)) by {
        assert forall|k: int| 0 <= k < j - i implies #[trigger] b.subrange(p + i, p + j)[k]
            == w.subrange(i, j)[k] by {
            assert(b[p + i + k] == b.subrange(p, p + w.len())[i + k]);
        }
    }
}

proof fn lemma_be16_of(b: Seq<u8>, i: int, v: u16)
    requires
        0 <= i,
        i + 2 <= b.len(),
        b.subrange(i, i + 2) == bytes16(v),
    ensures
        be16(b, i) == v,
{
    assert(b[i] == b.subrange(i, i + 2)[0]);
    assert(b[i + 1] == b.subrange(i, i + 2)[1]);
}

proof fn lemma_be32_of(b: Seq<u8>, i: int, v: u32)
    requires
        0 <= i,
        i + 4 <= b.len(),
        b.subrange(i, i + 4) == bytes32(v),
    ensures
        be32(b, i) == v,
{
    lemma_part(b, i, bytes32(v), 0, 2);
    lemma_part(b, i, bytes32(v), 2, 4);
    assert(bytes32(v).subrange(0, 2) =~= bytes16((v / 65536) as u16));
    assert(bytes32(v).subrange(2, 4) =~= bytes16((v % 65536) as u16));
    lemma_be16_of(b, i, (v / 65536) as u16);
    lemma_be16_of(b, i + 2, (v % 65536) as u16);
}

impl RDataView {
    /// The data as it reads back: names as `read_back` gives them.
    pub open spec fn read_form(self) -> RDataView {
        match self {
            RDataView::CNAME(len, t) => RDataView::CNAME(len, read_back(t)),
            RDataView::SRV(len, p, w, port, t) => RDataView::SRV(len, p, w, port, read_back(t)),
            other => other,
        }
    }
}

proof fn lemma_rdata_round_trip(b: Seq<u8>, d: int, r: RecordView)
    requires
        0 <= d,
        d + r.rdata.encode().2.len() <= b.len(),
        b.len() == BUF_SIZE,
        b.subrange(d, d + r.rdata.encode().2.len()) == r.rdata.encode().2,
        r.round_trips(),
    ensures
        RDataView::decode(b, d, r.qtype, r.rdlength) == Decoded::Value(
            r.rdata.read_form(),
            d + r.rdata.encode().2.len(),
        ),
{
    let body = r.rdata.encode().2;
    match r.rdata {
        RDataView::A(o) => {
            assert(b.subrange(d, d + 4) == o);
        },
        RDataView::AAAA(s) => {
            lemma_segments_bytes(s, 0);
            assert(segments_at(b, d) =~= s) by {
                assert forall|k: int| 0 <= k < 8 implies be16(b, d + 2 * k) == s[k] by {
                    lemma_segments_bytes(s, k);
                    lemma_part(b, d, body, 2 * k, 2 * k + 2);
                    assert(body.subrange(2 * k, 2 * k + 2) =~= bytes16(s[k]));
                    lemma_be16_of(b, d + 2 * k, s[k]);
                }
            }
        },
        RDataView::CNAME(l, tg) => {
            lemma_scan_encoded(b, d, split_dots(encode_utf8(tg)));
        },
        RDataView::SRV(l, pr, wt, port, tg) => {
            let et = encode_text_name(tg);
            assert(body == bytes16(pr) + bytes16(wt) + bytes16(port) + et);
            lemma_part(b, d, body, 0, 2);
            lemma_part(b, d, body, 2, 4);
            lemma_part(b, d, body, 4, 6);
            lemma_part(b, d, body, 6, body.len() as int);
            assert(body.subrange(0, 2) =~= bytes16(pr));
            assert(body.subrange(2, 4) =~= bytes16(wt));
            assert(body.subrange(4, 6) =~= bytes16(port));
            assert(body.subrange(6, body.len() as int) =~= et);
            lemma_be16_of(b, d, pr);
            lemma_be16_of(b, d + 2, wt);
            lemma_be16_of(b, d + 4, port);
            lemma_scan_encoded(b, d + 6, split_dots(encode_utf8(tg)));
        },
        RDataView::Unknown(qt, v) => {},
    }
}

/// A record written at `p` reads back from `p` in its read form.
pub proof fn law_record_round_trip(b: Seq<u8>, p: int, r: RecordView)
    requires
        0 <= p,
        b.len() == BUF_SIZE,
        p + r.encode().len() <= b.len(),
        b.subrange(p, p + r.encode().len()) == r.encode(),
        r.round_trips(),
    ensures
        RecordView::decode(b, p) == Decoded::Value(r.read_form(), p + r.encode().len()),
{
    let w = r.encode();
    let en = encode_text_name(r.name);
    let (t, len, body) = r.rdata.encode();
    let n = en.len() as int;
    assert(w == en + t + bytes16(r.class) + bytes32(r.ttl) + len + body);
    lemma_part(b, p, w, 0, n);
    assert(w.subrange(0, n) =~= en);
    lemma_scan_encoded(b, p, split_dots(encode_utf8(r.name)));
    let e = p + n;
    lemma_part(b, p, w, n, n + 2);
    assert(w.subrange(n, n + 2) =~= t);
    lemma_part(b, p, w, n + 2, n + 4);
    assert(w.subrange(n + 2, n + 4) =~= bytes16(r.class));
    lemma_part(b, p, w, n + 4, n + 8);
    assert(w.subrange(n + 4, n + 8) =~= bytes32(r.ttl));
    lemma_part(b, p, w, n + 8, n + 10);
    assert(w.subrange(n + 8, n + 10) =~= len);
    lemma_part(b, p, w, n + 10, w.len() as int);
    assert(w.subrange(n + 10, w.len() as int) =~= body);
    lemma_be16_of(b, e + 2, r.class);
    lemma_be32_of(b, e + 4, r.ttl);
    let code: u16 = match r.rdata {
        RDataView::A(_) => 1,
        RDataView::AAAA(_) => 28,
        RDataView::CNAME(_, _) => 5,
        RDataView::SRV(_, _, _, _, _) => 33,
        RDataView::Unknown(qt, _) => qt.code(),
    };
    assert(t == bytes16(code));
    lemma_be16_of(b, e, code);
    assert(len == bytes16(r.rdlength));
    lemma_be16_of(b, e + 8, r.rdlength);
    assert(QueryType::from_code(code) == r.qtype);
    lemma_rdata_round_trip(b, e + 10, r);
    assert(r.read_form() == RecordView { name: read_back(r.name), rdata: r.rdata.read_form(), ..r });
}

fn push16(v: &mut Vec<u8>, x: u16)
    ensures
        final(v)@ == old(v)@ + bytes16(x),
{
    v.push((x / 256) as u8);
    v.push((x % 256) as u8);
    assert(v@ =~= old(v)@ + bytes16(x));
}

fn push32(v: &mut Vec<u8>, x: u32)
    ensures
        final(v)@ == old(v)@ + bytes32(x),
{
    push16(v, (x / 65536) as u16);
    push16(v, (x % 65536) as u16);
    assert(v@ =~= old(v)@ + bytes32(x));
}

impl Record {
    /// Writes this record at the cursor and returns how many bytes it took.
    /// The type code and the length field come from the data. A label over
    /// 63 bytes fails with `SingleLabelLimit`, a record that does not fit with
    /// `EndOfBuffer`.
    #[verifier::rlimit(80)]
    pub fn write(&self, buf: &mut BytePacketBuffer) -> (r: Result<usize>)
        ensures
            r is Ok <==> self@.labels_ok() && old(buf).fits(self@.encode().len() as int),
            r is Ok ==> final(buf).wrote(old(buf), self@.encode()) && r->Ok_0
                == self@.encode().len(),
            r is Err ==> r->Err_0 is SingleLabelLimit || r->Err_0 is EndOfBuffer,
            r is Err && self@.labels_ok() ==> r->Err_0 is EndOfBuffer,
            r is Err && r->Err_0 is SingleLabelLimit ==> !self@.labels_ok(),
    {
        let ghost b0 = *buf;
        let p = buf.pos;
        buf.write_qname(self.name.as_str())?;
        let ghost b1 = *buf;
        let ghost wn = encode_text_name(self.name@);
        let mut w: Vec<u8> = Vec::new();
        let ghost tail: Seq<u8>;
        match &self.rdata {
            RData::A(o) => {
                push16(&mut w, 1);
                push16(&mut w, self.class);
                push32(&mut w, self.ttl);
                push16(&mut w, 4);
                let ghost w0 = w@;
                w.push(o[0]);
                w.push(o[1]);
                w.push(o[2]);
                w.push(o[3]);
                assert(w@ =~= w0 + o@);
                proof {
                    tail = seq![];
                }
            },
            RData::AAAA(segs) => {
                push16(&mut w, 28);
                push16(&mut w, self.class);
                push32(&mut w, self.ttl);
                push16(&mut w, 16);
                let ghost w0 = w@;
                let mut k: usize = 0;
                while k < 8
                    invariant
                        0 <= k <= 8,
                        w@ == w0 + segments_bytes(segs@.subrange(0, k as int)),
                    decreases 8 - k,
                {
                    push16(&mut w, segs[k]);
                    assert(segs@.subrange(0, k + 1).drop_last() =~= segs@.subrange(0, k as int));
                    k = k + 1;
                    assert(w@ =~= w0 + segments_bytes(segs@.subrange(0, k as int)));
                }
                assert(segs@.subrange(0, 8) =~= segs@);
                proof {
                    tail = seq![];
                }
            },
            RData::CNAME(len, target) => {
                push16(&mut w, 5);
                push16(&mut w, self.class);
                push32(&mut w, self.ttl);
                push16(&mut w, *len);
                proof {
                    tail = encode_text_name(target@);
                }
            },
            RData::SRV(len, srv) => {
                push16(&mut w, 33);
                push16(&mut w, self.class);
                push32(&mut w, self.ttl);
                push16(&mut w, *len);
                push16(&mut w, srv.priority);
                push16(&mut w, srv.weight);
                push16(&mut w, srv.port);
                proof {
                    tail = encode_text_name(srv.target@);
                }
            },
            RData::Unknown(qt, v) => {
                push16(&mut w, code_of(*qt));
                push16(&mut w, self.class);
                push32(&mut w, self.ttl);
                push16(&mut w, v.len() as u16);
                let ghost w0 = w@;
                let mut k: usize = 0;
                while k < v.len()
                    invariant
                        0 <= k <= v@.len(),
                        w@ == w0 + v@.subrange(0, k as int),
                    decreases v@.len() - k,
                {
                    w.push(v[k]);
                    k = k + 1;
                    assert(w@ =~= w0 + v@.subrange(0, k as int));
                }
                assert(v@.subrange(0, k as int) =~= v@);
                proof {
                    tail = seq![];
                }
            },
        }
        assert(self@.encode() =~= wn + w@ + tail);
        buf.write_range(&w)?;
        let ghost b2 = *buf;
        proof {
            buf.lemma_wrote_twice(&b1, &b0, wn, w@);
        }
        match &self.rdata {
            RData::CNAME(_, target) => {
                buf.write_qname(target.as_str())?;
                proof {
                    buf.lemma_wrote_twice(&b2, &b0, wn + w@, tail);
                }
            },
            RData::SRV(_, srv) => {
                buf.write_qname(srv.target.as_str())?;
                proof {
                    buf.lemma_wrote_twice(&b2, &b0, wn + w@, tail);
                }
            },
            _ => {
                assert(wn + w@ + tail =~= wn + w@);
            },
        }
        Ok(buf.pos - p)
    }
}

/// `priority weight port target`.
pub open spec fn srv_text(priority: u16, weight: u16, port: u16, target: Seq<char>) -> Seq<char> {
    decimal_text(priority as nat) + " "@ + decimal_text(weight as nat) + " "@ + decimal_text(
        port as nat,
    ) + " "@ + target
}

impl SrvRecord {
    /// `priority weight port target`.
    pub fn to_string(&self) -> (r: String)
        ensures
            r@ == srv_text(self.priority, self.weight, self.port, self.target@),
    {
        decimal(self.priority as u64).concat(" ").concat(decimal(self.weight as u64).as_str()).concat(
            " ",
        ).concat(decimal(self.port as u64).as_str()).concat(" ").concat(self.target.as_str())
    }

    pub fn new(priority: u16, weight: u16, port: u16, target: String) -> (r: Self)
        ensures
            r.priority == priority,
            r.weight == weight,
            r.port == port,
            r.target@ == target@,
    {
        SrvRecord { priority, weight, port, target }
    }
}

} // verus!
