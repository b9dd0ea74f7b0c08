use vstd::prelude::*;

use super::byte_packet_buffer::{be16, bytes16, BytePacketBuffer, BUF_SIZE};
use super::error::{Error, Result};
use super::result_code::{result_code_of, ResultCode};
use crate::text::{decimal, decimal_text};
use vstd::string::*;

verus! {

/// The size of a header on the wire.
pub const HEADER_SIZE: usize = 12;

/// 1 for a set flag, 0 for a clear one.
pub open spec fn bit(f: bool) -> u8 {
    if f { 1 } else { 0 }
}

fn bit_of(f: bool) -> (r: u8)
    ensures
        r == bit(f),
{
    if f { 1 } else { 0 }
}

/// The header of a DNS message.
#[derive(Debug)]
pub struct Header {
    pub id: u16,
    pub recursion_desired: bool,
    pub truncated_message: bool,
    pub authoritative_answer: bool,
    pub opcode: u8,
    pub response: bool,
    pub rescode: ResultCode,
    pub checking_disabled: bool,
    pub authed_data: bool,
    pub z: bool,
    pub recursion_available: bool,
    pub questions: u16,
    pub answers: u16,
    pub authoritative_entries: u16,
    pub resource_entries: u16,
}

impl Header {
    /// The header held by the twelve bytes at `p` of `b`.
    pub open spec fn decode(b: Seq<u8>, p: int) -> Header {
        let a = b[p + 2];
        let c = b[p + 3];
        Header {
            id: be16(b, p) as u16,
            recursion_desired: a & 1 != 0,
            truncated_message: a & 2 != 0,
            authoritative_answer: a & 4 != 0,
            opcode: (a >> 3u8) & 0x0F,
            response: a & 0x80 != 0,
            rescode: ResultCode::from_code(c & 0x0F),
            checking_disabled: c & 0x10 != 0,
            authed_data: c & 0x20 != 0,
            z: c & 0x40 != 0,
            recursion_available: c & 0x80 != 0,
            questions: be16(b, p + 4) as u16,
            answers: be16(b, p + 6) as u16,
            authoritative_entries: be16(b, p + 8) as u16,
            resource_entries: be16(b, p + 10) as u16,
        }
    }

    /// The first flag byte: `rd | tc<<1 | aa<<2 | opcode<<3 | qr<<7`.
    pub open spec fn flags_hi(&self) -> u8 {
        bit(self.recursion_desired) | (bit(self.truncated_message) << 1u8) | (bit(
            self.authoritative_answer,
        ) << 2u8) | (self.opcode << 3u8) | (bit(self.response) << 7u8)
    }

    /// The second flag byte: `rcode | cd<<4 | ad<<5 | z<<6 | ra<<7`.
    pub open spec fn flags_lo(&self) -> u8 {
        self.rescode.spec_code() | (bit(self.checking_disabled) << 4u8) | (bit(self.authed_data)
            << 5u8) | (bit(self.z) << 6u8) | (bit(self.recursion_available) << 7u8)
    }

    /// The twelve bytes of this header on the wire.
    pub open spec fn encode(&self) -> Seq<u8> {
        bytes16(self.id) + seq![self.flags_hi(), self.flags_lo()] + bytes16(self.questions)
            + bytes16(self.answers) + bytes16(self.authoritative_entries) + bytes16(
            self.resource_entries,
        )
    }

    /// A header with every field zero, clear or `NoError`.
    pub open spec fn empty() -> Header {
        Header {
            id: 0,
            recursion_desired: false,
            truncated_message: false,
            authoritative_answer: false,
            opcode: 0,
            response: false,
            rescode: ResultCode::NoError,
            checking_disabled: false,
            authed_data: false,
            z: false,
            recursion_available: false,
            questions: 0,
            answers: 0,
            authoritative_entries: 0,
            resource_entries: 0,
        }
    }

    pub fn new() -> (r: Self)
        ensures
            r == Header::empty(),
    {
        Header {
            id: 0,
            recursion_desired: false,
            truncated_message: false,
            authoritative_answer: false,
            opcode: 0,
            response: false,
            rescode: ResultCode::NoError,
            checking_disabled: false,
            authed_data: false,
            z: false,
            recursion_available: false,
            questions: 0,
            answers: 0,
            authoritative_entries: 0,
            resource_entries: 0,
        }
    }

    /// Reads the header at the cursor; on failure neither this header nor the
    /// buffer changes.
    pub fn read(&mut self, buffer: &mut BytePacketBuffer) -> (r: Result<()>)
        ensures
            final(buffer).buf == old(buffer).buf,
            r is Ok <==> old(buffer).fits(HEADER_SIZE as int),
            r is Ok ==> *final(self) == Header::decode(old(buffer).buf@, old(buffer).pos as int)
                && final(buffer).pos == old(buffer).pos + HEADER_SIZE,
            r is Err ==> r->Err_0 is EndOfBuffer && *final(self) == *old(self) && *final(buffer)
                == *old(buffer),
    {
        if !(buffer.pos <= BUF_SIZE - HEADER_SIZE) {
            return Err(Error::EndOfBuffer);
        }
        let id = buffer.read_u16()?;
        let a = buffer.read()?;
        let c = buffer.read()?;
        let questions = buffer.read_u16()?;
        let answers = buffer.read_u16()?;
        let authoritative_entries = buffer.read_u16()?;
        let resource_entries = buffer.read_u16()?;
        self.id = id;
        self.recursion_desired = a & 1 != 0;
        self.truncated_message = a & 2 != 0;
        self.authoritative_answer = a & 4 != 0;
        self.opcode = (a >> 3u8) & 0x0F;
        self.response = a & 0x80 != 0;
        self.rescode = result_code_of(c & 0x0F);
        self.checking_disabled = c & 0x10 != 0;
        self.authed_data = c & 0x20 != 0;
        self.z = c & 0x40 != 0;
        self.recursion_available = c & 0x80 != 0;
        self.questions = questions;
        self.answers = answers;
        self.authoritative_entries = authoritative_entries;
        self.resource_entries = resource_entries;
        Ok(())
    }

    /// Writes the twelve bytes of this header at the cursor.
    pub fn write(&self, buffer: &mut BytePacketBuffer) -> (r: Result<()>)
        ensures
            r is Ok <==> old(buffer).fits(HEADER_SIZE as int),
            r is Ok ==> final(buffer).wrote(old(buffer), self.encode()),
            r is Err ==> r->Err_0 is EndOfBuffer && *final(buffer) == *old(buffer),
    {
        if !(buffer.pos <= BUF_SIZE - HEADER_SIZE) {
            return Err(Error::EndOfBuffer);
        }
        let hi = bit_of(self.recursion_desired) | (bit_of(self.truncated_message) << 1u8) | (
        bit_of(self.authoritative_answer) << 2u8) | (self.opcode << 3u8) | (bit_of(self.response)
            << 7u8);
        let lo = self.rescode.code() | (bit_of(self.checking_disabled) << 4u8) | (bit_of(
            self.authed_data,
        ) << 5u8) | (bit_of(self.z) << 6u8) | (bit_of(self.recursion_available) << 7u8);
        let w = vec![
            (self.id / 256) as u8,
            (self.id % 256) as u8,
            hi,
            lo,
            (self.questions / 256) as u8,
            (self.questions % 256) as u8,
            (self.answers / 256) as u8,
            (self.answers % 256) as u8,
            (self.authoritative_entries / 256) as u8,
            (self.authoritative_entries % 256) as u8,
            (self.resource_entries / 256) as u8,
            (self.resource_entries % 256) as u8,
        ];
        assert(w@ =~= self.encode());
        buffer.write_range(&w)
    }
}

/// `n` tab characters.
pub open spec fn tabs(n: nat) -> Seq<char>
    decreases n,
{
    if n == 0 {
        seq![]
    } else {
        tabs((n - 1) as nat) + seq!['\t']
    }
}

/// `true` or `false`.
pub open spec fn bool_text(b: bool) -> Seq<char> {
    if b {
        "true"@
    } else {
        "false"@
    }
}

/// One line of a debug listing: indent, field name, `: `, value.
pub open spec fn field_line(t: Seq<char>, name: Seq<char>, value: Seq<char>) -> Seq<char> {
    t + name + ": "@ + value + "\n"@
}

fn tabs_of(n: usize) -> (r: String)
    ensures
        r@ == tabs(n as nat),
{
    let mut s = String::new();
    let mut i: usize = 0;
    while i < n
        invariant
            0 <= i <= n,
            s@ == tabs(i as nat),
        decreases n - i,
    {
        proof {
            reveal_strlit("\t");
        }
        s.append("\t");
        i = i + 1;
    }
    s
}

fn bool_string(b: bool) -> (r: String)
    ensures
        r@ == bool_text(b),
{
    if b {
        String::from_str("true")
    } else {
        String::from_str("false")
    }
}

fn push_line(out: &mut String, t: &str, name: &str, value: &str)
    ensures
        final(out)@ == old(out)@ + field_line(t@, name@, value@),
{
    out.append(t);
    out.append(name);
    out.append(": ");
    out.append(value);
    out.append("\n");
    assert(out@ =~= old(out)@ + field_line(t@, name@, value@));
}

proof fn lemma_flags_hi(rd: u8, tc: u8, aa: u8, op: u8, qr: u8, a: u8)
    by (bit_vector)
    requires
        rd <= 1,
        tc <= 1,
        aa <= 1,
        op < 16,
        qr <= 1,
        a == rd | (tc << 1u8) | (aa << 2u8) | (op << 3u8) | (qr << 7u8),
    ensures
        (a & 1 != 0) == (rd == 1),
        (a & 2 != 0) == (tc == 1),
        (a & 4 != 0) == (aa == 1),
        (a >> 3u8) & 0x0F == op,
        (a & 0x80 != 0) == (qr == 1),
{
}

proof fn lemma_flags_lo(rc: u8, cd: u8, ad: u8, z: u8, ra: u8, c: u8)
    by (bit_vector)
    requires
        rc < 16,
        cd <= 1,
        ad <= 1,
        z <= 1,
        ra <= 1,
        c == rc | (cd << 4u8) | (ad << 5u8) | (z << 6u8) | (ra << 7u8),
    ensures
        c & 0x0F == rc,
        (c & 0x10 != 0) == (cd == 1),
        (c & 0x20 != 0) == (ad == 1),
        (c & 0x40 != 0) == (z == 1),
        (c & 0x80 != 0) == (ra == 1),
{
}

/// A header written at `p` reads back from `p` as the same header, for an
/// opcode and a response code that fit their four bits.
pub proof fn law_header_round_trip(b: Seq<u8>, p: int, h: Header)
    requires
        0 <= p,
        p + HEADER_SIZE <= b.len(),
        b.subrange(p, p + HEADER_SIZE) == h.encode(),
        h.opcode < 16,
        h.rescode.spec_code() < 16,
    ensures
        Header::decode(b, p) == h,
{
    let e = h.encode();
    assert forall|k: int| 0 <= k < HEADER_SIZE implies #[trigger] b[p + k] == e[k] by {
        assert(b[p + k] == b.subrange(p, p + HEADER_SIZE)[k]);
    }
    lemma_flags_hi(
        bit(h.recursion_desired),
        bit(h.truncated_message),
        bit(h.authoritative_answer),
        h.opcode,
        bit(h.response),
        h.flags_hi(),
    );
    lemma_flags_lo(
        h.rescode.spec_code(),
        bit(h.checking_disabled),
        bit(h.authed_data),
        bit(h.z),
        bit(h.recursion_available),
        h.flags_lo(),
    );
    assert(e[2] == h.flags_hi());
    assert(e[3] == h.flags_lo());
    assert(ResultCode::from_code(h.rescode.spec_code()) == h.rescode);
    assert(b[p + 2] == e[2] && b[p + 3] == e[3]);
    assert(b[p] == e[0] && b[p + 1] == e[1] && b[p + 4] == e[4] && b[p + 5] == e[5]);
    assert(b[p + 6] == e[6] && b[p + 7] == e[7] && b[p + 8] == e[8] && b[p + 9] == e[9]);
    assert(b[p + 10] == e[10] && b[p + 11] == e[11]);
    assert(be16(b, p) == h.id);
    assert(be16(b, p + 4) == h.questions);
    assert(be16(b, p + 6) == h.answers);
    assert(be16(b, p + 8) == h.authoritative_entries);
    assert(be16(b, p + 10) == h.resource_entries);
}

impl Header {
    /// Each field on a line of its own, after `indent` tabs.
    pub open spec fn debug_text(&self, indent: nat) -> Seq<char> {
        let t = tabs(indent);
        field_line(t, "id"@, decimal_text(self.id as nat)) + field_line(
            t,
            "recursion_desired"@,
            bool_text(self.recursion_desired),
        ) + field_line(t, "truncated_message"@, bool_text(self.truncated_message)) + field_line(
            t,
            "authoritative_answer"@,
            bool_text(self.authoritative_answer),
        ) + field_line(t, "opcode"@, decimal_text(self.opcode as nat)) + field_line(
            t,
            "response"@,
            bool_text(self.response),
        ) + field_line(t, "rescode"@, self.rescode.spec_text()) + field_line(
            t,
            "checking_disabled"@,
            bool_text(self.checking_disabled),
        ) + field_line(t, "authed_data"@, bool_text(self.authed_data)) + field_line(
            t,
            "z"@,
            bool_text(self.z),
        ) + field_line(t, "recursion_available"@, bool_text(self.recursion_available))
            + field_line(t, "questions"@, decimal_text(self.questions as nat)) + field_line(
            t,
            "answers"@,
            decimal_text(self.answers as nat),
        ) + field_line(t, "authoritative_entries"@, decimal_text(self.authoritative_entries as nat))
            + field_line(t, "resource_entries"@, decimal_text(self.resource_entries as nat))
    }

    /// Each field on a line of its own, after `indent` tabs.
    pub fn debug_fmt(&self, indent: usize) -> (r: String)
        ensures
            r@ == self.debug_text(indent as nat),
    {
        let t = tabs_of(indent);
        let t = t.as_str();
        let mut out = String::new();
        push_line(&mut out, t, "id", decimal(self.id as u64).as_str());
        push_line(&mut out, t, "recursion_desired", bool_string(self.recursion_desired).as_str());
        push_line(&mut out, t, "truncated_message", bool_string(self.truncated_message).as_str());
        push_line(
            &mut out,
            t,
            "authoritative_answer",
            bool_string(self.authoritative_answer).as_str(),
        );
        push_line(&mut out, t, "opcode", decimal(self.opcode as u64).as_str());
        push_line(&mut out, t, "response", bool_string(self.response).as_str());
        push_line(&mut out, t, "rescode", self.rescode.to_string().as_str());
        push_line(&mut out, t, "checking_disabled", bool_string(self.checking_disabled).as_str());
        push_line(&mut out, t, "authed_data", bool_string(self.authed_data).as_str());
        push_line(&mut out, t, "z", bool_string(self.z).as_str());
        push_line(
            &mut out,
            t,
            "recursion_available",
            bool_string(self.recursion_available).as_str(),
        );
        push_line(&mut out, t, "questions", decimal(self.questions as u64).as_str());
        push_line(&mut out, t, "answers", decimal(self.answers as u64).as_str());
        push_line(
            &mut out,
            t,
            "authoritative_entries",
            decimal(self.authoritative_entries as u64).as_str(),
        );
        push_line(&mut out, t, "resource_entries", decimal(self.resource_entries as u64).as_str());
        assert(out@ =~= self.debug_text(indent as nat));
        out
    }
}

impl Default for Header {
    fn default() -> (r: Self)
        ensures
            r == Header::empty(),
    {
        Header::new()
    }
}

} // verus!
