use vstd::prelude::*;

use super::error::{Error, Result};
use crate::text::{lossy_of, lower_of, lowercase, utf8_lossy};
use vstd::string::*;

verus! {

/// The size of a DNS packet over UDP.
pub const BUF_SIZE: usize = 512;

/// The big-endian value of two bytes at `i`.
pub open spec fn be16(b: Seq<u8>, i: int) -> nat {
    b[i] as nat * 256 + b[i + 1] as nat
}

/// The big-endian value of four bytes at `i`.
pub open spec fn be32(b: Seq<u8>, i: int) -> nat {
    be16(b, i) * 65536 + be16(b, i + 2)
}

/// The big-endian value of sixteen bytes at `i`.
pub open spec fn be128(b: Seq<u8>, i: int) -> nat {
    ((be32(b, i) * 0x1_0000_0000 + be32(b, i + 4)) * 0x1_0000_0000 + be32(b, i + 8))
        * 0x1_0000_0000 + be32(b, i + 12)
}

/// The two bytes of `v`, most significant first.
pub open spec fn bytes16(v: u16) -> Seq<u8> {
    seq![(v / 256) as u8, (v % 256) as u8]
}

/// The four bytes of `v`, most significant first.
pub open spec fn bytes32(v: u32) -> Seq<u8> {
    bytes16((v / 65536) as u16) + bytes16((v % 65536) as u16)
}

/// `b` with `w` written over it from `at` on.
pub open spec fn overwrite(b: Seq<u8>, at: int, w: Seq<u8>) -> Seq<u8> {
    b.subrange(0, at) + w + b.subrange(at + w.len(), b.len() as int)
}


/// The most pointer jumps that a compressed name may take.
pub const MAX_JUMPS: usize = 5;

/// What scanning a compressed name yields: its raw labels and the cursor
/// after it, or the reason it cannot be read.
pub enum NameScan {
    Labels(Seq<Seq<u8>>, int),
    OutOfBounds,
    TooManyJumps,
}

/// `s` with `acc` put before its labels.
pub open spec fn with_prefix(acc: Seq<Seq<u8>>, s: NameScan) -> NameScan {
    match s {
        NameScan::Labels(ls, e) => NameScan::Labels(acc + ls, e),
        other => other,
    }
}

/// Scans the name at `pos` of `b` (RFC 1035 4.1.4), after `jumps` pointer
/// jumps; `resume` is where the cursor goes after the name once a pointer was
/// followed, and negative before that.
pub open spec fn scan_name(b: Seq<u8>, pos: int, jumps: int, resume: int) -> NameScan
    decreases 6 - jumps, b.len() - pos,
{
    if jumps > MAX_JUMPS || jumps < 0 {
        NameScan::TooManyJumps
    } else if pos < 0 || pos >= b.len() {
        NameScan::OutOfBounds
    } else if b[pos] >= 0xC0 {
        if pos + 1 >= b.len() {
            NameScan::OutOfBounds
        } else {
            scan_name(
                b,
                (b[pos] - 0xC0) * 256 + b[pos + 1],
                jumps + 1,
                if resume < 0 { pos + 2 } else { resume },
            )
        }
    } else if b[pos] == 0 {
        NameScan::Labels(seq![], if resume < 0 { pos + 1 } else { resume })
    } else if pos + 1 + b[pos] > b.len() {
        NameScan::OutOfBounds
    } else {
        with_prefix(
            seq![b.subrange(pos + 1, pos + 1 + b[pos])],
            scan_name(b, pos + 1 + b[pos], jumps, resume),
        )
    }
}

/// The labels joined by dots.
pub open spec fn join_labels(ls: Seq<Seq<char>>) -> Seq<char>
    decreases ls.len(),
{
    if ls.len() == 0 {
        seq![]
    } else if ls.len() == 1 {
        ls[0]
    } else {
        join_labels(ls.drop_last()) + seq!['.'] + ls.last()
    }
}

/// The text of a raw label: decoded, then lowercased.
pub open spec fn label_text(l: Seq<u8>) -> Seq<char> {
    lower_of(lossy_of(l))
}

/// The dotted text of raw labels.
pub open spec fn name_text(ls: Seq<Seq<u8>>) -> Seq<char> {
    join_labels(ls.map_values(|l: Seq<u8>| label_text(l)))
}

/// The bytes of a name split at each dot (0x2E), as `str::split('.')` does:
/// always at least one label, empty ones included.
pub open spec fn split_dots(b: Seq<u8>) -> Seq<Seq<u8>>
    decreases b.len(),
{
    if b.len() == 0 {
        seq![seq![]]
    } else {
        let rest = split_dots(b.drop_last());
        if b.last() == 0x2E {
            rest.push(seq![])
        } else {
            rest.update(rest.len() - 1, rest.last().push(b.last()))
        }
    }
}

/// Each label as its length byte and then its bytes.
pub open spec fn encode_labels(ls: Seq<Seq<u8>>) -> Seq<u8>
    decreases ls.len(),
{
    if ls.len() == 0 {
        seq![]
    } else {
        encode_labels(ls.drop_last()) + seq![ls.last().len() as u8] + ls.last()
    }
}

/// The wire form of a name given by its bytes: its labels, then a zero byte.
pub open spec fn encode_name(b: Seq<u8>) -> Seq<u8> {
    encode_labels(split_dots(b)) + seq![0u8]
}

/// Some label of the name is longer than 63 bytes.
pub open spec fn has_long_label(b: Seq<u8>) -> bool {
    exists|i: int| 0 <= i < split_dots(b).len() && #[trigger] split_dots(b)[i].len() > 63
}

proof fn lemma_split_dots_nonempty(b: Seq<u8>)
    ensures
        split_dots(b).len() >= 1,
    decreases b.len(),
{
    if b.len() > 0 {
        lemma_split_dots_nonempty(b.drop_last());
    }
}

proof fn lemma_encode_labels_front(ls: Seq<Seq<u8>>)
    requires
        ls.len() > 0,
    ensures
        encode_labels(ls) == seq![ls[0].len() as u8] + ls[0] + encode_labels(ls.drop_first()),
    decreases ls.len(),
{
    if ls.len() > 1 {
        lemma_encode_labels_front(ls.drop_last());
        assert(ls.drop_last().drop_first() =~= ls.drop_first().drop_last());
        assert(encode_labels(ls) =~= seq![ls[0].len() as u8] + ls[0] + encode_labels(
            ls.drop_first(),
        ));
    } else {
        assert(ls.drop_first() =~= seq![]);
        assert(ls.drop_last() =~= seq![]);
        assert(encode_labels(ls) =~= seq![ls[0].len() as u8] + ls[0] + encode_labels(
            ls.drop_first(),
        ));
    }
}

pub(crate) proof fn lemma_scan_encoded(b: Seq<u8>, p: int, ls: Seq<Seq<u8>>)
    requires
        0 <= p,
        p + encode_labels(ls).len() + 1 <= b.len(),
        b.subrange(p, p + encode_labels(ls).len() + 1) == encode_labels(ls) + seq![0u8],
        forall|i: int| 0 <= i < ls.len() ==> 1 <= (#[trigger] ls[i]).len() <= 63,
    ensures
        scan_name(b, p, 0, -1) == NameScan::Labels(ls, p + encode_labels(ls).len() + 1),
    decreases ls.len(),
{
    if ls.len() == 0 {
        assert(b[p] == b.subrange(p, p + 1)[0]);
        assert(ls =~= seq![]);
    } else {
        lemma_encode_labels_front(ls);
        let l0 = ls[0];
        let rest = ls.drop_first();
        let n = l0.len() as int;
        let w = encode_labels(ls) + seq![0u8];
        assert(b[p] == w[0]);
        assert(b.subrange(p + 1, p + 1 + n) =~= l0) by {
            assert forall|k: int| 0 <= k < n implies b[p + 1 + k] == l0[k] by {
                assert(b[p + 1 + k] == b.subrange(p, p + encode_labels(ls).len() + 1)[1 + k]);
            }
        }
        assert forall|i: int| 0 <= i < rest.len() implies 1 <= (#[trigger] rest[i]).len() <= 63 by {
            assert(rest[i] == ls[i + 1]);
        }
        assert(b.subrange(p + 1 + n, p + 1 + n + encode_labels(rest).len() + 1) =~= encode_labels(
            rest,
        ) + seq![0u8]) by {
            assert forall|k: int| 0 <= k < encode_labels(rest).len() + 1 implies b[p + 1 + n + k]
                == (encode_labels(rest) + seq![0u8])[k] by {
                assert(b[p + 1 + n + k] == b.subrange(p, p + encode_labels(ls).len() + 1)[1 + n
                    + k]);
            }
        }
        lemma_scan_encoded(b, p + 1 + n, rest);
        assert(b[p] as int == n);
        assert(scan_name(b, p, 0, -1) == with_prefix(
            seq![b.subrange(p + 1, p + 1 + n)],
            scan_name(b, p + 1 + n, 0, -1),
        ));
        assert(seq![l0] + rest =~= ls);
    }
}

/// A name whose labels are each 1 to 63 bytes long, written at `p`, reads
/// back from `p` as the same labels, with the cursor right after it.
pub proof fn law_name_round_trip(b: Seq<u8>, p: int, name: Seq<u8>)
    requires
        0 <= p,
        p + encode_name(name).len() <= b.len(),
        forall|i: int|
            0 <= i < split_dots(name).len() ==> 1 <= (#[trigger] split_dots(name)[i]).len() <= 63,
    ensures
        scan_name(overwrite(b, p, encode_name(name)), p, 0, -1) == NameScan::Labels(
            split_dots(name),
            p + encode_name(name).len(),
        ),
{
    let w = encode_name(name);
    let nb = overwrite(b, p, w);
    assert(nb.subrange(p, p + w.len()) =~= w);
    lemma_scan_encoded(nb, p, split_dots(name));
}

/// What decoding a value at some position yields: the value and the position
/// after it, or the error that stops it.
pub enum Decoded<T> {
    Value(T, int),
    EndOfBuffer,
    JumpLimit,
}

impl<T> Decoded<T> {
    /// `r` succeeds where this outcome is a value, and fails as it says
    /// otherwise.
    pub open spec fn failure_matches<U>(self, r: Result<U>) -> bool {
        match self {
            Decoded::Value(_, _) => r is Ok,
            Decoded::EndOfBuffer => r is Err && r->Err_0 is EndOfBuffer,
            Decoded::JumpLimit => r is Err && r->Err_0 == Error::JumpLimit(MAX_JUMPS),
        }
    }
}

/// The text of the name at `pos` of `b`, and where the cursor goes after it.
pub open spec fn decode_name(b: Seq<u8>, pos: int) -> Decoded<Seq<char>> {
    match scan_name(b, pos, 0, -1) {
        NameScan::Labels(ls, e) => Decoded::Value(name_text(ls), e),
        NameScan::OutOfBounds => Decoded::EndOfBuffer,
        NameScan::TooManyJumps => Decoded::JumpLimit,
    }
}

/// The failure of `d` as an outcome of another type.
pub open spec fn fail<A, B>(d: Decoded<A>) -> Decoded<B> {
    match d {
        Decoded::JumpLimit => Decoded::JumpLimit,
        _ => Decoded::EndOfBuffer,
    }
}

/// Two writes one after the other are one write of both.
pub proof fn lemma_overwrite_twice(b: Seq<u8>, p: int, w1: Seq<u8>, w2: Seq<u8>)
    requires
        0 <= p,
        p + w1.len() + w2.len() <= b.len(),
    ensures
        overwrite(overwrite(b, p, w1), p + w1.len(), w2) == overwrite(b, p, w1 + w2),
{
    assert(overwrite(overwrite(b, p, w1), p + w1.len(), w2) =~= overwrite(b, p, w1 + w2));
}

/// A `BytePacketBuffer` is a fixed 512-byte packet buffer with a cursor.
#[derive(Debug)]
pub struct BytePacketBuffer {
    pub buf: [u8; 512],
    pub pos: usize,
}

impl BytePacketBuffer {
    /// `n` bytes fit from the cursor on.
    pub open spec fn fits(&self, n: int) -> bool {
        self.pos + n <= BUF_SIZE
    }

    /// This buffer after writing `w1` and then `w2` is this buffer after
    /// writing both.
    pub proof fn lemma_wrote_twice(&self, mid: &Self, before: &Self, w1: Seq<u8>, w2: Seq<u8>)
        requires
            before.buf@.len() == BUF_SIZE,
            mid.wrote(before, w1),
            self.wrote(mid, w2),
            before.pos + w1.len() + w2.len() <= BUF_SIZE,
        ensures
            self.wrote(before, w1 + w2),
    {
        lemma_overwrite_twice(before.buf@, before.pos as int, w1, w2);
    }

    /// This buffer is `before` after writing `w` at its cursor.
    pub open spec fn wrote(&self, before: &Self, w: Seq<u8>) -> bool {
        &&& self.buf@ == overwrite(before.buf@, before.pos as int, w)
        &&& self.pos == before.pos + w.len()
    }

    pub fn new() -> (r: Self)
        ensures
            r.pos == 0,
            r.buf@ == Seq::new(512, |i: int| 0u8),
    {
        let r = BytePacketBuffer { buf: [0u8; 512], pos: 0 };
        assert(r.buf@ =~= Seq::new(512, |i: int| 0u8));
        r
    }

    pub fn pos(&self) -> (r: usize)
        ensures
            r == self.pos,
    {
        self.pos
    }

    /// Moves the cursor forward; fails where it would pass the end.
    pub fn step(&mut self, steps: usize) -> (r: Result<()>)
        ensures
            final(self).buf == old(self).buf,
            r is Ok <==> old(self).pos + steps <= BUF_SIZE,
            r is Ok ==> final(self).pos == old(self).pos + steps,
            r is Err ==> r->Err_0 is EndOfBuffer && final(self).pos == old(self).pos,
    {
        if steps <= BUF_SIZE && self.pos <= BUF_SIZE - steps {
            self.pos = self.pos + steps;
            Ok(())
        } else {
            Err(Error::EndOfBuffer)
        }
    }

    /// Moves the cursor to `pos`; fails where it lies past the end.
    pub fn seek(&mut self, pos: usize) -> (r: Result<()>)
        ensures
            final(self).buf == old(self).buf,
            r is Ok <==> pos <= BUF_SIZE,
            r is Ok ==> final(self).pos == pos,
            r is Err ==> r->Err_0 is EndOfBuffer && final(self).pos == old(self).pos,
    {
        if pos <= BUF_SIZE {
            self.pos = pos;
            Ok(())
        } else {
            Err(Error::EndOfBuffer)
        }
    }

    /// Reads one byte at the cursor and advances.
    pub fn read(&mut self) -> (r: Result<u8>)
        ensures
            final(self).buf == old(self).buf,
            r is Ok <==> old(self).pos < BUF_SIZE,
            r is Ok ==> r->Ok_0 == old(self).buf@[old(self).pos as int] && final(self).pos
                == old(self).pos + 1,
            r is Err ==> r->Err_0 is EndOfBuffer && final(self).pos == old(self).pos,
    {
        if self.pos < BUF_SIZE {
            let v = self.buf[self.pos];
            self.pos = self.pos + 1;
            Ok(v)
        } else {
            Err(Error::EndOfBuffer)
        }
    }

    /// Reads `len` bytes at the cursor and advances.
    pub fn read_range(&mut self, len: usize) -> (r: Result<Vec<u8>>)
        ensures
            final(self).buf == old(self).buf,
            r is Ok <==> old(self).fits(len as int),
            r is Ok ==> r->Ok_0@ == old(self).buf@.subrange(
                old(self).pos as int,
                old(self).pos + len,
            ) && final(self).pos == old(self).pos + len,
            r is Err ==> r->Err_0 is EndOfBuffer && final(self).pos == old(self).pos,
    {
        let r = self.get_range(self.pos, len);
        if r.is_ok() {
            self.pos = self.pos + len;
        }
        r
    }

    /// The byte at `pos`; the cursor stays.
    pub fn get(&self, pos: usize) -> (r: Result<u8>)
        ensures
            r is Ok <==> pos < BUF_SIZE,
            r is Ok ==> r->Ok_0 == self.buf@[pos as int],
            r is Err ==> r->Err_0 is EndOfBuffer,
    {
        if pos < BUF_SIZE {
            Ok(self.buf[pos])
        } else {
            Err(Error::EndOfBuffer)
        }
    }

    /// The `len` bytes from `pos` on; the cursor stays.
    pub fn get_range(&self, pos: usize, len: usize) -> (r: Result<Vec<u8>>)
        ensures
            r is Ok <==> pos + len <= BUF_SIZE,
            r is Ok ==> r->Ok_0@ == self.buf@.subrange(pos as int, pos + len),
            r is Err ==> r->Err_0 is EndOfBuffer,
    {
        if pos <= BUF_SIZE && len <= BUF_SIZE - pos {
            let mut v: Vec<u8> = Vec::with_capacity(len);
            let mut i: usize = pos;
            while i < pos + len
                invariant
                    pos <= i <= pos + len <= BUF_SIZE,
                    v@ == self.buf@.subrange(pos as int, i as int),
                decreases pos + len - i,
            {
                v.push(self.buf[i]);
                i = i + 1;
                assert(v@ =~= self.buf@.subrange(pos as int, i as int));
            }
            Ok(v)
        } else {
            Err(Error::EndOfBuffer)
        }
    }

    /// The bytes before the cursor: what has been written.
    pub fn get_all(&self) -> (r: Result<Vec<u8>>)
        ensures
            r is Ok <==> self.pos <= BUF_SIZE,
            r is Ok ==> r->Ok_0@ == self.buf@.subrange(0, self.pos as int),
            r is Err ==> r->Err_0 is EndOfBuffer,
    {
        self.get_range(0, self.pos)
    }

    pub fn read_u16(&mut self) -> (r: Result<u16>)
        ensures
            final(self).buf == old(self).buf,
            r is Ok <==> old(self).fits(2),
            r is Ok ==> r->Ok_0 == be16(old(self).buf@, old(self).pos as int) && final(self).pos
                == old(self).pos + 2,
            r is Err ==> r->Err_0 is EndOfBuffer,
    {
        let hi = self.read()?;
        let lo = self.read()?;
        Ok(hi as u16 * 256 + lo as u16)
    }

    pub fn read_u32(&mut self) -> (r: Result<u32>)
        ensures
            final(self).buf == old(self).buf,
            r is Ok <==> old(self).fits(4),
            r is Ok ==> r->Ok_0 == be32(old(self).buf@, old(self).pos as int) && final(self).pos
                == old(self).pos + 4,
            r is Err ==> r->Err_0 is EndOfBuffer,
    {
        if !(self.pos <= BUF_SIZE - 4) {
            return Err(Error::EndOfBuffer);
        }
        let hi = self.read_u16()?;
        let lo = self.read_u16()?;
        Ok(hi as u32 * 65536 + lo as u32)
    }

    pub fn read_u128(&mut self) -> (r: Result<u128>)
        ensures
            final(self).buf == old(self).buf,
            r is Ok <==> old(self).fits(16),
            r is Ok ==> r->Ok_0 == be128(old(self).buf@, old(self).pos as int) && final(self).pos
                == old(self).pos + 16,
            r is Err ==> r->Err_0 is EndOfBuffer,
    {
        if !(self.pos <= BUF_SIZE - 16) {
            return Err(Error::EndOfBuffer);
        }
        let a = self.read_u32()? as u128;
        let b = self.read_u32()? as u128;
        let c = self.read_u32()? as u128;
        let d = self.read_u32()? as u128;
        Ok(((a * 0x1_0000_0000 + b) * 0x1_0000_0000 + c) * 0x1_0000_0000 + d)
    }

    /// Reads the name at the cursor, following compression pointers. The
    /// cursor goes past the name, or past the first pointer where one was
    /// followed; on failure it stays.
    pub fn read_qname(&mut self) -> (r: Result<String>)
        ensures
            final(self).buf == old(self).buf,
            match scan_name(old(self).buf@, old(self).pos as int, 0, -1) {
                NameScan::Labels(ls, e) => r is Ok && r->Ok_0@ == name_text(ls)
                    && final(self).pos == e,
                NameScan::OutOfBounds => r is Err && r->Err_0 is EndOfBuffer && final(self).pos
                    == old(self).pos,
                NameScan::TooManyJumps => r is Err && r->Err_0 == Error::JumpLimit(MAX_JUMPS)
                    && final(self).pos == old(self).pos,
            },
    {
        let ghost b = self.buf@;
        let ghost target = scan_name(b, self.pos as int, 0, -1);
        let mut pos: usize = self.pos;
        let mut jumped = false;
        let mut resume: usize = 0;
        let mut jumps: usize = 0;
        let mut ret = String::new();
        let mut any_label = false;
        let ghost mut acc: Seq<Seq<u8>> = seq![];
        proof {
            reveal_strlit(".");
            assert(with_prefix(acc, target) == target) by {
                match target {
                    NameScan::Labels(ls, e) => {
                        assert(acc + ls =~= ls);
                    },
                    _ => {},
                }
            }
        }
        loop
            invariant
                *self == *old(self),
                self.buf@ == b,
                b.len() == BUF_SIZE,
                jumped ==> resume <= BUF_SIZE,
                jumps <= MAX_JUMPS + 1,
                with_prefix(
                    acc,
                    scan_name(b, pos as int, jumps as int, if jumped { resume as int } else { -1 }),
                ) == target,
                target == scan_name(b, old(self).pos as int, 0, -1),
                ret@ == name_text(acc),
                any_label == (acc.len() > 0),
            decreases 6 - jumps, BUF_SIZE + 1 - pos,
        {
            let ghost res: int = if jumped { resume as int } else { -1 };
            if jumps > MAX_JUMPS {
                return Err(Error::JumpLimit(MAX_JUMPS));
            }
            let len = self.get(pos)?;
            if len >= 0xC0 {
                let b2 = self.get(pos + 1)?;
                if !jumped {
                    resume = pos + 2;
                }
                pos = (len - 0xC0) as usize * 256 + b2 as usize;
                jumped = true;
                jumps = jumps + 1;
            } else {
                if len == 0 {
                    if jumped {
                        self.pos = resume;
                    } else {
                        self.pos = pos + 1;
                    }
                    proof {
                        assert(acc + seq![] =~= acc);
                    }
                    return Ok(ret);
                }
                let label = self.get_range(pos + 1, len as usize)?;
                let text = lowercase(utf8_lossy(&label).as_str());
                let ghost old_acc = acc;
                proof {
                    acc = acc.push(label@);
                    let m = acc.map_values(|l: Seq<u8>| label_text(l));
                    let m0 = old_acc.map_values(|l: Seq<u8>| label_text(l));
                    assert(m.drop_last() =~= m0);
                    let rest = scan_name(b, pos + 1 + len, jumps as int, res);
                    match rest {
                        NameScan::Labels(ls, e) => {
                            assert(old_acc + (seq![label@] + ls) =~= acc + ls);
                        },
                        _ => {},
                    }
                }
                let ghost ret0 = ret@;
                if any_label {
                    ret.append(".");
                }
                any_label = true;
                ret.append(text.as_str());
                proof {
                    reveal_strlit(".");
                    let m = acc.map_values(|l: Seq<u8>| label_text(l));
                    let m0 = old_acc.map_values(|l: Seq<u8>| label_text(l));
                    assert(m.last() == text@);
                    if old_acc.len() == 0 {
                        assert(ret@ =~= m[0]);
                    } else {
                        assert(ret@ =~= join_labels(m0) + seq!['.'] + m.last());
                    }
                }
                pos = pos + 1 + len as usize;
            }
        }
    }

    /// Writes `qname` at the cursor: each dot-separated label as its length
    /// byte and its bytes, then a zero byte. A label over 63 bytes fails with
    /// `SingleLabelLimit`, a name that does not fit with `EndOfBuffer`; on
    /// failure nothing is written.
    pub fn write_qname(&mut self, qname: &str) -> (r: Result<()>)
        ensures
            r is Ok <==> !has_long_label(qname.spec_bytes()) && old(self).fits(
                encode_name(qname.spec_bytes()).len() as int,
            ),
            r is Ok ==> final(self).wrote(old(self), encode_name(qname.spec_bytes())),
            r is Err ==> *final(self) == *old(self),
            r is Err ==> (r->Err_0 is SingleLabelLimit <==> has_long_label(qname.spec_bytes())),
            r is Err ==> (r->Err_0 is EndOfBuffer <==> !has_long_label(qname.spec_bytes())),
    {
        let bytes = qname.as_bytes();
        let ghost nb = qname.spec_bytes();
        let mut done: Vec<Vec<u8>> = Vec::new();
        let mut cur: Vec<u8> = Vec::new();
        let mut i: usize = 0;
        while i < bytes.len()
            invariant
                bytes@ == nb,
                nb == qname.spec_bytes(),
                *self == *old(self),
                0 <= i <= nb.len(),
                done@.map_values(|v: Vec<u8>| v@).push(cur@) == split_dots(nb.subrange(0, i as int)),
            decreases nb.len() - i,
        {
            let c = bytes[i];
            proof {
                lemma_split_dots_nonempty(nb.subrange(0, i as int));
                assert(nb.subrange(0, i + 1).drop_last() =~= nb.subrange(0, i as int));
            }
            if c == 0x2E {
                let ghost d0 = done@;
                done.push(cur);
                cur = Vec::new();
                assert(done@.map_values(|v: Vec<u8>| v@) =~= d0.map_values(|v: Vec<u8>| v@).push(
                    done@.last()@,
                ));
                assert(done@.map_values(|v: Vec<u8>| v@).push(cur@) =~= split_dots(
                    nb.subrange(0, i + 1),
                ));
            } else {
                let ghost c0 = cur@;
                cur.push(c);
                assert(done@.map_values(|v: Vec<u8>| v@).push(cur@) =~= split_dots(
                    nb.subrange(0, i + 1),
                ));
            }
            i = i + 1;
        }
        assert(nb.subrange(0, i as int) =~= nb);
        done.push(cur);
        let ghost labels = split_dots(nb);
        assert(done@.map_values(|v: Vec<u8>| v@) =~= labels);
        let mut out: Vec<u8> = Vec::new();
        let mut k: usize = 0;
        while k < done.len()
            invariant
                0 <= k <= done@.len(),
                labels.len() == done@.len(),
                labels == split_dots(nb),
                nb == qname.spec_bytes(),
                *self == *old(self),
                done@.map_values(|v: Vec<u8>| v@) == labels,
                forall|j: int| 0 <= j < k ==> #[trigger] labels[j].len() <= 63,
                out@ == encode_labels(labels.subrange(0, k as int)),
            decreases done@.len() - k,
        {
            let label = &done[k];
            assert(label@ == labels[k as int]);
            if label.len() > 63 {
                assert(split_dots(nb)[k as int].len() > 63);
                assert(has_long_label(nb));
                return Err(Error::SingleLabelLimit);
            }
            out.push(label.len() as u8);
            let mut j: usize = 0;
            let ghost out0 = out@;
            while j < label.len()
                invariant
                    0 <= j <= label@.len(),
                    out@ == out0 + label@.subrange(0, j as int),
                decreases label@.len() - j,
            {
                out.push(label[j]);
                j = j + 1;
                assert(out@ =~= out0 + label@.subrange(0, j as int));
            }
            assert(labels.subrange(0, k + 1).drop_last() =~= labels.subrange(0, k as int));
            assert(label@.subrange(0, j as int) =~= label@);
            k = k + 1;
            assert(out@ =~= encode_labels(labels.subrange(0, k as int)));
        }
        assert(labels.subrange(0, k as int) =~= labels);
        out.push(0);
        assert(out@ =~= encode_name(nb));
        self.write_range(&out)
    }

    /// Writes one byte at the cursor and advances.
    pub fn write(&mut self, v: u8) -> (r: Result<()>)
        ensures
            r is Ok <==> old(self).fits(1),
            r is Ok ==> final(self).wrote(old(self), seq![v]),
            r is Err ==> r->Err_0 is EndOfBuffer && *final(self) == *old(self),
    {
        if self.pos < BUF_SIZE {
            self.buf[self.pos] = v;
            self.pos = self.pos + 1;
            assert(self.buf@ =~= overwrite(old(self).buf@, old(self).pos as int, seq![v]));
            Ok(())
        } else {
            Err(Error::EndOfBuffer)
        }
    }

    pub fn write_u8(&mut self, v: u8) -> (r: Result<()>)
        ensures
            r is Ok <==> old(self).fits(1),
            r is Ok ==> final(self).wrote(old(self), seq![v]),
            r is Err ==> r->Err_0 is EndOfBuffer && *final(self) == *old(self),
    {
        self.write(v)
    }

    pub fn write_u16(&mut self, v: u16) -> (r: Result<()>)
        ensures
            r is Ok <==> old(self).fits(2),
            r is Ok ==> final(self).wrote(old(self), bytes16(v)),
            r is Err ==> r->Err_0 is EndOfBuffer && *final(self) == *old(self),
    {
        self.write_range(&vec![(v / 256) as u8, (v % 256) as u8])
    }

    pub fn write_u32(&mut self, v: u32) -> (r: Result<()>)
        ensures
            r is Ok <==> old(self).fits(4),
            r is Ok ==> final(self).wrote(old(self), bytes32(v)),
            r is Err ==> r->Err_0 is EndOfBuffer && *final(self) == *old(self),
    {
        let hi = (v / 65536) as u16;
        let lo = (v % 65536) as u16;
        let w = vec![(hi / 256) as u8, (hi % 256) as u8, (lo / 256) as u8, (lo % 256) as u8];
        assert(w@ =~= bytes32(v));
        self.write_range(&w)
    }

    /// Writes `v` at the cursor and advances past it.
    pub fn write_range(&mut self, v: &Vec<u8>) -> (r: Result<()>)
        ensures
            r is Ok <==> old(self).fits(v@.len() as int),
            r is Ok ==> final(self).wrote(old(self), v@),
            r is Err ==> r->Err_0 is EndOfBuffer && *final(self) == *old(self),
    {
        if !(self.pos <= BUF_SIZE && v.len() <= BUF_SIZE - self.pos) {
            return Err(Error::EndOfBuffer);
        }
        let start = self.pos;
        let mut i: usize = 0;
        while i < v.len()
            invariant
                start + v@.len() <= BUF_SIZE,
                0 <= i <= v@.len(),
                self.pos == start + i,
                self.buf@ == overwrite(old(self).buf@, start as int, v@.subrange(0, i as int)),
            decreases v@.len() - i,
        {
            self.buf[self.pos] = v[i];
            self.pos = self.pos + 1;
            i = i + 1;
            assert(self.buf@ =~= overwrite(
                old(self).buf@,
                start as int,
                v@.subrange(0, i as int),
            ));
        }
        assert(v@.subrange(0, i as int) =~= v@);
        Ok(())
    }
}

impl Default for BytePacketBuffer {
    fn default() -> (r: Self)
        ensures
            r.pos == 0,
            r.buf@ == Seq::new(512, |i: int| 0u8),
    {
        Self::new()
    }
}

} // verus!
