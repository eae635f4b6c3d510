//! A bounds-checked cursor over a byte buffer.
use vstd::prelude::*;
use crate::error::{IronfleetError, ErrorView, diag, Severity, Result};
use crate::strings::{append_str, push_decimal, decimal};
use crate::text::result_view;

verus! {

/// A cursor over `data`; `pos` never passes the end.
#[derive(Debug)]
pub struct ByteReader<'a> {
    data: &'a [u8],
    pos: usize,
}

/// The contents and position of a reader.
pub struct ReaderView {
    pub data: Seq<u8>,
    pub pos: nat,
}

impl<'a> Clone for ByteReader<'a> {
    fn clone(&self) -> (r: Self)
        ensures
            r@ == self@,
    {
        proof {
            use_type_invariant(self);
        }
        ByteReader { data: self.data, pos: self.pos }
    }
}

impl<'a> View for ByteReader<'a> {
    type V = ReaderView;

    closed spec fn view(&self) -> ReaderView {
        ReaderView { data: self.data@, pos: self.pos as nat }
    }
}

impl ReaderView {
    pub open spec fn remaining(self) -> nat {
        (self.data.len() - self.pos) as nat
    }

    pub open spec fn with_pos(self, pos: nat) -> ReaderView {
        ReaderView { data: self.data, pos }
    }
}

/// The context that a short read reports.
pub open spec fn short_read_context(count: nat, have: nat) -> Seq<char> {
    "need "@ + decimal(count) + " bytes, have "@ + decimal(have)
}

/// Where the read of `count` bytes at `v` ends, or the error it raises.
pub open spec fn take_end(v: ReaderView, count: nat) -> core::result::Result<nat, ErrorView> {
    if v.pos + count > usize::MAX {
        Err(diag(Severity::Medium, "reader offset overflow"@))
    } else if v.pos + count > v.data.len() {
        Err(diag(Severity::Medium, "truncated input"@).at(v.pos as usize).with_context(
            short_read_context(count, v.remaining()),
        ))
    } else {
        Ok(v.pos + count)
    }
}

/// Bytes `i` and `i + 1` of `s`, little-endian.
pub open spec fn le16(s: Seq<u8>, i: int) -> u16 {
    (s[i] as int + 256 * (s[i + 1] as int)) as u16
}

pub open spec fn be16(s: Seq<u8>, i: int) -> u16 {
    (256 * (s[i] as int) + s[i + 1] as int) as u16
}

pub open spec fn le32(s: Seq<u8>, i: int) -> u32 {
    (s[i] as int + 0x100 * (s[i + 1] as int) + 0x1_0000 * (s[i + 2] as int) + 0x100_0000 * (s[i
        + 3] as int)) as u32
}

pub open spec fn be32(s: Seq<u8>, i: int) -> u32 {
    (0x100_0000 * (s[i] as int) + 0x1_0000 * (s[i + 1] as int) + 0x100 * (s[i + 2] as int) + s[i
        + 3] as int) as u32
}

/// The value of the little-endian base-128 groups in `bs` (7 bits per byte).
pub open spec fn varint_value(bs: Seq<u8>) -> u64
    decreases bs.len(),
{
    if bs.len() == 0 {
        0
    } else {
        varint_value(bs.drop_last()) | (((bs.last() & 0x7f) as u64) << ((7 * (bs.len() - 1)) as u64))
    }
}

/// Index of the first byte below 0x80 in `s` at or after `i`, or the length.
pub open spec fn varint_end(s: Seq<u8>, i: int) -> int
    decreases s.len() - i,
{
    if i >= s.len() {
        s.len() as int
    } else if s[i] & 0x80 == 0 {
        i
    } else {
        varint_end(s, i + 1)
    }
}

/// The outcome of reading a varint at `v`: the value or the error, and
/// where the cursor is left.
pub open spec fn varint_read(v: ReaderView) -> (core::result::Result<u64, ErrorView>, nat) {
    let rest = v.data.subrange(v.pos as int, v.data.len() as int);
    let k = varint_end(rest, 0);
    if k < 10 && k < rest.len() {
        (Ok(varint_value(rest.subrange(0, k + 1))), (v.pos + k + 1) as nat)
    } else if rest.len() < 10 {
        (
            match take_end(v.with_pos(v.data.len()), 1) {
                Err(e) => Err(e),
                Ok(_) => Ok(0),
            },
            v.data.len(),
        )
    } else {
        (Err(diag(Severity::Medium, "varint exceeds 10 bytes"@).at((v.pos + 10) as usize)), v.pos + 10)
    }
}

/// Index of the first `'\n'` byte at or after `i`, or the length.
pub open spec fn byte_line_end(s: Seq<u8>, i: int) -> int
    decreases s.len() - i,
{
    if i >= s.len() {
        s.len() as int
    } else if s[i] == 10 {
        i
    } else {
        byte_line_end(s, i + 1)
    }
}

proof fn lemma_byte_line_end(s: Seq<u8>, i: int)
    requires
        0 <= i <= s.len(),
    ensures
        i <= byte_line_end(s, i) <= s.len(),
    decreases s.len() - i,
{
    if i < s.len() && s[i] != 10 {
        lemma_byte_line_end(s, i + 1);
    }
}

impl<'a> ByteReader<'a> {
    #[verifier::type_invariant]
    spec fn inv(self) -> bool {
        self.pos <= self.data@.len()
    }

    /// The position never passes the end of the data.
    pub fn new(data: &'a [u8]) -> (r: Self)
        ensures
            r@.data == data@,
            r@.pos == 0,
    {
        ByteReader { data, pos: 0 }
    }

    pub fn len(&self) -> (r: usize)
        ensures
            r == self@.data.len(),
    {
        self.data.len()
    }

    pub fn position(&self) -> (r: usize)
        ensures
            r == self@.pos,
            self@.pos <= self@.data.len(),
    {
        proof {
            use_type_invariant(self);
        }
        self.pos
    }

    pub fn remaining(&self) -> (r: usize)
        ensures
            r == self@.remaining(),
            self@.pos <= self@.data.len(),
    {
        proof {
            use_type_invariant(self);
        }
        self.data.len() - self.pos
    }

    pub fn is_empty(&self) -> (r: bool)
        ensures
            r == (self@.remaining() == 0),
            self@.pos <= self@.data.len(),
    {
        self.remaining() == 0
    }

    pub fn original(&self) -> (r: &'a [u8])
        ensures
            r@ == self@.data,
    {
        self.data
    }

    pub fn set_position(&mut self, pos: usize) -> (r: Result<()>)
        ensures
            final(self)@.data == old(self)@.data,
            pos <= old(self)@.data.len() ==> r is Ok && final(self)@.pos == pos,
            pos > old(self)@.data.len() ==> final(self)@ == old(self)@ && r is Err && r->Err_0@ == diag(
                Severity::Medium,
                "reader seek outside input"@,
            ).at(pos),
    {
        if pos > self.data.len() {
            return Err(IronfleetError::medium("reader seek outside input").at(pos));
        }
        self.pos = pos;
        Ok(())
    }

    pub fn take(&mut self, count: usize) -> (r: Result<&'a [u8]>)
        ensures
            final(self)@.data == old(self)@.data,
            match take_end(old(self)@, count as nat) {
                Ok(end) => {
                    &&& r is Ok
                    &&& r->Ok_0@ == old(self)@.data.subrange(old(self)@.pos as int, end as int)
                    &&& final(self)@.pos == end
                },
                Err(e) => r is Err && r->Err_0@ == e && final(self)@ == old(self)@,
            },
    {
        proof {
            use_type_invariant(&*self);
        }
        let end = match self.pos.checked_add(count) {
            Some(e) => e,
            None => {
                return Err(IronfleetError::medium("reader offset overflow"));
            },
        };
        if end > self.data.len() {
            let mut ctx = String::new();
            append_str(&mut ctx, "need ");
            push_decimal(&mut ctx, count as u64);
            append_str(&mut ctx, " bytes, have ");
            push_decimal(&mut ctx, self.remaining() as u64);
            assert(ctx@ =~= short_read_context(count as nat, self@.remaining()));
            return Err(IronfleetError::medium("truncated input").at(self.pos).with_context(ctx));
        }
        let start = self.pos;
        self.pos = end;
        Ok(&self.data[start..end])
    }

    pub fn peek(&self, count: usize) -> (r: Result<&'a [u8]>)
        ensures
            self@.pos + count > usize::MAX ==> r is Err && r->Err_0@ == diag(
                Severity::Medium,
                "reader offset overflow"@,
            ),
            self@.pos + count <= usize::MAX && self@.pos + count > self@.data.len() ==> r is Err
                && r->Err_0@ == diag(Severity::Medium, "truncated input"@).at(self@.pos as usize),
            self@.pos + count <= self@.data.len() ==> r is Ok && r->Ok_0@ == self@.data.subrange(
                self@.pos as int,
                self@.pos + count,
            ),
    {
        proof {
            use_type_invariant(self);
        }
        let total = self.data.len();
        let end = match self.pos.checked_add(count) {
            Some(e) => e,
            None => {
                return Err(IronfleetError::medium("reader offset overflow"));
            },
        };
        if end > total {
            return Err(IronfleetError::medium("truncated input").at(self.pos));
        }
        Ok(&self.data[self.pos..end])
    }

    pub fn take_rest(&mut self) -> (r: &'a [u8])
        ensures
            final(self)@.data == old(self)@.data,
            final(self)@.pos == old(self)@.data.len(),
            r@ == old(self)@.data.subrange(old(self)@.pos as int, old(self)@.data.len() as int),
    {
        proof {
            use_type_invariant(&*self);
        }
        let start = self.pos;
        self.pos = self.data.len();
        &self.data[start..self.data.len()]
    }

    pub fn skip(&mut self, count: usize) -> (r: Result<()>)
        ensures
            final(self)@.data == old(self)@.data,
            match take_end(old(self)@, count as nat) {
                Ok(end) => r is Ok && final(self)@.pos == end,
                Err(e) => r is Err && r->Err_0@ == e && final(self)@ == old(self)@,
            },
    {
        match self.take(count) {
            Ok(_) => Ok(()),
            Err(e) => Err(e),
        }
    }

    pub fn take_u8(&mut self) -> (r: Result<u8>)
        ensures
            final(self)@.data == old(self)@.data,
            match take_end(old(self)@, 1) {
                Ok(end) => r == Ok::<u8, IronfleetError>(old(self)@.data[old(self)@.pos as int])
                    && final(self)@.pos == end,
                Err(e) => r is Err && r->Err_0@ == e && final(self)@ == old(self)@,
            },
    {
        let b = self.take(1)?;
        Ok(b[0])
    }

    pub fn take_le_u16(&mut self) -> (r: Result<u16>)
        ensures
            final(self)@.data == old(self)@.data,
            match take_end(old(self)@, 2) {
                Ok(end) => r == Ok::<u16, IronfleetError>(le16(old(self)@.data, old(self)@.pos as int))
                    && final(self)@.pos == end,
                Err(e) => r is Err && r->Err_0@ == e && final(self)@ == old(self)@,
            },
    {
        let b = self.take(2)?;
        let (b0, b1) = (b[0], b[1]);
        let v = (b0 as u16) | ((b1 as u16) << 8);
        assert(v == (b0 as int + 256 * (b1 as int)) as u16) by (bit_vector)
            requires
                v == (b0 as u16) | ((b1 as u16) << 8),
        ;
        Ok(v)
    }

    pub fn take_be_u16(&mut self) -> (r: Result<u16>)
        ensures
            final(self)@.data == old(self)@.data,
            match take_end(old(self)@, 2) {
                Ok(end) => r == Ok::<u16, IronfleetError>(be16(old(self)@.data, old(self)@.pos as int))
                    && final(self)@.pos == end,
                Err(e) => r is Err && r->Err_0@ == e && final(self)@ == old(self)@,
            },
    {
        let b = self.take(2)?;
        let (b0, b1) = (b[0], b[1]);
        let v = ((b0 as u16) << 8) | (b1 as u16);
        assert(v == (256 * (b0 as int) + b1 as int) as u16) by (bit_vector)
            requires
                v == ((b0 as u16) << 8) | (b1 as u16),
        ;
        Ok(v)
    }

    pub fn take_le_u32(&mut self) -> (r: Result<u32>)
        ensures
            final(self)@.data == old(self)@.data,
            match take_end(old(self)@, 4) {
                Ok(end) => r == Ok::<u32, IronfleetError>(le32(old(self)@.data, old(self)@.pos as int))
                    && final(self)@.pos == end,
                Err(e) => r is Err && r->Err_0@ == e && final(self)@ == old(self)@,
            },
    {
        let b = self.take(4)?;
        let (b0, b1, b2, b3) = (b[0], b[1], b[2], b[3]);
        let v = (b0 as u32) | ((b1 as u32) << 8) | ((b2 as u32) << 16) | ((b3 as u32) << 24);
        assert(v == (b0 as int + 0x100 * (b1 as int) + 0x1_0000 * (b2 as int) + 0x100_0000 * (b3 as int)) as u32)
            by (bit_vector)
            requires
                v == (b0 as u32) | ((b1 as u32) << 8) | ((b2 as u32) << 16) | ((b3 as u32) << 24),
        ;
        Ok(v)
    }

    pub fn take_be_u32(&mut self) -> (r: Result<u32>)
        ensures
            final(self)@.data == old(self)@.data,
            match take_end(old(self)@, 4) {
                Ok(end) => r == Ok::<u32, IronfleetError>(be32(old(self)@.data, old(self)@.pos as int))
                    && final(self)@.pos == end,
                Err(e) => r is Err && r->Err_0@ == e && final(self)@ == old(self)@,
            },
    {
        let b = self.take(4)?;
        let (b0, b1, b2, b3) = (b[0], b[1], b[2], b[3]);
        let v = ((b0 as u32) << 24) | ((b1 as u32) << 16) | ((b2 as u32) << 8) | (b3 as u32);
        assert(v == (0x100_0000 * (b0 as int) + 0x1_0000 * (b1 as int) + 0x100 * (b2 as int) + b3 as int) as u32)
            by (bit_vector)
            requires
                v == ((b0 as u32) << 24) | ((b1 as u32) << 16) | ((b2 as u32) << 8) | (b3 as u32),
        ;
        Ok(v)
    }

    /// Reads a little-endian base-128 integer of at most 10 bytes.
    pub fn take_varint(&mut self) -> (r: Result<u64>)
        ensures
            final(self)@.data == old(self)@.data,
            result_view(r) == varint_read(old(self)@).0,
            final(self)@.pos == varint_read(old(self)@).1,
    {
        proof {
            use_type_invariant(&*self);
        }
        let ghost start = self@.pos;
        let ghost data = self@.data;
        let ghost rest = data.subrange(start as int, data.len() as int);
        let total = self.data.len();
        let mut shift: u32 = 0;
        let mut value: u64 = 0;
        let mut n: usize = 0;
        while n < 10
            invariant
                n <= 10,
                shift == 7 * n,
                self@.data == data,
                data == old(self)@.data,
                start == old(self)@.pos,
                total == data.len(),
                self@.pos == start + n,
                start + n <= data.len(),
                rest == data.subrange(start as int, data.len() as int),
                value == varint_value(rest.subrange(0, n as int)),
                varint_end(rest, 0) == varint_end(rest, n as int),
            decreases 10 - n,
        {
            proof {
                use_type_invariant(&*self);
            }
            let byte = match self.take_u8() {
                Ok(b) => b,
                Err(e) => {
                    proof {
                        assert(rest.len() == n);
                        lemma_varint_all_high(rest, n as int);
                    }
                    return Err(e);
                },
            };
            assert(byte == rest[n as int]);
            assert(rest.subrange(0, n + 1).drop_last() =~= rest.subrange(0, n as int));
            value = value | (((byte & 0x7f) as u64) << (shift as u64));
            if byte & 0x80 == 0 {
                assert(varint_end(rest, n as int) == n);
                return Ok(value);
            }
            shift += 7;
            n += 1;
        }
        proof {
            lemma_varint_end(rest, 10);
        }
        Err(IronfleetError::medium("varint exceeds 10 bytes").at(self.pos))
    }

    /// The next line (without `'\n'` and a `'\r'` before it) and where it
    /// starts; `None` at the end.
    pub fn take_line(&mut self) -> (r: Option<(usize, &'a [u8])>)
        ensures
            final(self)@.data == old(self)@.data,
            old(self)@.remaining() == 0 ==> r is None && final(self)@ == old(self)@,
            old(self)@.remaining() > 0 ==> {
                let d = old(self)@.data;
                let start = old(self)@.pos as int;
                let end = byte_line_end(d, start);
                let line_end = if end > start && d[end - 1] == 13 { end - 1 } else { end };
                &&& r is Some
                &&& r->Some_0.0 == start
                &&& r->Some_0.1@ == d.subrange(start, line_end)
                &&& final(self)@.pos == (if end < d.len() { end + 1 } else { end })
            },
    {
        proof {
            use_type_invariant(&*self);
        }
        if self.is_empty() {
            return None;
        }
        let start = self.pos;
        let mut end = self.pos;
        while end < self.data.len() && self.data[end] != 10
            invariant
                start <= end <= self.data@.len(),
                byte_line_end(self.data@, start as int) == byte_line_end(self.data@, end as int),
            decreases self.data@.len() - end,
        {
            end += 1;
        }
        self.pos = if end < self.data.len() { end + 1 } else { end };
        let mut line_end = end;
        if line_end > start && self.data[line_end - 1] == 13 {
            line_end -= 1;
        }
        Some((start, &self.data[start..line_end]))
    }
}

proof fn lemma_varint_end(s: Seq<u8>, i: int)
    requires
        0 <= i <= s.len(),
    ensures
        i <= varint_end(s, i) <= s.len(),
    decreases s.len() - i,
{
    if i < s.len() && s[i] & 0x80 != 0 {
        lemma_varint_end(s, i + 1);
    }
}

/// When the reader runs out inside a varint, every byte read had its high bit
/// set.
proof fn lemma_varint_all_high(rest: Seq<u8>, n: int)
    requires
        0 <= n <= 10,
        rest.len() == n,
        varint_end(rest, 0) == varint_end(rest, n),
    ensures
        varint_end(rest, 0) == rest.len(),
{
}

/// `data[offset..offset + len]`, or the error for a span outside it.
pub fn bounded_slice(data: &[u8], offset: usize, len: usize) -> (r: Result<&[u8]>)
    ensures
        offset + len > usize::MAX ==> r is Err && r->Err_0@ == diag(Severity::Medium, "slice offset overflow"@),
        offset + len <= usize::MAX && offset + len > data@.len() ==> r is Err && r->Err_0@ == diag(
            Severity::Medium,
            "slice outside input"@,
        ).at(offset),
        offset + len <= data@.len() ==> r is Ok && r->Ok_0@ == data@.subrange(offset as int, offset + len),
{
    let total = data.len();
    let end = match offset.checked_add(len) {
        Some(e) => e,
        None => {
            return Err(IronfleetError::medium("slice offset overflow"));
        },
    };
    if end > total {
        return Err(IronfleetError::medium("slice outside input").at(offset));
    }
    Ok(&data[offset..end])
}

} // verus!
