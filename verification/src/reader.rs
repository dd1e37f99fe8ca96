//! Big-endian reading over a byte slice, and the parse error of the metric formats.

use vstd::prelude::*;
use crate::fix::Fix;
use crate::message::{decimal, text_num};
use crate::text::{be16, be24, be32, string_from_bytes_lossy, utf8_lossy};

verus! {

/// A parse failure. `offset` is the byte offset from the start of the file.
#[derive(Debug, Clone, PartialEq, Eq)]
pub struct ParseError {
    pub offset: usize,
    pub message: String,
}

/// `e` is the error at `offset` with the message `msg`.
pub open spec fn is_error(e: ParseError, offset: int, msg: Seq<char>) -> bool {
    e.offset == offset && e.message@ == msg
}

/// The message of a read past the end of the data.
pub open spec fn msg_unexpected_end() -> Seq<char> {
    "unexpected end"@
}

pub fn err(offset: usize, message: &str) -> (e: ParseError)
    ensures
        e.offset == offset,
        e.message@ == message@,
{
    ParseError { offset, message: message.to_owned() }
}

/// The message of a read of `n` bytes past the end of the data.
pub open spec fn msg_need(n: int) -> Seq<char> {
    "unexpected end: need "@ + decimal(n as nat) + " bytes"@
}

/// Where a run of single-byte reads starting at `p` stops when it runs out
/// of data of length `n`.
pub open spec fn stop_pos(p: int, n: int) -> int {
    if p < n {
        n
    } else {
        p
    }
}

/// Big-endian reader over `data`, positioned at `pos`.
pub struct Reader<'a> {
    pub data: &'a [u8],
    pub pos: usize,
}

/// The outcome of reading `k` bytes as one big-endian number: `Ok` with the
/// position advanced when the bytes are there, else the end-of-data error at
/// the place where reading stopped.
pub open spec fn read_outcome<T>(
    old_r: Reader,
    new_r: Reader,
    k: int,
    res: Result<T, ParseError>,
) -> bool {
    &&& new_r.data@ == old_r.data@
    &&& if old_r.pos + k <= old_r.data@.len() {
        res is Ok && new_r.pos == old_r.pos + k
    } else {
        &&& res is Err
        &&& is_error(res->Err_0, stop_pos(old_r.pos as int, old_r.data@.len() as int), msg_unexpected_end())
        &&& new_r.pos == stop_pos(old_r.pos as int, old_r.data@.len() as int)
    }
}

impl<'a> Reader<'a> {
    pub fn new(data: &'a [u8]) -> (r: Reader<'a>)
        ensures
            r.data@ == data@,
            r.pos == 0,
    {
        Reader { data, pos: 0 }
    }

    pub fn remaining(&self) -> (n: usize)
        ensures
            n == if self.pos <= self.data@.len() { self.data@.len() - self.pos } else { 0 },
    {
        if self.pos <= self.data.len() {
            self.data.len() - self.pos
        } else {
            0
        }
    }

    pub fn u8(&mut self) -> (res: Result<u8, ParseError>)
        ensures
            read_outcome(*old(self), *final(self), 1, res),
            res matches Ok(b) ==> b == old(self).data@[old(self).pos as int],
    {
        if self.pos < self.data.len() {
            let b = self.data[self.pos];
            self.pos = self.pos + 1;
            Ok(b)
        } else {
            Err(err(self.pos, "unexpected end"))
        }
    }

    pub fn u16(&mut self) -> (res: Result<u16, ParseError>)
        ensures
            read_outcome(*old(self), *final(self), 2, res),
            res matches Ok(v) ==> v == be16(old(self).data@, old(self).pos as int),
    {
        let a = self.u8()?;
        let b = self.u8()?;
        Ok((a as u16) * 256 + b as u16)
    }

    pub fn u24(&mut self) -> (res: Result<u32, ParseError>)
        ensures
            read_outcome(*old(self), *final(self), 3, res),
            res matches Ok(v) ==> v == be24(old(self).data@, old(self).pos as int),
    {
        let a = self.u16()?;
        let b = self.u8()?;
        Ok((a as u32) * 256 + b as u32)
    }

    pub fn u32(&mut self) -> (res: Result<u32, ParseError>)
        ensures
            read_outcome(*old(self), *final(self), 4, res),
            res matches Ok(v) ==> v == be32(old(self).data@, old(self).pos as int),
    {
        let a = self.u16()?;
        let b = self.u16()?;
        Ok((a as u32) * 65536 + b as u32)
    }

    pub fn i32(&mut self) -> (res: Result<i32, ParseError>)
        ensures
            read_outcome(*old(self), *final(self), 4, res),
            res matches Ok(v) ==> v == (be32(old(self).data@, old(self).pos as int) as i32),
    {
        let v = self.u32()?;
        Ok(v as i32)
    }

    pub fn fix(&mut self) -> (res: Result<Fix, ParseError>)
        ensures
            read_outcome(*old(self), *final(self), 4, res),
            res matches Ok(v) ==> v == fix_at(old(self).data@, old(self).pos as int),
    {
        let v = self.i32()?;
        Ok(Fix(v))
    }

    /// The next `n` bytes. When fewer are left, the error is at the current
    /// position and the position does not move.
    pub fn bytes(&mut self, n: usize) -> (res: Result<&'a [u8], ParseError>)
        ensures
            final(self).data@ == old(self).data@,
            match res {
                Ok(s) => {
                    &&& old(self).pos + n <= old(self).data@.len()
                    &&& s@ == old(self).data@.subrange(old(self).pos as int, old(self).pos + n)
                    &&& final(self).pos == old(self).pos + n
                },
                Err(e) => {
                    &&& old(self).pos + n > old(self).data@.len()
                    &&& is_error(e, old(self).pos as int, msg_need(n as int))
                    &&& final(self).pos == old(self).pos
                },
            },
    {
        if self.pos > self.data.len() || self.data.len() - self.pos < n {
            let message = text_num("unexpected end: need ", n as u64, " bytes");
            return Err(ParseError { offset: self.pos, message });
        }
        let s = &self.data[self.pos..self.pos + n];
        self.pos = self.pos + n;
        Ok(s)
    }
}

/// The `fix_word` stored big-endian at `i`.
pub open spec fn fix_at(d: Seq<u8>, i: int) -> Fix {
    Fix(be32(d, i) as i32)
}

/// The bytes of a BCPL string (a length byte followed by the characters),
/// the length cut to what is there.
pub open spec fn bcpl_bytes(b: Seq<u8>) -> Seq<u8> {
    if b.len() == 0 {
        Seq::empty()
    } else {
        let n = if (b[0] as int) < b.len() - 1 { b[0] as int } else { b.len() - 1 };
        b.subrange(1, 1 + n)
    }
}

/// A BCPL string (TFM header: coding scheme and family name).
pub fn bcpl(bytes: &[u8]) -> (s: String)
    ensures
        s@ == utf8_lossy(bcpl_bytes(bytes@)),
{
    if bytes.len() == 0 {
        let empty = &bytes[0..0];
        assert(empty@ =~= bcpl_bytes(bytes@));
        return string_from_bytes_lossy(empty);
    }
    let first = bytes[0] as usize;
    let n = if first < bytes.len() - 1 { first } else { bytes.len() - 1 };
    string_from_bytes_lossy(&bytes[1..1 + n])
}

} // verus!
