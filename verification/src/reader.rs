//! A cursor over the bytes of a segment's metadata, and the grammar of the
//! values it reads.

use vstd::prelude::*;
use vstd::utf8::{decode_utf8, valid_utf8};
use crate::endian::{read_u16_at, read_u32_at, read_u64_at, u16_at, u32_at, u64_at};
use crate::error::TdmsError;
use crate::types::DataType;

verus! {

/// The error for a read of `n` bytes at `p` where fewer remain.
pub open spec fn eof_error(s: Seq<u8>, p: int, n: int) -> TdmsError {
    TdmsError::UnexpectedEof { required: n as usize, available: (s.len() - p) as usize }
}

/// One byte at `p`, and the position after it.
pub open spec fn spec_u8(s: Seq<u8>, p: int) -> Result<(u8, int), TdmsError> {
    if p + 1 <= s.len() { Ok((s[p], p + 1)) } else { Err(eof_error(s, p, 1)) }
}

pub open spec fn spec_u16(s: Seq<u8>, be: bool, p: int) -> Result<(u16, int), TdmsError> {
    if p + 2 <= s.len() { Ok((u16_at(s, p, be), p + 2)) } else { Err(eof_error(s, p, 2)) }
}

pub open spec fn spec_u32(s: Seq<u8>, be: bool, p: int) -> Result<(u32, int), TdmsError> {
    if p + 4 <= s.len() { Ok((u32_at(s, p, be), p + 4)) } else { Err(eof_error(s, p, 4)) }
}

pub open spec fn spec_u64(s: Seq<u8>, be: bool, p: int) -> Result<(u64, int), TdmsError> {
    if p + 8 <= s.len() { Ok((u64_at(s, p, be), p + 8)) } else { Err(eof_error(s, p, 8)) }
}

/// The `n` bytes at `p`.
pub open spec fn spec_bytes(s: Seq<u8>, p: int, n: int) -> Result<(Seq<u8>, int), TdmsError> {
    if p + n <= s.len() { Ok((s.subrange(p, p + n), p + n)) } else { Err(eof_error(s, p, n)) }
}

/// A string: a `u32` byte count, then that many bytes of UTF-8.
pub open spec fn spec_string(s: Seq<u8>, be: bool, p: int) -> Result<(Seq<char>, int), TdmsError> {
    match spec_u32(s, be, p) {
        Err(e) => Err(e),
        Ok((n, p1)) => match spec_bytes(s, p1, n as int) {
            Err(e) => Err(e),
            Ok((b, p2)) => if valid_utf8(b) {
                Ok((decode_utf8(b), p2))
            } else {
                Err(TdmsError::InvalidString { offset: p1 as usize })
            },
        },
    }
}

/// A data type: its `u32` code.
pub open spec fn spec_data_type(s: Seq<u8>, be: bool, p: int) -> Result<(DataType, int), TdmsError> {
    match spec_u32(s, be, p) {
        Err(e) => Err(e),
        Ok((c, p1)) => match DataType::spec_from_u32(c) {
            Some(d) => Ok((d, p1)),
            None => Err(TdmsError::InvalidDataType(c)),
        },
    }
}

/// `String::from_utf8`: the string that the bytes encode, or `None` where they are
/// not UTF-8.
#[verifier::external_body]
fn utf8_to_string(b: &[u8]) -> (r: Option<String>)
    ensures
        r is Some <==> valid_utf8(b@),
        r matches Some(s) ==> s@ == decode_utf8(b@),
{
    String::from_utf8(b.to_vec()).ok()
}

/// A cursor over metadata bytes that reads numbers in the segment's byte order.
pub struct SliceReader<'a> {
    data: &'a [u8],
    pos: usize,
    big_endian: bool,
}

impl<'a> SliceReader<'a> {
    /// The bytes being read.
    pub closed spec fn bytes(&self) -> Seq<u8> {
        self.data@
    }

    /// The position of the next read.
    pub closed spec fn position(&self) -> int {
        self.pos as int
    }

    /// Whether numbers are read big-endian.
    pub closed spec fn is_big_endian(&self) -> bool {
        self.big_endian
    }

    pub closed spec fn wf(&self) -> bool {
        self.pos <= self.data@.len()
    }

    /// A cursor at the start of `data`.
    pub fn new(data: &'a [u8], big_endian: bool) -> (r: Self)
        ensures
            r.wf(),
            r.bytes() == data@,
            r.position() == 0,
            r.is_big_endian() == big_endian,
    {
        SliceReader { data, pos: 0, big_endian }
    }

    /// The position of the next read.
    pub fn pos(&self) -> (r: usize)
        ensures
            r == self.position(),
    {
        self.pos
    }

    /// The number of bytes not yet read.
    pub fn remaining(&self) -> (r: usize)
        requires
            self.wf(),
        ensures
            r == self.bytes().len() - self.position(),
    {
        self.data.len() - self.pos
    }

    pub fn read_u8(&mut self) -> (r: Result<u8, TdmsError>)
        requires
            old(self).wf(),
        ensures
            final(self).wf(),
            final(self).bytes() == old(self).bytes(),
            final(self).is_big_endian() == old(self).is_big_endian(),
            match spec_u8(old(self).bytes(), old(self).position()) {
                Ok((v, p)) => r == Ok::<u8, TdmsError>(v) && final(self).position() == p,
                Err(e) => r == Err::<u8, TdmsError>(e),
            },
    {
        if self.data.len() - self.pos < 1 {
            return Err(TdmsError::UnexpectedEof { required: 1, available: self.data.len() - self.pos });
        }
        let v = self.data[self.pos];
        self.pos = self.pos + 1;
        Ok(v)
    }

    pub fn read_u16(&mut self) -> (r: Result<u16, TdmsError>)
        requires
            old(self).wf(),
        ensures
            final(self).wf(),
            final(self).bytes() == old(self).bytes(),
            final(self).is_big_endian() == old(self).is_big_endian(),
            match spec_u16(old(self).bytes(), old(self).is_big_endian(), old(self).position()) {
                Ok((v, p)) => r == Ok::<u16, TdmsError>(v) && final(self).position() == p,
                Err(e) => r == Err::<u16, TdmsError>(e),
            },
    {
        if self.data.len() - self.pos < 2 {
            return Err(TdmsError::UnexpectedEof { required: 2, available: self.data.len() - self.pos });
        }
        let v = read_u16_at(self.data, self.pos, self.big_endian);
        self.pos = self.pos + 2;
        Ok(v)
    }

    pub fn read_u32(&mut self) -> (r: Result<u32, TdmsError>)
        requires
            old(self).wf(),
        ensures
            final(self).wf(),
            final(self).bytes() == old(self).bytes(),
            final(self).is_big_endian() == old(self).is_big_endian(),
            match spec_u32(old(self).bytes(), old(self).is_big_endian(), old(self).position()) {
                Ok((v, p)) => r == Ok::<u32, TdmsError>(v) && final(self).position() == p,
                Err(e) => r == Err::<u32, TdmsError>(e),
            },
    {
        if self.data.len() - self.pos < 4 {
            return Err(TdmsError::UnexpectedEof { required: 4, available: self.data.len() - self.pos });
        }
        let v = read_u32_at(self.data, self.pos, self.big_endian);
        self.pos = self.pos + 4;
        Ok(v)
    }

    pub fn read_u64(&mut self) -> (r: Result<u64, TdmsError>)
        requires
            old(self).wf(),
        ensures
            final(self).wf(),
            final(self).bytes() == old(self).bytes(),
            final(self).is_big_endian() == old(self).is_big_endian(),
            match spec_u64(old(self).bytes(), old(self).is_big_endian(), old(self).position()) {
                Ok((v, p)) => r == Ok::<u64, TdmsError>(v) && final(self).position() == p,
                Err(e) => r == Err::<u64, TdmsError>(e),
            },
    {
        if self.data.len() - self.pos < 8 {
            return Err(TdmsError::UnexpectedEof { required: 8, available: self.data.len() - self.pos });
        }
        let v = read_u64_at(self.data, self.pos, self.big_endian);
        self.pos = self.pos + 8;
        Ok(v)
    }

    /// The next `n` bytes.
    pub fn read_bytes(&mut self, n: usize) -> (r: Result<&'a [u8], TdmsError>)
        requires
            old(self).wf(),
        ensures
            final(self).wf(),
            final(self).bytes() == old(self).bytes(),
            final(self).is_big_endian() == old(self).is_big_endian(),
            match spec_bytes(old(self).bytes(), old(self).position(), n as int) {
                Ok((v, p)) => r matches Ok(b) && b@ == v && final(self).position() == p,
                Err(e) => r == Err::<&[u8], TdmsError>(e),
            },
    {
        if self.data.len() - self.pos < n {
            return Err(TdmsError::UnexpectedEof { required: n, available: self.data.len() - self.pos });
        }
        let b = &self.data[self.pos..self.pos + n];
        self.pos = self.pos + n;
        Ok(b)
    }

    /// A length-prefixed UTF-8 string.
    pub fn read_string(&mut self) -> (r: Result<String, TdmsError>)
        requires
            old(self).wf(),
        ensures
            final(self).wf(),
            final(self).bytes() == old(self).bytes(),
            final(self).is_big_endian() == old(self).is_big_endian(),
            match spec_string(old(self).bytes(), old(self).is_big_endian(), old(self).position()) {
                Ok((v, p)) => r matches Ok(x) && x@ == v && final(self).position() == p,
                Err(e) => r == Err::<String, TdmsError>(e),
            },
    {
        let n = self.read_u32()?;
        let start = self.pos;
        let b = self.read_bytes(n as usize)?;
        match utf8_to_string(b) {
            Some(s) => Ok(s),
            None => Err(TdmsError::InvalidString { offset: start }),
        }
    }

    /// A `u32` type code.
    pub fn read_data_type(&mut self) -> (r: Result<DataType, TdmsError>)
        requires
            old(self).wf(),
        ensures
            final(self).wf(),
            final(self).bytes() == old(self).bytes(),
            final(self).is_big_endian() == old(self).is_big_endian(),
            match spec_data_type(old(self).bytes(), old(self).is_big_endian(), old(self).position()) {
                Ok((v, p)) => r == Ok::<DataType, TdmsError>(v) && final(self).position() == p,
                Err(e) => r == Err::<DataType, TdmsError>(e),
            },
    {
        let code = self.read_u32()?;
        DataType::from_u32(code)
    }
}

} // verus!
