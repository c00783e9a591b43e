//! Big-endian byte cursor used by every parser of the crate.
//!
//! PICT is a big-endian byte stream throughout. All reads advance
//! `pos` and fail with `InvalidData` when too few bytes are left.
use vstd::prelude::*;
use crate::error::{PictError, Result};
use crate::wire::{be_i16, be_i32, be_u16, be_u32, u16_from_be};

verus! {

/// Stateful reader over a borrowed byte buffer.
pub struct Reader<'a> {
    pub bytes: &'a [u8],
    pub pos: usize,
}

impl<'a> Reader<'a> {
    /// Number of bytes left after `pos` (zero once `pos` is past the end).
    pub open spec fn rem(&self) -> int {
        if self.pos <= self.bytes@.len() {
            self.bytes@.len() - self.pos
        } else {
            0
        }
    }

    /// The bytes from `pos` to the end (empty once `pos` is past the end).
    pub open spec fn rest(&self) -> Seq<u8> {
        if self.pos <= self.bytes@.len() {
            self.bytes@.subrange(self.pos as int, self.bytes@.len() as int)
        } else {
            Seq::empty()
        }
    }

    /// The buffer as a sequence.
    pub open spec fn data(&self) -> Seq<u8> {
        self.bytes@
    }

    pub fn new(bytes: &'a [u8]) -> (r: Self)
        ensures
            r.bytes@ == bytes@,
            r.pos == 0,
    {
        Reader { bytes, pos: 0 }
    }

    pub fn remaining(&self) -> (n: usize)
        ensures
            n == self.rem(),
            self.bytes@.len() <= usize::MAX,
    {
        if self.pos <= self.bytes.len() {
            self.bytes.len() - self.pos
        } else {
            0
        }
    }

    pub fn at_eof(&self) -> (b: bool)
        ensures
            b == (self.pos >= self.bytes@.len()),
    {
        self.pos >= self.bytes.len()
    }

    pub fn skip(&mut self, n: usize) -> (res: Result<()>)
        ensures
            final(self).bytes@ == old(self).bytes@,
            match res {
                Ok(_) => old(self).rem() >= n && final(self).pos == old(self).pos + n,
                Err(e) => old(self).rem() < n && e is InvalidData && final(self).pos == old(
                    self,
                ).pos,
            },
    {
        if self.remaining() < n {
            return Err(PictError::invalid("truncated: not enough bytes left to skip"));
        }
        self.pos = self.pos + n;
        Ok(())
    }

    pub fn read_bytes(&mut self, n: usize) -> (res: Result<&'a [u8]>)
        requires
            n > 0 || old(self).pos <= old(self).bytes@.len(),
        ensures
            final(self).bytes@ == old(self).bytes@,
            match res {
                Ok(s) => {
                    &&& old(self).rem() >= n
                    &&& final(self).pos == old(self).pos + n
                    &&& s@ == old(self).bytes@.subrange(
                        old(self).pos as int,
                        old(self).pos + n,
                    )
                },
                Err(e) => old(self).rem() < n && e is InvalidData && final(self).pos == old(
                    self,
                ).pos && e->InvalidData_0@ == "truncated: not enough bytes left to read"@,
            },
    {
        if self.remaining() < n {
            return Err(PictError::invalid("truncated: not enough bytes left to read"));
        }
        let s = vstd::slice::slice_subrange(self.bytes, self.pos, self.pos + n);
        self.pos = self.pos + n;
        Ok(s)
    }

    pub fn read_u8(&mut self) -> (res: Result<u8>)
        ensures
            final(self).bytes@ == old(self).bytes@,
            match res {
                Ok(b) => {
                    &&& old(self).rem() >= 1
                    &&& final(self).pos == old(self).pos + 1
                    &&& b == old(self).bytes@[old(self).pos as int]
                },
                Err(e) => old(self).rem() < 1 && e is InvalidData && final(self).pos == old(
                    self,
                ).pos,
            },
    {
        if self.remaining() < 1 {
            return Err(PictError::invalid("truncated: need one more byte"));
        }
        let b = self.bytes[self.pos];
        self.pos = self.pos + 1;
        Ok(b)
    }

    pub fn read_u16(&mut self) -> (res: Result<u16>)
        ensures
            final(self).bytes@ == old(self).bytes@,
            match res {
                Ok(v) => {
                    &&& old(self).rem() >= 2
                    &&& final(self).pos == old(self).pos + 2
                    &&& v == be_u16(old(self).bytes@, old(self).pos as int)
                },
                Err(e) => old(self).rem() < 2 && e is InvalidData && final(self).pos == old(
                    self,
                ).pos,
            },
    {
        if self.remaining() < 2 {
            return Err(PictError::invalid("truncated: need a 16-bit word"));
        }
        let v = u16_from_be(self.bytes[self.pos], self.bytes[self.pos + 1]);
        self.pos = self.pos + 2;
        Ok(v)
    }

    pub fn read_i16(&mut self) -> (res: Result<i16>)
        ensures
            final(self).bytes@ == old(self).bytes@,
            match res {
                Ok(v) => {
                    &&& old(self).rem() >= 2
                    &&& final(self).pos == old(self).pos + 2
                    &&& v == be_i16(old(self).bytes@, old(self).pos as int)
                },
                Err(e) => old(self).rem() < 2 && e is InvalidData && final(self).pos == old(
                    self,
                ).pos,
            },
    {
        let u = self.read_u16()?;
        if u >= 32768 {
            Ok((u as i32 - 65536) as i16)
        } else {
            Ok(u as i16)
        }
    }

    pub fn read_u32(&mut self) -> (res: Result<u32>)
        ensures
            final(self).bytes@ == old(self).bytes@,
            match res {
                Ok(v) => {
                    &&& old(self).rem() >= 4
                    &&& final(self).pos == old(self).pos + 4
                    &&& v == be_u32(old(self).bytes@, old(self).pos as int)
                },
                Err(e) => old(self).rem() < 4 && e is InvalidData && final(self).pos == old(
                    self,
                ).pos,
            },
    {
        if self.remaining() < 4 {
            return Err(PictError::invalid("truncated: need a 32-bit word"));
        }
        let hi = u16_from_be(self.bytes[self.pos], self.bytes[self.pos + 1]);
        let lo = u16_from_be(self.bytes[self.pos + 2], self.bytes[self.pos + 3]);
        self.pos = self.pos + 4;
        Ok((hi as u32) * 65536 + (lo as u32))
    }

    /// Big-endian signed 32-bit integer.
    pub fn read_i32(&mut self) -> (res: Result<i32>)
        ensures
            final(self).bytes@ == old(self).bytes@,
            match res {
                Ok(v) => {
                    &&& old(self).rem() >= 4
                    &&& final(self).pos == old(self).pos + 4
                    &&& v == be_i32(old(self).bytes@, old(self).pos as int)
                },
                Err(e) => old(self).rem() < 4 && e is InvalidData && final(self).pos == old(
                    self,
                ).pos,
            },
    {
        let u = self.read_u32()?;
        if u >= 0x8000_0000 {
            Ok((u as i64 - 0x1_0000_0000) as i32)
        } else {
            Ok(u as i32)
        }
    }

    /// Read a QuickDraw `Rect` (top, left, bottom, right as big-endian
    /// `i16` each).
    pub fn read_rect(&mut self) -> (res: Result<(i16, i16, i16, i16)>)
        ensures
            final(self).bytes@ == old(self).bytes@,
            match res {
                Ok(t) => {
                    let p = old(self).pos as int;
                    let s = old(self).bytes@;
                    &&& old(self).rem() >= 8
                    &&& final(self).pos == p + 8
                    &&& t.0 == be_i16(s, p)
                    &&& t.1 == be_i16(s, p + 2)
                    &&& t.2 == be_i16(s, p + 4)
                    &&& t.3 == be_i16(s, p + 6)
                },
                Err(e) => old(self).rem() < 8 && e is InvalidData && final(self).pos == old(self).pos,
            },
    {
        if self.remaining() < 8 {
            return Err(PictError::invalid("truncated: need an 8-byte rectangle"));
        }
        let top = self.read_i16()?;
        let left = self.read_i16()?;
        let bottom = self.read_i16()?;
        let right = self.read_i16()?;
        Ok((top, left, bottom, right))
    }

    /// Pad the cursor to the next even offset if it is odd.
    pub fn align_word(&mut self) -> (res: Result<()>)
        ensures
            final(self).bytes@ == old(self).bytes@,
            old(self).pos % 2 == 0 ==> res is Ok && final(self).pos == old(self).pos,
            old(self).pos % 2 == 1 ==> match res {
                Ok(_) => old(self).rem() >= 1 && final(self).pos == old(self).pos + 1,
                Err(e) => old(self).rem() < 1 && e is InvalidData && final(self).pos == old(
                    self,
                ).pos,
            },
    {
        if self.pos % 2 == 0 {
            return Ok(());
        }
        self.skip(1)
    }
}

} // verus!
