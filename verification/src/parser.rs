use vstd::prelude::*;

use crate::error::Error;
use crate::kind::{kind_of_byte, NBTKind};
use crate::wire::{dec_str, u16_at, u32_at, u64_at};
use vstd::utf8::{decode_utf8, valid_utf8};

verus! {

/// The primitive reader: a byte source with a cursor, from which the decode
/// engine takes big-endian numbers, kind bytes and length-prefixed strings.
pub struct Parser {
    pub bytes: Vec<u8>,
    pub pos: usize,
}

impl Parser {
    /// The cursor never points past the end of the source.
    pub open spec fn wf(&self) -> bool {
        self.pos <= self.bytes@.len()
    }

    pub fn new(bytes: Vec<u8>) -> (r: Self)
        ensures
            r.bytes@ == bytes@,
            r.pos == 0,
            r.wf(),
    {
        Parser { bytes, pos: 0 }
    }

    /// Reads one byte, failing with Eof at the end of the source.
    pub fn parse_u8(&mut self) -> (r: Result<u8, Error>)
        requires
            old(self).wf(),
        ensures
            final(self).wf(),
            final(self).bytes@ == old(self).bytes@,
            r is Ok ==> old(self).pos < old(self).bytes@.len() && r->Ok_0 == old(self).bytes@[old(self).pos as int] && final(self).pos == old(self).pos + 1,
            r is Err ==> r->Err_0 == Error::Eof && old(self).pos == old(self).bytes@.len()
                && final(self).pos == old(self).pos,
    {
        if self.pos < self.bytes.len() {
            let b = self.bytes[self.pos];
            self.pos = self.pos + 1;
            Ok(b)
        } else {
            Err(Error::Eof)
        }
    }

    /// Reads one kind byte and converts it, failing with Eof at the end of
    /// the source and with InvalidTagId on a byte outside 0..=12 (which is
    /// consumed all the same).
    pub fn parse_kind(&mut self) -> (r: Result<NBTKind, Error>)
        requires
            old(self).wf(),
        ensures
            final(self).wf(),
            final(self).bytes@ == old(self).bytes@,
            r is Ok ==> old(self).pos < old(self).bytes@.len() && Some(r->Ok_0) == kind_of_byte(
                old(self).bytes@[old(self).pos as int],
            ) && final(self).pos == old(self).pos + 1,
            r == Err::<NBTKind, Error>(Error::Eof) ==> old(self).pos == old(self).bytes@.len()
                && final(self).pos == old(self).pos,
            r == Err::<NBTKind, Error>(Error::InvalidTagId) ==> old(self).pos < old(self).bytes@.len() && kind_of_byte(old(self).bytes@[old(self).pos as int]) is None && final(self).pos == old(self).pos + 1,
            r is Err ==> r->Err_0 == Error::Eof || r->Err_0 == Error::InvalidTagId,
    {
        match self.parse_u8() {
            Ok(b) => NBTKind::from_byte(b),
            Err(e) => Err(e),
        }
    }

    /// Reads one signed byte.
    pub fn parse_i8(&mut self) -> (r: Result<i8, Error>)
        requires
            old(self).wf(),
        ensures
            final(self).wf(),
            final(self).bytes@ == old(self).bytes@,
            r is Ok ==> old(self).pos + 1 <= old(self).bytes@.len() && r->Ok_0 == old(self).bytes@[old(self).pos as int] as i8 && final(self).pos == old(self).pos + 1,
            r is Err ==> r->Err_0 == Error::Eof && old(self).pos + 1 > old(self).bytes@.len()
                && final(self).pos == old(self).pos,
    {
        match self.parse_u8() {
            Ok(b) => Ok(b as i8),
            Err(e) => Err(e),
        }
    }

    /// Reads a big-endian unsigned 16-bit integer.
    pub fn parse_u16(&mut self) -> (r: Result<u16, Error>)
        requires
            old(self).wf(),
        ensures
            final(self).wf(),
            final(self).bytes@ == old(self).bytes@,
            r is Ok ==> old(self).pos + 2 <= old(self).bytes@.len() && r->Ok_0 == u16_at(
                old(self).bytes@,
                old(self).pos as int,
            ) && final(self).pos == old(self).pos + 2,
            r is Err ==> r->Err_0 == Error::Eof && old(self).pos + 2 > old(self).bytes@.len()
                && final(self).pos == old(self).pos,
    {
        if self.bytes.len() - self.pos >= 2 {
            let b0 = self.bytes[self.pos];
            let b1 = self.bytes[self.pos + 1];
            self.pos = self.pos + 2;
            Ok(((b0 as u16) << 8u16) | (b1 as u16))
        } else {
            Err(Error::Eof)
        }
    }

    /// Reads a big-endian signed 16-bit integer.
    pub fn parse_i16(&mut self) -> (r: Result<i16, Error>)
        requires
            old(self).wf(),
        ensures
            final(self).wf(),
            final(self).bytes@ == old(self).bytes@,
            r is Ok ==> old(self).pos + 2 <= old(self).bytes@.len() && r->Ok_0 == u16_at(
                old(self).bytes@,
                old(self).pos as int,
            ) as i16 && final(self).pos == old(self).pos + 2,
            r is Err ==> r->Err_0 == Error::Eof && old(self).pos + 2 > old(self).bytes@.len()
                && final(self).pos == old(self).pos,
    {
        match self.parse_u16() {
            Ok(n) => Ok(n as i16),
            Err(e) => Err(e),
        }
    }

    /// Reads a big-endian unsigned 32-bit integer: four bytes, highest first.
    pub fn parse_u32(&mut self) -> (r: Result<u32, Error>)
        requires
            old(self).wf(),
        ensures
            final(self).wf(),
            final(self).bytes@ == old(self).bytes@,
            r is Ok ==> old(self).pos + 4 <= old(self).bytes@.len() && r->Ok_0 == u32_at(
                old(self).bytes@,
                old(self).pos as int,
            ) && final(self).pos == old(self).pos + 4,
            r is Err ==> r->Err_0 == Error::Eof && old(self).pos + 4 > old(self).bytes@.len()
                && final(self).pos == old(self).pos,
    {
        if self.bytes.len() - self.pos >= 4 {
            let b0 = self.bytes[self.pos];
            let b1 = self.bytes[self.pos + 1];
            let b2 = self.bytes[self.pos + 2];
            let b3 = self.bytes[self.pos + 3];
            self.pos = self.pos + 4;
            Ok(((b0 as u32) << 24u32) | ((b1 as u32) << 16u32) | ((b2 as u32) << 8u32) | (
            b3 as u32))
        } else {
            Err(Error::Eof)
        }
    }

    /// Reads a big-endian signed 32-bit integer.
    pub fn parse_i32(&mut self) -> (r: Result<i32, Error>)
        requires
            old(self).wf(),
        ensures
            final(self).wf(),
            final(self).bytes@ == old(self).bytes@,
            r is Ok ==> old(self).pos + 4 <= old(self).bytes@.len() && r->Ok_0 == u32_at(
                old(self).bytes@,
                old(self).pos as int,
            ) as i32 && final(self).pos == old(self).pos + 4,
            r is Err ==> r->Err_0 == Error::Eof && old(self).pos + 4 > old(self).bytes@.len()
                && final(self).pos == old(self).pos,
    {
        match self.parse_u32() {
            Ok(n) => Ok(n as i32),
            Err(e) => Err(e),
        }
    }

    /// Reads a big-endian unsigned 64-bit integer: eight bytes, highest first.
    pub fn parse_u64(&mut self) -> (r: Result<u64, Error>)
        requires
            old(self).wf(),
        ensures
            final(self).wf(),
            final(self).bytes@ == old(self).bytes@,
            r is Ok ==> old(self).pos + 8 <= old(self).bytes@.len() && r->Ok_0 == u64_at(
                old(self).bytes@,
                old(self).pos as int,
            ) && final(self).pos == old(self).pos + 8,
            r is Err ==> r->Err_0 == Error::Eof && old(self).pos + 8 > old(self).bytes@.len()
                && final(self).pos == old(self).pos,
    {
        if self.bytes.len() - self.pos >= 8 {
            let b0 = self.bytes[self.pos];
            let b1 = self.bytes[self.pos + 1];
            let b2 = self.bytes[self.pos + 2];
            let b3 = self.bytes[self.pos + 3];
            let b4 = self.bytes[self.pos + 4];
            let b5 = self.bytes[self.pos + 5];
            let b6 = self.bytes[self.pos + 6];
            let b7 = self.bytes[self.pos + 7];
            self.pos = self.pos + 8;
            Ok(
                ((b0 as u64) << 56u64) | ((b1 as u64) << 48u64) | ((b2 as u64) << 40u64) | ((
                b3 as u64) << 32u64) | ((b4 as u64) << 24u64) | ((b5 as u64) << 16u64) | ((
                b6 as u64) << 8u64) | (b7 as u64),
            )
        } else {
            Err(Error::Eof)
        }
    }

    /// Reads a big-endian signed 64-bit integer.
    pub fn parse_i64(&mut self) -> (r: Result<i64, Error>)
        requires
            old(self).wf(),
        ensures
            final(self).wf(),
            final(self).bytes@ == old(self).bytes@,
            r is Ok ==> old(self).pos + 8 <= old(self).bytes@.len() && r->Ok_0 == u64_at(
                old(self).bytes@,
                old(self).pos as int,
            ) as i64 && final(self).pos == old(self).pos + 8,
            r is Err ==> r->Err_0 == Error::Eof && old(self).pos + 8 > old(self).bytes@.len()
                && final(self).pos == old(self).pos,
    {
        match self.parse_u64() {
            Ok(n) => Ok(n as i64),
            Err(e) => Err(e),
        }
    }

    /// Reads the bit pattern of a big-endian IEEE-754 single-precision
    /// number. The bits are handed through untouched, so any pattern,
    /// NaN included, survives.
    pub fn parse_f32_bits(&mut self) -> (r: Result<u32, Error>)
        requires
            old(self).wf(),
        ensures
            final(self).wf(),
            final(self).bytes@ == old(self).bytes@,
            r is Ok ==> old(self).pos + 4 <= old(self).bytes@.len() && r->Ok_0 == u32_at(
                old(self).bytes@,
                old(self).pos as int,
            ) && final(self).pos == old(self).pos + 4,
            r is Err ==> r->Err_0 == Error::Eof && old(self).pos + 4 > old(self).bytes@.len()
                && final(self).pos == old(self).pos,
    {
        self.parse_u32()
    }

    /// Reads the bit pattern of a big-endian IEEE-754 double-precision
    /// number.
    pub fn parse_f64_bits(&mut self) -> (r: Result<u64, Error>)
        requires
            old(self).wf(),
        ensures
            final(self).wf(),
            final(self).bytes@ == old(self).bytes@,
            r is Ok ==> old(self).pos + 8 <= old(self).bytes@.len() && r->Ok_0 == u64_at(
                old(self).bytes@,
                old(self).pos as int,
            ) && final(self).pos == old(self).pos + 8,
            r is Err ==> r->Err_0 == Error::Eof && old(self).pos + 8 > old(self).bytes@.len()
                && final(self).pos == old(self).pos,
    {
        self.parse_u64()
    }

    /// Reads a length-prefixed string: a two-byte big-endian byte length,
    /// then that many bytes of UTF-8. The cursor moves only on success.
    pub fn parse_string(&mut self) -> (r: Result<String, Error>)
        requires
            old(self).wf(),
        ensures
            final(self).wf(),
            final(self).bytes@ == old(self).bytes@,
            ({
                let d = dec_str(old(self).bytes@, old(self).pos as int);
                match r {
                    Ok(s) => d is Ok && s@ == d->Ok_0.0 && final(self).pos == d->Ok_0.1,
                    Err(e) => d == Err::<(Seq<char>, int), Error>(e) && final(self).pos == old(self).pos,
                }
            }),
    {
        let n = self.bytes.len();
        if n - self.pos < 2 {
            return Err(Error::Eof);
        }
        let b0 = self.bytes[self.pos];
        let b1 = self.bytes[self.pos + 1];
        let len = (((b0 as u16) << 8u16) | (b1 as u16)) as usize;
        assert(len == u16_at(self.bytes@, self.pos as int) as int);
        if n - (self.pos + 2) < len {
            return Err(Error::Eof);
        }
        let mut buf: Vec<u8> = Vec::new();
        let start = self.pos + 2;
        let mut i: usize = 0;
        while i < len
            invariant
                0 <= i <= len,
                n == self.bytes@.len(),
                start + len <= n,
                buf@ == self.bytes@.subrange(start as int, start + i),
            decreases len - i,
        {
            buf.push(self.bytes[start + i]);
            i = i + 1;
            proof {
                assert(buf@ =~= self.bytes@.subrange(start as int, start + i));
            }
        }
        match utf8_to_string(buf) {
            Some(s) => {
                self.pos = self.pos + 2 + len;
                Ok(s)
            },
            None => Err(Error::InvalidUtf8),
        }
    }

    /// Whether at least one more byte waits behind the cursor, beyond a
    /// final stray byte that a multi-document source may carry.
    pub fn has_bytes_left(&self) -> (r: bool)
        ensures
            r == (self.pos + 1 < self.bytes@.len()),
    {
        let len = self.bytes.len();
        self.pos < len && len - self.pos > 1
    }
}

/// Relies on String::from_utf8: it succeeds exactly on the byte sequences
/// that are valid UTF-8 and yields the characters those bytes encode.
#[verifier::external_body]
fn utf8_to_string(bytes: Vec<u8>) -> (r: Option<String>)
    ensures
        r is Some <==> valid_utf8(bytes@),
        r is Some ==> r->Some_0@ == decode_utf8(bytes@),
{
    String::from_utf8(bytes).ok()
}

} // verus!
