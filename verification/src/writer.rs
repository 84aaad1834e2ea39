use vstd::prelude::*;

use crate::error::Error;
use crate::kind::{kind_byte, NBTKind};
use crate::wire::{enc_str, u16_be, u32_be, u64_be};
use vstd::string::StrSliceExecFns;
use vstd::utf8::encode_utf8;

verus! {

/// A header fragment that a parent owes the wire but that only the child,
/// once it knows its own kind byte, may write: either the entry name a
/// compound parent supplies, or the element count a list parent supplies.
pub enum DelayedHeader {
    MapKey(String),
    List(i32),
}

/// The bytes a pending header fragment adds right after the kind byte.
pub open spec fn pending_bytes(dh: Option<DelayedHeader>) -> Seq<u8> {
    match dh {
        None => Seq::empty(),
        Some(DelayedHeader::MapKey(s)) => enc_str(s@),
        Some(DelayedHeader::List(n)) => u32_be(n as u32),
    }
}

/// Whether a pending header fragment can be written at all: an entry name
/// must fit its two-byte length prefix.
pub open spec fn pending_ok(dh: Option<DelayedHeader>) -> bool {
    match dh {
        Some(DelayedHeader::MapKey(s)) => encode_utf8(s@).len() <= 0xFFFF,
        _ => true,
    }
}

/// The primitive writer: a byte sink into which the encode engine puts
/// big-endian numbers, kind bytes and length-prefixed strings.
pub struct Writer {
    pub out: Vec<u8>,
}

impl Writer {
    pub fn new() -> (r: Self)
        ensures
            r.out@ == Seq::<u8>::empty(),
    {
        Writer { out: Vec::new() }
    }

    /// Hands the accumulated bytes over.
    pub fn into_bytes(self) -> (r: Vec<u8>)
        ensures
            r@ == self.out@,
    {
        self.out
    }

    pub fn write_u8(&mut self, b: u8)
        ensures
            final(self).out@ == old(self).out@.push(b),
    {
        self.out.push(b);
    }

    pub fn write_i8(&mut self, n: i8)
        ensures
            final(self).out@ == old(self).out@.push(n as u8),
    {
        self.out.push(n as u8);
    }

    pub fn write_u16(&mut self, n: u16)
        ensures
            final(self).out@ == old(self).out@ + u16_be(n),
    {
        self.out.push((n >> 8u16) as u8);
        self.out.push(n as u8);
        proof {
            assert(self.out@ =~= old(self).out@ + u16_be(n));
        }
    }

    pub fn write_i16(&mut self, n: i16)
        ensures
            final(self).out@ == old(self).out@ + u16_be(n as u16),
    {
        self.write_u16(n as u16);
    }

    pub fn write_u32(&mut self, n: u32)
        ensures
            final(self).out@ == old(self).out@ + u32_be(n),
    {
        self.out.push((n >> 24u32) as u8);
        self.out.push((n >> 16u32) as u8);
        self.out.push((n >> 8u32) as u8);
        self.out.push(n as u8);
        proof {
            assert(self.out@ =~= old(self).out@ + u32_be(n));
        }
    }

    pub fn write_i32(&mut self, n: i32)
        ensures
            final(self).out@ == old(self).out@ + u32_be(n as u32),
    {
        self.write_u32(n as u32);
    }

    pub fn write_u64(&mut self, n: u64)
        ensures
            final(self).out@ == old(self).out@ + u64_be(n),
    {
        self.out.push((n >> 56u64) as u8);
        self.out.push((n >> 48u64) as u8);
        self.out.push((n >> 40u64) as u8);
        self.out.push((n >> 32u64) as u8);
        self.out.push((n >> 24u64) as u8);
        self.out.push((n >> 16u64) as u8);
        self.out.push((n >> 8u64) as u8);
        self.out.push(n as u8);
        proof {
            assert(self.out@ =~= old(self).out@ + u64_be(n));
        }
    }

    pub fn write_i64(&mut self, n: i64)
        ensures
            final(self).out@ == old(self).out@ + u64_be(n as u64),
    {
        self.write_u64(n as u64);
    }

    /// Writes the bit pattern of an IEEE-754 single-precision number,
    /// big-endian, untouched.
    pub fn write_f32_bits(&mut self, bits: u32)
        ensures
            final(self).out@ == old(self).out@ + u32_be(bits),
    {
        self.write_u32(bits);
    }

    /// Writes the bit pattern of an IEEE-754 double-precision number,
    /// big-endian, untouched.
    pub fn write_f64_bits(&mut self, bits: u64)
        ensures
            final(self).out@ == old(self).out@ + u64_be(bits),
    {
        self.write_u64(bits);
    }

    /// Writes a length-prefixed string: the two-byte big-endian length is
    /// the string's byte length, not its character count. A string whose
    /// bytes outgrow the prefix has no wire representation; nothing is
    /// written then.
    pub fn write_string(&mut self, s: &String) -> (r: Result<(), Error>)
        ensures
            r is Ok ==> final(self).out@ == old(self).out@ + enc_str(s@) && encode_utf8(
                s@,
            ).len() <= 0xFFFF,
            r is Err ==> r->Err_0 == Error::Unrepresentable && *final(self) == *old(self)
                && encode_utf8(s@).len() > 0xFFFF,
    {
        let mut bytes = s.as_str().as_bytes_vec();
        if bytes.len() > 0xFFFF {
            return Err(Error::Unrepresentable);
        }
        let ghost prior = self.out@;
        self.write_u16(bytes.len() as u16);
        self.out.append(&mut bytes);
        proof {
            assert(encode_utf8(s@).len() as u16 as int == encode_utf8(s@).len());
            assert(self.out@ =~= prior + enc_str(s@));
        }
        Ok(())
    }

    /// Writes a tag header: the kind byte, then whatever header fragment
    /// the parent deferred to this position. Nothing is written when the
    /// fragment cannot be.
    pub fn write_tag_header(&mut self, kind: NBTKind, dh: &Option<DelayedHeader>) -> (r: Result<
        (),
        Error,
    >)
        ensures
            r is Ok ==> final(self).out@ == old(self).out@ + seq![kind_byte(kind)] + pending_bytes(
                *dh,
            ) && pending_ok(*dh),
            r is Err ==> r->Err_0 == Error::Unrepresentable && *final(self) == *old(self)
                && !pending_ok(*dh),
    {
        match dh {
            None => {
                self.write_u8(kind.header_byte());
                proof {
                    assert(self.out@ =~= old(self).out@ + seq![kind_byte(kind)] + pending_bytes(
                        *dh,
                    ));
                }
                Ok(())
            },
            Some(DelayedHeader::MapKey(key)) => {
                let key_bytes = key.as_str().as_bytes_vec();
                if key_bytes.len() > 0xFFFF {
                    return Err(Error::Unrepresentable);
                }
                self.write_u8(kind.header_byte());
                match self.write_string(key) {
                    Ok(_) => {
                        proof {
                            assert(self.out@ =~= old(self).out@ + seq![kind_byte(kind)]
                                + pending_bytes(*dh));
                        }
                        Ok(())
                    },
                    Err(e) => {
                        proof {
                            assert(false);
                        }
                        Err(e)
                    },
                }
            },
            Some(DelayedHeader::List(n)) => {
                self.write_u8(kind.header_byte());
                self.write_i32(*n);
                proof {
                    assert(self.out@ =~= old(self).out@ + seq![kind_byte(kind)] + pending_bytes(
                        *dh,
                    ));
                }
                Ok(())
            },
        }
    }
}

} // verus!
