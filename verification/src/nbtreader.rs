use vstd::prelude::*;

use crate::de::{gunzip, gunzip_of, NBTDeserializer};
use crate::error::Error;
use crate::kind::{kind_of_byte, NBTKind};
use crate::tag::{NBTValue, MAX_DEPTH};
use crate::wire::{dec_payload, dec_str};

verus! {

/// One whole tag as it stands on the wire: its kind, its name where the
/// context carries one, and its payload. An End marker has neither name
/// nor payload.
pub struct NBTTag {
    pub kind: NBTKind,
    pub name: Option<String>,
    pub payload: Option<NBTValue>,
}

impl NBTTag {
    pub fn new(kind: NBTKind, name: Option<String>, payload: Option<NBTValue>) -> (r: Self)
        ensures
            r.kind == kind,
            r.name == name,
            r.payload == payload,
    {
        Self { kind, name, payload }
    }
}

/// A reader for streams that carry named tags back to back: it hands out
/// one whole named tag at a time until the stream runs dry.
pub struct NBTReader {
    pub de: NBTDeserializer,
}

impl From<Vec<u8>> for NBTReader {
    /// Starts a reader over an owned byte buffer.
    fn from(value: Vec<u8>) -> (r: NBTReader) {
        NBTReader { de: NBTDeserializer { parser: crate::parser::Parser { bytes: value, pos: 0 } } }
    }
}

impl vstd::std_specs::convert::FromSpecImpl<Vec<u8>> for NBTReader {
    open spec fn obeys_from_spec() -> bool {
        true
    }

    open spec fn from_spec(v: Vec<u8>) -> NBTReader {
        NBTReader {
            de: NBTDeserializer { parser: crate::parser::Parser { bytes: v, pos: 0 } },
        }
    }
}

impl NBTReader {
    /// Starts a reader over a buffer that may be gzip-compressed: a buffer
    /// opening with the two gzip magic bytes is decompressed first, any
    /// other is read as it is. Exactly the gzip-opening buffers the
    /// decompressor rejects fail, with the I/O error.
    pub fn from_compressed_bytes(bytes: Vec<u8>) -> (r: Result<Self, Error>)
        ensures
            ({
                let gzipped = bytes@.len() >= 2 && bytes@[0] == 0x1fu8 && bytes@[1] == 0x8bu8;
                if gzipped {
                    match gunzip_of(bytes@) {
                        Some(plain) => r is Ok && r->Ok_0.de.parser.pos == 0
                            && r->Ok_0.de.parser.bytes@ == plain,
                        None => r == Err::<NBTReader, Error>(Error::Io),
                    }
                } else {
                    r is Ok && r->Ok_0.de.parser.pos == 0 && r->Ok_0.de.parser.bytes@ == bytes@
                }
            }),
    {
        if bytes.len() >= 2 && bytes[0] == 0x1f && bytes[1] == 0x8b {
            match gunzip(&bytes) {
                Some(plain) => Ok(NBTReader { de: NBTDeserializer::from_slice(plain) }),
                None => Err(Error::Io),
            }
        } else {
            Ok(NBTReader { de: NBTDeserializer::from_slice(bytes) })
        }
    }

    /// Whether more than one byte waits behind the cursor.
    pub fn has_bytes_left(&self) -> (r: bool)
        ensures
            r == (self.de.parser.pos + 1 < self.de.parser.bytes@.len()),
    {
        self.de.has_bytes_left()
    }

    /// Reads the next whole named tag: its kind byte, then — except for an
    /// End marker, which carries neither — its name and its payload.
    /// Yields nothing once no tag can follow.
    pub fn parse_nbt(&mut self) -> (r: Result<Option<NBTTag>, Error>)
        requires
            old(self).de.parser.wf(),
        ensures
            final(self).de.parser.wf(),
            final(self).de.parser.bytes@ == old(self).de.parser.bytes@,
            ({
                let b = old(self).de.parser.bytes@;
                let pos = old(self).de.parser.pos as int;
                if pos + 1 >= b.len() {
                    r is Ok && r->Ok_0 is None && final(self).de.parser.pos == old(
                        self,
                    ).de.parser.pos
                } else {
                    match kind_of_byte(b[pos]) {
                        None => r == Err::<Option<NBTTag>, Error>(Error::InvalidTagId),
                        Some(k) => if k == NBTKind::End {
                            r is Ok && (r->Ok_0 matches Some(t) && t.kind == NBTKind::End
                                && t.name is None && t.payload is None) && final(self).de.parser.pos
                                == pos + 1
                        } else {
                            match dec_str(b, pos + 1) {
                                Err(e) => r == Err::<Option<NBTTag>, Error>(e),
                                Ok((nm, p2)) => match dec_payload(b, p2, k, MAX_DEPTH as nat) {
                                    Err(e) => r == Err::<Option<NBTTag>, Error>(e),
                                    Ok((g, p3)) => r is Ok && (r->Ok_0 matches Some(t) && t.kind
                                        == k && (t.name matches Some(s) && s@ == nm) && (t.payload
                                        matches Some(pv) && pv@ == g)) && final(self).de.parser.pos
                                        == p3,
                                },
                            }
                        },
                    }
                }
            }),
    {
        if !self.has_bytes_left() {
            return Ok(None);
        }
        let kind = match self.de.parser.parse_kind() {
            Ok(k) => k,
            Err(e) => {
                return Err(e);
            },
        };
        if let NBTKind::End = kind {
            return Ok(Some(NBTTag::new(NBTKind::End, None, None)));
        }
        let name = match self.de.parse_string() {
            Ok(s) => s,
            Err(e) => {
                return Err(e);
            },
        };
        let payload = match self.de.parse_nbt_tag(kind, MAX_DEPTH) {
            Ok(v) => v,
            Err(e) => {
                return Err(e);
            },
        };
        Ok(Some(NBTTag::new(kind, Some(name), Some(payload))))
    }
}

} // verus!
