use vstd::prelude::*;

use crate::error::Error;
use crate::kind::{kind_of_byte, lemma_kind_byte_bijective, NBTKind};
use crate::parser::Parser;
use crate::tag::{
    deep_entries, deep_list, lemma_deep_entries_push, lemma_deep_list_push, NBTValue,
    SpecValue, MAX_DEPTH,
};
use crate::wire::{dec_elems, dec_entries, dec_payload, dec_root, dec_str, u32_at, u64_at};

verus! {

/// The decode engine: walks a kind-tagged byte stream and reconstructs the
/// typed value tree, consuming the nameless root compound tag.
pub struct NBTDeserializer {
    pub parser: Parser,
}

impl NBTDeserializer {
    /// Starts a decoder over an owned byte buffer.
    pub fn from_slice(bytes: Vec<u8>) -> (r: Self)
        ensures
            r.parser.bytes@ == bytes@,
            r.parser.pos == 0,
            r.parser.wf(),
    {
        NBTDeserializer { parser: Parser::new(bytes) }
    }

    /// Whether more than one byte waits behind the cursor.
    pub fn has_bytes_left(&self) -> (r: bool)
        ensures
            r == (self.parser.pos + 1 < self.parser.bytes@.len()),
    {
        self.parser.has_bytes_left()
    }

    /// Reads the next kind byte.
    pub fn parse_kind(&mut self) -> (r: Result<NBTKind, Error>)
        requires
            old(self).parser.wf(),
        ensures
            final(self).parser.wf(),
            final(self).parser.bytes@ == old(self).parser.bytes@,
            r is Ok ==> old(self).parser.pos < old(self).parser.bytes@.len() && Some(r->Ok_0)
                == kind_of_byte(old(self).parser.bytes@[old(self).parser.pos as int]) && final(self).parser.pos == old(self).parser.pos + 1,
            r is Err ==> r->Err_0 == Error::Eof || r->Err_0 == Error::InvalidTagId,
    {
        self.parser.parse_kind()
    }

    /// Reads the next length-prefixed string.
    pub fn parse_string(&mut self) -> (r: Result<String, Error>)
        requires
            old(self).parser.wf(),
        ensures
            final(self).parser.wf(),
            final(self).parser.bytes@ == old(self).parser.bytes@,
            ({
                let d = dec_str(old(self).parser.bytes@, old(self).parser.pos as int);
                match r {
                    Ok(s) => d is Ok && s@ == d->Ok_0.0 && final(self).parser.pos == d->Ok_0.1,
                    Err(e) => d == Err::<(Seq<char>, int), Error>(e) && final(self).parser.pos
                        == old(self).parser.pos,
                }
            }),
    {
        self.parser.parse_string()
    }

    /// Decodes one payload of the given kind at the cursor, reconstructing
    /// the typed value. `depth` bounds how deep lists and compounds may
    /// nest below it.
    #[verifier::loop_isolation(false)]
    pub fn parse_nbt_tag(&mut self, kind: NBTKind, depth: u32) -> (r: Result<NBTValue, Error>)
        requires
            old(self).parser.wf(),
        ensures
            final(self).parser.wf(),
            final(self).parser.bytes@ == old(self).parser.bytes@,
            final(self).parser.pos >= old(self).parser.pos,
            ({
                let d = dec_payload(
                    old(self).parser.bytes@,
                    old(self).parser.pos as int,
                    kind,
                    depth as nat,
                );
                match r {
                    Ok(v) => d is Ok && v@ == d->Ok_0.0 && final(self).parser.pos == d->Ok_0.1,
                    Err(e) => d == Err::<(SpecValue, int), Error>(e),
                }
            }),
        decreases depth, 1nat,
    {
        if depth == 0 {
            return Err(Error::MaxDepthExceeded);
        }
        let ghost b = self.parser.bytes@;
        let ghost pos0 = self.parser.pos as int;
        match kind {
            NBTKind::End => Err(Error::InvalidTagId),
            NBTKind::Byte => match self.parser.parse_i8() {
                Ok(v) => Ok(NBTValue::Byte(v)),
                Err(e) => Err(e),
            },
            NBTKind::Short => match self.parser.parse_i16() {
                Ok(v) => Ok(NBTValue::Short(v)),
                Err(e) => Err(e),
            },
            NBTKind::Int => match self.parser.parse_i32() {
                Ok(v) => Ok(NBTValue::Int(v)),
                Err(e) => Err(e),
            },
            NBTKind::Long => match self.parser.parse_i64() {
                Ok(v) => Ok(NBTValue::Long(v)),
                Err(e) => Err(e),
            },
            NBTKind::Float => match self.parser.parse_f32_bits() {
                Ok(bits) => Ok(NBTValue::Float(bits)),
                Err(e) => Err(e),
            },
            NBTKind::Double => match self.parser.parse_f64_bits() {
                Ok(bits) => Ok(NBTValue::Double(bits)),
                Err(e) => Err(e),
            },
            NBTKind::String => match self.parser.parse_string() {
                Ok(s) => Ok(NBTValue::String(s)),
                Err(e) => Err(e),
            },
            NBTKind::ByteArray => {
                let cnt = match self.parser.parse_i32() {
                    Ok(c) => c,
                    Err(e) => {
                        return Err(e);
                    },
                };
                if cnt <= 0 {
                    return Ok(NBTValue::ByteArray(Vec::new()));
                }
                let n = cnt as usize;
                let ghost start = self.parser.pos as int;
                let mut acc: Vec<i8> = Vec::new();
                let mut i: usize = 0;
                while i < n
                    invariant
                        0 <= i <= n,
                        n == cnt as int,
                        0 < cnt as int <= 0x7FFFFFFF,
                        self.parser.wf(),
                        self.parser.bytes@ == b,
                        self.parser.pos as int == start + i,
                        start == pos0 + 4,
                        acc@.len() == i,
                        forall|j: int| 0 <= j < i ==> acc@[j] == b[start + j] as i8,
                    decreases n - i,
                {
                    match self.parser.parse_i8() {
                        Ok(v) => {
                            acc.push(v);
                        },
                        Err(e) => {
                            proof {
                                assert(start + cnt > b.len());
                            }
                            return Err(e);
                        },
                    }
                    i = i + 1;
                }
                proof {
                    assert(acc@ =~= Seq::new(cnt as nat, |j: int| b[pos0 + 4 + j] as i8));
                }
                Ok(NBTValue::ByteArray(acc))
            },
            NBTKind::IntArray => {
                let cnt = match self.parser.parse_i32() {
                    Ok(c) => c,
                    Err(e) => {
                        return Err(e);
                    },
                };
                if cnt <= 0 {
                    return Ok(NBTValue::IntArray(Vec::new()));
                }
                let n = cnt as usize;
                let ghost start = self.parser.pos as int;
                let mut acc: Vec<i32> = Vec::new();
                let mut i: usize = 0;
                while i < n
                    invariant
                        0 <= i <= n,
                        n == cnt as int,
                        0 < cnt as int <= 0x7FFFFFFF,
                        self.parser.wf(),
                        self.parser.bytes@ == b,
                        self.parser.pos as int == start + 4 * i,
                        start == pos0 + 4,
                        acc@.len() == i,
                        forall|j: int| 0 <= j < i ==> acc@[j] == u32_at(b, start + 4 * j) as i32,
                    decreases n - i,
                {
                    match self.parser.parse_i32() {
                        Ok(v) => {
                            acc.push(v);
                        },
                        Err(e) => {
                            proof {
                                assert(start + 4 * (cnt as int) >= start + 4 * i + 4 > b.len());
                            }
                            return Err(e);
                        },
                    }
                    i = i + 1;
                }
                proof {
                    assert(acc@ =~= Seq::new(
                        cnt as nat,
                        |j: int| u32_at(b, pos0 + 4 + 4 * j) as i32,
                    ));
                }
                Ok(NBTValue::IntArray(acc))
            },
            NBTKind::LongArray => {
                let cnt = match self.parser.parse_i32() {
                    Ok(c) => c,
                    Err(e) => {
                        return Err(e);
                    },
                };
                if cnt <= 0 {
                    return Ok(NBTValue::LongArray(Vec::new()));
                }
                let n = cnt as usize;
                let ghost start = self.parser.pos as int;
                let mut acc: Vec<i64> = Vec::new();
                let mut i: usize = 0;
                while i < n
                    invariant
                        0 <= i <= n,
                        n == cnt as int,
                        0 < cnt as int <= 0x7FFFFFFF,
                        self.parser.wf(),
                        self.parser.bytes@ == b,
                        self.parser.pos as int == start + 8 * i,
                        start == pos0 + 4,
                        acc@.len() == i,
                        forall|j: int| 0 <= j < i ==> acc@[j] == u64_at(b, start + 8 * j) as i64,
                    decreases n - i,
                {
                    match self.parser.parse_i64() {
                        Ok(v) => {
                            acc.push(v);
                        },
                        Err(e) => {
                            proof {
                                assert(start + 8 * (cnt as int) >= start + 8 * i + 8 > b.len());
                            }
                            return Err(e);
                        },
                    }
                    i = i + 1;
                }
                proof {
                    assert(acc@ =~= Seq::new(
                        cnt as nat,
                        |j: int| u64_at(b, pos0 + 4 + 8 * j) as i64,
                    ));
                }
                Ok(NBTValue::LongArray(acc))
            },
            NBTKind::List => {
                let raw = match self.parser.parse_u8() {
                    Ok(v) => v,
                    Err(e) => {
                        return Err(e);
                    },
                };
                let cnt = match self.parser.parse_i32() {
                    Ok(c) => c,
                    Err(e) => {
                        return Err(e);
                    },
                };
                if cnt <= 0 {
                    return Ok(NBTValue::List(Vec::new()));
                }
                let ek = match NBTKind::from_byte(raw) {
                    Ok(k) => k,
                    Err(e) => {
                        return Err(e);
                    },
                };
                let n = cnt as usize;
                let ghost start = self.parser.pos as int;
                let mut acc: Vec<NBTValue> = Vec::new();
                let mut i: usize = 0;
                while i < n
                    invariant
                        0 <= i <= n,
                        n == cnt as int,
                        0 < cnt as int <= 0x7FFFFFFF,
                        1 <= depth,
                        self.parser.wf(),
                        self.parser.bytes@ == b,
                        start == pos0 + 5,
                        acc@.len() == i,
                        self.parser.pos >= start,
                        ({
                            let whole = dec_elems(b, start, ek, cnt as nat, depth as nat);
                            match dec_elems(
                                b,
                                self.parser.pos as int,
                                ek,
                                (cnt - i) as nat,
                                depth as nat,
                            ) {
                                Ok((rest, p)) => whole == Ok::<(Seq<SpecValue>, int), Error>(
                                    (deep_list(acc@) + rest, p),
                                ),
                                Err(e) => whole == Err::<(Seq<SpecValue>, int), Error>(e),
                            }
                        }),
                    decreases n - i,
                {
                    let ghost acc_prev = acc@;
                    let ghost cur = self.parser.pos as int;
                    let v = match self.parse_nbt_tag(ek, depth - 1) {
                        Ok(v) => v,
                        Err(e) => {
                            return Err(e);
                        },
                    };
                    acc.push(v);
                    i = i + 1;
                    proof {
                        lemma_deep_list_push(acc_prev, v);
                        assert(deep_list(acc_prev) + (seq![v@] + dec_elems(
                            b,
                            self.parser.pos as int,
                            ek,
                            (cnt - i) as nat,
                            depth as nat,
                        )->Ok_0.0) =~= deep_list(acc@) + dec_elems(
                            b,
                            self.parser.pos as int,
                            ek,
                            (cnt - i) as nat,
                            depth as nat,
                        )->Ok_0.0);
                    }
                }
                proof {
                    assert(deep_list(acc@) + Seq::<SpecValue>::empty() =~= deep_list(acc@));
                }
                Ok(NBTValue::List(acc))
            },
            NBTKind::Compound => match self.parse_compound(depth) {
                Ok(entries) => Ok(NBTValue::Compound(entries)),
                Err(e) => Err(e),
            },
        }
    }

    /// Decodes compound entries up to and including the closing End byte:
    /// per entry one kind byte, then the name, then the payload, in that
    /// order. This loop is the only place entry kind bytes are consumed.
    #[verifier::loop_isolation(false)]
    fn parse_compound(&mut self, depth: u32) -> (r: Result<Vec<(String, NBTValue)>, Error>)
        requires
            old(self).parser.wf(),
        ensures
            final(self).parser.wf(),
            final(self).parser.bytes@ == old(self).parser.bytes@,
            final(self).parser.pos >= old(self).parser.pos,
            ({
                let d = dec_entries(
                    old(self).parser.bytes@,
                    old(self).parser.pos as int,
                    depth as nat,
                    (old(self).parser.bytes@.len() + 1) as nat,
                );
                match r {
                    Ok(entries) => d is Ok && deep_entries(entries@) == d->Ok_0.0 && final(self).parser.pos == d->Ok_0.1,
                    Err(e) => d == Err::<(Seq<(Seq<char>, SpecValue)>, int), Error>(e),
                }
            }),
        decreases depth, 0nat,
    {
        let ghost b = self.parser.bytes@;
        let ghost pos0 = self.parser.pos as int;
        let ghost fuel0 = (b.len() + 1) as nat;
        let mut acc: Vec<(String, NBTValue)> = Vec::new();
        let ghost mut steps: int = 0;
        loop
            invariant
                self.parser.wf(),
                self.parser.bytes@ == b,
                self.parser.pos >= pos0,
                0 <= steps <= fuel0,
                fuel0 - steps >= b.len() - self.parser.pos + 1,
                ({
                    let whole = dec_entries(b, pos0, depth as nat, fuel0);
                    match dec_entries(
                        b,
                        self.parser.pos as int,
                        depth as nat,
                        (fuel0 - steps) as nat,
                    ) {
                        Ok((rest, p)) => whole == Ok::<(Seq<(Seq<char>, SpecValue)>, int), Error>(
                            (deep_entries(acc@) + rest, p),
                        ),
                        Err(e) => whole == Err::<(Seq<(Seq<char>, SpecValue)>, int), Error>(e),
                    }
                }),
            decreases b.len() - self.parser.pos,
        {
            let ghost acc_prev = acc@;
            let ghost cur = self.parser.pos as int;
            let k = match self.parser.parse_kind() {
                Ok(k) => k,
                Err(e) => {
                    return Err(e);
                },
            };
            proof {
                lemma_kind_byte_bijective();
            }
            if let NBTKind::End = k {
                proof {
                    assert(deep_entries(acc@) + Seq::<(Seq<char>, SpecValue)>::empty()
                        =~= deep_entries(acc@));
                }
                return Ok(acc);
            }
            proof {
                assert(b[cur] != 0);
            }
            let name = match self.parser.parse_string() {
                Ok(s) => s,
                Err(e) => {
                    return Err(e);
                },
            };
            if depth == 0 {
                return Err(Error::MaxDepthExceeded);
            }
            let v = match self.parse_nbt_tag(k, depth - 1) {
                Ok(v) => v,
                Err(e) => {
                    return Err(e);
                },
            };
            acc.push((name, v));
            proof {
                steps = steps + 1;
                lemma_deep_entries_push(acc_prev, name, v);
                assert(deep_entries(acc_prev) + (seq![(name@, v@)] + dec_entries(
                    b,
                    self.parser.pos as int,
                    depth as nat,
                    (fuel0 - steps) as nat,
                )->Ok_0.0) =~= deep_entries(acc@) + dec_entries(
                    b,
                    self.parser.pos as int,
                    depth as nat,
                    (fuel0 - steps) as nat,
                )->Ok_0.0);
            }
        }
    }

    /// Applies the root rule: the stream must open with a compound kind
    /// byte — anything else fails at once, with no further bytes read —
    /// then the root's name is read and discarded and the root compound's
    /// payload is decoded.
    pub fn decode_root(&mut self) -> (r: Result<NBTValue, Error>)
        requires
            old(self).parser.wf(),
            old(self).parser.pos == 0,
        ensures
            final(self).parser.wf(),
            final(self).parser.bytes@ == old(self).parser.bytes@,
            ({
                let d = dec_root(old(self).parser.bytes@, MAX_DEPTH as nat);
                match r {
                    Ok(v) => d is Ok && v@ == d->Ok_0.0 && final(self).parser.pos == d->Ok_0.1,
                    Err(e) => d == Err::<(SpecValue, int), Error>(e),
                }
            }),
            old(self).parser.bytes@.len() > 0 && old(self).parser.bytes@[0] != 10 ==> r == Err::<
                NBTValue,
                Error,
            >(Error::ExpectedRootCompound) && final(self).parser.pos == 1,
    {
        let raw = match self.parser.parse_u8() {
            Ok(v) => v,
            Err(e) => {
                return Err(e);
            },
        };
        if raw != 10 {
            return Err(Error::ExpectedRootCompound);
        }
        match self.parser.parse_string() {
            Ok(_) => {},
            Err(e) => {
                return Err(e);
            },
        };
        self.parse_nbt_tag(NBTKind::Compound, MAX_DEPTH)
    }
}

/// A payload decoder bound to an already-consumed kind byte: the enclosing
/// context — root, compound entry or list element — establishes the active
/// kind, and this carries it to the payload dispatch.
pub struct NBTDeserializerImpl {
    pub de: NBTDeserializer,
    pub kind: NBTKind,
}

impl NBTDeserializerImpl {
    pub fn new(de: NBTDeserializer, kind: NBTKind) -> (r: Self)
        ensures
            r.de == de,
            r.kind == kind,
    {
        Self { de, kind }
    }

    /// Decodes the payload the active kind announces, yielding the value
    /// and the decoder positioned just past it.
    pub fn deserialize_any(self, depth: u32) -> (r: Result<(NBTValue, NBTDeserializer), Error>)
        requires
            self.de.parser.wf(),
        ensures
            ({
                let d = dec_payload(
                    self.de.parser.bytes@,
                    self.de.parser.pos as int,
                    self.kind,
                    depth as nat,
                );
                match r {
                    Ok((v, de2)) => d is Ok && v@ == d->Ok_0.0 && de2.parser.pos == d->Ok_0.1
                        && de2.parser.bytes@ == self.de.parser.bytes@ && de2.parser.wf(),
                    Err(e) => d == Err::<(SpecValue, int), Error>(e),
                }
            }),
    {
        let mut de = self.de;
        match de.parse_nbt_tag(self.kind, depth) {
            Ok(v) => Ok((v, de)),
            Err(e) => Err(e),
        }
    }
}

/// Decodes a whole byte stream into a value tree: the root must be a
/// compound, its name is discarded, and bytes past the root tag are
/// ignored.
pub fn from_slice(bytes: Vec<u8>) -> (r: Result<NBTValue, Error>)
    ensures
        ({
            let d = dec_root(bytes@, MAX_DEPTH as nat);
            match r {
                Ok(v) => d is Ok && v@ == d->Ok_0.0,
                Err(e) => d == Err::<(SpecValue, int), Error>(e),
            }
        }),
{
    let mut de = NBTDeserializer::from_slice(bytes);
    de.decode_root()
}

/// What flate2's gzip decoder makes of a given input: whether the bytes
/// are accepted at all, and the plain bytes they decompress to when they
/// are. Over an in-memory buffer both are functions of the bytes alone.
pub uninterp spec fn gunzip_of(b: Seq<u8>) -> Option<Seq<u8>>;

/// What flate2's zlib decoder makes of a given input: acceptance and
/// output, both functions of the bytes alone.
pub uninterp spec fn inflate_of(b: Seq<u8>) -> Option<Seq<u8>>;

/// Relies on flate2's read::GzDecoder over an in-memory buffer: whether it
/// accepts the input, and what it yields when it does, are determined by
/// that input.
#[verifier::external_body]
pub(crate) fn gunzip(bytes: &Vec<u8>) -> (r: Option<Vec<u8>>)
    ensures
        r is Some <==> gunzip_of(bytes@) is Some,
        r is Some ==> Some(r->Some_0@) == gunzip_of(bytes@),
{
    let mut decoder = flate2::read::GzDecoder::new(bytes.as_slice());
    let mut plain = Vec::new();
    match std::io::Read::read_to_end(&mut decoder, &mut plain) {
        Ok(_) => Some(plain),
        Err(_) => None,
    }
}

/// Relies on flate2's read::ZlibDecoder over an in-memory buffer: whether
/// it accepts the input, and what it yields when it does, are determined
/// by that input.
#[verifier::external_body]
fn inflate_zlib(bytes: &Vec<u8>) -> (r: Option<Vec<u8>>)
    ensures
        r is Some <==> inflate_of(bytes@) is Some,
        r is Some ==> Some(r->Some_0@) == inflate_of(bytes@),
{
    let mut decoder = flate2::read::ZlibDecoder::new(bytes.as_slice());
    let mut plain = Vec::new();
    match std::io::Read::read_to_end(&mut decoder, &mut plain) {
        Ok(_) => Some(plain),
        Err(_) => None,
    }
}

/// Decodes a gzip-compressed byte stream: exactly the streams the
/// decompressor rejects fail with the I/O error, and every accepted
/// stream is decoded exactly like its decompressed content — gzip
/// wrapping is transparent to the decode engine.
pub fn from_gzip_slice(bytes: Vec<u8>) -> (r: Result<NBTValue, Error>)
    ensures
        gunzip_of(bytes@) is None ==> r == Err::<NBTValue, Error>(Error::Io),
        gunzip_of(bytes@) matches Some(plain) ==> ({
            let d = dec_root(plain, MAX_DEPTH as nat);
            match r {
                Ok(v) => d is Ok && v@ == d->Ok_0.0,
                Err(e) => d == Err::<(SpecValue, int), Error>(e),
            }
        }),
{
    match gunzip(&bytes) {
        Some(plain) => from_slice(plain),
        None => Err(Error::Io),
    }
}

/// Decodes a zlib-compressed byte stream: exactly the streams the
/// decompressor rejects fail with the I/O error, and every accepted
/// stream is decoded exactly like its decompressed content — zlib
/// wrapping is transparent to the decode engine.
pub fn from_zlib_slice(bytes: Vec<u8>) -> (r: Result<NBTValue, Error>)
    ensures
        inflate_of(bytes@) is None ==> r == Err::<NBTValue, Error>(Error::Io),
        inflate_of(bytes@) matches Some(plain) ==> ({
            let d = dec_root(plain, MAX_DEPTH as nat);
            match r {
                Ok(v) => d is Ok && v@ == d->Ok_0.0,
                Err(e) => d == Err::<(SpecValue, int), Error>(e),
            }
        }),
{
    match inflate_zlib(&bytes) {
        Some(plain) => from_slice(plain),
        None => Err(Error::Io),
    }
}

} // verus!
