use vstd::prelude::*;

use crate::error::Error;
use crate::kind::{kind_byte, NBTKind};
use crate::tag::{
    deep_entries, deep_list, gkind, lemma_deep_entries, lemma_deep_list, NBTValue,
    SpecValue, MAX_DEPTH,
};
use crate::wire::{
    enc_elems, enc_entries, enc_entry, enc_i32s, enc_i64s, enc_i8s, enc_payload, enc_root,
    homogeneous, lemma_enc_elems_push, lemma_enc_entries_push, lemma_enc_i32s_push,
    lemma_enc_i64s_push, lemma_enc_i8s_push, lemma_rep_all_index, lemma_rep_all_of_index,
    lemma_rep_entries_index, lemma_rep_entries_push, rep_entries, representable,
    u32_be,
};
use crate::writer::{pending_bytes, pending_ok, DelayedHeader, Writer};
use vstd::utf8::encode_utf8;

verus! {

/// The bytes a tag contributes ahead of its payload: nothing when the
/// header is skipped, else its kind byte and whatever fragment the parent
/// deferred to it.
pub open spec fn header_bytes(g: SpecValue, dh: Option<DelayedHeader>, skip_header: bool) -> Seq<
    u8,
> {
    if skip_header {
        Seq::empty()
    } else {
        seq![kind_byte(gkind(g))] + pending_bytes(dh)
    }
}

/// Writes a byte array payload: the signed count, then the raw elements
/// with no per-element kind byte.
#[verifier::loop_isolation(false)]
fn write_byte_run(w: &mut Writer, xs: &Vec<i8>) -> (r: Result<(), Error>)
    ensures
        r is Ok <==> xs@.len() <= 0x7FFFFFFF,
        r is Ok ==> final(w).out@ == old(w).out@ + u32_be(xs@.len() as u32) + enc_i8s(xs@),
        r is Err ==> r->Err_0 == Error::Unrepresentable && *final(w) == *old(w),
{
    if xs.len() > 0x7FFFFFFFusize {
        return Err(Error::Unrepresentable);
    }
    w.write_i32(xs.len() as i32);
    let ghost base = w.out@;
    let n = xs.len();
    let mut i: usize = 0;
    while i < n
        invariant
            0 <= i <= n,
            w.out@ == base + enc_i8s(xs@.subrange(0, i as int)),
        decreases n - i,
    {
        let ghost sub = xs@.subrange(0, i as int);
        w.write_i8(xs[i]);
        i = i + 1;
        proof {
            assert(xs@.subrange(0, i as int) =~= sub.push(xs@[i - 1]));
            lemma_enc_i8s_push(sub, xs@[i - 1]);
            assert(w.out@ =~= base + enc_i8s(xs@.subrange(0, i as int)));
        }
    }
    proof {
        assert(xs@.subrange(0, n as int) =~= xs@);
        assert(w.out@ =~= old(w).out@ + u32_be(xs@.len() as u32) + enc_i8s(xs@));
    }
    Ok(())
}

/// Writes an integer array payload: the signed count, then the raw
/// big-endian elements with no per-element kind byte.
#[verifier::loop_isolation(false)]
fn write_int_run(w: &mut Writer, xs: &Vec<i32>) -> (r: Result<(), Error>)
    ensures
        r is Ok <==> xs@.len() <= 0x7FFFFFFF,
        r is Ok ==> final(w).out@ == old(w).out@ + u32_be(xs@.len() as u32) + enc_i32s(xs@),
        r is Err ==> r->Err_0 == Error::Unrepresentable && *final(w) == *old(w),
{
    if xs.len() > 0x7FFFFFFFusize {
        return Err(Error::Unrepresentable);
    }
    w.write_i32(xs.len() as i32);
    let ghost base = w.out@;
    let n = xs.len();
    let mut i: usize = 0;
    while i < n
        invariant
            0 <= i <= n,
            w.out@ == base + enc_i32s(xs@.subrange(0, i as int)),
        decreases n - i,
    {
        let ghost sub = xs@.subrange(0, i as int);
        w.write_i32(xs[i]);
        i = i + 1;
        proof {
            assert(xs@.subrange(0, i as int) =~= sub.push(xs@[i - 1]));
            lemma_enc_i32s_push(sub, xs@[i - 1]);
            assert(w.out@ =~= base + enc_i32s(xs@.subrange(0, i as int)));
        }
    }
    proof {
        assert(xs@.subrange(0, n as int) =~= xs@);
        assert(w.out@ =~= old(w).out@ + u32_be(xs@.len() as u32) + enc_i32s(xs@));
    }
    Ok(())
}

/// Writes a long array payload: the signed count, then the raw big-endian
/// elements with no per-element kind byte.
#[verifier::loop_isolation(false)]
fn write_long_run(w: &mut Writer, xs: &Vec<i64>) -> (r: Result<(), Error>)
    ensures
        r is Ok <==> xs@.len() <= 0x7FFFFFFF,
        r is Ok ==> final(w).out@ == old(w).out@ + u32_be(xs@.len() as u32) + enc_i64s(xs@),
        r is Err ==> r->Err_0 == Error::Unrepresentable && *final(w) == *old(w),
{
    if xs.len() > 0x7FFFFFFFusize {
        return Err(Error::Unrepresentable);
    }
    w.write_i32(xs.len() as i32);
    let ghost base = w.out@;
    let n = xs.len();
    let mut i: usize = 0;
    while i < n
        invariant
            0 <= i <= n,
            w.out@ == base + enc_i64s(xs@.subrange(0, i as int)),
        decreases n - i,
    {
        let ghost sub = xs@.subrange(0, i as int);
        w.write_i64(xs[i]);
        i = i + 1;
        proof {
            assert(xs@.subrange(0, i as int) =~= sub.push(xs@[i - 1]));
            lemma_enc_i64s_push(sub, xs@[i - 1]);
            assert(w.out@ =~= base + enc_i64s(xs@.subrange(0, i as int)));
        }
    }
    proof {
        assert(xs@.subrange(0, n as int) =~= xs@);
        assert(w.out@ =~= old(w).out@ + u32_be(xs@.len() as u32) + enc_i64s(xs@));
    }
    Ok(())
}

/// Writes a list payload. An empty list writes the End kind byte and a
/// zero count. Otherwise the deferred count is attached to the first
/// element's encode call — the first element's own kind byte doubles as
/// the list's element kind byte and is followed at once by the count —
/// and the remaining elements follow as bare payloads. A list whose
/// elements disagree on their kind has no wire representation.
#[verifier::loop_isolation(false)]
fn encode_list_payload(w: &mut Writer, es: &Vec<NBTValue>, depth: u32) -> (r: Result<(), Error>)
    requires
        depth >= 1,
    ensures
        r is Ok <==> representable(SpecValue::List(deep_list(es@)), depth as nat),
        r is Ok ==> final(w).out@ == old(w).out@ + enc_payload(SpecValue::List(deep_list(es@))),
        r is Err ==> r->Err_0 == Error::Unrepresentable || r->Err_0 == Error::MaxDepthExceeded,
    decreases depth, 0nat,
{
    let ghost ges = deep_list(es@);
    proof {
        lemma_deep_list(es@);
    }
    if es.len() > 0x7FFFFFFFusize {
        return Err(Error::Unrepresentable);
    }
    if es.len() == 0 {
        w.write_u8(0);
        w.write_i32(0);
        proof {
            assert(ges =~= Seq::<SpecValue>::empty());
            assert(w.out@ =~= old(w).out@ + enc_payload(SpecValue::List(ges)));
        }
        return Ok(());
    }
    let ghost base = w.out@;
    let k0 = es[0].kind();
    let cnt = es.len() as i32;
    let n = es.len();
    let mut i: usize = 0;
    while i < n
        invariant
            0 < n == es@.len() <= 0x7FFFFFFF,
            0 <= i <= n,
            k0 == gkind(ges[0]),
            cnt as int == n,
            i == 0 ==> w.out@ == base,
            i > 0 ==> w.out@ == base + seq![kind_byte(gkind(ges[0]))] + u32_be(es@.len() as u32)
                + enc_elems(ges.subrange(0, i as int)),
            forall|j: int| 0 <= j < i ==> gkind(#[trigger] ges[j]) == gkind(ges[0]),
            forall|j: int| 0 <= j < i ==> representable(#[trigger] ges[j], (depth - 1) as nat),
        decreases n - i,
    {
        let ek = es[i].kind();
        if ek != k0 {
            proof {
                if representable(SpecValue::List(ges), depth as nat) {
                    assert(gkind(ges[i as int]) == gkind(ges[0]));
                    assert(false);
                }
            }
            return Err(Error::Unrepresentable);
        }
        let ghost sub = ges.subrange(0, i as int);
        let outcome = if i == 0 {
            encode_tag(w, &es[i], &Some(DelayedHeader::List(cnt)), false, depth - 1)
        } else {
            encode_tag(w, &es[i], &None, true, depth - 1)
        };
        match outcome {
            Ok(_) => {},
            Err(e) => {
                proof {
                    if representable(SpecValue::List(ges), depth as nat) {
                        lemma_rep_all_index(ges, (depth - 1) as nat);
                        assert(representable(ges[i as int], (depth - 1) as nat));
                        assert(false);
                    }
                }
                return Err(e);
            },
        }
        i = i + 1;
        proof {
            assert(ges.subrange(0, i as int) =~= sub.push(ges[i - 1]));
            lemma_enc_elems_push(sub, ges[i - 1]);
            if i == 1 {
                assert(enc_elems(sub) =~= Seq::<u8>::empty());
            }
            assert(w.out@ =~= base + seq![kind_byte(gkind(ges[0]))] + u32_be(es@.len() as u32)
                + enc_elems(ges.subrange(0, i as int)));
        }
    }
    proof {
        assert(ges.subrange(0, n as int) =~= ges);
        lemma_rep_all_of_index(ges, (depth - 1) as nat);
        assert(homogeneous(ges));
        assert(w.out@ =~= base + enc_payload(SpecValue::List(ges)));
    }
    Ok(())
}

/// Writes a compound payload: each entry in order, encoded with its name
/// deferred to the entry value's kind byte, then exactly one closing End
/// byte.
#[verifier::loop_isolation(false)]
fn encode_compound_payload(w: &mut Writer, entries: &Vec<(String, NBTValue)>, depth: u32) -> (r:
    Result<(), Error>)
    requires
        depth >= 1,
    ensures
        r is Ok <==> representable(SpecValue::Compound(deep_entries(entries@)), depth as nat),
        r is Ok ==> final(w).out@ == old(w).out@ + enc_payload(
            SpecValue::Compound(deep_entries(entries@)),
        ),
        r is Err ==> r->Err_0 == Error::Unrepresentable || r->Err_0 == Error::MaxDepthExceeded,
    decreases depth, 0nat,
{
    let ghost gentries = deep_entries(entries@);
    proof {
        lemma_deep_entries(entries@);
    }
    let ghost base = w.out@;
    let n = entries.len();
    let mut i: usize = 0;
    while i < n
        invariant
            n == entries@.len(),
            0 <= i <= n,
            w.out@ == base + enc_entries(gentries.subrange(0, i as int)),
            rep_entries(gentries.subrange(0, i as int), (depth - 1) as nat),
        decreases n - i,
    {
        let ghost sub = gentries.subrange(0, i as int);
        let name = entries[i].0.clone();
        proof {
            assert(name@ == gentries[i as int].0);
        }
        match encode_tag(w, &entries[i].1, &Some(DelayedHeader::MapKey(name)), false, depth - 1) {
            Ok(_) => {},
            Err(e) => {
                proof {
                    if representable(SpecValue::Compound(gentries), depth as nat) {
                        lemma_rep_entries_index(gentries, (depth - 1) as nat);
                        assert(encode_utf8(gentries[i as int].0).len() <= 0xFFFF);
                        assert(representable(gentries[i as int].1, (depth - 1) as nat));
                        assert(false);
                    }
                }
                return Err(e);
            },
        }
        i = i + 1;
        proof {
            assert(gentries.subrange(0, i as int) =~= sub.push(gentries[i - 1]));
            lemma_enc_entries_push(sub, gentries[i - 1].0, gentries[i - 1].1);
            lemma_rep_entries_push(sub, gentries[i - 1].0, gentries[i - 1].1, (depth - 1) as nat);
            assert(w.out@ =~= base + enc_entries(gentries.subrange(0, i as int)));
        }
    }
    w.write_u8(0);
    proof {
        assert(gentries.subrange(0, n as int) =~= gentries);
        assert(w.out@ =~= base + enc_payload(SpecValue::Compound(gentries)));
    }
    Ok(())
}

/// The encode engine proper. Writes the tag for `v`: its kind byte first
/// (unless an enclosing array already declared it), then the deferred
/// header fragment the parent supplied, then the payload. Succeeds exactly
/// on the values the wire can carry within `depth` levels of nesting.
fn encode_tag(
    w: &mut Writer,
    v: &NBTValue,
    dh: &Option<DelayedHeader>,
    skip_header: bool,
    depth: u32,
) -> (r: Result<(), Error>)
    ensures
        r is Ok <==> (representable(v@, depth as nat) && (skip_header || pending_ok(*dh))),
        r is Ok ==> final(w).out@ == old(w).out@ + header_bytes(v@, *dh, skip_header)
            + enc_payload(v@),
        r is Err ==> r->Err_0 == Error::Unrepresentable || r->Err_0 == Error::MaxDepthExceeded,
    decreases depth, 1nat,
{
    if depth == 0 {
        return Err(Error::MaxDepthExceeded);
    }
    let k = v.kind();
    if !skip_header {
        match w.write_tag_header(k, dh) {
            Ok(_) => {},
            Err(e) => {
                return Err(e);
            },
        }
    }
    let ghost base = w.out@;
    match v {
        NBTValue::Byte(n) => {
            w.write_i8(*n);
            proof {
                assert(w.out@ =~= base + enc_payload(v@));
            }
            Ok(())
        },
        NBTValue::Short(n) => {
            w.write_i16(*n);
            Ok(())
        },
        NBTValue::Int(n) => {
            w.write_i32(*n);
            Ok(())
        },
        NBTValue::Long(n) => {
            w.write_i64(*n);
            Ok(())
        },
        NBTValue::Float(bits) => {
            w.write_f32_bits(*bits);
            Ok(())
        },
        NBTValue::Double(bits) => {
            w.write_f64_bits(*bits);
            Ok(())
        },
        NBTValue::String(s) => {
            match w.write_string(s) {
                Ok(_) => Ok(()),
                Err(e) => Err(e),
            }
        },
        NBTValue::ByteArray(xs) => {
            match write_byte_run(w, xs) {
                Ok(_) => Ok(()),
                Err(e) => Err(e),
            }
        },
        NBTValue::IntArray(xs) => {
            match write_int_run(w, xs) {
                Ok(_) => Ok(()),
                Err(e) => Err(e),
            }
        },
        NBTValue::LongArray(xs) => {
            match write_long_run(w, xs) {
                Ok(_) => Ok(()),
                Err(e) => Err(e),
            }
        },
        NBTValue::List(es) => {
            match encode_list_payload(w, es, depth) {
                Ok(_) => Ok(()),
                Err(e) => Err(e),
            }
        },
        NBTValue::Compound(entries) => {
            match encode_compound_payload(w, entries, depth) {
                Ok(_) => Ok(()),
                Err(e) => Err(e),
            }
        },
    }
}

/// The encode engine's streaming facade, mirroring the deferred-header
/// protocol: it carries the byte sink, the header fragment the parent
/// deferred, and whether the kind byte is skipped inside an array.
pub struct NBTSerializerImpl {
    pub writer: Writer,
    pub deferred_header: Option<DelayedHeader>,
    pub skip_header: bool,
}

impl NBTSerializerImpl {
    /// A serializer with no pending fragment that writes kind bytes.
    pub fn from_writer(writer: Writer) -> (r: Self)
        ensures
            r.writer == writer,
            r.deferred_header is None,
            !r.skip_header,
    {
        Self::new(writer, None, false)
    }

    /// A serializer that owes the wire the given deferred fragment.
    pub fn with_deferred_header(writer: Writer, deferred_header: Option<DelayedHeader>) -> (r:
        Self)
        ensures
            r.writer == writer,
            r.deferred_header == deferred_header,
            !r.skip_header,
    {
        Self::new(writer, deferred_header, false)
    }

    pub fn new(writer: Writer, delayed_header: Option<DelayedHeader>, skip_header: bool) -> (r:
        Self)
        ensures
            r.writer == writer,
            r.deferred_header == delayed_header,
            r.skip_header == skip_header,
    {
        Self { writer, deferred_header: delayed_header, skip_header }
    }

    /// Writes this tag's header: its kind byte and the deferred fragment,
    /// or nothing at all inside an array.
    pub fn write(&mut self, kind: NBTKind) -> (r: Result<(), Error>)
        ensures
            final(self).deferred_header == old(self).deferred_header,
            final(self).skip_header == old(self).skip_header,
            old(self).skip_header ==> r is Ok && *final(self) == *old(self),
            !old(self).skip_header ==> {
                &&& r is Ok <==> pending_ok(old(self).deferred_header)
                &&& r is Ok ==> final(self).writer.out@ == old(self).writer.out@ + seq![
                    kind_byte(kind),
                ] + pending_bytes(old(self).deferred_header)
                &&& r is Err ==> r->Err_0 == Error::Unrepresentable && final(self).writer == old(
                    self,
                ).writer
            },
    {
        if !self.skip_header {
            self.writer.write_tag_header(kind, &self.deferred_header)
        } else {
            Ok(())
        }
    }

    /// Encodes one whole value at this position, honouring the deferred
    /// header protocol. Succeeds exactly on values the wire can carry
    /// within `depth` levels of nesting.
    pub fn serialize_value(&mut self, v: &NBTValue, depth: u32) -> (r: Result<(), Error>)
        ensures
            final(self).deferred_header == old(self).deferred_header,
            final(self).skip_header == old(self).skip_header,
            r is Ok <==> (representable(v@, depth as nat) && (old(self).skip_header || pending_ok(
                old(self).deferred_header,
            ))),
            r is Ok ==> final(self).writer.out@ == old(self).writer.out@ + header_bytes(
                v@,
                old(self).deferred_header,
                old(self).skip_header,
            ) + enc_payload(v@),
            r is Err ==> r->Err_0 == Error::Unrepresentable || r->Err_0
                == Error::MaxDepthExceeded,
    {
        let skip = self.skip_header;
        encode_tag(&mut self.writer, v, &self.deferred_header, skip, depth)
    }
}

/// Streams one compound's named fields: each field writes its value's kind
/// byte, then the deferred field name, then the value's payload.
pub struct NBTStructSerializer {
    pub writer: Writer,
}

impl NBTStructSerializer {
    pub fn new(writer: Writer) -> (r: Self)
        ensures
            r.writer == writer,
    {
        Self { writer }
    }

    /// Appends one named field as a full compound entry.
    pub fn serialize_field(self, key: &String, value: &NBTValue) -> (r: Result<Self, Error>)
        ensures
            r is Ok <==> (representable(value@, (MAX_DEPTH - 1) as nat) && encode_utf8(
                key@,
            ).len() <= 0xFFFF),
            r is Ok ==> r->Ok_0.writer.out@ == self.writer.out@ + enc_entry(key@, value@),
            r is Err ==> r->Err_0 == Error::Unrepresentable || r->Err_0
                == Error::MaxDepthExceeded,
    {
        let mut w = self.writer;
        match encode_tag(&mut w, value, &Some(DelayedHeader::MapKey(key.clone())), false, MAX_DEPTH
            - 1) {
            Ok(_) => {
                proof {
                    assert(w.out@ =~= self.writer.out@ + enc_entry(key@, value@));
                }
                Ok(Self { writer: w })
            },
            Err(e) => Err(e),
        }
    }

    /// Closes the compound with its single End marker and hands the sink
    /// back.
    pub fn end(self) -> (r: Writer)
        ensures
            r.out@ == self.writer.out@.push(0u8),
    {
        let mut w = self.writer;
        w.write_u8(0);
        w
    }
}

/// Streams one compound's entries where the keys arrive as values: a key
/// is held until its value follows, so that the entry can still be written
/// kind byte first, then name, then payload.
pub struct NBTMapSerializer {
    pub writer: Writer,
    pub pending_key: Option<String>,
}

impl NBTMapSerializer {
    pub fn new(writer: Writer) -> (r: Self)
        ensures
            r.writer == writer,
            r.pending_key is None,
    {
        Self { writer, pending_key: None }
    }

    /// Holds the next entry's name; nothing is written until its value
    /// arrives.
    pub fn serialize_key(self, key: String) -> (r: Self)
        ensures
            r.writer == self.writer,
            r.pending_key == Some(key),
    {
        Self { writer: self.writer, pending_key: Some(key) }
    }

    /// Writes the entry for the held name and this value.
    pub fn serialize_value(self, value: &NBTValue) -> (r: Result<Self, Error>)
        requires
            self.pending_key is Some,
        ensures
            r is Ok <==> (representable(value@, (MAX_DEPTH - 1) as nat) && encode_utf8(
                self.pending_key->Some_0@,
            ).len() <= 0xFFFF),
            r is Ok ==> r->Ok_0.writer.out@ == self.writer.out@ + enc_entry(
                self.pending_key->Some_0@,
                value@,
            ) && r->Ok_0.pending_key is None,
            r is Err ==> r->Err_0 == Error::Unrepresentable || r->Err_0
                == Error::MaxDepthExceeded,
    {
        let mut w = self.writer;
        match self.pending_key {
            Some(key) => {
                let ghost key_view = key@;
                match encode_tag(&mut w, value, &Some(DelayedHeader::MapKey(key)), false, MAX_DEPTH
                    - 1) {
                    Ok(_) => {
                        proof {
                            assert(w.out@ =~= self.writer.out@ + enc_entry(key_view, value@));
                        }
                        Ok(Self { writer: w, pending_key: None })
                    },
                    Err(e) => Err(e),
                }
            },
            None => {
                proof {
                    assert(false);
                }
                Err(Error::Unrepresentable)
            },
        }
    }

    /// Closes the compound with its single End marker and hands the sink
    /// back.
    pub fn end(self) -> (r: Writer)
        ensures
            r.out@ == self.writer.out@.push(0u8),
    {
        let mut w = self.writer;
        w.write_u8(0);
        w
    }
}

/// Streams a run of nameless sequence elements. Constructed with the
/// list's deferred count, it hands that count to the first element — whose
/// kind byte doubles as the list's element kind byte — and lets the rest
/// follow as bare payloads; constructed for an array, it skips kind bytes
/// throughout.
pub struct NBTSeqSerializer {
    pub writer: Writer,
    pub deferred_header: Option<DelayedHeader>,
    pub skip_header: bool,
}

impl NBTSeqSerializer {
    /// A sequence serializer with no pending fragment.
    pub fn from_writer(writer: Writer) -> (r: Self)
        ensures
            r.writer == writer,
            r.deferred_header is None,
            !r.skip_header,
    {
        Self::new(writer, None, false)
    }

    /// A sequence serializer that owes the wire the given fragment.
    pub fn with_deferred_header(writer: Writer, deferred_header: Option<DelayedHeader>) -> (r:
        Self)
        ensures
            r.writer == writer,
            r.deferred_header == deferred_header,
            !r.skip_header,
    {
        Self::new(writer, deferred_header, false)
    }

    pub fn new(writer: Writer, deferred_header: Option<DelayedHeader>, skip_header: bool) -> (r:
        Self)
        ensures
            r.writer == writer,
            r.deferred_header == deferred_header,
            r.skip_header == skip_header,
    {
        Self { writer, deferred_header, skip_header }
    }

    /// Appends one element. After an element has carried the deferred list
    /// count onto the wire, the remaining elements are written as bare
    /// payloads without re-emitting it.
    pub fn serialize_element(self, value: &NBTValue) -> (r: Result<Self, Error>)
        ensures
            r is Ok <==> (representable(value@, (MAX_DEPTH - 1) as nat) && (self.skip_header
                || pending_ok(self.deferred_header))),
            r is Ok ==> r->Ok_0.writer.out@ == self.writer.out@ + header_bytes(
                value@,
                self.deferred_header,
                self.skip_header,
            ) + enc_payload(value@),
            r is Ok ==> r->Ok_0.deferred_header is None && r->Ok_0.skip_header == (
            self.skip_header || self.deferred_header matches Some(DelayedHeader::List(_))),
            r is Err ==> r->Err_0 == Error::Unrepresentable || r->Err_0
                == Error::MaxDepthExceeded,
    {
        let advance = match &self.deferred_header {
            Some(DelayedHeader::List(_)) => true,
            _ => false,
        };
        let mut w = self.writer;
        let skip = self.skip_header;
        match encode_tag(&mut w, value, &self.deferred_header, skip, MAX_DEPTH - 1) {
            Ok(_) => Ok(Self::new(w, None, skip || advance)),
            Err(e) => Err(e),
        }
    }

    /// Hands the sink back; a sequence needs no terminator of its own.
    pub fn end(self) -> (r: Writer)
        ensures
            r == self.writer,
    {
        self.writer
    }
}

/// Encodes a value as a whole byte stream. The root must be a compound; it
/// is written with an empty name, its entries in order, and a single
/// closing End byte. Succeeds exactly on representable compounds.
pub fn to_bytes(v: &NBTValue) -> (r: Result<Vec<u8>, Error>)
    ensures
        r is Ok <==> (v@ is Compound && representable(v@, MAX_DEPTH as nat)),
        r is Ok ==> r->Ok_0@ == enc_root(v@),
        !(v@ is Compound) ==> r == Err::<Vec<u8>, Error>(Error::ExpectedRootCompound),
        r is Err ==> r->Err_0 == Error::ExpectedRootCompound || r->Err_0 == Error::Unrepresentable
            || r->Err_0 == Error::MaxDepthExceeded,
{
    match v {
        NBTValue::Compound(_) => {},
        _ => {
            return Err(Error::ExpectedRootCompound);
        },
    }
    let mut w = Writer::new();
    w.write_u8(10);
    w.write_u8(0);
    w.write_u8(0);
    let mut ser = NBTSerializerImpl::new(w, None, true);
    match ser.serialize_value(v, MAX_DEPTH) {
        Ok(_) => {},
        Err(e) => {
            return Err(e);
        },
    }
    let out = ser.writer.into_bytes();
    proof {
        assert(out@ =~= enc_root(v@));
    }
    Ok(out)
}

} // verus!
