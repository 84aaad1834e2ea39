use vstd::prelude::*;

use crate::error::Error;
use crate::kind::{kind_byte, kind_of_byte, NBTKind};
use crate::tag::{gkind, SpecValue};
use vstd::utf8::{decode_utf8, encode_utf8, valid_utf8};

verus! {

// ---------------------------------------------------------------------------
// Big-endian fixed-width integers.
// ---------------------------------------------------------------------------
/// The two big-endian bytes of a 16-bit integer.
pub open spec fn u16_be(n: u16) -> Seq<u8> {
    seq![(n >> 8u16) as u8, n as u8]
}

/// The four big-endian bytes of a 32-bit integer.
pub open spec fn u32_be(n: u32) -> Seq<u8> {
    seq![(n >> 24u32) as u8, (n >> 16u32) as u8, (n >> 8u32) as u8, n as u8]
}

/// The eight big-endian bytes of a 64-bit integer.
pub open spec fn u64_be(n: u64) -> Seq<u8> {
    seq![
        (n >> 56u64) as u8,
        (n >> 48u64) as u8,
        (n >> 40u64) as u8,
        (n >> 32u64) as u8,
        (n >> 24u64) as u8,
        (n >> 16u64) as u8,
        (n >> 8u64) as u8,
        n as u8,
    ]
}

/// The 16-bit integer whose big-endian bytes start at `pos`.
pub open spec fn u16_at(b: Seq<u8>, pos: int) -> u16 {
    ((b[pos] as u16) << 8u16) | (b[pos + 1] as u16)
}

/// The 32-bit integer whose big-endian bytes start at `pos`.
pub open spec fn u32_at(b: Seq<u8>, pos: int) -> u32 {
    ((b[pos] as u32) << 24u32) | ((b[pos + 1] as u32) << 16u32) | ((b[pos + 2] as u32) << 8u32) | (
    b[pos + 3] as u32)
}

/// The 64-bit integer whose big-endian bytes start at `pos`.
pub open spec fn u64_at(b: Seq<u8>, pos: int) -> u64 {
    ((b[pos] as u64) << 56u64) | ((b[pos + 1] as u64) << 48u64) | ((b[pos + 2] as u64) << 40u64) | (
    (b[pos + 3] as u64) << 32u64) | ((b[pos + 4] as u64) << 24u64) | ((b[pos + 5] as u64)
        << 16u64) | ((b[pos + 6] as u64) << 8u64) | (b[pos + 7] as u64)
}

pub proof fn lemma_u16_rt(n: u16)
    ensures
        u16_at(u16_be(n), 0) == n,
{
    assert(((((n >> 8u16) as u8) as u16) << 8u16) | ((n as u8) as u16) == n) by (bit_vector);
}

pub proof fn lemma_u32_rt(n: u32)
    ensures
        u32_at(u32_be(n), 0) == n,
{
    assert(((((n >> 24u32) as u8) as u32) << 24u32) | ((((n >> 16u32) as u8) as u32) << 16u32) | ((
    ((n >> 8u32) as u8) as u32) << 8u32) | ((n as u8) as u32) == n) by (bit_vector);
}

pub proof fn lemma_u64_rt(n: u64)
    ensures
        u64_at(u64_be(n), 0) == n,
{
    assert(((((n >> 56u64) as u8) as u64) << 56u64) | ((((n >> 48u64) as u8) as u64) << 48u64) | ((
    ((n >> 40u64) as u8) as u64) << 40u64) | ((((n >> 32u64) as u8) as u64) << 32u64) | ((((n
        >> 24u64) as u8) as u64) << 24u64) | ((((n >> 16u64) as u8) as u64) << 16u64) | ((((n
        >> 8u64) as u8) as u64) << 8u64) | ((n as u8) as u64) == n) by (bit_vector);
}

/// Reading the 16-bit integer back out of a larger buffer that holds its
/// big-endian bytes at `pos` gives the integer back.
pub proof fn lemma_u16_at_of_be(b: Seq<u8>, pos: int, n: u16)
    requires
        0 <= pos,
        pos + 2 <= b.len(),
        b.subrange(pos, pos + 2) == u16_be(n),
    ensures
        u16_at(b, pos) == n,
{
    assert(b[pos] == u16_be(n)[0]);
    assert(b[pos + 1] == u16_be(n)[1]);
    lemma_u16_rt(n);
}

pub proof fn lemma_u32_at_of_be(b: Seq<u8>, pos: int, n: u32)
    requires
        0 <= pos,
        pos + 4 <= b.len(),
        b.subrange(pos, pos + 4) == u32_be(n),
    ensures
        u32_at(b, pos) == n,
{
    assert forall|i: int| 0 <= i < 4 implies b[pos + i] == u32_be(n)[i] by {
        assert(b.subrange(pos, pos + 4)[i] == b[pos + i]);
    }
    lemma_u32_rt(n);
}

pub proof fn lemma_u64_at_of_be(b: Seq<u8>, pos: int, n: u64)
    requires
        0 <= pos,
        pos + 8 <= b.len(),
        b.subrange(pos, pos + 8) == u64_be(n),
    ensures
        u64_at(b, pos) == n,
{
    assert forall|i: int| 0 <= i < 8 implies b[pos + i] == u64_be(n)[i] by {
        assert(b.subrange(pos, pos + 8)[i] == b[pos + i]);
    }
    lemma_u64_rt(n);
}

// ---------------------------------------------------------------------------
// Sign round trips through the unsigned wire representation.
// ---------------------------------------------------------------------------
pub proof fn lemma_i8_rt(n: i8)
    ensures
        ((n as u8) as i8) == n,
{
    assert(((n as u8) as i8) == n) by (bit_vector);
}

pub proof fn lemma_i16_rt(n: i16)
    ensures
        ((n as u16) as i16) == n,
{
    assert(((n as u16) as i16) == n) by (bit_vector);
}

pub proof fn lemma_i32_rt(n: i32)
    ensures
        ((n as u32) as i32) == n,
{
    assert(((n as u32) as i32) == n) by (bit_vector);
}

pub proof fn lemma_i64_rt(n: i64)
    ensures
        ((n as u64) as i64) == n,
{
    assert(((n as u64) as i64) == n) by (bit_vector);
}

/// A list or array count at most `i32::MAX`, written as an unsigned 32-bit
/// integer, reads back as the same positive signed count.
pub proof fn lemma_count_rt(len: nat)
    requires
        len <= 0x7FFFFFFF,
    ensures
        (((len as u32) as i32) as int) == len,
{
    let n = len as u32;
    assert(n <= 0x7FFFFFFF ==> ((n as i32) as int) == n as int) by (bit_vector);
}

// ---------------------------------------------------------------------------
// The encoding, value by value.
// ---------------------------------------------------------------------------
/// A length-prefixed string: two big-endian bytes of UTF-8 byte length,
/// then the UTF-8 bytes themselves.
pub open spec fn enc_str(s: Seq<char>) -> Seq<u8> {
    u16_be(encode_utf8(s).len() as u16) + encode_utf8(s)
}

pub open spec fn enc_i8s(s: Seq<i8>) -> Seq<u8>
    decreases s,
{
    if s.len() == 0 {
        Seq::empty()
    } else {
        enc_i8s(s.drop_last()).push(s.last() as u8)
    }
}

pub open spec fn enc_i32s(s: Seq<i32>) -> Seq<u8>
    decreases s,
{
    if s.len() == 0 {
        Seq::empty()
    } else {
        enc_i32s(s.drop_last()) + u32_be(s.last() as u32)
    }
}

pub open spec fn enc_i64s(s: Seq<i64>) -> Seq<u8>
    decreases s,
{
    if s.len() == 0 {
        Seq::empty()
    } else {
        enc_i64s(s.drop_last()) + u64_be(s.last() as u64)
    }
}

/// The payload bytes of a value: what follows the value's kind byte (and,
/// in a compound, its name) on the wire.
pub open spec fn enc_payload(g: SpecValue) -> Seq<u8>
    decreases g, 0nat,
{
    match g {
        SpecValue::Byte(n) => seq![n as u8],
        SpecValue::Short(n) => u16_be(n as u16),
        SpecValue::Int(n) => u32_be(n as u32),
        SpecValue::Long(n) => u64_be(n as u64),
        SpecValue::Float(bits) => u32_be(bits),
        SpecValue::Double(bits) => u64_be(bits),
        SpecValue::ByteArray(s) => u32_be(s.len() as u32) + enc_i8s(s),
        SpecValue::String(s) => enc_str(s),
        SpecValue::List(es) => if es.len() == 0 {
            seq![0u8] + u32_be(0u32)
        } else {
            seq![kind_byte(gkind(es[0]))] + u32_be(es.len() as u32) + enc_elems(es)
        },
        SpecValue::Compound(entries) => enc_entries(entries) + seq![0u8],
        SpecValue::IntArray(s) => u32_be(s.len() as u32) + enc_i32s(s),
        SpecValue::LongArray(s) => u32_be(s.len() as u32) + enc_i64s(s),
    }
}

/// The nameless payloads of a list's elements, in order.
pub open spec fn enc_elems(es: Seq<SpecValue>) -> Seq<u8>
    decreases es, 0nat,
{
    if es.len() == 0 {
        Seq::empty()
    } else {
        enc_elems(es.drop_last()) + enc_payload(es.last())
    }
}

/// One named compound entry: the value's kind byte, then the name, then the
/// value's payload.
pub open spec fn enc_entry(name: Seq<char>, g: SpecValue) -> Seq<u8>
    decreases g, 1nat,
{
    seq![kind_byte(gkind(g))] + enc_str(name) + enc_payload(g)
}

/// The entries of a compound, in order, without the closing End byte.
pub open spec fn enc_entries(entries: Seq<(Seq<char>, SpecValue)>) -> Seq<u8>
    decreases entries, 2nat,
{
    if entries.len() == 0 {
        Seq::empty()
    } else {
        enc_entries(entries.drop_last()) + enc_entry(entries.last().0, entries.last().1)
    }
}

/// A whole stream: the root compound's kind byte, its (empty) name, and its
/// payload.
pub open spec fn enc_root(g: SpecValue) -> Seq<u8> {
    seq![10u8, 0u8, 0u8] + enc_payload(g)
}

// ---------------------------------------------------------------------------
// Which values the wire can carry at all.
// ---------------------------------------------------------------------------
/// Whether every element of a list would encode under the same kind byte.
pub open spec fn homogeneous(es: Seq<SpecValue>) -> bool {
    forall|i: int| 0 <= i < es.len() ==> gkind(#[trigger] es[i]) == gkind(es[0])
}

/// Whether a value is representable on the wire within `depth` levels of
/// nesting: strings and names fit a 16-bit byte-length prefix, list and
/// array counts fit a signed 32-bit count, lists are homogeneous, and the
/// tree is no deeper than `depth`.
pub open spec fn representable(g: SpecValue, depth: nat) -> bool
    decreases g,
{
    depth > 0 && match g {
        SpecValue::Byte(_) => true,
        SpecValue::Short(_) => true,
        SpecValue::Int(_) => true,
        SpecValue::Long(_) => true,
        SpecValue::Float(_) => true,
        SpecValue::Double(_) => true,
        SpecValue::ByteArray(s) => s.len() <= 0x7FFFFFFF,
        SpecValue::String(s) => encode_utf8(s).len() <= 0xFFFF,
        SpecValue::List(es) => es.len() <= 0x7FFFFFFF && homogeneous(es) && rep_all(
            es,
            (depth - 1) as nat,
        ),
        SpecValue::Compound(entries) => rep_entries(entries, (depth - 1) as nat),
        SpecValue::IntArray(s) => s.len() <= 0x7FFFFFFF,
        SpecValue::LongArray(s) => s.len() <= 0x7FFFFFFF,
    }
}

pub open spec fn rep_all(es: Seq<SpecValue>, depth: nat) -> bool
    decreases es,
{
    if es.len() == 0 {
        true
    } else {
        rep_all(es.drop_last(), depth) && representable(es.last(), depth)
    }
}

pub open spec fn rep_entries(entries: Seq<(Seq<char>, SpecValue)>, depth: nat) -> bool
    decreases entries,
{
    if entries.len() == 0 {
        true
    } else {
        rep_entries(entries.drop_last(), depth) && encode_utf8(entries.last().0).len() <= 0xFFFF
            && representable(entries.last().1, depth)
    }
}

pub proof fn lemma_rep_all_index(es: Seq<SpecValue>, depth: nat)
    requires
        rep_all(es, depth),
    ensures
        forall|i: int| 0 <= i < es.len() ==> representable(#[trigger] es[i], depth),
    decreases es.len(),
{
    if es.len() > 0 {
        lemma_rep_all_index(es.drop_last(), depth);
        assert forall|i: int| 0 <= i < es.len() implies representable(#[trigger] es[i], depth) by {
            if i < es.len() - 1 {
                assert(es.drop_last()[i] == es[i]);
            }
        }
    }
}

// ---------------------------------------------------------------------------
// The decoding, kind by kind.
// ---------------------------------------------------------------------------
/// Decodes a length-prefixed string at `pos`: Eof when the prefix or the
/// prefixed bytes run past the end, a UTF-8 error when the bytes are not
/// valid UTF-8, else the string and the position just past it.
pub open spec fn dec_str(b: Seq<u8>, pos: int) -> Result<(Seq<char>, int), Error> {
    if pos + 2 > b.len() {
        Err(Error::Eof)
    } else {
        let n = u16_at(b, pos) as int;
        if pos + 2 + n > b.len() {
            Err(Error::Eof)
        } else {
            let chunk = b.subrange(pos + 2, pos + 2 + n);
            if valid_utf8(chunk) {
                Ok((decode_utf8(chunk), pos + 2 + n))
            } else {
                Err(Error::InvalidUtf8)
            }
        }
    }
}

/// Decodes the payload of a tag of kind `k` at `pos`, yielding the value and
/// the position just past it. `depth` bounds how deep lists and compounds
/// may nest below this payload.
pub open spec fn dec_payload(b: Seq<u8>, pos: int, k: NBTKind, depth: nat) -> Result<
    (SpecValue, int),
    Error,
>
    decreases depth, 2nat, 0nat,
{
    if depth == 0 {
        Err(Error::MaxDepthExceeded)
    } else {
        match k {
            NBTKind::End => Err(Error::InvalidTagId),
            NBTKind::Byte => if pos + 1 > b.len() {
                Err(Error::Eof)
            } else {
                Ok((SpecValue::Byte(b[pos] as i8), pos + 1))
            },
            NBTKind::Short => if pos + 2 > b.len() {
                Err(Error::Eof)
            } else {
                Ok((SpecValue::Short(u16_at(b, pos) as i16), pos + 2))
            },
            NBTKind::Int => if pos + 4 > b.len() {
                Err(Error::Eof)
            } else {
                Ok((SpecValue::Int(u32_at(b, pos) as i32), pos + 4))
            },
            NBTKind::Long => if pos + 8 > b.len() {
                Err(Error::Eof)
            } else {
                Ok((SpecValue::Long(u64_at(b, pos) as i64), pos + 8))
            },
            NBTKind::Float => if pos + 4 > b.len() {
                Err(Error::Eof)
            } else {
                Ok((SpecValue::Float(u32_at(b, pos)), pos + 4))
            },
            NBTKind::Double => if pos + 8 > b.len() {
                Err(Error::Eof)
            } else {
                Ok((SpecValue::Double(u64_at(b, pos)), pos + 8))
            },
            NBTKind::ByteArray => if pos + 4 > b.len() {
                Err(Error::Eof)
            } else {
                let cnt = u32_at(b, pos) as i32;
                if cnt <= 0 {
                    Ok((SpecValue::ByteArray(Seq::empty()), pos + 4))
                } else if pos + 4 + cnt > b.len() {
                    Err(Error::Eof)
                } else {
                    Ok(
                        (
                            SpecValue::ByteArray(
                                Seq::new(cnt as nat, |i: int| b[pos + 4 + i] as i8),
                            ),
                            pos + 4 + cnt,
                        ),
                    )
                }
            },
            NBTKind::String => match dec_str(b, pos) {
                Ok((s, p)) => Ok((SpecValue::String(s), p)),
                Err(e) => Err(e),
            },
            NBTKind::List => if pos + 5 > b.len() {
                Err(Error::Eof)
            } else {
                let raw = b[pos];
                let cnt = u32_at(b, pos + 1) as i32;
                if cnt <= 0 {
                    Ok((SpecValue::List(Seq::empty()), pos + 5))
                } else {
                    match kind_of_byte(raw) {
                        None => Err(Error::InvalidTagId),
                        Some(ek) => match dec_elems(b, pos + 5, ek, cnt as nat, depth) {
                            Ok((es, p)) => Ok((SpecValue::List(es), p)),
                            Err(e) => Err(e),
                        },
                    }
                }
            },
            NBTKind::Compound => match dec_entries(b, pos, depth, (b.len() + 1) as nat) {
                Ok((entries, p)) => Ok((SpecValue::Compound(entries), p)),
                Err(e) => Err(e),
            },
            NBTKind::IntArray => if pos + 4 > b.len() {
                Err(Error::Eof)
            } else {
                let cnt = u32_at(b, pos) as i32;
                if cnt <= 0 {
                    Ok((SpecValue::IntArray(Seq::empty()), pos + 4))
                } else if pos + 4 + 4 * cnt > b.len() {
                    Err(Error::Eof)
                } else {
                    Ok(
                        (
                            SpecValue::IntArray(
                                Seq::new(cnt as nat, |i: int| u32_at(b, pos + 4 + 4 * i) as i32),
                            ),
                            pos + 4 + 4 * cnt,
                        ),
                    )
                }
            },
            NBTKind::LongArray => if pos + 4 > b.len() {
                Err(Error::Eof)
            } else {
                let cnt = u32_at(b, pos) as i32;
                if cnt <= 0 {
                    Ok((SpecValue::LongArray(Seq::empty()), pos + 4))
                } else if pos + 4 + 8 * cnt > b.len() {
                    Err(Error::Eof)
                } else {
                    Ok(
                        (
                            SpecValue::LongArray(
                                Seq::new(cnt as nat, |i: int| u64_at(b, pos + 4 + 8 * i) as i64),
                            ),
                            pos + 4 + 8 * cnt,
                        ),
                    )
                }
            },
        }
    }
}

/// Decodes `cnt` nameless list elements of kind `k` starting at `pos`.
pub open spec fn dec_elems(b: Seq<u8>, pos: int, k: NBTKind, cnt: nat, depth: nat) -> Result<
    (Seq<SpecValue>, int),
    Error,
>
    decreases depth, 1nat, cnt,
{
    if cnt == 0 {
        Ok((Seq::empty(), pos))
    } else if depth == 0 {
        Err(Error::MaxDepthExceeded)
    } else {
        match dec_payload(b, pos, k, (depth - 1) as nat) {
            Err(e) => Err(e),
            Ok((g, p)) => match dec_elems(b, p, k, (cnt - 1) as nat, depth) {
                Err(e) => Err(e),
                Ok((es, p2)) => Ok((seq![g] + es, p2)),
            },
        }
    }
}

/// Decodes compound entries starting at `pos` up to and including the End
/// byte. Each entry is a kind byte, a name, and a payload of that kind; the
/// kind byte 0 closes the compound. `fuel` only bounds the recursion; every
/// caller passes more fuel than any input could consume, since each entry
/// takes at least one byte.
pub open spec fn dec_entries(b: Seq<u8>, pos: int, depth: nat, fuel: nat) -> Result<
    (Seq<(Seq<char>, SpecValue)>, int),
    Error,
>
    decreases depth, 1nat, fuel,
{
    if fuel == 0 {
        Err(Error::Eof)
    } else if !(0 <= pos < b.len()) {
        Err(Error::Eof)
    } else {
        let raw = b[pos];
        if raw == 0 {
            Ok((Seq::empty(), pos + 1))
        } else {
            match kind_of_byte(raw) {
                None => Err(Error::InvalidTagId),
                Some(k) => match dec_str(b, pos + 1) {
                    Err(e) => Err(e),
                    Ok((name, p2)) => if depth == 0 {
                        Err(Error::MaxDepthExceeded)
                    } else {
                        match dec_payload(b, p2, k, (depth - 1) as nat) {
                            Err(e) => Err(e),
                            Ok((v, p3)) => match dec_entries(b, p3, depth, (fuel - 1) as nat) {
                                Err(e) => Err(e),
                                Ok((rest, p4)) => Ok((seq![(name, v)] + rest, p4)),
                            },
                        }
                    },
                },
            }
        }
    }
}

/// Decodes a whole stream: the first byte must be the compound kind byte,
/// then comes the root's name, which is read and discarded, then the root
/// compound's payload. Bytes past the root tag are left unread.
pub open spec fn dec_root(b: Seq<u8>, depth: nat) -> Result<(SpecValue, int), Error> {
    if b.len() == 0 {
        Err(Error::Eof)
    } else if b[0] != 10 {
        Err(Error::ExpectedRootCompound)
    } else {
        match dec_str(b, 1) {
            Err(e) => Err(e),
            Ok((_name, p)) => dec_payload(b, p, NBTKind::Compound, depth),
        }
    }
}


// ---------------------------------------------------------------------------
// Shape facts about the encoding, used by the engines' proofs.
// ---------------------------------------------------------------------------
pub proof fn lemma_enc_i8s(s: Seq<i8>)
    ensures
        enc_i8s(s).len() == s.len(),
        forall|i: int| 0 <= i < s.len() ==> enc_i8s(s)[i] == s[i] as u8,
    decreases s.len(),
{
    if s.len() > 0 {
        lemma_enc_i8s(s.drop_last());
    }
}

pub proof fn lemma_enc_i32s(s: Seq<i32>)
    ensures
        enc_i32s(s).len() == 4 * s.len(),
        forall|i: int|
            0 <= i < s.len() ==> enc_i32s(s).subrange(4 * i, 4 * i + 4) == u32_be(
                (#[trigger] s[i]) as u32,
            ),
    decreases s.len(),
{
    if s.len() > 0 {
        lemma_enc_i32s(s.drop_last());
        let whole = enc_i32s(s);
        let front = enc_i32s(s.drop_last());
        assert forall|i: int|
            0 <= i < s.len() implies whole.subrange(4 * i, 4 * i + 4) == u32_be(
            (#[trigger] s[i]) as u32,
        ) by {
            if i < s.len() - 1 {
                assert(s.drop_last()[i] == s[i]);
                assert(whole.subrange(4 * i, 4 * i + 4) =~= front.subrange(4 * i, 4 * i + 4));
            } else {
                assert(whole.subrange(4 * i, 4 * i + 4) =~= u32_be(s[i] as u32));
            }
        }
    }
}

pub proof fn lemma_enc_i64s(s: Seq<i64>)
    ensures
        enc_i64s(s).len() == 8 * s.len(),
        forall|i: int|
            0 <= i < s.len() ==> enc_i64s(s).subrange(8 * i, 8 * i + 8) == u64_be(
                (#[trigger] s[i]) as u64,
            ),
    decreases s.len(),
{
    if s.len() > 0 {
        lemma_enc_i64s(s.drop_last());
        let whole = enc_i64s(s);
        let front = enc_i64s(s.drop_last());
        assert forall|i: int|
            0 <= i < s.len() implies whole.subrange(8 * i, 8 * i + 8) == u64_be(
            (#[trigger] s[i]) as u64,
        ) by {
            if i < s.len() - 1 {
                assert(s.drop_last()[i] == s[i]);
                assert(whole.subrange(8 * i, 8 * i + 8) =~= front.subrange(8 * i, 8 * i + 8));
            } else {
                assert(whole.subrange(8 * i, 8 * i + 8) =~= u64_be(s[i] as u64));
            }
        }
    }
}

pub proof fn lemma_enc_i8s_push(s: Seq<i8>, x: i8)
    ensures
        enc_i8s(s.push(x)) == enc_i8s(s).push(x as u8),
{
    assert(s.push(x).drop_last() =~= s);
}

pub proof fn lemma_enc_i32s_push(s: Seq<i32>, x: i32)
    ensures
        enc_i32s(s.push(x)) == enc_i32s(s) + u32_be(x as u32),
{
    assert(s.push(x).drop_last() =~= s);
}

pub proof fn lemma_enc_i64s_push(s: Seq<i64>, x: i64)
    ensures
        enc_i64s(s.push(x)) == enc_i64s(s) + u64_be(x as u64),
{
    assert(s.push(x).drop_last() =~= s);
}

pub proof fn lemma_enc_elems_push(es: Seq<SpecValue>, g: SpecValue)
    ensures
        enc_elems(es.push(g)) == enc_elems(es) + enc_payload(g),
{
    assert(es.push(g).drop_last() =~= es);
}

pub proof fn lemma_enc_entries_push(entries: Seq<(Seq<char>, SpecValue)>, name: Seq<char>, g: SpecValue)
    ensures
        enc_entries(entries.push((name, g))) == enc_entries(entries) + enc_entry(name, g),
{
    assert(entries.push((name, g)).drop_last() =~= entries);
}

/// Peels the first element off an encoded run of list elements.
pub proof fn lemma_enc_elems_first(es: Seq<SpecValue>)
    requires
        es.len() > 0,
    ensures
        enc_elems(es) == enc_payload(es[0]) + enc_elems(es.drop_first()),
    decreases es.len(),
{
    if es.len() == 1 {
        assert(es.drop_last() =~= Seq::<SpecValue>::empty());
        assert(es.drop_first() =~= Seq::<SpecValue>::empty());
        assert(enc_elems(es) =~= enc_payload(es[0]) + enc_elems(es.drop_first()));
    } else {
        let front = es.drop_last();
        lemma_enc_elems_first(front);
        assert(es.drop_first().drop_last() =~= front.drop_first());
        assert(es.drop_first().last() == es.last());
        assert(enc_elems(es.drop_first()) == enc_elems(front.drop_first()) + enc_payload(
            es.last(),
        ));
        assert(enc_elems(es) =~= enc_payload(es[0]) + enc_elems(es.drop_first()));
    }
}

/// Peels the first entry off an encoded run of compound entries.
pub proof fn lemma_enc_entries_first(entries: Seq<(Seq<char>, SpecValue)>)
    requires
        entries.len() > 0,
    ensures
        enc_entries(entries) == enc_entry(entries[0].0, entries[0].1) + enc_entries(
            entries.drop_first(),
        ),
    decreases entries.len(),
{
    if entries.len() == 1 {
        assert(entries.drop_last() =~= Seq::<(Seq<char>, SpecValue)>::empty());
        assert(entries.drop_first() =~= Seq::<(Seq<char>, SpecValue)>::empty());
        assert(enc_entries(entries) =~= enc_entry(entries[0].0, entries[0].1) + enc_entries(
            entries.drop_first(),
        ));
    } else {
        let front = entries.drop_last();
        lemma_enc_entries_first(front);
        assert(entries.drop_first().drop_last() =~= front.drop_first());
        assert(entries.drop_first().last() == entries.last());
        assert(enc_entries(entries.drop_first()) == enc_entries(front.drop_first()) + enc_entry(
            entries.last().0,
            entries.last().1,
        ));
        assert(enc_entries(entries) =~= enc_entry(entries[0].0, entries[0].1) + enc_entries(
            entries.drop_first(),
        ));
    }
}

pub proof fn lemma_rep_entries_index(entries: Seq<(Seq<char>, SpecValue)>, depth: nat)
    requires
        rep_entries(entries, depth),
    ensures
        forall|i: int|
            0 <= i < entries.len() ==> encode_utf8((#[trigger] entries[i]).0).len() <= 0xFFFF
                && representable(entries[i].1, depth),
    decreases entries.len(),
{
    if entries.len() > 0 {
        lemma_rep_entries_index(entries.drop_last(), depth);
        assert forall|i: int|
            0 <= i < entries.len() implies encode_utf8((#[trigger] entries[i]).0).len() <= 0xFFFF
            && representable(entries[i].1, depth) by {
            if i < entries.len() - 1 {
                assert(entries.drop_last()[i] == entries[i]);
            }
        }
    }
}

/// Every encoded entry takes at least one byte, so a run of entries is at
/// least as long as the number of entries.
pub proof fn lemma_enc_entries_len_ge(entries: Seq<(Seq<char>, SpecValue)>)
    ensures
        enc_entries(entries).len() >= entries.len(),
    decreases entries.len(),
{
    if entries.len() > 0 {
        lemma_enc_entries_len_ge(entries.drop_last());
        assert(enc_entry(entries.last().0, entries.last().1).len() >= 1);
    }
}


pub proof fn lemma_rep_entries_push(
    entries: Seq<(Seq<char>, SpecValue)>,
    name: Seq<char>,
    g: SpecValue,
    depth: nat,
)
    ensures
        rep_entries(entries.push((name, g)), depth) == (rep_entries(entries, depth)
            && encode_utf8(name).len() <= 0xFFFF && representable(g, depth)),
{
    assert(entries.push((name, g)).drop_last() =~= entries);
}

/// If every element of a sequence is representable, so is the whole run.
pub proof fn lemma_rep_all_of_index(es: Seq<SpecValue>, depth: nat)
    requires
        forall|i: int| 0 <= i < es.len() ==> representable(#[trigger] es[i], depth),
    ensures
        rep_all(es, depth),
    decreases es.len(),
{
    if es.len() > 0 {
        assert(forall|i: int|
            0 <= i < es.drop_last().len() ==> es.drop_last()[i] == es[i]);
        lemma_rep_all_of_index(es.drop_last(), depth);
    }
}

/// A compound's entries read as an unordered name-to-value map: a later
/// entry under the same name shadows an earlier one.
pub open spec fn entries_map(entries: Seq<(Seq<char>, SpecValue)>) -> Map<Seq<char>, SpecValue>
    decreases entries,
{
    if entries.len() == 0 {
        Map::empty()
    } else {
        entries_map(entries.drop_last()).insert(entries.last().0, entries.last().1)
    }
}

pub proof fn lemma_entries_map_push(
    entries: Seq<(Seq<char>, SpecValue)>,
    name: Seq<char>,
    g: SpecValue,
)
    ensures
        entries_map(entries.push((name, g))) == entries_map(entries).insert(name, g),
{
    assert(entries.push((name, g)).drop_last() =~= entries);
}

/// A byte inside a slice of a buffer known to equal `enc` is the matching
/// byte of `enc`.
pub proof fn lemma_buffer_byte(b: Seq<u8>, pos: int, enc: Seq<u8>, i: int)
    requires
        0 <= pos,
        pos + enc.len() <= b.len(),
        b.subrange(pos, pos + enc.len() as int) == enc,
        0 <= i < enc.len(),
    ensures
        b[pos + i] == enc[i],
{
    assert(b.subrange(pos, pos + enc.len() as int)[i] == b[pos + i]);
}

/// A sub-slice of a slice of a buffer known to equal `enc` is the matching
/// sub-slice of `enc`.
pub proof fn lemma_buffer_slice(b: Seq<u8>, pos: int, enc: Seq<u8>, lo: int, hi: int)
    requires
        0 <= pos,
        pos + enc.len() <= b.len(),
        b.subrange(pos, pos + enc.len() as int) == enc,
        0 <= lo <= hi <= enc.len(),
    ensures
        b.subrange(pos + lo, pos + hi) == enc.subrange(lo, hi),
{
    assert forall|j: int| 0 <= j < hi - lo implies b.subrange(pos + lo, pos + hi)[j]
        == enc.subrange(lo, hi)[j] by {
        assert(b.subrange(pos, pos + enc.len() as int)[lo + j] == b[pos + lo + j]);
    }
    assert(b.subrange(pos + lo, pos + hi) =~= enc.subrange(lo, hi));
}

} // verus!
