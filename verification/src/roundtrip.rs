use vstd::prelude::*;

use crate::error::Error;
use crate::kind::{kind_byte, kind_of_byte, lemma_kind_byte_bijective, NBTKind};
use crate::tag::{gkind, lemma_gkind_not_end, SpecValue, MAX_DEPTH};
use crate::wire::{
    dec_elems, dec_entries, dec_payload, dec_root, dec_str, enc_elems, enc_entries, enc_entry, entries_map,
    enc_i32s, enc_i64s, enc_i8s, enc_payload, enc_root, enc_str, lemma_buffer_byte,
    lemma_buffer_slice, lemma_count_rt, lemma_enc_elems_first, lemma_enc_entries_first,
    lemma_enc_entries_len_ge, lemma_enc_i32s, lemma_enc_i64s, lemma_enc_i8s, lemma_i16_rt,
    lemma_i32_rt, lemma_i64_rt, lemma_i8_rt, lemma_rep_all_index, lemma_rep_entries_index,
    lemma_u16_at_of_be, lemma_u32_at_of_be, lemma_u64_at_of_be,
    representable, u16_at, u16_be, u32_at, u32_be, u64_at, u64_be,
};
use vstd::utf8::{
    decode_utf8, encode_utf8, encode_utf8_decode_utf8, encode_utf8_valid_utf8, valid_utf8,
};

verus! {

/// An encoded string sitting inside a larger buffer decodes back to itself.
pub proof fn lemma_rt_str(b: Seq<u8>, pos: int, s: Seq<char>)
    requires
        0 <= pos,
        encode_utf8(s).len() <= 0xFFFF,
        pos + enc_str(s).len() <= b.len(),
        b.subrange(pos, pos + enc_str(s).len() as int) == enc_str(s),
    ensures
        enc_str(s).len() == 2 + encode_utf8(s).len(),
        dec_str(b, pos) == Ok::<(Seq<char>, int), Error>((s, pos + enc_str(s).len())),
{
    let enc = enc_str(s);
    let u = encode_utf8(s);
    let m = u.len() as u16;
    assert(m as int == u.len());
    lemma_buffer_slice(b, pos, enc, 0, 2);
    assert(enc.subrange(0, 2) =~= u16_be(m));
    lemma_u16_at_of_be(b, pos, m);
    lemma_buffer_slice(b, pos, enc, 2, enc.len() as int);
    assert(enc.subrange(2, enc.len() as int) =~= u);
    encode_utf8_valid_utf8(s);
    encode_utf8_decode_utf8(s);
}

/// An encoded payload sitting inside a larger buffer decodes back to the
/// value it came from, consuming exactly its own bytes.
pub proof fn lemma_rt_payload(b: Seq<u8>, pos: int, g: SpecValue, depth: nat)
    requires
        representable(g, depth),
        0 <= pos,
        pos + enc_payload(g).len() <= b.len(),
        b.subrange(pos, pos + enc_payload(g).len() as int) == enc_payload(g),
    ensures
        dec_payload(b, pos, gkind(g), depth) == Ok::<(SpecValue, int), Error>(
            (g, pos + enc_payload(g).len()),
        ),
    decreases depth, 3nat, 0nat,
{
    let enc = enc_payload(g);
    match g {
        SpecValue::Byte(n) => {
            lemma_buffer_byte(b, pos, enc, 0);
            lemma_i8_rt(n);
        },
        SpecValue::Short(n) => {
            lemma_buffer_slice(b, pos, enc, 0, 2);
            assert(enc.subrange(0, 2) =~= u16_be(n as u16));
            lemma_u16_at_of_be(b, pos, n as u16);
            lemma_i16_rt(n);
        },
        SpecValue::Int(n) => {
            lemma_buffer_slice(b, pos, enc, 0, 4);
            assert(enc.subrange(0, 4) =~= u32_be(n as u32));
            lemma_u32_at_of_be(b, pos, n as u32);
            lemma_i32_rt(n);
        },
        SpecValue::Long(n) => {
            lemma_buffer_slice(b, pos, enc, 0, 8);
            assert(enc.subrange(0, 8) =~= u64_be(n as u64));
            lemma_u64_at_of_be(b, pos, n as u64);
            lemma_i64_rt(n);
        },
        SpecValue::Float(bits) => {
            lemma_buffer_slice(b, pos, enc, 0, 4);
            assert(enc.subrange(0, 4) =~= u32_be(bits));
            lemma_u32_at_of_be(b, pos, bits);
        },
        SpecValue::Double(bits) => {
            lemma_buffer_slice(b, pos, enc, 0, 8);
            assert(enc.subrange(0, 8) =~= u64_be(bits));
            lemma_u64_at_of_be(b, pos, bits);
        },
        SpecValue::ByteArray(s) => {
            lemma_enc_i8s(s);
            lemma_buffer_slice(b, pos, enc, 0, 4);
            assert(enc.subrange(0, 4) =~= u32_be(s.len() as u32));
            lemma_u32_at_of_be(b, pos, s.len() as u32);
            lemma_count_rt(s.len());
            let cnt = u32_at(b, pos) as i32;
            assert(cnt as int == s.len());
            if s.len() == 0 {
                assert(s =~= Seq::<i8>::empty());
            } else {
                let decoded = Seq::new(cnt as nat, |i: int| b[pos + 4 + i] as i8);
                assert forall|i: int| 0 <= i < s.len() implies decoded[i] == s[i] by {
                    lemma_buffer_byte(b, pos, enc, 4 + i);
                    assert(enc[4 + i] == enc_i8s(s)[i]);
                    lemma_i8_rt(s[i]);
                }
                assert(decoded =~= s);
            }
        },
        SpecValue::String(s) => {
            lemma_rt_str(b, pos, s);
        },
        SpecValue::List(es) => {
            lemma_rt_list(b, pos, es, depth);
        },
        SpecValue::Compound(entries) => {
            lemma_rt_compound(b, pos, entries, depth);
        },
        SpecValue::IntArray(s) => {
            lemma_enc_i32s(s);
            lemma_buffer_slice(b, pos, enc, 0, 4);
            assert(enc.subrange(0, 4) =~= u32_be(s.len() as u32));
            lemma_u32_at_of_be(b, pos, s.len() as u32);
            lemma_count_rt(s.len());
            let cnt = u32_at(b, pos) as i32;
            assert(cnt as int == s.len());
            if s.len() == 0 {
                assert(s =~= Seq::<i32>::empty());
            } else {
                let decoded = Seq::new(cnt as nat, |i: int| u32_at(b, pos + 4 + 4 * i) as i32);
                assert forall|i: int| 0 <= i < s.len() implies decoded[i] == s[i] by {
                    lemma_buffer_slice(b, pos, enc, 4 + 4 * i, 4 + 4 * i + 4);
                    assert(enc.subrange(4 + 4 * i, 4 + 4 * i + 4) =~= enc_i32s(s).subrange(
                        4 * i,
                        4 * i + 4,
                    ));
                    assert(enc_i32s(s).subrange(4 * i, 4 * i + 4) == u32_be(s[i] as u32));
                    lemma_u32_at_of_be(b, pos + 4 + 4 * i, s[i] as u32);
                    lemma_i32_rt(s[i]);
                }
                assert(decoded =~= s);
            }
        },
        SpecValue::LongArray(s) => {
            lemma_enc_i64s(s);
            lemma_buffer_slice(b, pos, enc, 0, 4);
            assert(enc.subrange(0, 4) =~= u32_be(s.len() as u32));
            lemma_u32_at_of_be(b, pos, s.len() as u32);
            lemma_count_rt(s.len());
            let cnt = u32_at(b, pos) as i32;
            assert(cnt as int == s.len());
            if s.len() == 0 {
                assert(s =~= Seq::<i64>::empty());
            } else {
                let decoded = Seq::new(cnt as nat, |i: int| u64_at(b, pos + 4 + 8 * i) as i64);
                assert forall|i: int| 0 <= i < s.len() implies decoded[i] == s[i] by {
                    lemma_buffer_slice(b, pos, enc, 4 + 8 * i, 4 + 8 * i + 8);
                    assert(enc.subrange(4 + 8 * i, 4 + 8 * i + 8) =~= enc_i64s(s).subrange(
                        8 * i,
                        8 * i + 8,
                    ));
                    assert(enc_i64s(s).subrange(8 * i, 8 * i + 8) == u64_be(s[i] as u64));
                    lemma_u64_at_of_be(b, pos + 4 + 8 * i, s[i] as u64);
                    lemma_i64_rt(s[i]);
                }
                assert(decoded =~= s);
            }
        },
    }
}

/// The list case of the payload round trip.
proof fn lemma_rt_list(b: Seq<u8>, pos: int, es: Seq<SpecValue>, depth: nat)
    requires
        representable(SpecValue::List(es), depth),
        0 <= pos,
        pos + enc_payload(SpecValue::List(es)).len() <= b.len(),
        b.subrange(pos, pos + enc_payload(SpecValue::List(es)).len() as int) == enc_payload(
            SpecValue::List(es),
        ),
    ensures
        dec_payload(b, pos, NBTKind::List, depth) == Ok::<(SpecValue, int), Error>(
            (SpecValue::List(es), pos + enc_payload(SpecValue::List(es)).len()),
        ),
    decreases depth, 2nat, 0nat,
{
    let enc = enc_payload(SpecValue::List(es));
    if es.len() == 0 {
        lemma_buffer_slice(b, pos, enc, 1, 5);
        assert(enc.subrange(1, 5) =~= u32_be(0u32));
        lemma_u32_at_of_be(b, pos + 1, 0u32);
        lemma_count_rt(0);
        assert((u32_at(b, pos + 1) as i32) as int == 0);
        assert(es =~= Seq::<SpecValue>::empty());
    } else {
        let k = gkind(es[0]);
        lemma_buffer_byte(b, pos, enc, 0);
        assert(enc[0] == kind_byte(k));
        lemma_kind_byte_bijective();
        assert(kind_of_byte(b[pos]) == Some(k));
        lemma_gkind_not_end(es[0]);
        lemma_buffer_slice(b, pos, enc, 1, 5);
        assert(enc.subrange(1, 5) =~= u32_be(es.len() as u32));
        lemma_u32_at_of_be(b, pos + 1, es.len() as u32);
        lemma_count_rt(es.len());
        let cnt = u32_at(b, pos + 1) as i32;
        assert(cnt as int == es.len());
        lemma_rep_all_index(es, (depth - 1) as nat);
        lemma_buffer_slice(b, pos, enc, 5, enc.len() as int);
        assert(enc.subrange(5, enc.len() as int) =~= enc_elems(es));
        lemma_rt_elems(b, pos + 5, es, k, depth);
    }
}

/// The compound case of the payload round trip.
proof fn lemma_rt_compound(b: Seq<u8>, pos: int, entries: Seq<(Seq<char>, SpecValue)>, depth: nat)
    requires
        representable(SpecValue::Compound(entries), depth),
        0 <= pos,
        pos + enc_payload(SpecValue::Compound(entries)).len() <= b.len(),
        b.subrange(pos, pos + enc_payload(SpecValue::Compound(entries)).len() as int)
            == enc_payload(SpecValue::Compound(entries)),
    ensures
        dec_payload(b, pos, NBTKind::Compound, depth) == Ok::<(SpecValue, int), Error>(
            (SpecValue::Compound(entries), pos + enc_payload(SpecValue::Compound(entries)).len()),
        ),
    decreases depth, 2nat, 0nat,
{
    let enc = enc_payload(SpecValue::Compound(entries));
    let el = enc_entries(entries).len() as int;
    lemma_buffer_slice(b, pos, enc, 0, el);
    assert(enc.subrange(0, el) =~= enc_entries(entries));
    lemma_buffer_byte(b, pos, enc, el);
    assert(enc[el] == 0u8);
    lemma_rep_entries_index(entries, (depth - 1) as nat);
    lemma_enc_entries_len_ge(entries);
    lemma_rt_entries(b, pos, entries, depth, (b.len() + 1) as nat);
}

/// A run of encoded list elements decodes back to those elements.
proof fn lemma_rt_elems(b: Seq<u8>, pos: int, es: Seq<SpecValue>, k: NBTKind, depth: nat)
    requires
        depth >= 1,
        forall|i: int| 0 <= i < es.len() ==> representable(#[trigger] es[i], (depth - 1) as nat),
        forall|i: int| 0 <= i < es.len() ==> gkind(#[trigger] es[i]) == k,
        0 <= pos,
        pos + enc_elems(es).len() <= b.len(),
        b.subrange(pos, pos + enc_elems(es).len() as int) == enc_elems(es),
    ensures
        dec_elems(b, pos, k, es.len(), depth) == Ok::<(Seq<SpecValue>, int), Error>(
            (es, pos + enc_elems(es).len()),
        ),
    decreases depth, 1nat, es.len(),
{
    if es.len() == 0 {
        assert(es =~= Seq::<SpecValue>::empty());
    } else {
        lemma_enc_elems_first(es);
        let enc = enc_elems(es);
        let l0 = enc_payload(es[0]).len() as int;
        lemma_buffer_slice(b, pos, enc, 0, l0);
        assert(enc.subrange(0, l0) =~= enc_payload(es[0]));
        lemma_rt_payload(b, pos, es[0], (depth - 1) as nat);
        let rest = es.drop_first();
        assert(forall|i: int| 0 <= i < rest.len() ==> #[trigger] rest[i] == es[i + 1]);
        lemma_buffer_slice(b, pos, enc, l0, enc.len() as int);
        assert(enc.subrange(l0, enc.len() as int) =~= enc_elems(rest));
        lemma_rt_elems(b, pos + l0, rest, k, depth);
        assert(seq![es[0]] + rest =~= es);
    }
}

/// A run of encoded compound entries followed by an End byte decodes back to
/// those entries, consuming the End byte too.
proof fn lemma_rt_entries(
    b: Seq<u8>,
    pos: int,
    entries: Seq<(Seq<char>, SpecValue)>,
    depth: nat,
    fuel: nat,
)
    requires
        depth >= 1,
        fuel >= entries.len() + 1,
        forall|i: int|
            0 <= i < entries.len() ==> encode_utf8((#[trigger] entries[i]).0).len() <= 0xFFFF,
        forall|i: int|
            0 <= i < entries.len() ==> representable((#[trigger] entries[i]).1, (depth - 1) as nat),
        0 <= pos,
        pos + enc_entries(entries).len() + 1 <= b.len(),
        b.subrange(pos, pos + enc_entries(entries).len() as int) == enc_entries(entries),
        b[pos + enc_entries(entries).len()] == 0u8,
    ensures
        dec_entries(b, pos, depth, fuel) == Ok::<(Seq<(Seq<char>, SpecValue)>, int), Error>(
            (entries, pos + enc_entries(entries).len() + 1),
        ),
    decreases depth, 1nat, fuel,
{
    if entries.len() == 0 {
        assert(entries =~= Seq::<(Seq<char>, SpecValue)>::empty());
    } else {
        lemma_enc_entries_first(entries);
        let name0 = entries[0].0;
        let v0 = entries[0].1;
        let enc = enc_entries(entries);
        lemma_buffer_byte(b, pos, enc, 0);
        assert(enc[0] == kind_byte(gkind(v0)));
        lemma_gkind_not_end(v0);
        lemma_kind_byte_bijective();
        assert(b[pos] != 0u8);
        assert(kind_of_byte(b[pos]) == Some(gkind(v0)));
        let sl = enc_str(name0).len() as int;
        lemma_buffer_slice(b, pos, enc, 1, 1 + sl);
        assert(enc.subrange(1, 1 + sl) =~= enc_str(name0));
        lemma_rt_str(b, pos + 1, name0);
        let p2 = pos + 1 + sl;
        let pl = enc_payload(v0).len() as int;
        lemma_buffer_slice(b, pos, enc, 1 + sl, 1 + sl + pl);
        assert(enc.subrange(1 + sl, 1 + sl + pl) =~= enc_payload(v0));
        lemma_rt_payload(b, p2, v0, (depth - 1) as nat);
        let p3 = p2 + pl;
        let rest = entries.drop_first();
        assert(forall|i: int| 0 <= i < rest.len() ==> #[trigger] rest[i] == entries[i + 1]);
        assert(p3 == pos + enc_entry(name0, v0).len());
        lemma_buffer_slice(b, pos, enc, 1 + sl + pl, enc.len() as int);
        assert(enc.subrange(1 + sl + pl, enc.len() as int) =~= enc_entries(rest));
        assert(b[p3 + enc_entries(rest).len()] == 0u8);
        lemma_rt_entries(b, p3, rest, depth, (fuel - 1) as nat);
        assert(seq![(name0, v0)] + rest =~= entries);
    }
}

/// Round trip: every representable value, encoded as a whole stream under
/// the engines' nesting bound, decodes back to exactly itself, consuming
/// the whole encoding.
pub proof fn lemma_round_trip(g: SpecValue)
    requires
        g is Compound,
        representable(g, MAX_DEPTH as nat),
    ensures
        dec_root(enc_root(g), MAX_DEPTH as nat) == Ok::<(SpecValue, int), Error>(
            (g, enc_root(g).len() as int),
        ),
{
    let b = enc_root(g);
    assert(b[0] == 10u8);
    assert(b[1] == 0u8);
    assert(b[2] == 0u8);
    assert(((0u8 as u16) << 8u16) | (0u8 as u16) == 0u16) by (bit_vector);
    assert(u16_at(b, 1) == 0u16);
    let chunk = b.subrange(3, 3);
    assert(chunk =~= Seq::<u8>::empty());
    assert(valid_utf8(chunk));
    assert(decode_utf8(chunk) =~= Seq::<char>::empty());
    assert(dec_str(b, 1) == Ok::<(Seq<char>, int), Error>((Seq::<char>::empty(), 3)));
    assert(b.subrange(3, 3 + enc_payload(g).len() as int) =~= enc_payload(g));
    lemma_rt_payload(b, 3, g, MAX_DEPTH as nat);
}


/// A list whose declared count is zero or negative decodes to the empty
/// list, consuming only its five header bytes, whatever its declared
/// element kind byte holds — End, a real kind, or a byte outside the kind
/// range altogether.
pub proof fn lemma_list_count_not_positive(b: Seq<u8>, pos: int, depth: nat)
    requires
        depth >= 1,
        0 <= pos,
        pos + 5 <= b.len(),
        (u32_at(b, pos + 1) as i32) <= 0,
    ensures
        dec_payload(b, pos, NBTKind::List, depth) == Ok::<(SpecValue, int), Error>(
            (SpecValue::List(Seq::empty()), pos + 5),
        ),
{
}

/// An encoder always terminates a compound with exactly one End marker:
/// the payload is the encoded entries followed by a single End byte, and
/// no entry opens with the End byte itself.
pub proof fn lemma_compound_end_marker(entries: Seq<(Seq<char>, SpecValue)>)
    ensures
        enc_payload(SpecValue::Compound(entries)) == enc_entries(entries).push(0u8),
        forall|i: int|
            0 <= i < entries.len() ==> (#[trigger] enc_entry(entries[i].0, entries[i].1))[0] != 0,
{
    assert(enc_entries(entries) + seq![0u8] =~= enc_entries(entries).push(0u8));
    assert forall|i: int|
        0 <= i < entries.len() implies (#[trigger] enc_entry(entries[i].0, entries[i].1))[0]
        != 0 by {
        lemma_gkind_not_end(entries[i].1);
        assert(enc_entry(entries[i].0, entries[i].1)[0] == kind_byte(gkind(entries[i].1)));
    }
}

/// Compound entry order does not affect decoded-value equality: two
/// representable compounds whose entries agree as name-to-value maps
/// encode, decode back, and still agree as maps, whatever order either
/// wrote its entries in.
pub proof fn lemma_compound_order_irrelevant(
    e1: Seq<(Seq<char>, SpecValue)>,
    e2: Seq<(Seq<char>, SpecValue)>,
)
    requires
        representable(SpecValue::Compound(e1), MAX_DEPTH as nat),
        representable(SpecValue::Compound(e2), MAX_DEPTH as nat),
        entries_map(e1) == entries_map(e2),
    ensures
        dec_root(enc_root(SpecValue::Compound(e1)), MAX_DEPTH as nat) is Ok,
        dec_root(enc_root(SpecValue::Compound(e2)), MAX_DEPTH as nat) is Ok,
        entries_map(
            dec_root(enc_root(SpecValue::Compound(e1)), MAX_DEPTH as nat)->Ok_0.0->Compound_0,
        ) == entries_map(
            dec_root(enc_root(SpecValue::Compound(e2)), MAX_DEPTH as nat)->Ok_0.0->Compound_0,
        ),
{
    lemma_round_trip(SpecValue::Compound(e1));
    lemma_round_trip(SpecValue::Compound(e2));
}

} // verus!
