use std::io::Write;

use nbt_codec::de::{from_slice, NBTDeserializer, NBTDeserializerImpl};
use nbt_codec::error::Error;
use nbt_codec::kind::NBTKind;
use nbt_codec::nbtreader::NBTReader;
use nbt_codec::ser::{
    to_bytes, NBTMapSerializer, NBTSeqSerializer, NBTSerializerImpl, NBTStructSerializer,
};
use nbt_codec::tag::NBTValue;
use nbt_codec::writer::{DelayedHeader, Writer};

#[test]
fn kind_bytes_are_bijective() {
    let kinds = [
        NBTKind::End,
        NBTKind::Byte,
        NBTKind::Short,
        NBTKind::Int,
        NBTKind::Long,
        NBTKind::Float,
        NBTKind::Double,
        NBTKind::ByteArray,
        NBTKind::String,
        NBTKind::List,
        NBTKind::Compound,
        NBTKind::IntArray,
        NBTKind::LongArray,
    ];
    for (i, k) in kinds.iter().enumerate() {
        assert_eq!(k.header_byte(), i as u8);
        assert_eq!(NBTKind::from_byte(i as u8), Ok(*k));
    }
    for b in 13u16..=255 {
        assert_eq!(NBTKind::from_byte(b as u8), Err(Error::InvalidTagId));
    }
}

#[test]
fn invalid_entry_kind_byte_fails() {
    // root compound, empty name, then an entry kind byte of 13
    let bytes = vec![10, 0, 0, 13, 0, 1, b'x'];
    assert_eq!(from_slice(bytes), Err(Error::InvalidTagId));
}

#[test]
fn invalid_utf8_in_name_fails() {
    // entry kind Byte, name of length 1 whose byte is not valid UTF-8
    let bytes = vec![10, 0, 0, 1, 0, 1, 0xFF, 5, 0];
    assert_eq!(from_slice(bytes), Err(Error::InvalidUtf8));
}

#[test]
fn truncated_payload_fails_with_eof() {
    // entry announces an Int but only two payload bytes follow
    let bytes = vec![10, 0, 0, 3, 0, 1, b'n', 0, 1];
    assert_eq!(from_slice(bytes), Err(Error::Eof));
    // root name runs past the end
    assert_eq!(from_slice(vec![10, 0, 9, b'a']), Err(Error::Eof));
}

#[test]
fn decode_depth_limit_yields_dedicated_error() {
    // a root whose field nests lists far deeper than the engine's bound
    let mut bytes = vec![10, 0, 0, 9, 0, 1, b'l'];
    for _ in 0..600 {
        // each level: element kind List, count 1
        bytes.extend_from_slice(&[9, 0, 0, 0, 1]);
    }
    bytes.extend_from_slice(&[0, 0, 0, 0, 0]);
    assert_eq!(from_slice(bytes), Err(Error::MaxDepthExceeded));
}

#[test]
fn encode_depth_limit_yields_dedicated_error() {
    let mut v = NBTValue::List(vec![]);
    for _ in 0..600 {
        v = NBTValue::List(vec![v]);
    }
    let root = NBTValue::Compound(vec![("deep".to_string(), v)]);
    assert_eq!(to_bytes(&root), Err(Error::MaxDepthExceeded));
}

#[test]
fn heterogeneous_list_is_unrepresentable() {
    let v = NBTValue::Compound(vec![(
        "xs".to_string(),
        NBTValue::List(vec![NBTValue::Byte(1), NBTValue::Int(2)]),
    )]);
    assert_eq!(to_bytes(&v), Err(Error::Unrepresentable));
}

#[test]
fn oversized_string_is_unrepresentable() {
    let long = "a".repeat(70_000);
    let v = NBTValue::Compound(vec![("s".to_string(), NBTValue::String(long))]);
    assert_eq!(to_bytes(&v), Err(Error::Unrepresentable));
}

#[test]
fn non_compound_root_value_is_rejected_on_encode() {
    assert_eq!(to_bytes(&NBTValue::Int(7)), Err(Error::ExpectedRootCompound));
    assert_eq!(
        to_bytes(&NBTValue::List(vec![])),
        Err(Error::ExpectedRootCompound)
    );
}

#[test]
fn error_messages_are_present() {
    let errors = [
        Error::Eof,
        Error::ExpectedRootCompound,
        Error::InvalidTagId,
        Error::MismatchedTag(NBTKind::Int, NBTKind::Byte),
        Error::ExpectedBooleanByte(9),
        Error::Unrepresentable,
        Error::InvalidUtf8,
        Error::MaxDepthExceeded,
        Error::Io,
    ];
    for e in errors {
        assert!(!e.message().is_empty());
    }
}

#[test]
fn reader_hands_out_tags_until_the_stream_runs_dry() {
    // two named byte tags back to back, then nothing
    let bytes = vec![1, 0, 1, b'a', 5, 1, 0, 1, b'b', 7];
    let mut reader = NBTReader::from(bytes);
    let first = reader.parse_nbt().unwrap().unwrap();
    assert_eq!(first.kind, NBTKind::Byte);
    assert_eq!(first.name.as_deref(), Some("a"));
    assert_eq!(first.payload, Some(NBTValue::Byte(5)));
    let second = reader.parse_nbt().unwrap().unwrap();
    assert_eq!(second.name.as_deref(), Some("b"));
    assert_eq!(second.payload, Some(NBTValue::Byte(7)));
    assert!(reader.parse_nbt().unwrap().is_none());
}

#[test]
fn reader_stops_before_a_single_stray_byte() {
    let mut reader = NBTReader::from(vec![42]);
    assert!(!reader.has_bytes_left());
    assert!(reader.parse_nbt().unwrap().is_none());
}

#[test]
fn reader_yields_end_marker_without_name_or_payload() {
    let mut reader = NBTReader::from(vec![0, 0]);
    let tag = reader.parse_nbt().unwrap().unwrap();
    assert_eq!(tag.kind, NBTKind::End);
    assert!(tag.name.is_none());
    assert!(tag.payload.is_none());
}

#[test]
fn reader_decompresses_gzip_input_by_its_magic_bytes() {
    let plain = vec![1, 0, 1, b'z', 9, 0];
    let mut encoder = flate2::write::GzEncoder::new(Vec::new(), flate2::Compression::default());
    encoder.write_all(&plain).unwrap();
    let compressed = encoder.finish().unwrap();

    let mut reader = NBTReader::from_compressed_bytes(compressed).unwrap();
    let tag = reader.parse_nbt().unwrap().unwrap();
    assert_eq!(tag.name.as_deref(), Some("z"));
    assert_eq!(tag.payload, Some(NBTValue::Byte(9)));

    let mut plain_reader = NBTReader::from_compressed_bytes(plain).unwrap();
    let tag = plain_reader.parse_nbt().unwrap().unwrap();
    assert_eq!(tag.payload, Some(NBTValue::Byte(9)));

    let mut garbage = vec![0x1f, 0x8b];
    garbage.extend_from_slice(&[0, 1, 2, 3]);
    assert!(NBTReader::from_compressed_bytes(garbage).is_err());
}

#[test]
fn struct_serializer_streams_fields_like_the_engine() {
    let mut w = Writer::new();
    w.write_u8(10);
    w.write_u8(0);
    w.write_u8(0);
    let ser = NBTStructSerializer::new(w);
    let ser = ser
        .serialize_field(&"ip".to_string(), &NBTValue::String("loucaskreger.com".to_string()))
        .unwrap();
    let ser = ser
        .serialize_field(&"n".to_string(), &NBTValue::Int(3))
        .unwrap();
    let streamed = ser.end().into_bytes();

    let whole = NBTValue::Compound(vec![
        ("ip".to_string(), NBTValue::String("loucaskreger.com".to_string())),
        ("n".to_string(), NBTValue::Int(3)),
    ]);
    assert_eq!(streamed, to_bytes(&whole).unwrap());
}

#[test]
fn map_serializer_holds_the_key_until_the_value_arrives() {
    let mut w = Writer::new();
    w.write_u8(10);
    w.write_u8(0);
    w.write_u8(0);
    let ser = NBTMapSerializer::new(w);
    let ser = ser.serialize_key("k".to_string());
    let ser = ser.serialize_value(&NBTValue::Short(-2)).unwrap();
    let streamed = ser.end().into_bytes();

    let whole = NBTValue::Compound(vec![("k".to_string(), NBTValue::Short(-2))]);
    assert_eq!(streamed, to_bytes(&whole).unwrap());
}

#[test]
fn seq_serializer_emits_the_count_once() {
    // a list of two bytes under the field name "xs", streamed by hand
    let mut w = Writer::new();
    w.write_u8(10);
    w.write_u8(0);
    w.write_u8(0);
    let mut outer = NBTSerializerImpl::new(w, Some(DelayedHeader::MapKey("xs".to_string())), false);
    outer.write(NBTKind::List).unwrap();
    let ser = NBTSeqSerializer::with_deferred_header(outer.writer, Some(DelayedHeader::List(2)));
    let ser = ser.serialize_element(&NBTValue::Byte(4)).unwrap();
    let ser = ser.serialize_element(&NBTValue::Byte(5)).unwrap();
    let mut w = ser.end();
    w.write_u8(0);
    let streamed = w.into_bytes();

    let whole = NBTValue::Compound(vec![(
        "xs".to_string(),
        NBTValue::List(vec![NBTValue::Byte(4), NBTValue::Byte(5)]),
    )]);
    assert_eq!(streamed, to_bytes(&whole).unwrap());
}

#[test]
fn serializer_impl_writes_one_tag() {
    let w = Writer::new();
    let mut ser = NBTSerializerImpl::from_writer(w);
    ser.serialize_value(&NBTValue::Int(258), 512).unwrap();
    assert_eq!(ser.writer.into_bytes(), vec![3, 0, 0, 1, 2]);
}

#[test]
fn empty_list_writes_end_kind_and_zero_count() {
    let v = NBTValue::Compound(vec![("xs".to_string(), NBTValue::List(vec![]))]);
    let bytes = to_bytes(&v).unwrap();
    let mut expected: Vec<u8> = vec![10, 0, 0, 9, 0, 2];
    expected.extend_from_slice(b"xs");
    expected.extend_from_slice(&[0, 0, 0, 0, 0, 0]);
    assert_eq!(bytes, expected);
    assert_eq!(from_slice(bytes).unwrap(), v);
}

#[test]
fn trailing_bytes_after_the_root_are_ignored() {
    let mut bytes = to_bytes(&NBTValue::Compound(vec![("x".to_string(), NBTValue::Byte(1))]))
        .unwrap();
    bytes.extend_from_slice(&[99, 98, 97]);
    let decoded = from_slice(bytes).unwrap();
    assert_eq!(
        decoded,
        NBTValue::Compound(vec![("x".to_string(), NBTValue::Byte(1))])
    );
}

#[test]
fn deserializer_reports_remaining_bytes() {
    let de = NBTDeserializer::from_slice(vec![1, 2]);
    assert!(de.has_bytes_left());
    let de = NBTDeserializer::from_slice(vec![1]);
    assert!(!de.has_bytes_left());
}

#[test]
fn deserializer_impl_decodes_the_active_kind() {
    // an Int payload with the kind byte already consumed by the context
    let de = NBTDeserializer::from_slice(vec![0, 0, 1, 2]);
    let bound = NBTDeserializerImpl::new(de, NBTKind::Int);
    let (v, rest) = bound.deserialize_any(512).unwrap();
    assert_eq!(v, NBTValue::Int(258));
    assert_eq!(rest.parser.pos, 4);

    let de = NBTDeserializer::from_slice(vec![0, 0]);
    let bound = NBTDeserializerImpl::new(de, NBTKind::String);
    let (v, _) = bound.deserialize_any(512).unwrap();
    assert_eq!(v, NBTValue::String(String::new()));
}

#[test]
fn scalar_targets_dispatch_on_the_active_kind() {
    assert_eq!(NBTValue::Byte(-3).as_i8(), Ok(-3));
    assert_eq!(NBTValue::Short(300).as_i16(), Ok(300));
    assert_eq!(NBTValue::Int(70000).as_i32(), Ok(70000));
    assert_eq!(NBTValue::Long(1 << 40).as_i64(), Ok(1 << 40));
    assert_eq!(NBTValue::Float(0x3FC00000).as_f32_bits(), Ok(0x3FC00000));
    assert_eq!(NBTValue::Double(1).as_f64_bits(), Ok(1));
    assert_eq!(
        NBTValue::String("x".to_string()).as_string().unwrap(),
        &"x".to_string()
    );
    assert_eq!(NBTValue::ByteArray(vec![1]).as_byte_array(), Ok(&vec![1i8]));
    assert_eq!(NBTValue::IntArray(vec![2]).as_int_array(), Ok(&vec![2i32]));
    assert_eq!(NBTValue::LongArray(vec![3]).as_long_array(), Ok(&vec![3i64]));
    assert!(NBTValue::Compound(vec![]).as_compound().unwrap().is_empty());

    assert_eq!(
        NBTValue::Int(1).as_i64(),
        Err(Error::MismatchedTag(NBTKind::Int, NBTKind::Long))
    );
    assert_eq!(
        NBTValue::String("s".to_string()).as_i32(),
        Err(Error::MismatchedTag(NBTKind::String, NBTKind::Int))
    );
    assert_eq!(
        NBTValue::ByteArray(vec![]).as_compound().err(),
        Some(Error::MismatchedTag(NBTKind::ByteArray, NBTKind::Compound))
    );
}

#[test]
fn compound_lookup_reads_the_map_with_last_entry_winning() {
    let v = NBTValue::Compound(vec![
        ("a".to_string(), NBTValue::Int(1)),
        ("b".to_string(), NBTValue::Int(2)),
        ("a".to_string(), NBTValue::Int(3)),
    ]);
    assert_eq!(v.get(&"a".to_string()).unwrap(), Some(&NBTValue::Int(3)));
    assert_eq!(v.get(&"b".to_string()).unwrap(), Some(&NBTValue::Int(2)));
    assert_eq!(v.get(&"c".to_string()).unwrap(), None);
    assert_eq!(
        NBTValue::Int(0).get(&"a".to_string()),
        Err(Error::MismatchedTag(NBTKind::Int, NBTKind::Compound))
    );
}
