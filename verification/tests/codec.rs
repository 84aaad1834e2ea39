use std::io::Write;

use nbt_codec::de::{from_gzip_slice, from_slice, from_zlib_slice, NBTDeserializer};
use nbt_codec::error::Error;
use nbt_codec::kind::NBTKind;
use nbt_codec::ser::to_bytes;
use nbt_codec::tag::{byte_array, int_array, long_array, NBTValue};

fn servers_value() -> NBTValue {
    NBTValue::Compound(vec![(
        "servers".to_string(),
        NBTValue::List(vec![NBTValue::Compound(vec![
            ("ip".to_string(), NBTValue::String("loucaskreger.com".to_string())),
            ("name".to_string(), NBTValue::String("Minecraft Server".to_string())),
        ])]),
    )])
}

fn servers_bytes() -> Vec<u8> {
    let mut expected: Vec<u8> = Vec::new();
    // root compound, empty name
    expected.extend_from_slice(&[10, 0, 0]);
    // entry: the list's kind byte, then the deferred field name
    expected.extend_from_slice(&[9, 0, 7]);
    expected.extend_from_slice(b"servers");
    // first element's kind byte doubles as the element kind, then the count
    expected.extend_from_slice(&[10, 0, 0, 0, 1]);
    // nested compound: kind String + name "ip" + payload
    expected.extend_from_slice(&[8, 0, 2]);
    expected.extend_from_slice(b"ip");
    expected.extend_from_slice(&[0, 16]);
    expected.extend_from_slice(b"loucaskreger.com");
    // kind String + name "name" + payload
    expected.extend_from_slice(&[8, 0, 4]);
    expected.extend_from_slice(b"name");
    expected.extend_from_slice(&[0, 16]);
    expected.extend_from_slice(b"Minecraft Server");
    // nested compound End, then root End
    expected.extend_from_slice(&[0, 0]);
    expected
}

#[test]
fn test_write() {
    // A server record, checked byte for byte against the wire layout.
    let bytes = to_bytes(&servers_value()).unwrap();
    assert_eq!(bytes, servers_bytes());

    // A byte array field encodes with a count and raw elements.
    let tagged = NBTValue::Compound(vec![("after".to_string(), byte_array(vec![1, 2]))]);
    let out = to_bytes(&tagged).unwrap();
    let mut expected: Vec<u8> = vec![10, 0, 0, 7, 0, 5];
    expected.extend_from_slice(b"after");
    expected.extend_from_slice(&[0, 0, 0, 2, 1, 2, 0]);
    assert_eq!(out, expected);
}

#[test]
fn nested_record_decodes_back() {
    let decoded = from_slice(servers_bytes()).unwrap();
    assert_eq!(decoded, servers_value());
}

#[test]
fn round_trip_all_kinds() {
    let v = NBTValue::Compound(vec![
        ("b".to_string(), NBTValue::Byte(-7)),
        ("s".to_string(), NBTValue::Short(-30000)),
        ("i".to_string(), NBTValue::Int(123456789)),
        ("l".to_string(), NBTValue::Long(-987654321012345)),
        ("f".to_string(), NBTValue::Float(1.5f32.to_bits())),
        ("d".to_string(), NBTValue::Double((-2.25f64).to_bits())),
        ("ba".to_string(), byte_array(vec![-1, 0, 1])),
        ("str".to_string(), NBTValue::String("héllo wörld".to_string())),
        (
            "list".to_string(),
            NBTValue::List(vec![
                NBTValue::List(vec![NBTValue::Int(1)]),
                NBTValue::List(vec![]),
            ]),
        ),
        (
            "nested".to_string(),
            NBTValue::Compound(vec![("inner".to_string(), NBTValue::String(String::new()))]),
        ),
        ("ia".to_string(), int_array(vec![1, -2, 3])),
        ("la".to_string(), long_array(vec![i64::MIN, i64::MAX])),
        ("empty".to_string(), NBTValue::Compound(vec![])),
    ]);
    let bytes = to_bytes(&v).unwrap();
    let back = from_slice(bytes).unwrap();
    assert_eq!(back, v);
}

#[test]
fn round_trip_preserves_nan_bits() {
    let weird_nan: u32 = 0x7FC0_1234;
    let v = NBTValue::Compound(vec![
        ("nan".to_string(), NBTValue::Float(weird_nan)),
        ("dnan".to_string(), NBTValue::Double(f64::NAN.to_bits())),
    ]);
    let back = from_slice(to_bytes(&v).unwrap()).unwrap();
    match back {
        NBTValue::Compound(entries) => {
            assert_eq!(entries[0].1, NBTValue::Float(weird_nan));
            assert_eq!(entries[1].1, NBTValue::Double(f64::NAN.to_bits()));
        }
        other => panic!("expected a compound, got {:?}", other),
    }
}

#[test]
fn compound_order_gives_map_equal_values() {
    let forward = NBTValue::Compound(vec![
        ("a".to_string(), NBTValue::Int(1)),
        ("b".to_string(), NBTValue::Int(2)),
    ]);
    let backward = NBTValue::Compound(vec![
        ("b".to_string(), NBTValue::Int(2)),
        ("a".to_string(), NBTValue::Int(1)),
    ]);
    let d1 = from_slice(to_bytes(&forward).unwrap()).unwrap();
    let d2 = from_slice(to_bytes(&backward).unwrap()).unwrap();
    let (e1, e2) = match (d1, d2) {
        (NBTValue::Compound(e1), NBTValue::Compound(e2)) => (e1, e2),
        _ => panic!("expected compounds"),
    };
    // Same name-to-value mapping, whatever the entry order was.
    for (name, value) in &e1 {
        let found = e2.iter().find(|(n, _)| n == name).expect("name missing");
        assert_eq!(&found.1, value);
    }
    assert_eq!(e1.len(), e2.len());
    // Encounter order itself is preserved by the engine.
    assert_eq!(e1[0].0, "a");
    assert_eq!(e2[0].0, "b");
}

#[test]
fn compound_terminates_with_exactly_one_end() {
    let v = NBTValue::Compound(vec![("x".to_string(), NBTValue::Byte(1))]);
    let bytes = to_bytes(&v).unwrap();
    // root header, entry (kind 1, name "x", payload 1), exactly one End
    assert_eq!(bytes, vec![10, 0, 0, 1, 0, 1, b'x', 1, 0]);
    assert_eq!(*bytes.last().unwrap(), 0);
    assert_eq!(bytes.iter().rev().take_while(|b| **b == 0).count(), 1);
}

#[test]
fn list_with_zero_count_accepts_any_kind_byte() {
    // element kind bytes: End, a real kind, and an out-of-range byte
    for kind_byte in [0u8, 1u8, 0xFFu8] {
        let mut de = NBTDeserializer::from_slice(vec![kind_byte, 0, 0, 0, 0]);
        let v = de.parse_nbt_tag(NBTKind::List, 512).unwrap();
        assert_eq!(v, NBTValue::List(vec![]));
        assert_eq!(de.parser.pos, 5);
    }
}

#[test]
fn list_with_negative_count_accepts_any_kind_byte() {
    for kind_byte in [0u8, 9u8, 200u8] {
        let mut de = NBTDeserializer::from_slice(vec![kind_byte, 0xFF, 0xFF, 0xFF, 0xFF]);
        let v = de.parse_nbt_tag(NBTKind::List, 512).unwrap();
        assert_eq!(v, NBTValue::List(vec![]));
    }
}

#[test]
fn boolean_byte_other_than_zero_or_one_fails() {
    // a compound with flag = Byte(5), decoded, then read as a boolean
    let v = NBTValue::Compound(vec![("flag".to_string(), NBTValue::Byte(5))]);
    let decoded = from_slice(to_bytes(&v).unwrap()).unwrap();
    let flag = match &decoded {
        NBTValue::Compound(entries) => &entries[0].1,
        _ => panic!("expected a compound"),
    };
    assert_eq!(flag.as_bool(), Err(Error::ExpectedBooleanByte(5)));
    assert_eq!(NBTValue::Byte(0).as_bool(), Ok(false));
    assert_eq!(NBTValue::Byte(1).as_bool(), Ok(true));
    assert_eq!(NBTValue::Byte(-1).as_bool(), Err(Error::ExpectedBooleanByte(-1)));
    assert_eq!(
        NBTValue::Int(1).as_bool(),
        Err(Error::MismatchedTag(NBTKind::Int, NBTKind::Byte))
    );
}

#[test]
fn non_compound_root_fails_consuming_one_byte() {
    for first in [0u8, 1u8, 9u8, 11u8, 42u8, 255u8] {
        let mut de = NBTDeserializer::from_slice(vec![first, 0, 0, 1, 2, 3]);
        assert_eq!(de.decode_root(), Err(Error::ExpectedRootCompound));
        assert_eq!(de.parser.pos, 1);
    }
    assert_eq!(from_slice(vec![]), Err(Error::Eof));
}

#[test]
fn int_array_field_encodes_without_element_kind_bytes() {
    let v = NBTValue::Compound(vec![("data".to_string(), int_array(vec![1, 2, 3]))]);
    let bytes = to_bytes(&v).unwrap();
    let mut expected: Vec<u8> = vec![10, 0, 0, 11, 0, 4];
    expected.extend_from_slice(b"data");
    expected.extend_from_slice(&[0, 0, 0, 3]);
    expected.extend_from_slice(&[0, 0, 0, 1, 0, 0, 0, 2, 0, 0, 0, 3]);
    expected.push(0);
    assert_eq!(bytes, expected);

    // Array kinds are not list-compatible on decode.
    let decoded = from_slice(bytes).unwrap();
    let field = match &decoded {
        NBTValue::Compound(entries) => &entries[0].1,
        _ => panic!("expected a compound"),
    };
    assert_eq!(*field, int_array(vec![1, 2, 3]));
    assert!(matches!(
        field.as_list(),
        Err(Error::MismatchedTag(NBTKind::IntArray, NBTKind::List))
    ));
}

#[test]
fn gzip_round_trip() {
    let plain = to_bytes(&servers_value()).unwrap();
    let mut encoder = flate2::write::GzEncoder::new(Vec::new(), flate2::Compression::default());
    encoder.write_all(&plain).unwrap();
    let compressed = encoder.finish().unwrap();
    assert_ne!(compressed, plain);
    let decoded = from_gzip_slice(compressed).unwrap();
    assert_eq!(decoded, servers_value());
}

#[test]
fn zlib_round_trip() {
    let plain = to_bytes(&servers_value()).unwrap();
    let mut encoder = flate2::write::ZlibEncoder::new(Vec::new(), flate2::Compression::default());
    encoder.write_all(&plain).unwrap();
    let compressed = encoder.finish().unwrap();
    let decoded = from_zlib_slice(compressed).unwrap();
    assert_eq!(decoded, servers_value());
}

#[test]
fn gzip_garbage_fails_with_io() {
    assert_eq!(from_gzip_slice(vec![1, 2, 3, 4]), Err(Error::Io));
    assert_eq!(from_zlib_slice(vec![9, 9, 9, 9]), Err(Error::Io));
}

#[test]
fn multibyte_string_length_counts_bytes_not_chars() {
    // "é" is one character but two UTF-8 bytes; the prefix must say 2.
    let v = NBTValue::Compound(vec![("e".to_string(), NBTValue::String("é".to_string()))]);
    let bytes = to_bytes(&v).unwrap();
    let expected: Vec<u8> = vec![10, 0, 0, 8, 0, 1, b'e', 0, 2, 0xC3, 0xA9, 0];
    assert_eq!(bytes, expected);
    assert_eq!(from_slice(bytes).unwrap(), v);
}
