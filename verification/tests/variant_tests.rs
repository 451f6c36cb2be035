use gamedec::bytes::ByteCursor;
use gamedec::variant::{ResourceError, Variant, VariantObject};

fn tag(t: u32) -> Vec<u8> {
    t.to_le_bytes().to_vec()
}

fn decode(bytes: &[u8]) -> Result<Variant, ResourceError> {
    let mut cur = ByteCursor::new(bytes);
    Variant::read(&mut cur, 5, false)
}

#[test]
fn int_variant_scenario() {
    // tag=3 (Int), i32=-7 decodes to Int(-7).
    let mut data = tag(3);
    data.extend_from_slice(&(-7i32).to_le_bytes());
    match decode(&data).unwrap() {
        Variant::Int(v) => assert_eq!(v, -7),
        other => panic!("expected Int, got {:?}", other),
    }
}

#[test]
fn unknown_variant_tag_is_rejected() {
    let mut data = tag(99);
    data.extend_from_slice(&[0, 0, 0, 0]);
    assert_eq!(decode(&data).unwrap_err(), ResourceError::UnknownVariant(99));
}

#[test]
fn bool_and_nil_variants() {
    let mut data = tag(2);
    data.extend_from_slice(&1u32.to_le_bytes());
    assert!(matches!(decode(&data).unwrap(), Variant::Bool(true)));
    assert!(matches!(decode(&tag(1)).unwrap(), Variant::Nil));
}

#[test]
fn string_variant_reads_length_prefixed_utf8() {
    let mut data = tag(5);
    data.extend_from_slice(&5u32.to_le_bytes());
    data.extend_from_slice(b"hello");
    match decode(&data).unwrap() {
        Variant::String(s) => assert_eq!(s, "hello"),
        other => panic!("expected String, got {:?}", other),
    }
}

#[test]
fn packed_byte_array_consumes_payload_and_padding() {
    // L = 5 payload bytes plus (4 - 5 mod 4) mod 4 = 3 padding bytes are
    // fully consumed: the cursor ends exactly at the stream's end.
    let mut data = tag(31);
    data.extend_from_slice(&5u32.to_le_bytes());
    data.extend_from_slice(&[1, 2, 3, 4, 5]);
    data.extend_from_slice(&[0, 0, 0]);
    let mut cur = ByteCursor::new(&data);
    match Variant::read(&mut cur, 5, false).unwrap() {
        Variant::PackedByteArray(v) => assert_eq!(v, vec![1, 2, 3, 4, 5]),
        other => panic!("expected PackedByteArray, got {:?}", other),
    }
    assert_eq!(cur.remaining(), 0);
}

#[test]
fn packed_byte_array_aligned_length_has_no_padding() {
    let mut data = tag(31);
    data.extend_from_slice(&4u32.to_le_bytes());
    data.extend_from_slice(&[9, 8, 7, 6]);
    let mut cur = ByteCursor::new(&data);
    match Variant::read(&mut cur, 5, false).unwrap() {
        Variant::PackedByteArray(v) => assert_eq!(v, vec![9, 8, 7, 6]),
        other => panic!("expected PackedByteArray, got {:?}", other),
    }
    assert_eq!(cur.remaining(), 0);
}

#[test]
fn array_length_high_bit_is_masked() {
    // A length field of 0x80000001 decodes as length 1.
    let mut data = tag(30);
    data.extend_from_slice(&0x8000_0001u32.to_le_bytes());
    data.extend_from_slice(&tag(1));
    match decode(&data).unwrap() {
        Variant::Array(items) => {
            assert_eq!(items.len(), 1);
            assert!(matches!(items[0], Variant::Nil));
        },
        other => panic!("expected Array, got {:?}", other),
    }
}

#[test]
fn dictionary_keys_must_be_strings() {
    let mut data = tag(26);
    data.extend_from_slice(&1u32.to_le_bytes());
    data.extend_from_slice(&tag(3));
    data.extend_from_slice(&1i32.to_le_bytes());
    data.extend_from_slice(&tag(1));
    assert_eq!(
        decode(&data).unwrap_err(),
        ResourceError::VariantDictionaryKeyNotString
    );
}

#[test]
fn dictionary_decodes_string_keyed_pairs() {
    let mut data = tag(26);
    data.extend_from_slice(&0x8000_0001u32.to_le_bytes());
    data.extend_from_slice(&tag(5));
    data.extend_from_slice(&1u32.to_le_bytes());
    data.extend_from_slice(b"k");
    data.extend_from_slice(&tag(3));
    data.extend_from_slice(&41i32.to_le_bytes());
    match decode(&data).unwrap() {
        Variant::Dictionary(d) => {
            assert_eq!(d.len(), 1);
            assert_eq!(d[0].0, "k");
            assert!(matches!(d[0].1, Variant::Int(41)));
        },
        other => panic!("expected Dictionary, got {:?}", other),
    }
}

#[test]
fn object_reference_kinds_decode() {
    let mut data = tag(24);
    data.extend_from_slice(&2u32.to_le_bytes());
    data.extend_from_slice(&12u32.to_le_bytes());
    match decode(&data).unwrap() {
        Variant::Object(VariantObject::InternalResource(i)) => assert_eq!(i, 12),
        other => panic!("expected an internal reference, got {:?}", other),
    }

    let mut data = tag(24);
    data.extend_from_slice(&7u32.to_le_bytes());
    assert_eq!(decode(&data).unwrap_err(), ResourceError::UnknownVariant(7));
}

#[test]
fn packed_int32_array_decodes_elements() {
    let mut data = tag(32);
    data.extend_from_slice(&3u32.to_le_bytes());
    for v in [-1i32, 0, 7] {
        data.extend_from_slice(&v.to_le_bytes());
    }
    match decode(&data).unwrap() {
        Variant::PackedInt32Array(v) => assert_eq!(v, vec![-1, 0, 7]),
        other => panic!("expected PackedInt32Array, got {:?}", other),
    }
}

#[test]
fn reals_widen_with_the_container_flag() {
    // Vector2 under 32-bit reals consumes 8 bytes; under 64-bit reals,
    // 16 bytes; the stored bit patterns come back verbatim.
    let mut data = tag(10);
    data.extend_from_slice(&0x3F80_0000u32.to_le_bytes());
    data.extend_from_slice(&0x4000_0000u32.to_le_bytes());
    let mut cur = ByteCursor::new(&data);
    match Variant::read(&mut cur, 5, false).unwrap() {
        Variant::Vector2((x, y)) => {
            assert_eq!(x, 0x3F80_0000);
            assert_eq!(y, 0x4000_0000);
        },
        other => panic!("expected Vector2, got {:?}", other),
    }
    assert_eq!(cur.remaining(), 0);

    let mut data = tag(10);
    data.extend_from_slice(&0x3FF0_0000_0000_0000u64.to_le_bytes());
    data.extend_from_slice(&0x4000_0000_0000_0000u64.to_le_bytes());
    let mut cur = ByteCursor::new(&data);
    match Variant::read(&mut cur, 5, true).unwrap() {
        Variant::Vector2((x, y)) => {
            assert_eq!(x, 0x3FF0_0000_0000_0000);
            assert_eq!(y, 0x4000_0000_0000_0000);
        },
        other => panic!("expected Vector2, got {:?}", other),
    }
    assert_eq!(cur.remaining(), 0);
}

#[test]
fn truncated_variant_is_out_of_data() {
    let data = tag(3);
    assert_eq!(decode(&data).unwrap_err(), ResourceError::OutOfData);
}

#[test]
fn invalid_utf8_in_a_string_variant_is_rejected() {
    let mut data = tag(5);
    data.extend_from_slice(&2u32.to_le_bytes());
    data.extend_from_slice(&[0xFF, 0xFE]);
    assert_eq!(decode(&data).unwrap_err(), ResourceError::StringNotUtf8);
}
