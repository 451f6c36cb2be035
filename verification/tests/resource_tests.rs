use gamedec::resource::{ResourceContainer, FLAG_UIDS};
use gamedec::variant::{ResourceError, Variant};

fn gstr(s: &str) -> Vec<u8> {
    let mut v = (s.len() as u32).to_le_bytes().to_vec();
    v.extend_from_slice(s.as_bytes());
    v
}

/// One container image with a single internal resource holding one
/// Int(-7) property.
fn container(schema: i32, flags: u32, raw_ext_count: u32, ext_entries: u32) -> Vec<u8> {
    let mut v = b"RSRC".to_vec();
    v.extend_from_slice(&0u32.to_le_bytes()); // little-endian
    v.extend_from_slice(&0u32.to_le_bytes()); // 32-bit reals
    v.extend_from_slice(&4u32.to_le_bytes());
    v.extend_from_slice(&4u32.to_le_bytes());
    v.extend_from_slice(&schema.to_le_bytes());
    v.extend_from_slice(&gstr("Test"));
    v.extend_from_slice(&0u64.to_le_bytes()); // metadata offset
    v.extend_from_slice(&flags.to_le_bytes());
    if flags & FLAG_UIDS != 0 {
        v.extend_from_slice(&77u64.to_le_bytes());
    } else {
        v.extend_from_slice(&0u32.to_le_bytes()); // skipped slot
    }
    for _ in 0..11 {
        v.extend_from_slice(&0u32.to_le_bytes()); // reserved
    }
    v.extend_from_slice(&1u32.to_le_bytes()); // string table
    v.extend_from_slice(&gstr("prop"));
    v.extend_from_slice(&raw_ext_count.to_le_bytes());
    for i in 0..ext_entries {
        v.extend_from_slice(&gstr("Scene"));
        v.extend_from_slice(&gstr(&format!("res://ext{}.tscn", i)));
        if flags & FLAG_UIDS != 0 {
            v.extend_from_slice(&(100 + i as u64).to_le_bytes());
        }
    }
    if schema == 3 {
        v.extend_from_slice(&0u32.to_le_bytes()); // extra reserved field
    }
    let name = "res1";
    let offset_size = if schema == 3 { 4 } else { 8 };
    let index_size = 4 + (4 + name.len()) + offset_size;
    let entry_offset = v.len() + index_size;
    v.extend_from_slice(&1u32.to_le_bytes()); // internal index count
    v.extend_from_slice(&gstr(name));
    if schema == 3 {
        v.extend_from_slice(&(entry_offset as u32).to_le_bytes());
    } else {
        v.extend_from_slice(&(entry_offset as u64).to_le_bytes());
    }
    v.extend_from_slice(&gstr("Node"));
    v.extend_from_slice(&1u32.to_le_bytes()); // property count
    v.extend_from_slice(&0u32.to_le_bytes()); // name index
    v.extend_from_slice(&3u32.to_le_bytes()); // Int tag
    v.extend_from_slice(&(-7i32).to_le_bytes());
    v
}

fn check_loaded(c: &ResourceContainer, schema: i32) {
    assert_eq!(c.bin_version, schema);
    assert_eq!(c.resource_type, "Test");
    assert_eq!(c.string_table, vec![String::from("prop")]);
    assert_eq!(c.internal_resources.len(), 1);
    let (name, ty, props) = &c.internal_resources[0];
    assert_eq!(name, "res1");
    assert_eq!(ty, "Node");
    assert_eq!(props.len(), 1);
    assert_eq!(props[0].0, 0);
    assert!(matches!(props[0].1, Variant::Int(-7)));
}

#[test]
fn schema_five_reads_raw_external_count() {
    let data = container(5, 0, 1, 1);
    let c = ResourceContainer::load(&data).unwrap();
    check_loaded(&c, 5);
    assert_eq!(c.external_resources.len(), 1);
    assert_eq!(c.external_resources[0].0, "Scene");
    assert_eq!(c.external_resources[0].2, None);
}

#[test]
fn schema_three_halves_raw_external_count() {
    // The raw stored count is 2, but schema 3 iterates rawCount / 2 = 1
    // records, and then consumes one extra reserved field.
    let data = container(3, 0, 2, 1);
    let c = ResourceContainer::load(&data).unwrap();
    check_loaded(&c, 3);
    assert_eq!(c.external_resources.len(), 1);
}

#[test]
fn missing_uids_bit_skips_exactly_four_bytes() {
    // With the UIDS bit clear the loader advances four bytes at the UID
    // slot and reports no identifier; every later field still lines up.
    let data = container(5, 0, 0, 0);
    let c = ResourceContainer::load(&data).unwrap();
    assert_eq!(c.uid, None);
    check_loaded(&c, 5);
}

#[test]
fn uids_bit_reads_eight_byte_identifiers() {
    let data = container(5, FLAG_UIDS, 1, 1);
    let c = ResourceContainer::load(&data).unwrap();
    assert_eq!(c.uid, Some(77));
    assert_eq!(c.external_resources[0].2, Some(100));
}

#[test]
fn big_endian_containers_are_rejected() {
    let mut data = container(5, 0, 0, 0);
    data[4] = 1;
    assert_eq!(
        ResourceContainer::load(&data).unwrap_err(),
        ResourceError::BigEndianNotSupported
    );
}

#[test]
fn unknown_schema_version_is_rejected() {
    let mut data = container(5, 0, 0, 0);
    let schema4 = 4i32.to_le_bytes();
    data[20..24].copy_from_slice(&schema4);
    assert_eq!(
        ResourceContainer::load(&data).unwrap_err(),
        ResourceError::UnsupportedVersion(4)
    );
}

#[test]
fn wrong_magic_is_malformed_header() {
    let mut data = container(5, 0, 0, 0);
    data[0] = b'X';
    assert_eq!(
        ResourceContainer::load(&data).unwrap_err(),
        ResourceError::MalformedHeader
    );
}

/// A minimal single-frame zstd stream holding `content` as one raw block.
fn zstd_frame(content: &[u8]) -> Vec<u8> {
    assert!(content.len() < 256);
    let mut v = vec![0x28, 0xB5, 0x2F, 0xFD];
    v.push(0x20); // single segment, 1-byte content size
    v.push(content.len() as u8);
    let header: u32 = ((content.len() as u32) << 3) | 1; // last raw block
    v.extend_from_slice(&header.to_le_bytes()[0..3]);
    v.extend_from_slice(content);
    v
}

#[test]
fn compressed_container_round_trips_through_blocks() {
    // A compressed stream: the body (with offsets relative to the
    // decompressed content) packed into one zstd block.
    let with_magic = container(5, 0, 0, 0);
    let mut content = with_magic[4..].to_vec();
    // Internal offsets inside the decompressed content shift down by the
    // 4 magic bytes.
    let name = "res1";
    let offset_pos = content.len()
        - (4 + "Node".len())
        - 4
        - 4
        - 4
        - 4
        - 8;
    let _ = name;
    let old = u64::from_le_bytes(content[offset_pos..offset_pos + 8].try_into().unwrap());
    content[offset_pos..offset_pos + 8].copy_from_slice(&(old - 4).to_le_bytes());

    let frame = zstd_frame(&content);
    let mut data = b"RSCC".to_vec();
    data.extend_from_slice(&2u32.to_le_bytes()); // zstd
    data.extend_from_slice(&65536u32.to_le_bytes()); // block size
    data.extend_from_slice(&(content.len() as u32).to_le_bytes());
    data.extend_from_slice(&(frame.len() as u32).to_le_bytes());
    data.extend_from_slice(&frame);

    let c = ResourceContainer::load(&data).unwrap();
    check_loaded(&c, 5);
}

#[test]
fn truncated_compressed_container_is_out_of_data() {
    let data = b"RSCC\x02\x00".to_vec();
    assert_eq!(
        ResourceContainer::load(&data).unwrap_err(),
        ResourceError::OutOfData
    );
}
