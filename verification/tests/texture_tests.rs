use gamedec::ctex::{GodotCtex, GodotCtexDataFormats};
use gamedec::texture::{DataFormat, Texture, TextureError, V4Compressed2d};
use gamedec::v3stream::{V3Stream2d, DF_WEBP};

/// A compressed 2D texture image: the shared 52-byte header, then
/// length-prefixed image blocks.
fn v4_image(data_format: u32, num_mips: u32, blobs: &[&[u8]]) -> Vec<u8> {
    let mut v = b"GST2".to_vec();
    v.extend_from_slice(&1u32.to_le_bytes()); // version
    v.extend_from_slice(&64u32.to_le_bytes()); // original width
    v.extend_from_slice(&32u32.to_le_bytes()); // original height
    v.extend_from_slice(&0u32.to_le_bytes()); // flags
    v.extend_from_slice(&(-1i32).to_le_bytes()); // original mip count
    v.extend_from_slice(&[0; 12]); // reserved
    v.extend_from_slice(&data_format.to_le_bytes());
    v.extend_from_slice(&64u16.to_le_bytes());
    v.extend_from_slice(&32u16.to_le_bytes());
    v.extend_from_slice(&num_mips.to_le_bytes());
    v.extend_from_slice(&7u32.to_le_bytes()); // pixel format
    for b in blobs {
        v.extend_from_slice(&(b.len() as u32).to_le_bytes());
        v.extend_from_slice(b);
    }
    v
}

#[test]
fn v4_load_reads_header_and_mips() {
    let data = v4_image(1, 1, &[b"mip0", b"mip1"]);
    let t = V4Compressed2d::load(&data).unwrap();
    assert_eq!(t.original_width, 64);
    assert_eq!(t.original_height, 32);
    assert_eq!(t.original_num_mips, -1);
    assert_eq!(t.data_format, DataFormat::Png);
    assert_eq!(t.num_mips, 1);
    assert_eq!(t.mips.len(), 2);
    assert_eq!(t.mips[0], b"mip0".to_vec());
    assert_eq!(t.mips[1], b"mip1".to_vec());
}

#[test]
fn v4_to_image_returns_the_first_block() {
    let data = v4_image(2, 0, &[b"webpdata"]);
    let t = V4Compressed2d::load(&data).unwrap();
    let (ext, img) = t.to_image().unwrap();
    assert_eq!(ext, "webp");
    assert_eq!(img, b"webpdata".to_vec());
}

#[test]
fn v4_rejects_a_version_other_than_one() {
    let mut data = v4_image(1, 0, &[b"m"]);
    data[4..8].copy_from_slice(&2u32.to_le_bytes());
    assert_eq!(
        V4Compressed2d::load(&data).unwrap_err(),
        TextureError::CannotRead
    );
}

#[test]
fn v4_rejects_unconvertible_stored_formats() {
    let data = v4_image(0, 0, &[b"m"]);
    assert_eq!(
        V4Compressed2d::load(&data).unwrap_err(),
        TextureError::CannotRead
    );
}

#[test]
fn data_format_words_map_to_encodings() {
    assert_eq!(DataFormat::from(0).unwrap(), DataFormat::Image);
    assert_eq!(DataFormat::from(1).unwrap(), DataFormat::Png);
    assert_eq!(DataFormat::from(2).unwrap(), DataFormat::Webp);
    assert_eq!(DataFormat::from(3).unwrap(), DataFormat::BasisUniversal);
    assert_eq!(DataFormat::from(4).unwrap_err(), TextureError::CannotRead);
}

#[test]
fn texture_load_dispatches_on_the_magic() {
    let data = v4_image(1, 0, &[b"png0"]);
    let t = Texture::load(&data).unwrap();
    let (ext, img) = t.to_image().unwrap();
    assert_eq!(ext, "png");
    assert_eq!(img, b"png0".to_vec());

    let other = b"ABCD123".to_vec();
    assert_eq!(
        Texture::load(&other).unwrap_err(),
        TextureError::UnknownFormat
    );
}

/// A stream texture image with WEBP sub-blocks.
fn v3_image(num_mips: u32, payloads: &[&[u8]]) -> Vec<u8> {
    let mut v = b"GDST".to_vec();
    v.extend_from_slice(&64u16.to_le_bytes());
    v.extend_from_slice(&64u16.to_le_bytes());
    v.extend_from_slice(&32u16.to_le_bytes());
    v.extend_from_slice(&32u16.to_le_bytes());
    v.extend_from_slice(&0u32.to_le_bytes()); // flags
    v.extend_from_slice(&DF_WEBP.to_le_bytes());
    v.extend_from_slice(&num_mips.to_le_bytes());
    for p in payloads {
        v.extend_from_slice(&((p.len() + 4) as u32).to_le_bytes());
        v.extend_from_slice(b"WEBP");
        v.extend_from_slice(p);
    }
    v
}

#[test]
fn v3_load_reads_webp_sub_textures() {
    let data = v3_image(2, &[b"one", b"two"]);
    let t = V3Stream2d::load(&data).unwrap();
    assert_eq!(t.width, 64);
    assert_eq!(t.height, 32);
    assert_eq!(t.num_mips, 2);
    assert_eq!(t.mips, vec![b"one".to_vec(), b"two".to_vec()]);
    let (ext, img) = t.to_image().unwrap();
    assert_eq!(ext, "webp");
    assert_eq!(img, b"one".to_vec());
}

#[test]
fn v3_rejects_a_wrong_sub_texture_identifier() {
    let mut data = v3_image(1, &[b"xyz"]);
    let n = data.len();
    data[n - 7] = b'J'; // corrupt the WEBP identifier
    assert_eq!(V3Stream2d::load(&data).unwrap_err(), TextureError::CannotRead);
}

#[test]
fn v3_rejects_formats_without_image_bits() {
    let mut data = v3_image(0, &[]);
    data[16..20].copy_from_slice(&0u32.to_le_bytes());
    assert_eq!(V3Stream2d::load(&data).unwrap_err(), TextureError::CannotRead);
}

#[test]
fn ctex_load_reads_header_and_mips() {
    // Same layout as the compressed 2D texture, standalone type.
    let mut data = v4_image(2, 0, &[b"blob"]);
    // The magic is the little-endian word 0x32545347, the same bytes.
    let t = GodotCtex::load(&data).unwrap();
    assert_eq!(t.data_format, GodotCtexDataFormats::Webp);
    assert_eq!(t.num_mips, 0);
    assert_eq!(t.mips, vec![b"blob".to_vec()]);

    data[0] = b'X';
    assert_eq!(GodotCtex::load(&data).unwrap_err(), TextureError::UnknownFormat);
}

#[test]
fn ctex_format_words_map_to_encodings() {
    assert_eq!(
        GodotCtexDataFormats::from(2).unwrap(),
        GodotCtexDataFormats::Webp
    );
    assert_eq!(
        GodotCtexDataFormats::from(5).unwrap_err(),
        TextureError::CannotRead
    );
}

#[test]
fn to_image_cannot_convert_non_image_encodings() {
    let t = V4Compressed2d {
        original_width: 1,
        original_height: 1,
        flags: 0,
        original_num_mips: 0,
        data_format: DataFormat::BasisUniversal,
        width: 1,
        height: 1,
        num_mips: 0,
        format: 0,
        mips: vec![vec![0]],
    };
    assert_eq!(t.to_image().unwrap_err(), TextureError::CannotConvert);

    let t = V3Stream2d {
        width: 1,
        original_width: 1,
        height: 1,
        original_height: 1,
        flags: 0,
        data_format: 0,
        num_mips: 0,
        mips: vec![],
    };
    assert_eq!(t.to_image().unwrap_err(), TextureError::CannotConvert);
}
