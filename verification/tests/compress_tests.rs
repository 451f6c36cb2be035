use gamedec::compress::{Compression, CompressionError, GodotCompressedReader};

/// A minimal single-frame zstd stream holding `content` as one raw block.
fn zstd_frame(content: &[u8]) -> Vec<u8> {
    assert!(content.len() < 256);
    let mut v = vec![0x28, 0xB5, 0x2F, 0xFD];
    v.push(0x20); // single segment, 1-byte content size
    v.push(content.len() as u8);
    let header: u32 = ((content.len() as u32) << 3) | 1; // last raw block
    v.extend_from_slice(&header.to_le_bytes()[0..3]);
    v.extend_from_slice(content);
    v
}

#[test]
fn method_words_map_to_methods() {
    assert!(Compression::from(2).is_ok());
    assert_eq!(
        Compression::from(0).unwrap_err(),
        CompressionError::UnsupportedCompressionMethod(0)
    );
    assert_eq!(
        Compression::from(1).unwrap_err(),
        CompressionError::UnsupportedCompressionMethod(1)
    );
    assert_eq!(
        Compression::from(3).unwrap_err(),
        CompressionError::UnsupportedCompressionMethod(3)
    );
    assert_eq!(
        Compression::from(4).unwrap_err(),
        CompressionError::UnsupportedCompressionMethod(4)
    );
    assert_eq!(
        Compression::from(9).unwrap_err(),
        CompressionError::InvalidCompressionMethod(9)
    );
}

#[test]
fn zstd_method_decompresses_a_frame() {
    let method = Compression::from(2).unwrap();
    let out = method.decompress(zstd_frame(b"hello blocks")).unwrap();
    assert_eq!(out, b"hello blocks".to_vec());
}

#[test]
fn zstd_method_rejects_garbage() {
    let method = Compression::from(2).unwrap();
    assert_eq!(
        method.decompress(vec![1, 2, 3, 4]).unwrap_err(),
        CompressionError::DecompressionFailed
    );
}

fn compressed_stream(content: &[u8]) -> Vec<u8> {
    let frame = zstd_frame(content);
    let mut v = b"GCMP".to_vec();
    v.extend_from_slice(&2u32.to_le_bytes());
    v.extend_from_slice(&65536u32.to_le_bytes());
    v.extend_from_slice(&(content.len() as u32).to_le_bytes());
    v.extend_from_slice(&(frame.len() as u32).to_le_bytes());
    v.extend_from_slice(&frame);
    v
}

#[test]
fn open_reads_header_and_concatenates_blocks() {
    let data = compressed_stream(b"payload bytes");
    let rd = GodotCompressedReader::open(&data).unwrap();
    assert_eq!(rd.data, b"payload bytes".to_vec());
    assert_eq!(rd.length(), b"payload bytes".len());
    assert_eq!(rd.block_size, 65536);
}

#[test]
fn open_rejects_a_wrong_identifier() {
    let mut data = compressed_stream(b"x");
    data[0] = b'X';
    assert_eq!(
        GodotCompressedReader::open(&data).unwrap_err(),
        CompressionError::InvalidIdentifier
    );
}

#[test]
fn open_rejects_an_unsupported_method() {
    let mut data = compressed_stream(b"x");
    data[4..8].copy_from_slice(&1u32.to_le_bytes());
    assert_eq!(
        GodotCompressedReader::open(&data).unwrap_err(),
        CompressionError::UnsupportedCompressionMethod(1)
    );
}

#[test]
fn open_rejects_a_zero_block_size() {
    let mut data = compressed_stream(b"x");
    data[8..12].copy_from_slice(&0u32.to_le_bytes());
    assert_eq!(
        GodotCompressedReader::open(&data).unwrap_err(),
        CompressionError::InvalidBlockSize
    );
}

#[test]
fn open_rejects_a_corrupt_block() {
    let mut data = compressed_stream(b"abcdef");
    let n = data.len();
    data[n - 3] ^= 0xFF;
    data[20] = 0xFF; // corrupt the frame magic
    assert_eq!(
        GodotCompressedReader::open(&data).unwrap_err(),
        CompressionError::DecompressionFailed
    );
}

#[test]
fn truncated_header_is_out_of_data() {
    let data = b"GCMP\x02\x00".to_vec();
    assert_eq!(
        GodotCompressedReader::open(&data).unwrap_err(),
        CompressionError::OutOfData
    );
}
