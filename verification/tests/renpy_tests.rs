use gamedec::pickle::Pickle;
use gamedec::renpy::{archive_index, RenPyCompiledScript, RenPyError};
use std::io::Write;

fn zlib_compress(data: &[u8]) -> Vec<u8> {
    let mut enc = flate2::write::ZlibEncoder::new(Vec::new(), flate2::Compression::default());
    enc.write_all(data).unwrap();
    enc.finish().unwrap()
}

/// A script container holding the given (slot, pickle bytes) chunks.
fn script(chunks: &[(u32, Vec<u8>)]) -> Vec<u8> {
    let compressed: Vec<Vec<u8>> = chunks.iter().map(|(_, d)| zlib_compress(d)).collect();
    let mut v = b"RENPY RPC2".to_vec();
    let table_len = 12 * (chunks.len() + 1);
    let mut offset = v.len() + table_len;
    for ((slot, _), comp) in chunks.iter().zip(&compressed) {
        v.extend_from_slice(&slot.to_le_bytes());
        v.extend_from_slice(&(offset as u32).to_le_bytes());
        v.extend_from_slice(&(comp.len() as u32).to_le_bytes());
        offset += comp.len();
    }
    v.extend_from_slice(&[0; 12]); // terminator record
    for comp in &compressed {
        v.extend_from_slice(comp);
    }
    v
}

#[test]
fn load_decompresses_each_chunk() {
    let data = script(&[(1, b"first".to_vec()), (2, b"second".to_vec())]);
    let s = RenPyCompiledScript::load(&data).unwrap();
    assert_eq!(s.chunks.len(), 2);
    assert_eq!(s.chunks[0].slot, 1);
    assert_eq!(s.chunks[0].data, b"first".to_vec());
    assert_eq!(s.chunks[1].slot, 2);
    assert_eq!(s.chunks[1].data, b"second".to_vec());
}

#[test]
fn chunk_selects_the_first_matching_slot() {
    let data = script(&[(1, b"one".to_vec()), (2, b"two".to_vec())]);
    let s = RenPyCompiledScript::load(&data).unwrap();
    let c = s.chunk(2).unwrap();
    assert_eq!(c.data, b"two".to_vec());

    let s = RenPyCompiledScript::load(&data).unwrap();
    assert!(s.chunk(9).is_none());
}

#[test]
fn wrong_magic_is_invalid_header() {
    let mut data = script(&[(1, b"x".to_vec())]);
    data[0] = b'X';
    assert_eq!(
        RenPyCompiledScript::load(&data).unwrap_err(),
        RenPyError::ScriptInvalidHeader
    );
}

#[test]
fn corrupt_chunk_fails_decompression() {
    let mut data = script(&[(1, b"payload".to_vec())]);
    data[34] ^= 0xFF; // first byte of the compressed chunk
    assert_eq!(
        RenPyCompiledScript::load(&data).unwrap_err(),
        RenPyError::ChunkDecompressFailed
    );
}

#[test]
fn truncated_table_is_out_of_data() {
    let mut data = b"RENPY RPC2".to_vec();
    data.extend_from_slice(&1u32.to_le_bytes());
    assert_eq!(
        RenPyCompiledScript::load(&data).unwrap_err(),
        RenPyError::OutOfData
    );
}

#[test]
fn chunk_pickle_parses_the_decompressed_stream() {
    // An empty-dict pickle inside a compressed chunk.
    let pickle_bytes = vec![0x80, 4, 0x7D, 0x2E];
    let data = script(&[(1, pickle_bytes)]);
    let s = RenPyCompiledScript::load(&data).unwrap();
    let c = s.chunk(1).unwrap();
    match c.pickle().unwrap() {
        Pickle::Dict(d) => assert_eq!(d.len(), 0),
        other => panic!("expected a dict, got {:?}", other),
    }
}

#[test]
fn archive_index_unmasks_offsets_and_lengths() {
    // {"a.txt": [(0x20 ^ key, 0x10 ^ key, "")]} with key 0xFF.
    let key: u64 = 0xFF;
    let mut chunks: Vec<Pickle> = Vec::new();
    chunks.push(Pickle::Tuple(vec![
        Pickle::Number(gamedec::pickle::PickleNumber::Uint(0x20 ^ key)),
        Pickle::Number(gamedec::pickle::PickleNumber::Uint(0x10 ^ key)),
        Pickle::String(String::new()),
    ]));
    let mut dict: Vec<(String, Pickle)> = Vec::new();
    Pickle::dict_set(&mut dict, String::from("a.txt"), Pickle::List(chunks));

    let index = archive_index(Pickle::Dict(dict), key).unwrap();
    assert_eq!(index.len(), 1);
    assert_eq!(index[0].0, "a.txt");
    assert_eq!(index[0].1, vec![(0x20, 0x10)]);

    assert_eq!(
        archive_index(Pickle::NoneVal, key).unwrap_err(),
        RenPyError::PickleParseFail
    );
}
