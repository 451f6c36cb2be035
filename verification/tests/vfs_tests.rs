use gamedec::decode_hex;
use gamedec::bytes::{ByteCursor, ReadError};
use gamedec::text::indent;
use gamedec::vfs::VirtualEntry;

fn file(path: &str, data: &[u8]) -> VirtualEntry {
    VirtualEntry::File { path: path.to_string(), data: data.to_vec() }
}

fn dir(path: &str, entries: Vec<VirtualEntry>) -> VirtualEntry {
    VirtualEntry::Directory { path: path.to_string(), entries }
}

#[test]
fn read_files_deep_flattens_depth_first() {
    let tree = dir(
        "root",
        vec![
            file("a.txt", b"A"),
            dir("sub", vec![file("b.txt", b"B"), file("c.txt", b"C")]),
            file("d.txt", b"D"),
        ],
    );
    let files = tree.read_files_deep();
    let paths: Vec<&str> = files.iter().map(|(p, _)| p.as_str()).collect();
    assert_eq!(paths, vec!["a.txt", "b.txt", "c.txt", "d.txt"]);
    assert_eq!(files[1].1, b"B".to_vec());
}

#[test]
fn a_file_flattens_to_itself() {
    let f = file("only.bin", b"xyz");
    let files = f.read_files_deep();
    assert_eq!(files.len(), 1);
    assert_eq!(files[0].0, "only.bin");
    assert_eq!(files[0].1, b"xyz".to_vec());
}

#[test]
fn path_names_the_node() {
    assert_eq!(file("f", b"").path(), "f");
    assert_eq!(dir("d", vec![]).path(), "d");
}

#[test]
fn indent_prefixes_every_line_with_a_tab() {
    assert_eq!(indent(String::from("a\nb")), "\ta\n\tb");
    assert_eq!(indent(String::from("")), "\t");
    assert_eq!(indent(String::from("line\n")), "\tline\n\t");
}

#[test]
fn decode_hex_reads_digit_pairs() {
    assert_eq!(decode_hex("00ff10").unwrap(), vec![0x00, 0xFF, 0x10]);
    assert_eq!(decode_hex("DEadBEef").unwrap(), vec![0xDE, 0xAD, 0xBE, 0xEF]);
    assert_eq!(decode_hex("").unwrap(), Vec::<u8>::new());
    assert_eq!(decode_hex("zz").unwrap_err(), ReadError::InvalidHexDigit);
}

#[test]
fn byte_cursor_reads_little_endian_fields() {
    let data = [0x01u8, 0x02, 0x03, 0x04, 0xFF];
    let mut cur = ByteCursor::new(&data);
    assert_eq!(cur.read_u32().unwrap(), 0x04030201);
    assert_eq!(cur.remaining(), 1);
    assert_eq!(cur.read_u8().unwrap(), 0xFF);
    assert_eq!(cur.read_u8().unwrap_err(), ReadError::OutOfBytes);
    cur.seek(0).unwrap();
    assert_eq!(cur.read_u16().unwrap(), 0x0201);
    assert_eq!(cur.read_i32().unwrap_err(), ReadError::OutOfBytes);
}
