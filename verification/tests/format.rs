use wasefire_interpreter::format::{leb128, section};
use wasefire_interpreter::parser::Parser;

fn encode(x: usize) -> Vec<u8> {
    let mut wasm = Vec::new();
    leb128(&mut wasm, x);
    wasm
}

#[test]
fn leb128_exact_bytes() {
    assert_eq!(encode(0), vec![0x00]);
    assert_eq!(encode(1), vec![0x01]);
    assert_eq!(encode(127), vec![0x7f]);
    assert_eq!(encode(128), vec![0x80, 0x01]);
    assert_eq!(encode(300), vec![0xac, 0x02]);
    assert_eq!(encode(624485), vec![0xe5, 0x8e, 0x26]);
    assert_eq!(encode(0xffff_ffff), vec![0xff, 0xff, 0xff, 0xff, 0x0f]);
}

#[test]
fn leb128_appends() {
    let mut wasm = vec![0xaa, 0xbb];
    leb128(&mut wasm, 129);
    assert_eq!(wasm, vec![0xaa, 0xbb, 0x81, 0x01]);
}

#[test]
fn leb128_round_trip() {
    for x in [0usize, 1, 63, 64, 127, 128, 255, 16383, 16384, 1 << 21, 1 << 28, 0xffff_ffff] {
        let mut wasm = encode(x);
        wasm.push(0x42);
        let mut parser = Parser::new(&wasm);
        assert_eq!(parser.parse_leb128(false, 32), Ok(x as u64));
        assert_eq!(parser.parse_bytes(1), Ok(&[0x42u8][..]));
        assert!(parser.is_empty());
    }
}

#[test]
fn section_exact_bytes() {
    let mut wasm = vec![0x11];
    section(&mut wasm, 0, &[1, 2, 3], "ab");
    assert_eq!(wasm, vec![0x11, 0x00, 0x06, 0x02, b'a', b'b', 1, 2, 3]);
}

#[test]
fn section_empty_name_and_content() {
    let mut wasm = Vec::new();
    section(&mut wasm, 12, &[], "");
    assert_eq!(wasm, vec![12, 0x01, 0x00]);
}
