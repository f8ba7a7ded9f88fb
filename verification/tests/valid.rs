use wasefire_interpreter::error::Error;
use wasefire_interpreter::module::Module;
use wasefire_interpreter::side_table::serialize;
use wasefire_interpreter::syntax::ValType;
use wasefire_interpreter::valid::{delta, merge, prepare, verify, OpdType};

// (module (func (export "add") (param i32 i32) (result i32) local.get 0 local.get 1 i32.add))
const ADD: &[u8] = &[
    0x00, 0x61, 0x73, 0x6d, 0x01, 0x00, 0x00, 0x00, // header
    0x01, 0x07, 0x01, 0x60, 0x02, 0x7f, 0x7f, 0x01, 0x7f, // type section
    0x03, 0x02, 0x01, 0x00, // function section
    0x07, 0x07, 0x01, 0x03, b'a', b'd', b'd', 0x00, 0x00, // export section
    0x0a, 0x09, 0x01, 0x07, 0x00, 0x20, 0x00, 0x20, 0x01, 0x6a, 0x0b, // code section
];

// (module (func (param i32) (result i32) (block (br_if 0 (local.get 0))) i32.const 7))
const BRANCH: &[u8] = &[
    0x00, 0x61, 0x73, 0x6d, 0x01, 0x00, 0x00, 0x00, // header
    0x01, 0x06, 0x01, 0x60, 0x01, 0x7f, 0x01, 0x7f, // type section
    0x03, 0x02, 0x01, 0x00, // function section
    0x0a, 0x0d, 0x01, 0x0b, 0x00, 0x02, 0x40, 0x20, 0x00, 0x0d, 0x00, 0x0b, 0x41, 0x07,
    0x0b, // code section
];

#[test]
fn prepare_header_only() {
    let side_table = prepare(b"\0asm\x01\0\0\0").unwrap();
    assert!(side_table.is_empty());
}

#[test]
fn prepare_bad_header() {
    assert_eq!(prepare(b"\0asn\x01\0\0\0").err(), Some(Error::Invalid));
    assert_eq!(prepare(b"\0asm\x02\0\0\0").err(), Some(Error::Invalid));
    assert_eq!(prepare(b"\0asm").err(), Some(Error::Invalid));
    assert_eq!(prepare(b"").err(), Some(Error::Invalid));
}

#[test]
fn prepare_add() {
    let side_table = prepare(ADD).unwrap();
    assert_eq!(side_table.len(), 1);
    assert_eq!(side_table[0].type_idx, 0);
    assert_eq!(side_table[0].parser_state.start(), 26);
    assert_eq!(side_table[0].parser_state.end(), 33);
    assert!(side_table[0].branch_table.is_empty());
    assert_eq!(
        serialize(&side_table).unwrap(),
        vec![1, 0, 0, 0, 10, 0, 0, 0, 26, 0, 0, 0, 33, 0, 0, 0]
    );
}

#[test]
fn prepare_type_mismatch() {
    // The body adds two i32 operands with i64.add.
    let mut wasm = ADD.to_vec();
    let n = wasm.len();
    wasm[n - 2] = 0x7c;
    assert_eq!(prepare(&wasm).err(), Some(Error::Invalid));
}

#[test]
fn prepare_trailing_garbage() {
    let mut wasm = ADD.to_vec();
    wasm.push(0x0b);
    assert!(prepare(&wasm).is_err());
}

#[test]
fn prepare_branch() {
    let side_table = prepare(BRANCH).unwrap();
    assert_eq!(side_table.len(), 1);
    assert_eq!(side_table[0].branch_table.len(), 1);
    let view = side_table[0].branch_table[0].view();
    assert_eq!(view.val_cnt, 0);
    assert_eq!(view.pop_cnt, 0);
    assert!(view.delta_ip > 0);
}

#[test]
fn merge_then_verify() {
    let side_table = prepare(ADD).unwrap();
    let merged = merge(ADD, side_table).unwrap();
    assert_eq!(merged.len(), ADD.len() + 37);
    assert_eq!(&merged[.. 8], &ADD[.. 8]);
    assert_eq!(&merged[8 .. 11], &[0, 35, 18]);
    assert_eq!(&merged[11 .. 29], b"wasefire-sidetable");
    assert_eq!(&merged[29 .. 45], &[1, 0, 0, 0, 10, 0, 0, 0, 26, 0, 0, 0, 33, 0, 0, 0]);
    assert_eq!(&merged[45 ..], &ADD[8 ..]);
    assert_eq!(verify(&merged), Ok(()));
    assert!(Module::new(&merged).is_ok());
}

#[test]
fn merge_branch_then_verify() {
    let side_table = prepare(BRANCH).unwrap();
    let merged = merge(BRANCH, side_table).unwrap();
    assert_eq!(verify(&merged), Ok(()));
}

#[test]
fn verify_without_side_table() {
    assert_eq!(verify(ADD).err(), Some(Error::Invalid));
    assert!(Module::new(ADD).is_err());
}

#[test]
fn verify_wrong_side_table() {
    let side_table = prepare(ADD).unwrap();
    let mut merged = merge(ADD, side_table).unwrap();
    merged[37] = 27; // the start of the function body
    assert!(verify(&merged).is_err());
}

#[test]
fn operand_types() {
    assert_eq!(OpdType::from_valtype(ValType::F32), OpdType::F32);
    assert!(OpdType::Bottom.matches(ValType::I64));
    assert!(OpdType::I64.matches(ValType::I64));
    assert!(!OpdType::I32.matches(ValType::I64));
    assert_eq!(OpdType::Bottom.unify(OpdType::I32), Ok(OpdType::I32));
    assert_eq!(OpdType::I32.unify(OpdType::Bottom), Ok(OpdType::I32));
    assert_eq!(OpdType::F64.unify(OpdType::F64), Ok(OpdType::F64));
    assert_eq!(OpdType::F64.unify(OpdType::I64), Err(Error::Invalid));
    assert!(OpdType::Bottom.is_num() && OpdType::Bottom.is_vec() && OpdType::Bottom.is_ref());
    assert!(OpdType::V128.is_vec() && !OpdType::V128.is_num());
    assert!(OpdType::ExternRef.is_ref() && !OpdType::FuncRef.is_num());
}

#[test]
fn branch_deltas() {
    assert_eq!(delta(3, 10), Ok(7));
    assert_eq!(delta(10, 3), Ok(-7));
    assert!(delta(0, usize::MAX).is_err());
}

// A module with one custom section named "a" whose payload is 1, 2.
const CUSTOM: &[u8] = &[0x00, 0x61, 0x73, 0x6d, 0x01, 0x00, 0x00, 0x00, 0x00, 0x04, 0x01, b'a', 0x01, 0x02];

#[test]
fn prepare_custom_sections_only() {
    assert!(prepare(CUSTOM).unwrap().is_empty());
}

#[test]
fn merge_then_verify_custom_sections() {
    let side_table = prepare(CUSTOM).unwrap();
    let merged = merge(CUSTOM, side_table).unwrap();
    assert_eq!(verify(&merged), Ok(()));
}

#[test]
fn prepare_repeated_section() {
    let binary = [0x00, 0x61, 0x73, 0x6d, 0x01, 0x00, 0x00, 0x00, 0x01, 0x01, 0x00, 0x01, 0x01, 0x00];
    assert_eq!(prepare(&binary).err(), Some(Error::Invalid));
}

#[test]
fn prepare_sections_out_of_order() {
    let binary = [0x00, 0x61, 0x73, 0x6d, 0x01, 0x00, 0x00, 0x00, 0x07, 0x01, 0x00, 0x01, 0x01, 0x00];
    assert_eq!(prepare(&binary).err(), Some(Error::Invalid));
    let binary = [0x00, 0x61, 0x73, 0x6d, 0x01, 0x00, 0x00, 0x00, 0x01, 0x01, 0x00, 0x07, 0x01, 0x00];
    assert!(prepare(&binary).unwrap().is_empty());
}

#[test]
fn prepare_trailing_bytes() {
    let binary = [0x00, 0x61, 0x73, 0x6d, 0x01, 0x00, 0x00, 0x00, 0x01, 0x01, 0x00, 0x00];
    assert_eq!(prepare(&binary).err(), Some(Error::Invalid));
}

#[test]
fn prepare_two_memories() {
    let binary = [
        0x00, 0x61, 0x73, 0x6d, 0x01, 0x00, 0x00, 0x00, // header
        0x05, 0x05, 0x02, 0x00, 0x01, 0x00, 0x01, // memory section
    ];
    assert_eq!(prepare(&binary).err(), Some(Error::Invalid));
    let binary = [
        0x00, 0x61, 0x73, 0x6d, 0x01, 0x00, 0x00, 0x00, // header
        0x05, 0x03, 0x01, 0x00, 0x01, // memory section
    ];
    assert!(prepare(&binary).unwrap().is_empty());
}

#[test]
fn prepare_entry_per_function_body() {
    let binary = [
        0x00, 0x61, 0x73, 0x6d, 0x01, 0x00, 0x00, 0x00, // header
        0x01, 0x09, 0x02, 0x60, 0x00, 0x00, 0x60, 0x01, 0x7f, 0x01, 0x7f, // type section
        0x03, 0x03, 0x02, 0x01, 0x00, // function section
        0x0a, 0x09, 0x02, 0x04, 0x00, 0x20, 0x00, 0x0b, 0x02, 0x00, 0x0b, // code section
    ];
    let side_table = prepare(&binary).unwrap();
    assert_eq!(side_table.len(), 2);
    assert_eq!(side_table[0].type_idx, 1);
    assert_eq!(side_table[1].type_idx, 0);
}

#[test]
fn prepare_imported_and_defined_memories() {
    let binary = [
        0x00, 0x61, 0x73, 0x6d, 0x01, 0x00, 0x00, 0x00, // header
        0x02, 0x08, 0x01, 0x01, b'm', 0x01, b'x', 0x02, 0x00, 0x01, // import section
        0x05, 0x03, 0x01, 0x00, 0x01, // memory section
    ];
    assert_eq!(prepare(&binary).err(), Some(Error::Invalid));
    let binary = [
        0x00, 0x61, 0x73, 0x6d, 0x01, 0x00, 0x00, 0x00, // header
        0x02, 0x08, 0x01, 0x01, b'm', 0x01, b'x', 0x02, 0x00, 0x01, // import section
    ];
    assert!(prepare(&binary).unwrap().is_empty());
}
