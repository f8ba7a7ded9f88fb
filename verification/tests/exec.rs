use wasefire_interpreter::error::Error;
use wasefire_interpreter::exec::{
    check_types, contains, default_val, grow_memory, memory_copy, memory_fill, Float, InstId, Memory,
    i32s, Ptr, Side, Store, Thread, ThreadResult, Val,
};
use wasefire_interpreter::module::Module;
use wasefire_interpreter::syntax::{
    CvtOp, FBinOp, FRelOp, FUnOp, FuncType, Limits, Nx, RefType, ValType,
};
use wasefire_interpreter::valid::{merge, prepare};

/// Modules of these tests use no floating-point instruction.
struct NoFloat;

impl Float for NoFloat {
    fn relop(&self, _: Nx, _: FRelOp, _: u64, _: u64) -> bool {
        unreachable!()
    }
    fn unop(&self, _: Nx, _: FUnOp, _: u64) -> u64 {
        unreachable!()
    }
    fn binop(&self, _: Nx, _: FBinOp, _: u64, _: u64) -> u64 {
        unreachable!()
    }
    fn convert(&self, _: CvtOp, _: Val) -> Option<Val> {
        unreachable!()
    }
}

/// Runs a thread until it returns (`Some`) or calls the host (`None`).
fn run<'m>(store: &mut Store<'m>, thread: Thread<'m>) -> Result<Option<Vec<Val>>, Error> {
    let mut thread = thread;
    loop {
        match thread.step(store, &NoFloat)? {
            ThreadResult::Continue(t) => thread = t,
            ThreadResult::Done(values) => return Ok(Some(values)),
            ThreadResult::Host => return Ok(None),
        }
    }
}

fn with_side_table(wasm: &[u8]) -> Vec<u8> {
    merge(wasm, prepare(wasm).unwrap()).unwrap()
}

// (module (func (export "add") (param i32 i32) (result i32) local.get 0 local.get 1 i32.add))
const ADD: &[u8] = &[
    0x00, 0x61, 0x73, 0x6d, 0x01, 0x00, 0x00, 0x00, 0x01, 0x07, 0x01, 0x60, 0x02, 0x7f, 0x7f,
    0x01, 0x7f, 0x03, 0x02, 0x01, 0x00, 0x07, 0x07, 0x01, 0x03, b'a', b'd', b'd', 0x00, 0x00,
    0x0a, 0x09, 0x01, 0x07, 0x00, 0x20, 0x00, 0x20, 0x01, 0x6a, 0x0b,
];

// (module (memory 1)
//   (func (export "rt") (param i32 i32) (result i32)
//     (i32.store (local.get 0) (local.get 1)) (i32.load (local.get 0))))
const ROUND_TRIP: &[u8] = &[
    0x00, 0x61, 0x73, 0x6d, 0x01, 0x00, 0x00, 0x00, 0x01, 0x07, 0x01, 0x60, 0x02, 0x7f, 0x7f,
    0x01, 0x7f, 0x03, 0x02, 0x01, 0x00, 0x05, 0x03, 0x01, 0x00, 0x01, 0x07, 0x06, 0x01, 0x02,
    b'r', b't', 0x00, 0x00, 0x0a, 0x10, 0x01, 0x0e, 0x00, 0x20, 0x00, 0x20, 0x01, 0x36, 0x02,
    0x00, 0x20, 0x00, 0x28, 0x02, 0x00, 0x0b,
];

// (module
//   (import "env" "count" (func $count (result i32)))
//   (memory (export "memory") 1)
//   (func (export "loopforever")
//     (local i32 i32)
//     (loop
//       (local.set 0 (call $count))
//       (local.set 1 (i32.const 1))
//       (block
//         (loop
//           (br_if 1 (i32.gt_u (local.get 1) (local.get 0)))
//           (local.set 1 (i32.add (local.get 1) (i32.const 1)))
//           (br 0)))
//       (br 0))))
const LOOP: &[u8] = &[
    0x00, 0x61, 0x73, 0x6d, 0x01, 0x00, 0x00, 0x00, 0x01, 0x08, 0x02, 0x60, 0x00, 0x01, 0x7f,
    0x60, 0x00, 0x00, 0x02, 0x0d, 0x01, 0x03, 0x65, 0x6e, 0x76, 0x05, 0x63, 0x6f, 0x75, 0x6e,
    0x74, 0x00, 0x00, 0x03, 0x02, 0x01, 0x01, 0x05, 0x03, 0x01, 0x00, 0x01, 0x07, 0x18, 0x02,
    0x06, 0x6d, 0x65, 0x6d, 0x6f, 0x72, 0x79, 0x02, 0x00, 0x0b, 0x6c, 0x6f, 0x6f, 0x70, 0x66,
    0x6f, 0x72, 0x65, 0x76, 0x65, 0x72, 0x00, 0x01, 0x0a, 0x29, 0x01, 0x27, 0x01, 0x02, 0x7f,
    0x03, 0x40, 0x10, 0x00, 0x21, 0x00, 0x41, 0x01, 0x21, 0x01, 0x02, 0x40, 0x03, 0x40, 0x20,
    0x01, 0x20, 0x00, 0x4b, 0x0d, 0x01, 0x20, 0x01, 0x41, 0x01, 0x6a, 0x21, 0x01, 0x0c, 0x00,
    0x0b, 0x0b, 0x0c, 0x00, 0x0b, 0x0b,
];

// (module
//   (global $g (export "g") (mut i32) (i32.const 5))
//   (memory 1 2)
//   (func $sq (param i32) (result i32) (i32.mul (local.get 0) (local.get 0)))
//   (func (export "sq_plus_g") (param i32) (result i32)
//     (i32.add (call $sq (local.get 0)) (global.get $g)))
//   (func (export "set_g") (param i32) (global.set $g (local.get 0)))
//   (func (export "grow") (param i32) (result i32) (memory.grow (local.get 0)))
//   (func (export "size") (result i32) (memory.size))
//   (func (export "pick") (param i32) (result i32)
//     (block (block (block (br_table 0 1 2 (local.get 0)))
//       (return (i32.const 10))) (return (i32.const 20))) (i32.const 30))
//   (func (export "sign") (param i32) (result i32)
//     (if (result i32) (local.get 0) (then (i32.const 1)) (else (i32.const -1))))
//   (func (export "div") (param i32 i32) (result i32) (i32.div_s (local.get 0) (local.get 1))))
const CALC: &[u8] = &[
    0x00, 0x61, 0x73, 0x6d, 0x01, 0x00, 0x00, 0x00, 0x01, 0x14, 0x04, 0x60, 0x01, 0x7f, 0x01, 0x7f,
    0x60, 0x01, 0x7f, 0x00, 0x60, 0x00, 0x01, 0x7f, 0x60, 0x02, 0x7f, 0x7f, 0x01, 0x7f, 0x03, 0x09,
    0x08, 0x00, 0x00, 0x01, 0x00, 0x02, 0x00, 0x00, 0x03, 0x05, 0x04, 0x01, 0x01, 0x01, 0x02, 0x06,
    0x06, 0x01, 0x7f, 0x01, 0x41, 0x05, 0x0b, 0x07, 0x3b, 0x08, 0x09, 0x73, 0x71, 0x5f, 0x70, 0x6c,
    0x75, 0x73, 0x5f, 0x67, 0x00, 0x01, 0x05, 0x73, 0x65, 0x74, 0x5f, 0x67, 0x00, 0x02, 0x04, 0x67,
    0x72, 0x6f, 0x77, 0x00, 0x03, 0x04, 0x73, 0x69, 0x7a, 0x65, 0x00, 0x04, 0x04, 0x70, 0x69, 0x63,
    0x6b, 0x00, 0x05, 0x04, 0x73, 0x69, 0x67, 0x6e, 0x00, 0x06, 0x03, 0x64, 0x69, 0x76, 0x00, 0x07,
    0x01, 0x67, 0x03, 0x00, 0x0a, 0x56, 0x08, 0x07, 0x00, 0x20, 0x00, 0x20, 0x00, 0x6c, 0x0b, 0x09,
    0x00, 0x20, 0x00, 0x10, 0x00, 0x23, 0x00, 0x6a, 0x0b, 0x06, 0x00, 0x20, 0x00, 0x24, 0x00, 0x0b,
    0x06, 0x00, 0x20, 0x00, 0x40, 0x00, 0x0b, 0x04, 0x00, 0x3f, 0x00, 0x0b, 0x1a, 0x00, 0x02, 0x40,
    0x02, 0x40, 0x02, 0x40, 0x20, 0x00, 0x0e, 0x02, 0x00, 0x01, 0x02, 0x0b, 0x41, 0x0a, 0x0f, 0x0b,
    0x41, 0x14, 0x0f, 0x0b, 0x41, 0x1e, 0x0b, 0x0c, 0x00, 0x20, 0x00, 0x04, 0x7f, 0x41, 0x01, 0x05,
    0x41, 0x7f, 0x0b, 0x0b, 0x07, 0x00, 0x20, 0x00, 0x20, 0x01, 0x6d, 0x0b,
];

/// Invokes an export with `i32` arguments and runs it to completion.
fn call<'m>(store: &mut Store<'m>, inst: InstId, name: &str, args: &[u32]) -> Result<Vec<Val>, Error> {
    let args = args.iter().map(|&x| Val::I32(x)).collect();
    let thread = store.invoke(inst, name, args)?;
    Ok(run(store, thread)?.unwrap())
}

#[test]
fn calls_and_globals() {
    let binary = with_side_table(CALC);
    let mut store = Store::new(3);
    let module = Module::new(&binary).unwrap();
    let (inst, _) = store.instantiate(module, vec![0; 0x20000]).unwrap();
    assert_eq!(store.get_global(inst, "g"), Ok(Val::I32(5)));
    assert_eq!(call(&mut store, inst, "sq_plus_g", &[3]), Ok(vec![Val::I32(14)]));
    assert_eq!(call(&mut store, inst, "set_g", &[7]), Ok(vec![]));
    assert_eq!(store.get_global(inst, "g"), Ok(Val::I32(7)));
    assert_eq!(call(&mut store, inst, "sq_plus_g", &[2]), Ok(vec![Val::I32(11)]));
    assert_eq!(store.get_global(inst, "sq_plus_g").err(), Some(Error::Invalid));
    assert_eq!(store.get_global(inst, "h").err(), Some(Error::NotFound));
}

#[test]
fn memory_size_and_grow() {
    let binary = with_side_table(CALC);
    let mut store = Store::new(0);
    let module = Module::new(&binary).unwrap();
    let (inst, _) = store.instantiate(module, vec![0; 0x20000]).unwrap();
    assert_eq!(call(&mut store, inst, "size", &[]), Ok(vec![Val::I32(1)]));
    assert_eq!(store.memory(inst).unwrap().len(), 0x20000);
    assert_eq!(call(&mut store, inst, "grow", &[1]), Ok(vec![Val::I32(1)]));
    assert_eq!(call(&mut store, inst, "size", &[]), Ok(vec![Val::I32(2)]));
    assert_eq!(call(&mut store, inst, "grow", &[1]), Ok(vec![Val::I32(u32::MAX)]));
    assert_eq!(call(&mut store, inst, "grow", &[0]), Ok(vec![Val::I32(2)]));
}

#[test]
fn branches() {
    let binary = with_side_table(CALC);
    let mut store = Store::new(0);
    let module = Module::new(&binary).unwrap();
    let (inst, _) = store.instantiate(module, vec![0; 0x10000]).unwrap();
    assert_eq!(call(&mut store, inst, "pick", &[0]), Ok(vec![Val::I32(10)]));
    assert_eq!(call(&mut store, inst, "pick", &[1]), Ok(vec![Val::I32(20)]));
    assert_eq!(call(&mut store, inst, "pick", &[2]), Ok(vec![Val::I32(30)]));
    assert_eq!(call(&mut store, inst, "pick", &[7]), Ok(vec![Val::I32(30)]));
    assert_eq!(call(&mut store, inst, "sign", &[5]), Ok(vec![Val::I32(1)]));
    assert_eq!(call(&mut store, inst, "sign", &[0]), Ok(vec![Val::I32(u32::MAX)]));
}

#[test]
fn integer_division_traps() {
    let binary = with_side_table(CALC);
    let mut store = Store::new(0);
    let module = Module::new(&binary).unwrap();
    let (inst, _) = store.instantiate(module, vec![0; 0x10000]).unwrap();
    assert_eq!(call(&mut store, inst, "div", &[7, 2]), Ok(vec![Val::I32(3)]));
    assert_eq!(call(&mut store, inst, "div", &[-7i32 as u32, 2]), Ok(vec![Val::I32(-3i32 as u32)]));
    assert_eq!(call(&mut store, inst, "div", &[1, 0]), Err(Error::Trap));
    assert_eq!(call(&mut store, inst, "div", &[i32::MIN as u32, u32::MAX]), Err(Error::Trap));
}

#[test]
fn invoke_add() {
    let binary = with_side_table(ADD);
    let mut store = Store::new(0);
    let module = Module::new(&binary).unwrap();
    let (inst, start) = store.instantiate(module, Vec::new()).unwrap();
    assert!(start.is_none());
    let thread = store.invoke(inst, "add", vec![Val::I32(2), Val::I32(3)]).unwrap();
    assert_eq!(run(&mut store, thread), Ok(Some(vec![Val::I32(5)])));
    let thread = store.invoke(inst, "add", vec![Val::I32(u32::MAX), Val::I32(2)]).unwrap();
    assert_eq!(run(&mut store, thread), Ok(Some(vec![Val::I32(1)])));
}

#[test]
fn invoke_errors() {
    let binary = with_side_table(ADD);
    let mut store = Store::new(0);
    let module = Module::new(&binary).unwrap();
    let (inst, _) = store.instantiate(module, Vec::new()).unwrap();
    assert_eq!(store.invoke(inst, "sub", vec![]).err(), Some(Error::NotFound));
    assert_eq!(store.invoke(inst, "add", vec![Val::I32(2)]).err(), Some(Error::Invalid));
    assert_eq!(
        store.invoke(inst, "add", vec![Val::I64(2), Val::I32(3)]).err(),
        Some(Error::Invalid)
    );
}

#[test]
fn store_then_load() {
    let binary = with_side_table(ROUND_TRIP);
    let mut store = Store::new(0);
    let module = Module::new(&binary).unwrap();
    let (inst, _) = store.instantiate(module, vec![0xff; 16]).unwrap();
    let thread = store.invoke(inst, "rt", vec![Val::I32(8), Val::I32(0xdeadbeef)]).unwrap();
    assert_eq!(run(&mut store, thread), Ok(Some(vec![Val::I32(0xdeadbeef)])));
    let memory = store.memory(inst).unwrap();
    assert_eq!(&memory[.. 8], &[0; 8]);
    assert_eq!(&memory[8 .. 12], &[0xef, 0xbe, 0xad, 0xde]);
    assert_eq!(&memory[12 ..], &[0; 4]);
}

#[test]
fn store_out_of_bounds_traps() {
    let binary = with_side_table(ROUND_TRIP);
    let mut store = Store::new(0);
    let module = Module::new(&binary).unwrap();
    let (inst, _) = store.instantiate(module, vec![0; 16]).unwrap();
    let thread = store.invoke(inst, "rt", vec![Val::I32(13), Val::I32(1)]).unwrap();
    assert_eq!(run(&mut store, thread), Err(Error::Trap));
}

#[test]
fn host_calls_in_a_loop() {
    let binary = with_side_table(LOOP);
    let mut store = Store::new(0);
    store.link_func("env", "count", 0, 1).unwrap();
    let module = Module::new(&binary).unwrap();
    let (inst, _) = store.instantiate(module, vec![0; 16]).unwrap();
    let mut thread = store.invoke(inst, "loopforever", vec![]).unwrap();
    let mut n_calls = 0;
    while n_calls < 10 {
        assert_eq!(run(&mut store, thread), Ok(None));
        let call = store.last_call().unwrap();
        assert_eq!(call.index(), Ok(0));
        assert_eq!(call.args(), Ok(&[][..]));
        assert_eq!(call.inst(), Ok(inst));
        n_calls += 1;
        thread = call.resume(&[Val::I32(100)]).unwrap();
    }
    assert!(store.last_call().is_none());
}

#[test]
fn resume_with_wrong_arity() {
    let binary = with_side_table(LOOP);
    let mut store = Store::new(0);
    store.link_func("env", "count", 0, 1).unwrap();
    let module = Module::new(&binary).unwrap();
    let (inst, _) = store.instantiate(module, vec![0; 16]).unwrap();
    let thread = store.invoke(inst, "loopforever", vec![]).unwrap();
    assert_eq!(run(&mut store, thread), Ok(None));
    let call = store.last_call().unwrap();
    assert_eq!(call.resume(&[]).err(), Some(Error::Invalid));
}

#[test]
fn instantiate_missing_import() {
    let binary = with_side_table(LOOP);
    let mut store = Store::new(0);
    let module = Module::new(&binary).unwrap();
    assert_eq!(store.instantiate(module, vec![0; 16]).err(), Some(Error::NotFound));
}

#[test]
fn pointer_round_trip() {
    for (side, idx) in [(Side::Host, 0), (Side::Host, 0xfffff), (Side::Wasm(0), 7), (Side::Wasm(0xffe), 3)]
    {
        let ptr = Ptr::new(side, idx);
        assert_eq!(ptr.instance(), side);
        assert_eq!(ptr.index(), idx);
    }
    assert_eq!(Ptr::new(Side::Host, 5), Ptr(5));
    assert_eq!(Ptr::new(Side::Wasm(0), 5), Ptr((1 << 20) | 5));
}

#[test]
fn default_values() {
    assert_eq!(default_val(ValType::I32), Ok(Val::I32(0)));
    assert_eq!(default_val(ValType::F64), Ok(Val::F64(0)));
    assert_eq!(default_val(ValType::FuncRef), Ok(Val::Null(RefType::FuncRef)));
    assert!(default_val(ValType::V128).is_err());
    for t in [ValType::I32, ValType::I64, ValType::F32, ValType::F64, ValType::ExternRef] {
        assert!(contains(t, default_val(t).unwrap()));
    }
    assert!(!contains(ValType::I32, Val::I64(0)));
    assert_eq!(check_types(&[ValType::I32, ValType::I64], &[Val::I32(1), Val::I64(2)]), Ok(()));
    assert_eq!(check_types(&[ValType::I32], &[Val::I64(2)]), Err(Error::Invalid));
    assert_eq!(check_types(&[ValType::I32], &[]), Err(Error::Invalid));
}

#[test]
fn memory_operations() {
    let mut mem = Memory::empty();
    mem.init(vec![7; 0x20000], Limits { min: 1, max: 2 });
    assert_eq!(mem.len(), 0x10000);
    assert!(mem.data.iter().all(|&x| x == 0));
    memory_fill(&mut mem, 4, 9, 3).unwrap();
    assert_eq!(&mem.data[.. 8], &[0, 0, 0, 0, 9, 9, 9, 0]);
    memory_copy(&mut mem, 5, 3, 3).unwrap();
    assert_eq!(&mem.data[.. 8], &[0, 0, 0, 0, 9, 0, 9, 9]);
    assert_eq!(memory_fill(&mut mem, 0xfffe, 1, 3), Err(Error::Trap));
    assert_eq!(memory_copy(&mut mem, 0, 0xffff, 2), Err(Error::Trap));
    assert_eq!(grow_memory(&mut mem, 1), 1);
    assert_eq!(mem.len(), 0x20000);
    assert_eq!(grow_memory(&mut mem, 1), u32::MAX);
    assert_eq!(mem.size, 2);
}

// (module
//   (table 2 3 funcref)
//   (func $f (export "f") (result i32) (i32.const 7))
//   (func (export "size") (result i32) (table.size 0))
//   (func (export "grow") (param i32) (result i32) (table.grow 0 (ref.null func) (local.get 0)))
//   (func (export "set") (param i32) (table.set 0 (local.get 0) (ref.func $f)))
//   (func (export "isnull") (param i32) (result i32) (ref.is_null (table.get 0 (local.get 0))))
//   (func (export "call") (param i32) (result i32) (call_indirect (type 0) (local.get 0))))
const TABLE: &[u8] = &[
    0x00, 0x61, 0x73, 0x6d, 0x01, 0x00, 0x00, 0x00, 0x01, 0x0e, 0x03, 0x60, 0x00, 0x01, 0x7f,
    0x60, 0x01, 0x7f, 0x01, 0x7f, 0x60, 0x01, 0x7f, 0x00, 0x03, 0x07, 0x06, 0x00, 0x00, 0x01,
    0x02, 0x01, 0x01, 0x04, 0x05, 0x01, 0x70, 0x01, 0x02, 0x03, 0x07, 0x29, 0x06, 0x01, b'f',
    0x00, 0x00, 0x04, b's', b'i', b'z', b'e', 0x00, 0x01, 0x04, b'g', b'r', b'o', b'w', 0x00,
    0x02, 0x03, b's', b'e', b't', 0x00, 0x03, 0x06, b'i', b's', b'n', b'u', b'l', b'l', 0x00,
    0x04, 0x04, b'c', b'a', b'l', b'l', 0x00, 0x05, 0x0a, 0x2f, 0x06, 0x04, 0x00, 0x41, 0x07,
    0x0b, 0x05, 0x00, 0xfc, 0x10, 0x00, 0x0b, 0x09, 0x00, 0xd0, 0x70, 0x20, 0x00, 0xfc, 0x0f,
    0x00, 0x0b, 0x08, 0x00, 0x20, 0x00, 0xd2, 0x00, 0x26, 0x00, 0x0b, 0x07, 0x00, 0x20, 0x00,
    0x25, 0x00, 0xd1, 0x0b, 0x07, 0x00, 0x20, 0x00, 0x11, 0x00, 0x00, 0x0b,
];

#[test]
fn table_operations() {
    let binary = with_side_table(TABLE);
    let mut store = Store::new(0);
    let module = Module::new(&binary).unwrap();
    let (inst, _) = store.instantiate(module, Vec::new()).unwrap();
    assert_eq!(call(&mut store, inst, "size", &[]), Ok(vec![Val::I32(2)]));
    assert_eq!(call(&mut store, inst, "isnull", &[1]), Ok(vec![Val::I32(1)]));
    assert_eq!(call(&mut store, inst, "isnull", &[2]), Err(Error::Trap));
    assert_eq!(call(&mut store, inst, "call", &[1]), Err(Error::Trap));
    assert_eq!(call(&mut store, inst, "set", &[1]), Ok(vec![]));
    assert_eq!(call(&mut store, inst, "isnull", &[1]), Ok(vec![Val::I32(0)]));
    assert_eq!(call(&mut store, inst, "call", &[1]), Ok(vec![Val::I32(7)]));
    assert_eq!(call(&mut store, inst, "set", &[2]), Err(Error::Trap));
    assert_eq!(call(&mut store, inst, "grow", &[1]), Ok(vec![Val::I32(2)]));
    assert_eq!(call(&mut store, inst, "size", &[]), Ok(vec![Val::I32(3)]));
    assert_eq!(call(&mut store, inst, "isnull", &[2]), Ok(vec![Val::I32(1)]));
    assert_eq!(call(&mut store, inst, "grow", &[1]), Ok(vec![Val::I32(u32::MAX)]));
    assert_eq!(call(&mut store, inst, "size", &[]), Ok(vec![Val::I32(3)]));
}

#[test]
fn linking_rules() {
    let mut store = Store::new(0);
    assert_eq!(store.link_func("env", "count", 9, 0), Err(Error::Invalid));
    assert_eq!(store.funcs.len(), 0);
    assert_eq!(store.link_func("env", "count", 0, 1), Ok(()));
    assert_eq!(store.link_func("env", "a", 0, 0), Err(Error::Invalid));
    assert_eq!(store.funcs.len(), 1);
    assert_eq!(store.link_func("env", "d", 1, 1), Ok(()));
    assert_eq!(store.link_func_default("env"), Ok(()));
    assert_eq!(store.link_func_default("other"), Err(Error::Invalid));
    assert_eq!(store.func_default.map(|(m, n)| (m.to_string(), n)), Some(("env".to_string(), 2)));
    assert_eq!(store.link_func("env", "z", 0, 0), Err(Error::Invalid));
}

#[test]
fn invoke_from_another_store() {
    let binary = with_side_table(ADD);
    let mut store = Store::new(1);
    let module = Module::new(&binary).unwrap();
    let (inst, _) = store.instantiate(module, Vec::new()).unwrap();
    let other = Store::new(2);
    let mut other = other;
    assert_eq!(other.invoke(inst, "add", vec![Val::I32(1), Val::I32(2)]).err(), Some(Error::Invalid));
    assert_eq!(other.get_global(inst, "add").err(), Some(Error::Invalid));
    assert_eq!(other.memory(inst).err(), Some(Error::Invalid));
}

#[test]
fn link_func_is_link_func_custom() {
    let mut a = Store::new(0);
    let mut b = Store::new(0);
    let t = FuncType { params: i32s(2), results: i32s(1) };
    assert_eq!(a.link_func("env", "f", 2, 1), Ok(()));
    assert_eq!(b.link_func_custom("env", "f", t), Ok(()));
    assert_eq!(a.funcs.len(), 1);
    assert_eq!(b.funcs.len(), 1);
    assert_eq!(a.funcs[0].1.params.0, vec![ValType::I32, ValType::I32]);
    assert_eq!(a.funcs[0].1.params.0, b.funcs[0].1.params.0);
    assert_eq!(a.funcs[0].1.results.0, b.funcs[0].1.results.0);
    let t = FuncType { params: i32s(0), results: i32s(0) };
    assert_eq!(a.link_func("env", "a", 0, 0), Err(Error::Invalid));
    assert_eq!(b.link_func_custom("env", "a", t), Err(Error::Invalid));
    assert_eq!(a.funcs.len(), b.funcs.len());
}

#[test]
fn fresh_store_has_no_pending_call() {
    let mut store = Store::new(7);
    assert!(store.last_call().is_none());
}

#[test]
fn instantiate_custom_sections_only() {
    let custom = [0x00, 0x61, 0x73, 0x6d, 0x01, 0x00, 0x00, 0x00, 0x00, 0x03, 0x01, b'a', 0x07];
    let binary = with_side_table(&custom);
    let mut store = Store::new(0);
    let module = Module::new(&binary).unwrap();
    let (inst, start) = store.instantiate(module, Vec::new()).unwrap();
    assert_eq!(inst.inst_id, 0);
    assert!(start.is_none());
}

#[test]
fn import_memory_of_another_instance() {
    let exporter = [
        0x00, 0x61, 0x73, 0x6d, 0x01, 0x00, 0x00, 0x00, // header
        0x05, 0x03, 0x01, 0x00, 0x01, // memory section
        0x07, 0x07, 0x01, 0x03, b'm', b'e', b'm', 0x02, 0x00, // export section
    ];
    let importer = [
        0x00, 0x61, 0x73, 0x6d, 0x01, 0x00, 0x00, 0x00, // header
        0x02, 0x0a, 0x01, 0x01, b'a', 0x03, b'm', b'e', b'm', 0x02, 0x00, 0x01, // import section
    ];
    let exporter = with_side_table(&exporter);
    let importer = with_side_table(&importer);
    let mut store = Store::new(0);
    let (a, _) = store.instantiate(Module::new(&exporter).unwrap(), vec![0; 16]).unwrap();
    assert_eq!(store.instantiate(Module::new(&importer).unwrap(), Vec::new()).err(), Some(Error::NotFound));
    store.set_name(a, "a").unwrap();
    let (b, _) = store.instantiate(Module::new(&importer).unwrap(), Vec::new()).unwrap();
    assert_eq!(b.inst_id, 2);
}
