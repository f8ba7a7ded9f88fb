use wasefire_interpreter::syntax::{IBinOp, IRelOp, ITestOp, IUnOp, Sx};

#[test]
fn integer_tests_and_comparisons() {
    assert!(ITestOp::Eqz.n32(0));
    assert!(!ITestOp::Eqz.n64(1));
    assert!(IRelOp::Lt(Sx::U).n32(1, 0xffff_ffff));
    assert!(!IRelOp::Lt(Sx::S).n32(1, 0xffff_ffff));
    assert!(IRelOp::Ge(Sx::S).n64(0, u64::MAX));
    assert!(IRelOp::Ne.n64(0, 1));
}

#[test]
fn integer_unary_operators() {
    assert_eq!(IUnOp::Clz.n32(0), Some(32));
    assert_eq!(IUnOp::Clz.n32(1), Some(31));
    assert_eq!(IUnOp::Ctz.n32(0x100), Some(8));
    assert_eq!(IUnOp::Ctz.n64(0), Some(64));
    assert_eq!(IUnOp::PopCnt.n32(0xf0f0), Some(8));
    assert_eq!(IUnOp::PopCnt.n64(u64::MAX), Some(64));
}

#[test]
fn integer_binary_operators() {
    assert_eq!(IBinOp::Add.n32(u32::MAX, 1), Some(0));
    assert_eq!(IBinOp::Sub.n64(0, 1), Some(u64::MAX));
    assert_eq!(IBinOp::Mul.n32(0x10000, 0x10000), Some(0));
    assert_eq!(IBinOp::Div(Sx::U).n32(7, 2), Some(3));
    assert_eq!(IBinOp::Div(Sx::U).n32(7, 0), None);
    assert_eq!(IBinOp::Div(Sx::S).n32(-7i32 as u32, 2), Some(-3i32 as u32));
    assert_eq!(IBinOp::Div(Sx::S).n32(i32::MIN as u32, -1i32 as u32), None);
    assert_eq!(IBinOp::Rem(Sx::S).n32(-7i32 as u32, 2), Some(-1i32 as u32));
    assert_eq!(IBinOp::Rem(Sx::S).n32(i32::MIN as u32, -1i32 as u32), Some(0));
    assert_eq!(IBinOp::Rem(Sx::U).n64(7, 0), None);
    assert_eq!(IBinOp::Shl.n32(1, 33), Some(2));
    assert_eq!(IBinOp::Shr(Sx::S).n32(0x8000_0000, 31), Some(u32::MAX));
    assert_eq!(IBinOp::Shr(Sx::U).n64(1 << 63, 63), Some(1));
    assert_eq!(IBinOp::Rotl.n32(0x8000_0001, 1), Some(3));
    assert_eq!(IBinOp::Rotr.n64(1, 1), Some(1 << 63));
    assert_eq!(IBinOp::Xor.n32(0xff, 0x0f), Some(0xf0));
}
