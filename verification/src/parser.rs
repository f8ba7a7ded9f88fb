//! Parser of the WebAssembly binary format.
use vstd::arithmetic::power2::{pow2, lemma_pow2_adds, lemma_pow2_pos, lemma_pow2_strictly_increases};
use vstd::prelude::*;
use vstd::string::StringSliceAdditionalSpecFns;
use vstd::utf8::valid_utf8;

use crate::error::{check, invalid, unsupported, Error, Unsupported};
use crate::syntax::{
    BlockType, Bx, CvtOp, DataIdx, ElemIdx, ExportDesc, FBinOp, FRelOp, FUnOp, FuncIdx, FuncType,
    GlobalIdx, GlobalType, IBinOp, IRelOp, ITestOp, IUnOp, ImportDesc, Instr, LabelIdx, Limits,
    LocalIdx, MemArg, MemIdx, MemType, Mut, Nx, RefType, ResultType, SectionId, Sx, TableIdx,
    TableType, TryFromByte, TypeIdx, ValType, MEM_MAX, TABLE_MAX,
};

verus! {

// ---------------------------------------------------------------------------------------------
// Mathematical description of LEB128 integers.

/// The 7 payload bits of a byte.
pub open spec fn low7(b: u8) -> int {
    (b % 128) as int
}

/// The length of the first LEB128 group: up to and including the first byte below 0x80.
pub open spec fn leb_end(s: Seq<u8>) -> Option<nat>
    decreases s.len(),
{
    if s.len() == 0 {
        None
    } else if s[0] < 0x80 {
        Some(1)
    } else {
        match leb_end(s.drop_first()) {
            Some(n) => Some(n + 1),
            None => None,
        }
    }
}

/// The value of a sequence of 7-bit groups, least significant group first.
pub open spec fn leb_groups(s: Seq<u8>) -> int
    decreases s.len(),
{
    if s.len() == 0 {
        0
    } else {
        leb_groups(s.drop_last()) + low7(s.last()) * pow2((7 * (s.len() - 1)) as nat)
    }
}

/// Adds the last byte `b` (below 0x80) at bit `sh` to the value `val` of the previous groups,
/// and checks that the result fits in `bits` bits (two's complement when `signed`). A signed
/// result is returned modulo `2^bits`.
pub open spec fn leb_last(val: int, b: int, sh: nat, bits: nat, signed: bool) -> Option<int> {
    let v = val + b * pow2(sh);
    if !signed {
        if v < pow2(bits) {
            Some(v)
        } else {
            None
        }
    } else {
        let sv = if b >= 64 {
            v - pow2(sh + 7)
        } else {
            v
        };
        if -pow2((bits - 1) as nat) <= sv < pow2((bits - 1) as nat) {
            Some(sv % (pow2(bits) as int))
        } else {
            None
        }
    }
}

/// Decoding of a LEB128 integer of `bits` bits: the value and the number of bytes it takes.
/// The number of bytes that reading a LEB128 integer reads from the byte `k` of `s` when `len`
/// bits are left: up to and including the last byte, or a continuation byte beyond the width, or
/// all the bytes if no last byte comes.
pub open spec fn leb_read_len(s: Seq<u8>, k: nat, len: int) -> nat
    decreases s.len() - k,
{
    if k >= s.len() {
        s.len()
    } else if s[k as int] < 0x80 || len < 8 {
        k + 1
    } else {
        leb_read_len(s, k + 1, len - 7)
    }
}

pub open spec fn spec_leb128(s: Seq<u8>, signed: bool, bits: nat) -> Result<(u64, nat), Error> {
    match leb_end(s) {
        None => Err(Error::Invalid),
        Some(n) => {
            let sh = (7 * (n - 1)) as nat;
            if sh >= bits {
                Err(Error::Invalid)
            } else {
                match leb_last(leb_groups(s.take(n - 1)), s[n - 1] as int, sh, bits, signed) {
                    Some(v) => Ok((v as u64, n)),
                    None => Err(Error::Invalid),
                }
            }
        }
    }
}

pub proof fn lemma_leb_end(s: Seq<u8>, k: nat)
    requires
        k <= s.len(),
        forall|i: int| 0 <= i < k ==> s[i] >= 0x80,
    ensures
        k == s.len() ==> leb_end(s) is None,
        k < s.len() && s[k as int] < 0x80 ==> leb_end(s) == Some(k + 1),
        k < s.len() && s[k as int] >= 0x80 ==> (leb_end(s) matches Some(n) ==> n >= k + 2),
    decreases k,
{
    if k == 0 {
        if s.len() > 0 && s[0] >= 0x80 {
            let t = s.drop_first();
            if t.len() > 0 && t[0] >= 0x80 {
                assert(leb_end(t) matches Some(m) ==> m >= 1);
            }
        }
    } else {
        let t = s.drop_first();
        assert forall|i: int| 0 <= i < k - 1 implies t[i] >= 0x80 by {
            assert(t[i] == s[i + 1]);
        }
        lemma_leb_end(t, (k - 1) as nat);
        if k < s.len() {
            assert(t[k - 1] == s[k as int]);
        }
    }
}

proof fn lemma_leb_groups_step(s: Seq<u8>, k: nat)
    requires
        k < s.len(),
    ensures
        leb_groups(s.take(k as int + 1)) == leb_groups(s.take(k as int)) + low7(s[k as int])
            * pow2(7 * k),
{
    assert(s.take(k as int + 1).drop_last() =~= s.take(k as int));
}

proof fn lemma_shl_or(val: u64, x: u64, sh: u64, w: u64)
    requires
        sh + w <= 64,
        (val as int) < pow2(sh as nat),
        (x as int) < pow2(w as nat),
    ensures
        (val | (x << sh)) as int == val + x * pow2(sh as nat),
        val + x * pow2(sh as nat) < pow2((sh + w) as nat),
{
    lemma_pow2_adds(sh as nat, w as nat);
    lemma_pow2_pos(sh as nat);
    let p = pow2(sh as nat) as int;
    let q = pow2(w as nat) as int;
    assert(x * p + val < p * q) by (nonlinear_arith)
        requires
            0 <= val < p,
            0 <= x < q,
    ;
    vstd::arithmetic::power2::lemma2_to64();
    vstd::arithmetic::power2::lemma2_to64_rest();
    if sh + w < 64 {
        lemma_pow2_strictly_increases((sh + w) as nat, 64);
    }
    assert(x * p <= u64::MAX) by (nonlinear_arith)
        requires
            x * p + val < p * q,
            p * q <= 0x1_0000_0000_0000_0000,
            val >= 0,
    ;
    if sh < 64 {
        vstd::bits::lemma_u64_shl_is_mul(x, sh);
        vstd::bits::lemma_u64_shl_is_mul(1, sh);
        assert(1u64 * pow2(sh as nat) == p);
        assert(val < (1u64 << sh));
        assert(val | (x << sh) == val + (x << sh)) by (bit_vector)
            requires
                val < (1u64 << sh),
                sh < 64,
                val + (x << sh) <= u64::MAX,
        ;
    } else {
        assert(w == 0);
        assert(x == 0);
        assert(val | (x << sh) == val) by (bit_vector)
            requires
                x == 0,
        ;
    }
}

proof fn lemma_one_shl(n: u64)
    requires
        n < 64,
    ensures
        (1u64 << n) == pow2(n as nat),
{
    vstd::bits::lemma_u64_pow2_no_overflow(n as nat);
    vstd::bits::lemma_u64_shl_is_mul(1, n);
}

proof fn lemma_leb_basics(val: u64, sh: u8, len: u8, bits: u8)
    requires
        (val as int) < pow2(sh as nat),
        sh + len == bits,
        1 <= len,
        bits <= 64,
    ensures
        pow2(sh as nat) > 0,
        pow2(bits as nat) == pow2(sh as nat) * pow2(len as nat),
        pow2(bits as nat) <= 0x1_0000_0000_0000_0000,
        pow2(7) == 128,
        pow2(6) == 64,
{
    lemma_pow2_pos(sh as nat);
    vstd::arithmetic::power2::lemma2_to64();
    vstd::arithmetic::power2::lemma2_to64_rest();
    lemma_pow2_adds(sh as nat, len as nat);
    if bits < 64 {
        lemma_pow2_strictly_increases(bits as nat, 64);
    }
}

proof fn lemma_leb_unsigned_small(val: u64, b: u64, sh: u8, len: u8, bits: u8)
    requires
        (val as int) < pow2(sh as nat),
        b < 0x80,
        sh + len == bits,
        1 <= len < 7,
        bits <= 64,
    ensures
        b >= pow2(len as nat) ==> leb_last(val as int, b as int, sh as nat, bits as nat, false)
            is None,
        b < pow2(len as nat) ==> leb_last(val as int, b as int, sh as nat, bits as nat, false)
            == Some((val | (b << sh)) as int),
{
    lemma_leb_basics(val, sh, len, bits);
    let p = pow2(sh as nat) as int;
    let v = val + b * p;
    if b >= pow2(len as nat) {
        assert(v >= pow2(bits as nat)) by (nonlinear_arith)
            requires
                v == val + b * p,
                val >= 0,
                b >= pow2(len as nat),
                pow2(bits as nat) == p * pow2(len as nat),
                p > 0,
        ;
    } else {
        lemma_shl_or(val, b, sh as u64, len as u64);
    }
}

proof fn lemma_leb_unsigned_large(val: u64, b: u64, sh: u8, len: u8, bits: u8)
    requires
        (val as int) < pow2(sh as nat),
        b < 0x80,
        sh + len == bits,
        7 <= len,
        bits <= 64,
    ensures
        leb_last(val as int, b as int, sh as nat, bits as nat, false) == Some(
            (val | (b << sh)) as int,
        ),
{
    lemma_leb_basics(val, sh, len, bits);
    lemma_pow2_adds(sh as nat, 7);
    if sh + 7 < bits {
        lemma_pow2_strictly_increases((sh + 7) as nat, bits as nat);
    }
    lemma_shl_or(val, b, sh as u64, 7);
}

proof fn lemma_leb_positive_small(val: u64, b: u64, sh: u8, len: u8, bits: u8)
    requires
        (val as int) < pow2(sh as nat),
        b < 64,
        sh + len == bits,
        1 <= len < 7,
        bits <= 64,
    ensures
        b >= pow2((len - 1) as nat) ==> leb_last(val as int, b as int, sh as nat, bits as nat, true)
            is None,
        b < pow2((len - 1) as nat) ==> leb_last(val as int, b as int, sh as nat, bits as nat, true)
            == Some((val | (b << sh)) as int),
{
    lemma_leb_basics(val, sh, len, bits);
    lemma_pow2_adds(sh as nat, (len - 1) as nat);
    lemma_pow2_pos((len - 1) as nat);
    let p = pow2(sh as nat) as int;
    let v = val + b * p;
    let half = pow2((len - 1) as nat) as int;
    if b >= half {
        assert(v >= pow2((bits - 1) as nat)) by (nonlinear_arith)
            requires
                v == val + b * p,
                val >= 0,
                b >= half,
                pow2((bits - 1) as nat) == p * half,
                p > 0,
        ;
    } else {
        lemma_shl_or(val, b, sh as u64, (len - 1) as u64);
        vstd::arithmetic::power2::lemma_pow2_unfold(bits as nat);
        vstd::arithmetic::div_mod::lemma_small_mod(v as nat, pow2(bits as nat));
    }
}

proof fn lemma_leb_positive_large(val: u64, b: u64, sh: u8, len: u8, bits: u8)
    requires
        (val as int) < pow2(sh as nat),
        b < 64,
        sh + len == bits,
        7 <= len,
        bits <= 64,
    ensures
        leb_last(val as int, b as int, sh as nat, bits as nat, true) == Some(
            (val | (b << sh)) as int,
        ),
{
    lemma_leb_basics(val, sh, len, bits);
    lemma_pow2_adds(sh as nat, 6);
    lemma_shl_or(val, b, sh as u64, 6);
    if sh + 6 < bits - 1 {
        lemma_pow2_strictly_increases((sh + 6) as nat, (bits - 1) as nat);
    }
    vstd::arithmetic::power2::lemma_pow2_unfold(bits as nat);
    let v = val + b * pow2(sh as nat);
    vstd::arithmetic::div_mod::lemma_small_mod(v as nat, pow2(bits as nat));
}

proof fn lemma_leb_negative_small(val: u64, b: u64, sh: u8, len: u8, bits: u8)
    requires
        (val as int) < pow2(sh as nat),
        64 <= b < 128,
        sh + len == bits,
        1 <= len < 7,
        bits <= 64,
    ensures
        b + pow2((len - 1) as nat) < 128 ==> leb_last(
            val as int,
            b as int,
            sh as nat,
            bits as nat,
            true,
        ) is None,
        b + pow2((len - 1) as nat) >= 128 ==> b + pow2(len as nat) >= 128 && leb_last(
            val as int,
            b as int,
            sh as nat,
            bits as nat,
            true,
        ) == Some((val | (((b + pow2(len as nat) - 128) as u64) << sh)) as int),
        pow2(len as nat) <= 64,
{
    vstd::arithmetic::power2::lemma2_to64();
    if len < 6 {
        lemma_pow2_strictly_increases(len as nat, 6);
    }
    lemma_leb_basics(val, sh, len, bits);
    lemma_pow2_adds(sh as nat, (len - 1) as nat);
    lemma_pow2_adds(sh as nat, 7);
    lemma_pow2_pos((len - 1) as nat);
    vstd::arithmetic::power2::lemma_pow2_unfold(len as nat);
    let p = pow2(sh as nat) as int;
    let v = val + b * p;
    let half = pow2((len - 1) as nat) as int;
    let lim = pow2(len as nat) as int;
    let sv = v - p * 128;
    assert(lim == 2 * half);
    if b + half < 128 {
        assert(sv < -pow2((bits - 1) as nat)) by (nonlinear_arith)
            requires
                sv == val + b * p - p * 128,
                val < p,
                b + half < 128,
                pow2((bits - 1) as nat) == p * half,
                p > 0,
        ;
    } else {
        let low = b + lim - 128;
        let q = pow2(bits as nat) as int;
        assert(sv + q == val + low * p) by (nonlinear_arith)
            requires
                sv == val + b * p - p * 128,
                q == p * lim,
                low == b + lim - 128,
        ;
        assert(-pow2((bits - 1) as nat) <= sv < 0) by (nonlinear_arith)
            requires
                sv == val + b * p - p * 128,
                0 <= val < p,
                128 - half <= b < 128,
                pow2((bits - 1) as nat) == p * half,
        ;
        assert(0 <= sv + q < q) by (nonlinear_arith)
            requires
                sv + q == val + low * p,
                0 <= val < p,
                0 <= low < lim,
                q == p * lim,
        ;
        vstd::arithmetic::div_mod::lemma_mod_add_multiples_vanish(sv, q);
        vstd::arithmetic::div_mod::lemma_small_mod((sv + q) as nat, q as nat);
        lemma_shl_or(val, low as u64, sh as u64, len as u64);
        assert(sv % q == val + low * p);
        assert(pow2((sh + 7) as nat) == p * 128);
        assert(leb_last(val as int, b as int, sh as nat, bits as nat, true) == Some(sv % q));
        assert((val | ((low as u64) << sh)) as int == val + low * p);
        assert(low == b + pow2(len as nat) - 128);
    }
}

proof fn lemma_leb_negative_large(val: u64, b: u64, sh: u8, len: u8, bits: u8, ext: u64)
    requires
        (val as int) < pow2(sh as nat),
        64 <= b < 128,
        sh + len == bits,
        7 <= len,
        bits <= 64,
        sh + 7 < 64,
        ext as int == pow2(bits as nat) - pow2((sh + 7) as nat),
        ext == (((1u64 << ((len - 7) as u64)) - 1) as u64) << ((sh + 7) as u64),
    ensures
        leb_last(val as int, b as int, sh as nat, bits as nat, true) == Some(
            ((val | (b << sh)) | ext) as int,
        ),
{
    lemma_leb_basics(val, sh, len, bits);
    lemma_pow2_adds(sh as nat, 7);
    lemma_pow2_adds(sh as nat, 6);
    let p = pow2(sh as nat) as int;
    let r = pow2((sh + 7) as nat) as int;
    let q = pow2(bits as nat) as int;
    let v = val + b * p;
    let sv = v - r;
    lemma_shl_or(val, b, sh as u64, 7);
    assert(sv >= -pow2((sh + 6) as nat)) by (nonlinear_arith)
        requires
            sv == val + b * p - r,
            val >= 0,
            b >= 64,
            r == p * 128,
            pow2((sh + 6) as nat) == p * 64,
    ;
    vstd::arithmetic::power2::lemma_pow2_unfold(bits as nat);
    if sh + 6 < bits - 1 {
        lemma_pow2_strictly_increases((sh + 6) as nat, (bits - 1) as nat);
    }
    assert(0 <= sv + q < q);
    vstd::arithmetic::div_mod::lemma_mod_add_multiples_vanish(sv, q);
    vstd::arithmetic::div_mod::lemma_small_mod((sv + q) as nat, q as nat);
    let vb = val | (b << sh);
    lemma_one_shl((sh + 7) as u64);
    let m = (len - 7) as u64;
    let s7 = (sh + 7) as u64;
    assert(vb | ext == vb + ext) by (bit_vector)
        requires
            vb < (1u64 << s7),
            ext == (((1u64 << m) - 1) as u64) << s7,
            s7 < 64,
    ;
}

/// Computes the value of a LEB128 integer from its last byte (see [`leb_last`]).
fn leb128_last(val: u64, b: u64, sh: u8, len: u8, bits: u8, signed: bool) -> (r: Option<u64>)
    requires
        (val as int) < pow2(sh as nat),
        b < 0x80,
        sh + len == bits,
        1 <= len,
        bits <= 64,
        sh % 7 == 0,
    ensures
        match leb_last(val as int, b as int, sh as nat, bits as nat, signed) {
            Some(v) => r == Some(v as u64),
            None => r is None,
        },
{
    proof {
        lemma_leb_basics(val, sh, len, bits);
    }
    let small = len < 7;
    if !signed {
        if small {
            let lim = 1u64 << len;
            proof {
                lemma_one_shl(len as u64);
                lemma_leb_unsigned_small(val, b, sh, len, bits);
            }
            if b >= lim {
                return None;
            }
            return Some(val | (b << sh));
        }
        proof {
            lemma_leb_unsigned_large(val, b, sh, len, bits);
        }
        return Some(val | (b << sh));
    }
    if b >= 64 {
        if small {
            let half = 1u64 << (len - 1);
            let lim = 1u64 << len;
            proof {
                lemma_one_shl((len - 1) as u64);
                lemma_one_shl(len as u64);
                lemma_leb_negative_small(val, b, sh, len, bits);
                lemma_pow2_strictly_increases((len - 1) as nat, len as nat);
            }
            if b + half < 128 {
                return None;
            }
            let low = b + lim - 128;
            return Some(val | (low << sh));
        }
        let m = len - 7;
        proof {
            assert(sh + 7 < 64);
            lemma_one_shl(m as u64);
            lemma_pow2_pos(m as nat);
            lemma_pow2_adds((sh + 7) as nat, m as nat);
            lemma_pow2_pos((sh + 7) as nat);
            let r = pow2((sh + 7) as nat) as int;
            let q = pow2(bits as nat) as int;
            assert((pow2(m as nat) - 1) * r <= u64::MAX) by (nonlinear_arith)
                requires
                    q == r * pow2(m as nat),
                    q <= 0x1_0000_0000_0000_0000,
                    r > 0,
            ;
            vstd::bits::lemma_u64_shl_is_mul(((1u64 << m) - 1) as u64, (sh + 7) as u64);
        }
        let ext: u64 = ((1u64 << m) - 1) << (sh + 7);
        proof {
            let r = pow2((sh + 7) as nat) as int;
            let q = pow2(bits as nat) as int;
            assert(ext == q - r) by (nonlinear_arith)
                requires
                    ext == (pow2(m as nat) - 1) * r,
                    q == r * pow2(m as nat),
            ;
            lemma_leb_negative_large(val, b, sh, len, bits, ext);
        }
        return Some((val | (b << sh)) | ext);
    }
    if small {
        let half = 1u64 << (len - 1);
        proof {
            lemma_one_shl((len - 1) as u64);
            lemma_leb_positive_small(val, b, sh, len, bits);
        }
        if b >= half {
            return None;
        }
        return Some(val | (b << sh));
    }
    proof {
        lemma_leb_positive_large(val, b, sh, len, bits);
    }
    Some(val | (b << sh))
}


// ---------------------------------------------------------------------------------------------
// Specifications of the basic parsers, as functions of the remaining bytes.

pub open spec fn spec_byte(s: Seq<u8>) -> Result<(u8, nat), Error> {
    if s.len() > 0 {
        Ok((s[0], 1))
    } else {
        Err(Error::Invalid)
    }
}

pub open spec fn spec_u32(s: Seq<u8>) -> Result<(u32, nat), Error> {
    match spec_leb128(s, false, 32) {
        Ok((v, n)) => Ok((v as u32, n)),
        Err(e) => Err(e),
    }
}

pub open spec fn spec_s32(s: Seq<u8>) -> Result<(i32, nat), Error> {
    match spec_leb128(s, true, 32) {
        Ok((v, n)) => Ok((v as i32, n)),
        Err(e) => Err(e),
    }
}

pub open spec fn spec_s64(s: Seq<u8>) -> Result<(i64, nat), Error> {
    match spec_leb128(s, true, 64) {
        Ok((v, n)) => Ok((v as i64, n)),
        Err(e) => Err(e),
    }
}

/// A byte that encodes a value of an enumeration.
pub open spec fn spec_byte_enum<T: TryFromByte>(s: Seq<u8>) -> Result<(T, nat), Error> {
    match spec_byte(s) {
        Ok((b, n)) => match T::spec_from_byte(b) {
            Some(t) => Ok((t, n)),
            None => Err(Error::Invalid),
        },
        Err(e) => Err(e),
    }
}

/// A name: a length and that many bytes of UTF-8.
pub open spec fn spec_name(s: Seq<u8>) -> Result<(Seq<u8>, nat), Error> {
    match spec_u32(s) {
        Ok((len, n)) => if n + len <= s.len() && valid_utf8(s.subrange(n as int, n + len)) {
            Ok((s.subrange(n as int, n + len), (n + len) as nat))
        } else {
            Err(Error::Invalid)
        },
        Err(e) => Err(e),
    }
}

/// The module name, name and description of the import at the start of `s`, and its length.
pub open spec fn spec_import(s: Seq<u8>) -> Option<(Seq<u8>, Seq<u8>, ImportDesc, nat)> {
    match spec_name(s) {
        Ok((m, n0)) => match spec_name(s.skip(n0 as int)) {
            Ok((x, n1)) => match spec_importdesc(s.skip((n0 + n1) as int)) {
                Ok((d, n2)) => Some((m, x, d, n0 + n1 + n2)),
                Err(_) => None,
            },
            Err(_) => None,
        },
        Err(_) => None,
    }
}

/// Whether `r` is what a parser returns when `spec` describes the parse of the remaining bytes of
/// `old`, and `new` is the parser after the call.
pub open spec fn parsed<T>(
    old: Parser,
    new: Parser,
    spec: Result<(T, nat), Error>,
    r: Result<T, Error>,
) -> bool {
    &&& same_input(old, new)
    &&& match spec {
        Ok((v, n)) => r == Ok::<T, Error>(v) && new.pos() == old.pos() + n,
        Err(e) => r == Err::<T, Error>(e),
    }
}

/// Whether `new` reads the same bytes as `old`, possibly at another position.
pub open spec fn same_input(old: Parser, new: Parser) -> bool {
    &&& new.wf()
    &&& new.source() == old.source()
    &&& new.limit() == old.limit()
    &&& old.pos() <= new.pos()
}

/// Checks that `v` is valid UTF-8 and views it as a string: calls `core::str::from_utf8`. The
/// contract claims that it succeeds exactly when the bytes are valid UTF-8 (as `valid_utf8`
/// defines it), and that the string then has exactly those bytes.
#[verifier::external_body]
fn str_from_utf8<'a>(v: &'a [u8]) -> (r: Option<&'a str>)
    ensures
        match r {
            Some(s) => valid_utf8(v@) && s.spec_bytes() == v@,
            None => !valid_utf8(v@),
        },
{
    core::str::from_utf8(v).ok()
}


// ---------------------------------------------------------------------------------------------
// Specifications of the structured parsers.

/// Decodes each byte of `b` as a value type.
pub open spec fn decode_valtypes(b: Seq<u8>) -> Option<Seq<ValType>> {
    if forall|i: int| 0 <= i < b.len() ==> (#[trigger] crate::syntax::valtype_from_byte(b[i])) is Some {
        Some(Seq::new(b.len(), |i: int| crate::syntax::valtype_from_byte(b[i])->Some_0))
    } else {
        None
    }
}

pub open spec fn spec_resulttype(s: Seq<u8>) -> Result<(Seq<ValType>, nat), Error> {
    match spec_u32(s) {
        Ok((len, n)) => if n + len <= s.len() {
            match decode_valtypes(s.subrange(n as int, n + len)) {
                Some(ts) => Ok((ts, (n + len) as nat)),
                None => Err(Error::Invalid),
            }
        } else {
            Err(Error::Invalid)
        },
        Err(e) => Err(e),
    }
}

pub open spec fn spec_functype(s: Seq<u8>) -> Result<(crate::syntax::FuncTypeView, nat), Error> {
    match spec_byte(s) {
        Err(e) => Err(e),
        Ok((b, n0)) => if b != 0x60 {
            Err(Error::Invalid)
        } else {
            match spec_resulttype(s.skip(n0 as int)) {
                Err(e) => Err(e),
                Ok((params, n1)) => match spec_resulttype(s.skip((n0 + n1) as int)) {
                    Err(e) => Err(e),
                    Ok((results, n2)) => Ok(
                        (
                            crate::syntax::FuncTypeView { params, results },
                            (n0 + n1 + n2) as nat,
                        ),
                    ),
                },
            }
        },
    }
}

/// Encodings of limits.
#[derive(Debug, Copy, Clone, PartialEq, Eq, Structural)]
pub enum LimitType {
    Unshared,
    UnsharedWithMax,
    SharedWithMax,
}

impl TryFromByte for LimitType {
    open spec fn spec_from_byte(byte: u8) -> Option<LimitType> {
        if byte == 0 {
            Some(LimitType::Unshared)
        } else if byte == 1 {
            Some(LimitType::UnsharedWithMax)
        } else if byte == 3 {
            Some(LimitType::SharedWithMax)
        } else {
            None
        }
    }

    fn try_from_byte(byte: u8) -> (r: Option<LimitType>) {
        match byte {
            0 => Some(LimitType::Unshared),
            1 => Some(LimitType::UnsharedWithMax),
            3 => Some(LimitType::SharedWithMax),
            _ => None,
        }
    }
}

pub open spec fn spec_limits(s: Seq<u8>, max: u32) -> Result<(Limits, nat), Error> {
    match spec_byte_enum::<LimitType>(s) {
        Err(e) => Err(e),
        Ok((t, n0)) => if t == LimitType::SharedWithMax {
            Err(Error::Unsupported(Unsupported::Opcode(3)))
        } else {
            match spec_u32(s.skip(n0 as int)) {
                Err(e) => Err(e),
                Ok((min, n1)) => if t == LimitType::Unshared {
                    Ok((Limits { min, max }, (n0 + n1) as nat))
                } else {
                    match spec_u32(s.skip((n0 + n1) as int)) {
                        Err(e) => Err(e),
                        Ok((max, n2)) => Ok((Limits { min, max }, (n0 + n1 + n2) as nat)),
                    }
                },
            }
        },
    }
}

pub open spec fn spec_tabletype(s: Seq<u8>) -> Result<(TableType, nat), Error> {
    match spec_byte_enum::<RefType>(s) {
        Err(e) => Err(e),
        Ok((item, n0)) => match spec_limits(s.skip(n0 as int), TABLE_MAX) {
            Err(e) => Err(e),
            Ok((limits, n1)) => Ok((TableType { limits, item }, (n0 + n1) as nat)),
        },
    }
}

pub open spec fn spec_globaltype(s: Seq<u8>) -> Result<(GlobalType, nat), Error> {
    match spec_byte_enum::<ValType>(s) {
        Err(e) => Err(e),
        Ok((value, n0)) => match spec_byte_enum::<Mut>(s.skip(n0 as int)) {
            Err(e) => Err(e),
            Ok((mutable, n1)) => Ok((GlobalType { mutable, value }, (n0 + n1) as nat)),
        },
    }
}

pub open spec fn spec_importdesc(s: Seq<u8>) -> Result<(ImportDesc, nat), Error> {
    match spec_byte(s) {
        Err(e) => Err(e),
        Ok((b, n0)) => {
            let t = s.skip(n0 as int);
            if b == 0 {
                match spec_u32(t) {
                    Ok((x, n)) => Ok((ImportDesc::Func(x), (n0 + n) as nat)),
                    Err(e) => Err(e),
                }
            } else if b == 1 {
                match spec_tabletype(t) {
                    Ok((x, n)) => Ok((ImportDesc::Table(x), (n0 + n) as nat)),
                    Err(e) => Err(e),
                }
            } else if b == 2 {
                match spec_limits(t, MEM_MAX) {
                    Ok((x, n)) => Ok((ImportDesc::Mem(x), (n0 + n) as nat)),
                    Err(e) => Err(e),
                }
            } else if b == 3 {
                match spec_globaltype(t) {
                    Ok((x, n)) => Ok((ImportDesc::Global(x), (n0 + n) as nat)),
                    Err(e) => Err(e),
                }
            } else {
                Err(Error::Invalid)
            }
        },
    }
}

pub open spec fn spec_exportdesc(s: Seq<u8>) -> Result<(ExportDesc, nat), Error> {
    match spec_byte(s) {
        Err(e) => Err(e),
        Ok((b, n0)) => if b > 3 {
            Err(Error::Invalid)
        } else {
            match spec_u32(s.skip(n0 as int)) {
                Err(e) => Err(e),
                Ok((x, n)) => Ok(
                    (
                        if b == 0 {
                            ExportDesc::Func(x)
                        } else if b == 1 {
                            ExportDesc::Table(x)
                        } else if b == 2 {
                            ExportDesc::Mem(x)
                        } else {
                            ExportDesc::Global(x)
                        },
                        (n0 + n) as nat,
                    ),
                ),
            }
        },
    }
}

pub open spec fn spec_memarg(s: Seq<u8>) -> Result<(MemArg, nat), Error> {
    match spec_u32(s) {
        Err(e) => Err(e),
        Ok((align, n0)) => match spec_u32(s.skip(n0 as int)) {
            Err(e) => Err(e),
            Ok((offset, n1)) => Ok((MemArg { align, offset }, (n0 + n1) as nat)),
        },
    }
}

pub open spec fn spec_blocktype(s: Seq<u8>) -> Result<(BlockType, nat), Error> {
    match spec_leb128(s, true, 33) {
        Err(e) => Err(e),
        Ok((x, n)) => if x & 0x100000000 == 0 {
            Ok((BlockType::Index(x as u32), n))
        } else if x & 0xffffff80 != 0xffffff80 {
            Err(Error::Invalid)
        } else {
            let b = (x as u8) & 0x7f;
            if b == 0x40 {
                Ok((BlockType::Empty, n))
            } else {
                match crate::syntax::valtype_from_byte(b) {
                    Some(t) => Ok((BlockType::Type(t), n)),
                    None => Err(Error::Invalid),
                }
            }
        },
    }
}

/// A sequence of `count` unsigned 32-bit integers.
pub open spec fn spec_u32s(s: Seq<u8>, count: nat) -> Result<(Seq<u32>, nat), Error>
    decreases count,
{
    if count == 0 {
        Ok((Seq::empty(), 0))
    } else {
        match spec_u32s(s, (count - 1) as nat) {
            Err(e) => Err(e),
            Ok((xs, n)) => match spec_u32(s.skip(n as int)) {
                Err(e) => Err(e),
                Ok((x, m)) => Ok((xs.push(x), (n + m) as nat)),
            },
        }
    }
}

/// The largest number of locals of a function.
pub const MAX_LOCALS: usize = 100;

/// Local declarations: `count` groups of a length and a value type, appended to `acc`.
pub open spec fn spec_local_groups(s: Seq<u8>, count: nat, acc: Seq<ValType>) -> Result<
    (Seq<ValType>, nat),
    Error,
>
    decreases count,
{
    if count == 0 {
        Ok((acc, 0))
    } else {
        match spec_u32(s) {
            Err(e) => Err(e),
            Ok((len, n0)) => if acc.len() + len > MAX_LOCALS {
                Err(Error::Unsupported(Unsupported::MaxLocals))
            } else {
                match spec_byte_enum::<ValType>(s.skip(n0 as int)) {
                    Err(e) => Err(e),
                    Ok((t, n1)) => match spec_local_groups(
                        s.skip((n0 + n1) as int),
                        (count - 1) as nat,
                        acc + Seq::new(len as nat, |i: int| t),
                    ) {
                        Err(e) => Err(e),
                        Ok((ls, n2)) => Ok((ls, (n0 + n1 + n2) as nat)),
                    },
                }
            },
        }
    }
}

pub open spec fn spec_locals(s: Seq<u8>, acc: Seq<ValType>) -> Result<(Seq<ValType>, nat), Error> {
    match spec_u32(s) {
        Err(e) => Err(e),
        Ok((count, n0)) => match spec_local_groups(s.skip(n0 as int), count as nat, acc) {
            Err(e) => Err(e),
            Ok((ls, n1)) => Ok((ls, (n0 + n1) as nat)),
        },
    }
}


/// The view of an instruction: instructions whose operands hold vectors are viewed with
/// sequences.
pub enum InstrView {
    Plain(Instr),
    BrTable(Seq<u32>, u32),
    Select(Option<Seq<ValType>>),
}

impl View for Instr {
    type V = InstrView;

    open spec fn view(&self) -> InstrView {
        match self {
            Instr::BrTable(ls, l) => InstrView::BrTable(ls@, *l),
            Instr::Select(t) => InstrView::Select(
                match t {
                    Some(r) => Some(r@),
                    None => None,
                },
            ),
            _ => InstrView::Plain(*self),
        }
    }
}

pub open spec fn spec_br_table(s: Seq<u8>) -> Result<(InstrView, nat), Error> {
    match spec_u32(s) {
        Err(e) => Err(e),
        Ok((count, n0)) => match spec_u32s(s.skip(n0 as int), count as nat) {
            Err(e) => Err(e),
            Ok((ls, n1)) => match spec_u32(s.skip((n0 + n1) as int)) {
                Err(e) => Err(e),
                Ok((ln, n2)) => Ok((InstrView::BrTable(ls, ln), (n0 + n1 + n2) as nat)),
            },
        },
    }
}

proof fn lemma_u32s_err(s: Seq<u8>, i: nat, j: nat)
    requires
        i <= j,
        spec_u32s(s, i) is Err,
    ensures
        spec_u32s(s, j) == spec_u32s(s, i),
    decreases j,
{
    if i < j {
        lemma_u32s_err(s, i, (j - 1) as nat);
    }
}


// ---------------------------------------------------------------------------------------------
// Specification of instruction decoding.

pub open spec fn op_plain(i: Instr) -> Result<(InstrView, nat), Error> {
    Ok((InstrView::Plain(i), 0))
}

pub open spec fn op_u32(t: Seq<u8>, f: spec_fn(u32) -> Instr) -> Result<(InstrView, nat), Error> {
    match spec_u32(t) {
        Ok((x, n)) => Ok((InstrView::Plain(f(x)), n)),
        Err(e) => Err(e),
    }
}

pub open spec fn op_u32_u32(t: Seq<u8>, f: spec_fn(u32, u32) -> Instr) -> Result<
    (InstrView, nat),
    Error,
> {
    match spec_u32(t) {
        Err(e) => Err(e),
        Ok((x, n0)) => match spec_u32(t.skip(n0 as int)) {
            Err(e) => Err(e),
            Ok((y, n1)) => Ok((InstrView::Plain(f(x, y)), (n0 + n1) as nat)),
        },
    }
}

pub open spec fn op_memarg(t: Seq<u8>, f: spec_fn(MemArg) -> Instr) -> Result<
    (InstrView, nat),
    Error,
> {
    match spec_memarg(t) {
        Ok((m, n)) => Ok((InstrView::Plain(f(m)), n)),
        Err(e) => Err(e),
    }
}

pub open spec fn op_blocktype(t: Seq<u8>, f: spec_fn(BlockType) -> Instr) -> Result<
    (InstrView, nat),
    Error,
> {
    match spec_blocktype(t) {
        Ok((b, n)) => Ok((InstrView::Plain(f(b)), n)),
        Err(e) => Err(e),
    }
}

/// An instruction followed by a zero byte.
pub open spec fn op_zero(t: Seq<u8>, i: Instr) -> Result<(InstrView, nat), Error> {
    match spec_byte(t) {
        Err(e) => Err(e),
        Ok((b, n)) => if b == 0 {
            Ok((InstrView::Plain(i), n))
        } else {
            Err(Error::Invalid)
        },
    }
}

/// Control instructions (opcodes 0x00 to 0x11).
pub open spec fn spec_op_control(op: u8, t: Seq<u8>) -> Result<(InstrView, nat), Error> {
    if op == 0x00 {
        op_plain(Instr::Unreachable)
    } else if op == 0x01 {
        op_plain(Instr::Nop)
    } else if op == 0x02 {
        op_blocktype(t, |b| Instr::Block(b))
    } else if op == 0x03 {
        op_blocktype(t, |b| Instr::Loop(b))
    } else if op == 0x04 {
        op_blocktype(t, |b| Instr::If(b))
    } else if op == 0x05 {
        op_plain(Instr::Else)
    } else if op == 0x0b {
        op_plain(Instr::End)
    } else if op == 0x0c {
        op_u32(t, |x| Instr::Br(x))
    } else if op == 0x0d {
        op_u32(t, |x| Instr::BrIf(x))
    } else if op == 0x0e {
        spec_br_table(t)
    } else if op == 0x0f {
        op_plain(Instr::Return)
    } else if op == 0x10 {
        op_u32(t, |x| Instr::Call(x))
    } else if op == 0x11 {
        op_u32_u32(t, |y, x| Instr::CallIndirect(x, y))
    } else {
        Err(Error::Invalid)
    }
}

/// Parametric and variable instructions (opcodes 0x1a to 0x26).
pub open spec fn spec_op_variable(op: u8, t: Seq<u8>) -> Result<(InstrView, nat), Error> {
    if op == 0x1a {
        op_plain(Instr::Drop)
    } else if op == 0x1b {
        Ok((InstrView::Select(None), 0))
    } else if op == 0x1c {
        match spec_resulttype(t) {
            Ok((ts, n)) => Ok((InstrView::Select(Some(ts)), n)),
            Err(e) => Err(e),
        }
    } else if op == 0x20 {
        op_u32(t, |x| Instr::LocalGet(x))
    } else if op == 0x21 {
        op_u32(t, |x| Instr::LocalSet(x))
    } else if op == 0x22 {
        op_u32(t, |x| Instr::LocalTee(x))
    } else if op == 0x23 {
        op_u32(t, |x| Instr::GlobalGet(x))
    } else if op == 0x24 {
        op_u32(t, |x| Instr::GlobalSet(x))
    } else if op == 0x25 {
        op_u32(t, |x| Instr::TableGet(x))
    } else if op == 0x26 {
        op_u32(t, |x| Instr::TableSet(x))
    } else {
        Err(Error::Invalid)
    }
}

/// Memory instructions (opcodes 0x28 to 0x40).
pub open spec fn spec_op_memory(op: u8, t: Seq<u8>) -> Result<(InstrView, nat), Error> {
    if 0x28 <= op <= 0x29 {
        op_memarg(t, |m| Instr::ILoad(Nx::spec_from_u8((op - 0x28) as u8), m))
    } else if 0x2a <= op <= 0x2b {
        op_memarg(t, |m| Instr::FLoad(Nx::spec_from_u8((op - 0x2a) as u8), m))
    } else if 0x2c <= op <= 0x35 {
        op_memarg(
            t,
            |m|
                Instr::ILoad_(
                    Bx::spec_from_u8(((op - 0x2c) / 2) as u8),
                    Sx::spec_from_u8(((op - 0x2c) % 2) as u8),
                    m,
                ),
        )
    } else if 0x36 <= op <= 0x37 {
        op_memarg(t, |m| Instr::IStore(Nx::spec_from_u8((op - 0x36) as u8), m))
    } else if 0x38 <= op <= 0x39 {
        op_memarg(t, |m| Instr::FStore(Nx::spec_from_u8((op - 0x38) as u8), m))
    } else if 0x3a <= op <= 0x3e {
        op_memarg(t, |m| Instr::IStore_(Bx::spec_from_u8((op - 0x3a) as u8), m))
    } else if op == 0x3f {
        op_zero(t, Instr::MemorySize)
    } else if op == 0x40 {
        op_zero(t, Instr::MemoryGrow)
    } else {
        Err(Error::Invalid)
    }
}

/// Constant instructions (opcodes 0x41 to 0x44).
pub open spec fn spec_op_const(op: u8, t: Seq<u8>) -> Result<(InstrView, nat), Error> {
    if op == 0x41 {
        match spec_s32(t) {
            Ok((x, n)) => Ok((InstrView::Plain(Instr::I32Const(x as u32)), n)),
            Err(e) => Err(e),
        }
    } else if op == 0x42 {
        match spec_s64(t) {
            Ok((x, n)) => Ok((InstrView::Plain(Instr::I64Const(x as u64)), n)),
            Err(e) => Err(e),
        }
    } else if op == 0x43 {
        if t.len() >= 4 {
            Ok(
                (
                    InstrView::Plain(
                        Instr::F32Const(vstd::bytes::spec_u32_from_le_bytes(t.take(4))),
                    ),
                    4,
                ),
            )
        } else {
            Err(Error::Invalid)
        }
    } else if op == 0x44 {
        if t.len() >= 8 {
            Ok(
                (
                    InstrView::Plain(
                        Instr::F64Const(vstd::bytes::spec_u64_from_le_bytes(t.take(8))),
                    ),
                    8,
                ),
            )
        } else {
            Err(Error::Invalid)
        }
    } else {
        Err(Error::Invalid)
    }
}

/// Numeric instructions (opcodes 0x45 to 0xc4), which take no immediate.
pub open spec fn spec_op_numeric(op: u8) -> Option<Instr> {
    if 0x45 <= op <= 0x5a {
        let n = Nx::spec_from_u8(((op - 0x45) / 11) as u8);
        let y = ((op - 0x45) % 11) as u8;
        if y == 0 {
            Some(Instr::ITestOp(n, ITestOp::Eqz))
        } else {
            Some(Instr::IRelOp(n, IRelOp::spec_from_u8((y - 1) as u8)))
        }
    } else if 0x5b <= op <= 0x66 {
        Some(
            Instr::FRelOp(
                Nx::spec_from_u8(((op - 0x5b) / 6) as u8),
                FRelOp::spec_from_u8(((op - 0x5b) % 6) as u8),
            ),
        )
    } else if 0x67 <= op <= 0x8a {
        let n = Nx::spec_from_u8(((op - 0x67) / 18) as u8);
        let y = ((op - 0x67) % 18) as u8;
        if y <= 2 {
            Some(Instr::IUnOp(n, IUnOp::spec_from_u8(y)))
        } else {
            Some(Instr::IBinOp(n, IBinOp::spec_from_u8((y - 3) as u8)))
        }
    } else if 0x8b <= op <= 0xa6 {
        let n = Nx::spec_from_u8(((op - 0x8b) / 14) as u8);
        let y = ((op - 0x8b) % 14) as u8;
        if y <= 6 {
            Some(Instr::FUnOp(n, FUnOp::spec_from_u8(y)))
        } else {
            Some(Instr::FBinOp(n, FBinOp::spec_from_u8((y - 7) as u8)))
        }
    } else if op == 0xa7 {
        Some(Instr::CvtOp(CvtOp::Wrap))
    } else if 0xa8 <= op <= 0xab {
        Some(
            Instr::CvtOp(
                CvtOp::Trunc(
                    Nx::N32,
                    Nx::spec_from_u8(((op - 0xa8) / 2) as u8),
                    Sx::spec_from_u8(((op - 0xa8) % 2) as u8),
                ),
            ),
        )
    } else if 0xac <= op <= 0xad {
        Some(Instr::CvtOp(CvtOp::Extend(Sx::spec_from_u8((op - 0xac) as u8))))
    } else if 0xae <= op <= 0xb1 {
        Some(
            Instr::CvtOp(
                CvtOp::Trunc(
                    Nx::N64,
                    Nx::spec_from_u8(((op - 0xae) / 2) as u8),
                    Sx::spec_from_u8(((op - 0xae) % 2) as u8),
                ),
            ),
        )
    } else if 0xb2 <= op <= 0xbb {
        let n = Nx::spec_from_u8(((op - 0xb2) / 5) as u8);
        let y = ((op - 0xb2) % 5) as u8;
        if y == 4 {
            Some(
                Instr::CvtOp(
                    if n == Nx::N32 {
                        CvtOp::Demote
                    } else {
                        CvtOp::Promote
                    },
                ),
            )
        } else {
            Some(
                Instr::CvtOp(
                    CvtOp::Convert(
                        n,
                        Nx::spec_from_u8((y / 2) as u8),
                        Sx::spec_from_u8((y % 2) as u8),
                    ),
                ),
            )
        }
    } else if 0xbc <= op <= 0xbd {
        Some(Instr::CvtOp(CvtOp::IReinterpret(Nx::spec_from_u8((op - 0xbc) as u8))))
    } else if 0xbe <= op <= 0xbf {
        Some(Instr::CvtOp(CvtOp::FReinterpret(Nx::spec_from_u8((op - 0xbe) as u8))))
    } else if 0xc0 <= op <= 0xc4 {
        Some(Instr::IExtend(Bx::spec_from_u8((op - 0xc0) as u8)))
    } else {
        None
    }
}

#[verifier::rlimit(30)]
#[verifier::spinoff_prover]
proof fn lemma_numeric_opcodes_0()
    ensures
        spec_op_numeric(0x45u8) == Some(Instr::ITestOp(Nx::N32, ITestOp::Eqz)),
        spec_op_numeric(0x46u8) == Some(Instr::IRelOp(Nx::N32, IRelOp::Eq)),
        spec_op_numeric(0x47u8) == Some(Instr::IRelOp(Nx::N32, IRelOp::Ne)),
        spec_op_numeric(0x48u8) == Some(Instr::IRelOp(Nx::N32, IRelOp::Lt(Sx::S))),
        spec_op_numeric(0x49u8) == Some(Instr::IRelOp(Nx::N32, IRelOp::Lt(Sx::U))),
        spec_op_numeric(0x4au8) == Some(Instr::IRelOp(Nx::N32, IRelOp::Gt(Sx::S))),
        spec_op_numeric(0x4bu8) == Some(Instr::IRelOp(Nx::N32, IRelOp::Gt(Sx::U))),
        spec_op_numeric(0x4cu8) == Some(Instr::IRelOp(Nx::N32, IRelOp::Le(Sx::S))),
{
}

#[verifier::rlimit(30)]
#[verifier::spinoff_prover]
proof fn lemma_numeric_opcodes_1()
    ensures
        spec_op_numeric(0x4du8) == Some(Instr::IRelOp(Nx::N32, IRelOp::Le(Sx::U))),
        spec_op_numeric(0x4eu8) == Some(Instr::IRelOp(Nx::N32, IRelOp::Ge(Sx::S))),
        spec_op_numeric(0x4fu8) == Some(Instr::IRelOp(Nx::N32, IRelOp::Ge(Sx::U))),
        spec_op_numeric(0x50u8) == Some(Instr::ITestOp(Nx::N64, ITestOp::Eqz)),
        spec_op_numeric(0x51u8) == Some(Instr::IRelOp(Nx::N64, IRelOp::Eq)),
        spec_op_numeric(0x52u8) == Some(Instr::IRelOp(Nx::N64, IRelOp::Ne)),
        spec_op_numeric(0x53u8) == Some(Instr::IRelOp(Nx::N64, IRelOp::Lt(Sx::S))),
        spec_op_numeric(0x54u8) == Some(Instr::IRelOp(Nx::N64, IRelOp::Lt(Sx::U))),
{
}

#[verifier::rlimit(30)]
#[verifier::spinoff_prover]
proof fn lemma_numeric_opcodes_2()
    ensures
        spec_op_numeric(0x55u8) == Some(Instr::IRelOp(Nx::N64, IRelOp::Gt(Sx::S))),
        spec_op_numeric(0x56u8) == Some(Instr::IRelOp(Nx::N64, IRelOp::Gt(Sx::U))),
        spec_op_numeric(0x57u8) == Some(Instr::IRelOp(Nx::N64, IRelOp::Le(Sx::S))),
        spec_op_numeric(0x58u8) == Some(Instr::IRelOp(Nx::N64, IRelOp::Le(Sx::U))),
        spec_op_numeric(0x59u8) == Some(Instr::IRelOp(Nx::N64, IRelOp::Ge(Sx::S))),
        spec_op_numeric(0x5au8) == Some(Instr::IRelOp(Nx::N64, IRelOp::Ge(Sx::U))),
        spec_op_numeric(0x5bu8) == Some(Instr::FRelOp(Nx::N32, FRelOp::Eq)),
        spec_op_numeric(0x5cu8) == Some(Instr::FRelOp(Nx::N32, FRelOp::Ne)),
{
}

#[verifier::rlimit(30)]
#[verifier::spinoff_prover]
proof fn lemma_numeric_opcodes_3()
    ensures
        spec_op_numeric(0x5du8) == Some(Instr::FRelOp(Nx::N32, FRelOp::Lt)),
        spec_op_numeric(0x5eu8) == Some(Instr::FRelOp(Nx::N32, FRelOp::Gt)),
        spec_op_numeric(0x5fu8) == Some(Instr::FRelOp(Nx::N32, FRelOp::Le)),
        spec_op_numeric(0x60u8) == Some(Instr::FRelOp(Nx::N32, FRelOp::Ge)),
        spec_op_numeric(0x61u8) == Some(Instr::FRelOp(Nx::N64, FRelOp::Eq)),
        spec_op_numeric(0x62u8) == Some(Instr::FRelOp(Nx::N64, FRelOp::Ne)),
        spec_op_numeric(0x63u8) == Some(Instr::FRelOp(Nx::N64, FRelOp::Lt)),
        spec_op_numeric(0x64u8) == Some(Instr::FRelOp(Nx::N64, FRelOp::Gt)),
{
}

#[verifier::rlimit(30)]
#[verifier::spinoff_prover]
proof fn lemma_numeric_opcodes_4()
    ensures
        spec_op_numeric(0x65u8) == Some(Instr::FRelOp(Nx::N64, FRelOp::Le)),
        spec_op_numeric(0x66u8) == Some(Instr::FRelOp(Nx::N64, FRelOp::Ge)),
        spec_op_numeric(0x67u8) == Some(Instr::IUnOp(Nx::N32, IUnOp::Clz)),
        spec_op_numeric(0x68u8) == Some(Instr::IUnOp(Nx::N32, IUnOp::Ctz)),
        spec_op_numeric(0x69u8) == Some(Instr::IUnOp(Nx::N32, IUnOp::PopCnt)),
        spec_op_numeric(0x6au8) == Some(Instr::IBinOp(Nx::N32, IBinOp::Add)),
        spec_op_numeric(0x6bu8) == Some(Instr::IBinOp(Nx::N32, IBinOp::Sub)),
        spec_op_numeric(0x6cu8) == Some(Instr::IBinOp(Nx::N32, IBinOp::Mul)),
{
}

#[verifier::rlimit(30)]
#[verifier::spinoff_prover]
proof fn lemma_numeric_opcodes_5()
    ensures
        spec_op_numeric(0x6du8) == Some(Instr::IBinOp(Nx::N32, IBinOp::Div(Sx::S))),
        spec_op_numeric(0x6eu8) == Some(Instr::IBinOp(Nx::N32, IBinOp::Div(Sx::U))),
        spec_op_numeric(0x6fu8) == Some(Instr::IBinOp(Nx::N32, IBinOp::Rem(Sx::S))),
        spec_op_numeric(0x70u8) == Some(Instr::IBinOp(Nx::N32, IBinOp::Rem(Sx::U))),
        spec_op_numeric(0x71u8) == Some(Instr::IBinOp(Nx::N32, IBinOp::And)),
        spec_op_numeric(0x72u8) == Some(Instr::IBinOp(Nx::N32, IBinOp::Or)),
        spec_op_numeric(0x73u8) == Some(Instr::IBinOp(Nx::N32, IBinOp::Xor)),
        spec_op_numeric(0x74u8) == Some(Instr::IBinOp(Nx::N32, IBinOp::Shl)),
{
}

#[verifier::rlimit(30)]
#[verifier::spinoff_prover]
proof fn lemma_numeric_opcodes_6()
    ensures
        spec_op_numeric(0x75u8) == Some(Instr::IBinOp(Nx::N32, IBinOp::Shr(Sx::S))),
        spec_op_numeric(0x76u8) == Some(Instr::IBinOp(Nx::N32, IBinOp::Shr(Sx::U))),
        spec_op_numeric(0x77u8) == Some(Instr::IBinOp(Nx::N32, IBinOp::Rotl)),
        spec_op_numeric(0x78u8) == Some(Instr::IBinOp(Nx::N32, IBinOp::Rotr)),
        spec_op_numeric(0x79u8) == Some(Instr::IUnOp(Nx::N64, IUnOp::Clz)),
        spec_op_numeric(0x7au8) == Some(Instr::IUnOp(Nx::N64, IUnOp::Ctz)),
        spec_op_numeric(0x7bu8) == Some(Instr::IUnOp(Nx::N64, IUnOp::PopCnt)),
        spec_op_numeric(0x7cu8) == Some(Instr::IBinOp(Nx::N64, IBinOp::Add)),
{
}

#[verifier::rlimit(30)]
#[verifier::spinoff_prover]
proof fn lemma_numeric_opcodes_7()
    ensures
        spec_op_numeric(0x7du8) == Some(Instr::IBinOp(Nx::N64, IBinOp::Sub)),
        spec_op_numeric(0x7eu8) == Some(Instr::IBinOp(Nx::N64, IBinOp::Mul)),
        spec_op_numeric(0x7fu8) == Some(Instr::IBinOp(Nx::N64, IBinOp::Div(Sx::S))),
        spec_op_numeric(0x80u8) == Some(Instr::IBinOp(Nx::N64, IBinOp::Div(Sx::U))),
        spec_op_numeric(0x81u8) == Some(Instr::IBinOp(Nx::N64, IBinOp::Rem(Sx::S))),
        spec_op_numeric(0x82u8) == Some(Instr::IBinOp(Nx::N64, IBinOp::Rem(Sx::U))),
        spec_op_numeric(0x83u8) == Some(Instr::IBinOp(Nx::N64, IBinOp::And)),
        spec_op_numeric(0x84u8) == Some(Instr::IBinOp(Nx::N64, IBinOp::Or)),
{
}

#[verifier::rlimit(30)]
#[verifier::spinoff_prover]
proof fn lemma_numeric_opcodes_8()
    ensures
        spec_op_numeric(0x85u8) == Some(Instr::IBinOp(Nx::N64, IBinOp::Xor)),
        spec_op_numeric(0x86u8) == Some(Instr::IBinOp(Nx::N64, IBinOp::Shl)),
        spec_op_numeric(0x87u8) == Some(Instr::IBinOp(Nx::N64, IBinOp::Shr(Sx::S))),
        spec_op_numeric(0x88u8) == Some(Instr::IBinOp(Nx::N64, IBinOp::Shr(Sx::U))),
        spec_op_numeric(0x89u8) == Some(Instr::IBinOp(Nx::N64, IBinOp::Rotl)),
        spec_op_numeric(0x8au8) == Some(Instr::IBinOp(Nx::N64, IBinOp::Rotr)),
        spec_op_numeric(0x8bu8) == Some(Instr::FUnOp(Nx::N32, FUnOp::Abs)),
        spec_op_numeric(0x8cu8) == Some(Instr::FUnOp(Nx::N32, FUnOp::Neg)),
{
}

#[verifier::rlimit(30)]
#[verifier::spinoff_prover]
proof fn lemma_numeric_opcodes_9()
    ensures
        spec_op_numeric(0x8du8) == Some(Instr::FUnOp(Nx::N32, FUnOp::Ceil)),
        spec_op_numeric(0x8eu8) == Some(Instr::FUnOp(Nx::N32, FUnOp::Floor)),
        spec_op_numeric(0x8fu8) == Some(Instr::FUnOp(Nx::N32, FUnOp::Trunc)),
        spec_op_numeric(0x90u8) == Some(Instr::FUnOp(Nx::N32, FUnOp::Nearest)),
        spec_op_numeric(0x91u8) == Some(Instr::FUnOp(Nx::N32, FUnOp::Sqrt)),
        spec_op_numeric(0x92u8) == Some(Instr::FBinOp(Nx::N32, FBinOp::Add)),
        spec_op_numeric(0x93u8) == Some(Instr::FBinOp(Nx::N32, FBinOp::Sub)),
        spec_op_numeric(0x94u8) == Some(Instr::FBinOp(Nx::N32, FBinOp::Mul)),
{
}

#[verifier::rlimit(30)]
#[verifier::spinoff_prover]
proof fn lemma_numeric_opcodes_10()
    ensures
        spec_op_numeric(0x95u8) == Some(Instr::FBinOp(Nx::N32, FBinOp::Div)),
        spec_op_numeric(0x96u8) == Some(Instr::FBinOp(Nx::N32, FBinOp::Min)),
        spec_op_numeric(0x97u8) == Some(Instr::FBinOp(Nx::N32, FBinOp::Max)),
        spec_op_numeric(0x98u8) == Some(Instr::FBinOp(Nx::N32, FBinOp::CopySign)),
        spec_op_numeric(0x99u8) == Some(Instr::FUnOp(Nx::N64, FUnOp::Abs)),
        spec_op_numeric(0x9au8) == Some(Instr::FUnOp(Nx::N64, FUnOp::Neg)),
        spec_op_numeric(0x9bu8) == Some(Instr::FUnOp(Nx::N64, FUnOp::Ceil)),
        spec_op_numeric(0x9cu8) == Some(Instr::FUnOp(Nx::N64, FUnOp::Floor)),
{
}

#[verifier::rlimit(30)]
#[verifier::spinoff_prover]
proof fn lemma_numeric_opcodes_11()
    ensures
        spec_op_numeric(0x9du8) == Some(Instr::FUnOp(Nx::N64, FUnOp::Trunc)),
        spec_op_numeric(0x9eu8) == Some(Instr::FUnOp(Nx::N64, FUnOp::Nearest)),
        spec_op_numeric(0x9fu8) == Some(Instr::FUnOp(Nx::N64, FUnOp::Sqrt)),
        spec_op_numeric(0xa0u8) == Some(Instr::FBinOp(Nx::N64, FBinOp::Add)),
        spec_op_numeric(0xa1u8) == Some(Instr::FBinOp(Nx::N64, FBinOp::Sub)),
        spec_op_numeric(0xa2u8) == Some(Instr::FBinOp(Nx::N64, FBinOp::Mul)),
        spec_op_numeric(0xa3u8) == Some(Instr::FBinOp(Nx::N64, FBinOp::Div)),
        spec_op_numeric(0xa4u8) == Some(Instr::FBinOp(Nx::N64, FBinOp::Min)),
{
}

#[verifier::rlimit(30)]
#[verifier::spinoff_prover]
proof fn lemma_numeric_opcodes_12()
    ensures
        spec_op_numeric(0xa5u8) == Some(Instr::FBinOp(Nx::N64, FBinOp::Max)),
        spec_op_numeric(0xa6u8) == Some(Instr::FBinOp(Nx::N64, FBinOp::CopySign)),
        spec_op_numeric(0xa7u8) == Some(Instr::CvtOp(CvtOp::Wrap)),
        spec_op_numeric(0xa8u8) == Some(Instr::CvtOp(CvtOp::Trunc(Nx::N32, Nx::N32, Sx::S))),
        spec_op_numeric(0xa9u8) == Some(Instr::CvtOp(CvtOp::Trunc(Nx::N32, Nx::N32, Sx::U))),
        spec_op_numeric(0xaau8) == Some(Instr::CvtOp(CvtOp::Trunc(Nx::N32, Nx::N64, Sx::S))),
        spec_op_numeric(0xabu8) == Some(Instr::CvtOp(CvtOp::Trunc(Nx::N32, Nx::N64, Sx::U))),
        spec_op_numeric(0xacu8) == Some(Instr::CvtOp(CvtOp::Extend(Sx::S))),
{
}

#[verifier::rlimit(30)]
#[verifier::spinoff_prover]
proof fn lemma_numeric_opcodes_13()
    ensures
        spec_op_numeric(0xadu8) == Some(Instr::CvtOp(CvtOp::Extend(Sx::U))),
        spec_op_numeric(0xaeu8) == Some(Instr::CvtOp(CvtOp::Trunc(Nx::N64, Nx::N32, Sx::S))),
        spec_op_numeric(0xafu8) == Some(Instr::CvtOp(CvtOp::Trunc(Nx::N64, Nx::N32, Sx::U))),
        spec_op_numeric(0xb0u8) == Some(Instr::CvtOp(CvtOp::Trunc(Nx::N64, Nx::N64, Sx::S))),
        spec_op_numeric(0xb1u8) == Some(Instr::CvtOp(CvtOp::Trunc(Nx::N64, Nx::N64, Sx::U))),
        spec_op_numeric(0xb2u8) == Some(Instr::CvtOp(CvtOp::Convert(Nx::N32, Nx::N32, Sx::S))),
        spec_op_numeric(0xb3u8) == Some(Instr::CvtOp(CvtOp::Convert(Nx::N32, Nx::N32, Sx::U))),
        spec_op_numeric(0xb4u8) == Some(Instr::CvtOp(CvtOp::Convert(Nx::N32, Nx::N64, Sx::S))),
{
}

#[verifier::rlimit(30)]
#[verifier::spinoff_prover]
proof fn lemma_numeric_opcodes_14()
    ensures
        spec_op_numeric(0xb5u8) == Some(Instr::CvtOp(CvtOp::Convert(Nx::N32, Nx::N64, Sx::U))),
        spec_op_numeric(0xb6u8) == Some(Instr::CvtOp(CvtOp::Demote)),
        spec_op_numeric(0xb7u8) == Some(Instr::CvtOp(CvtOp::Convert(Nx::N64, Nx::N32, Sx::S))),
        spec_op_numeric(0xb8u8) == Some(Instr::CvtOp(CvtOp::Convert(Nx::N64, Nx::N32, Sx::U))),
        spec_op_numeric(0xb9u8) == Some(Instr::CvtOp(CvtOp::Convert(Nx::N64, Nx::N64, Sx::S))),
        spec_op_numeric(0xbau8) == Some(Instr::CvtOp(CvtOp::Convert(Nx::N64, Nx::N64, Sx::U))),
        spec_op_numeric(0xbbu8) == Some(Instr::CvtOp(CvtOp::Promote)),
        spec_op_numeric(0xbcu8) == Some(Instr::CvtOp(CvtOp::IReinterpret(Nx::N32))),
{
}

#[verifier::rlimit(30)]
#[verifier::spinoff_prover]
proof fn lemma_numeric_opcodes_15()
    ensures
        spec_op_numeric(0xbdu8) == Some(Instr::CvtOp(CvtOp::IReinterpret(Nx::N64))),
        spec_op_numeric(0xbeu8) == Some(Instr::CvtOp(CvtOp::FReinterpret(Nx::N32))),
        spec_op_numeric(0xbfu8) == Some(Instr::CvtOp(CvtOp::FReinterpret(Nx::N64))),
        spec_op_numeric(0xc0u8) == Some(Instr::IExtend(Bx::N32B8)),
        spec_op_numeric(0xc1u8) == Some(Instr::IExtend(Bx::N32B16)),
        spec_op_numeric(0xc2u8) == Some(Instr::IExtend(Bx::N64B8)),
        spec_op_numeric(0xc3u8) == Some(Instr::IExtend(Bx::N64B16)),
        spec_op_numeric(0xc4u8) == Some(Instr::IExtend(Bx::N64B32)),
{
}

/// The opcodes of the integer numeric instructions: tests and comparisons (signed before
/// unsigned), then unary and binary operators, for 32-bit values then 64-bit values.
pub proof fn lemma_integer_opcodes()
    ensures
        spec_op_numeric(0x45u8) == Some(Instr::ITestOp(Nx::N32, ITestOp::Eqz)),
        spec_op_numeric(0x46u8) == Some(Instr::IRelOp(Nx::N32, IRelOp::Eq)),
        spec_op_numeric(0x47u8) == Some(Instr::IRelOp(Nx::N32, IRelOp::Ne)),
        spec_op_numeric(0x48u8) == Some(Instr::IRelOp(Nx::N32, IRelOp::Lt(Sx::S))),
        spec_op_numeric(0x49u8) == Some(Instr::IRelOp(Nx::N32, IRelOp::Lt(Sx::U))),
        spec_op_numeric(0x4au8) == Some(Instr::IRelOp(Nx::N32, IRelOp::Gt(Sx::S))),
        spec_op_numeric(0x4bu8) == Some(Instr::IRelOp(Nx::N32, IRelOp::Gt(Sx::U))),
        spec_op_numeric(0x4cu8) == Some(Instr::IRelOp(Nx::N32, IRelOp::Le(Sx::S))),
        spec_op_numeric(0x4du8) == Some(Instr::IRelOp(Nx::N32, IRelOp::Le(Sx::U))),
        spec_op_numeric(0x4eu8) == Some(Instr::IRelOp(Nx::N32, IRelOp::Ge(Sx::S))),
        spec_op_numeric(0x4fu8) == Some(Instr::IRelOp(Nx::N32, IRelOp::Ge(Sx::U))),
        spec_op_numeric(0x50u8) == Some(Instr::ITestOp(Nx::N64, ITestOp::Eqz)),
        spec_op_numeric(0x51u8) == Some(Instr::IRelOp(Nx::N64, IRelOp::Eq)),
        spec_op_numeric(0x52u8) == Some(Instr::IRelOp(Nx::N64, IRelOp::Ne)),
        spec_op_numeric(0x53u8) == Some(Instr::IRelOp(Nx::N64, IRelOp::Lt(Sx::S))),
        spec_op_numeric(0x54u8) == Some(Instr::IRelOp(Nx::N64, IRelOp::Lt(Sx::U))),
        spec_op_numeric(0x55u8) == Some(Instr::IRelOp(Nx::N64, IRelOp::Gt(Sx::S))),
        spec_op_numeric(0x56u8) == Some(Instr::IRelOp(Nx::N64, IRelOp::Gt(Sx::U))),
        spec_op_numeric(0x57u8) == Some(Instr::IRelOp(Nx::N64, IRelOp::Le(Sx::S))),
        spec_op_numeric(0x58u8) == Some(Instr::IRelOp(Nx::N64, IRelOp::Le(Sx::U))),
        spec_op_numeric(0x59u8) == Some(Instr::IRelOp(Nx::N64, IRelOp::Ge(Sx::S))),
        spec_op_numeric(0x5au8) == Some(Instr::IRelOp(Nx::N64, IRelOp::Ge(Sx::U))),
        spec_op_numeric(0x67u8) == Some(Instr::IUnOp(Nx::N32, IUnOp::Clz)),
        spec_op_numeric(0x68u8) == Some(Instr::IUnOp(Nx::N32, IUnOp::Ctz)),
        spec_op_numeric(0x69u8) == Some(Instr::IUnOp(Nx::N32, IUnOp::PopCnt)),
        spec_op_numeric(0x6au8) == Some(Instr::IBinOp(Nx::N32, IBinOp::Add)),
        spec_op_numeric(0x6bu8) == Some(Instr::IBinOp(Nx::N32, IBinOp::Sub)),
        spec_op_numeric(0x6cu8) == Some(Instr::IBinOp(Nx::N32, IBinOp::Mul)),
        spec_op_numeric(0x6du8) == Some(Instr::IBinOp(Nx::N32, IBinOp::Div(Sx::S))),
        spec_op_numeric(0x6eu8) == Some(Instr::IBinOp(Nx::N32, IBinOp::Div(Sx::U))),
        spec_op_numeric(0x6fu8) == Some(Instr::IBinOp(Nx::N32, IBinOp::Rem(Sx::S))),
        spec_op_numeric(0x70u8) == Some(Instr::IBinOp(Nx::N32, IBinOp::Rem(Sx::U))),
        spec_op_numeric(0x71u8) == Some(Instr::IBinOp(Nx::N32, IBinOp::And)),
        spec_op_numeric(0x72u8) == Some(Instr::IBinOp(Nx::N32, IBinOp::Or)),
        spec_op_numeric(0x73u8) == Some(Instr::IBinOp(Nx::N32, IBinOp::Xor)),
        spec_op_numeric(0x74u8) == Some(Instr::IBinOp(Nx::N32, IBinOp::Shl)),
        spec_op_numeric(0x75u8) == Some(Instr::IBinOp(Nx::N32, IBinOp::Shr(Sx::S))),
        spec_op_numeric(0x76u8) == Some(Instr::IBinOp(Nx::N32, IBinOp::Shr(Sx::U))),
        spec_op_numeric(0x77u8) == Some(Instr::IBinOp(Nx::N32, IBinOp::Rotl)),
        spec_op_numeric(0x78u8) == Some(Instr::IBinOp(Nx::N32, IBinOp::Rotr)),
        spec_op_numeric(0x79u8) == Some(Instr::IUnOp(Nx::N64, IUnOp::Clz)),
        spec_op_numeric(0x7au8) == Some(Instr::IUnOp(Nx::N64, IUnOp::Ctz)),
        spec_op_numeric(0x7bu8) == Some(Instr::IUnOp(Nx::N64, IUnOp::PopCnt)),
        spec_op_numeric(0x7cu8) == Some(Instr::IBinOp(Nx::N64, IBinOp::Add)),
        spec_op_numeric(0x7du8) == Some(Instr::IBinOp(Nx::N64, IBinOp::Sub)),
        spec_op_numeric(0x7eu8) == Some(Instr::IBinOp(Nx::N64, IBinOp::Mul)),
        spec_op_numeric(0x7fu8) == Some(Instr::IBinOp(Nx::N64, IBinOp::Div(Sx::S))),
        spec_op_numeric(0x80u8) == Some(Instr::IBinOp(Nx::N64, IBinOp::Div(Sx::U))),
        spec_op_numeric(0x81u8) == Some(Instr::IBinOp(Nx::N64, IBinOp::Rem(Sx::S))),
        spec_op_numeric(0x82u8) == Some(Instr::IBinOp(Nx::N64, IBinOp::Rem(Sx::U))),
        spec_op_numeric(0x83u8) == Some(Instr::IBinOp(Nx::N64, IBinOp::And)),
        spec_op_numeric(0x84u8) == Some(Instr::IBinOp(Nx::N64, IBinOp::Or)),
        spec_op_numeric(0x85u8) == Some(Instr::IBinOp(Nx::N64, IBinOp::Xor)),
        spec_op_numeric(0x86u8) == Some(Instr::IBinOp(Nx::N64, IBinOp::Shl)),
        spec_op_numeric(0x87u8) == Some(Instr::IBinOp(Nx::N64, IBinOp::Shr(Sx::S))),
        spec_op_numeric(0x88u8) == Some(Instr::IBinOp(Nx::N64, IBinOp::Shr(Sx::U))),
        spec_op_numeric(0x89u8) == Some(Instr::IBinOp(Nx::N64, IBinOp::Rotl)),
        spec_op_numeric(0x8au8) == Some(Instr::IBinOp(Nx::N64, IBinOp::Rotr)),
{
    lemma_numeric_opcodes_0();
    lemma_numeric_opcodes_1();
    lemma_numeric_opcodes_2();
    lemma_numeric_opcodes_3();
    lemma_numeric_opcodes_4();
    lemma_numeric_opcodes_5();
    lemma_numeric_opcodes_6();
    lemma_numeric_opcodes_7();
    lemma_numeric_opcodes_8();
    lemma_numeric_opcodes_9();
    lemma_numeric_opcodes_10();
    lemma_numeric_opcodes_11();
    lemma_numeric_opcodes_12();
    lemma_numeric_opcodes_13();
    lemma_numeric_opcodes_14();
    lemma_numeric_opcodes_15();
}

/// The opcodes of the floating-point numeric instructions: comparisons, then unary and binary
/// operators, for 32-bit values then 64-bit values.
pub proof fn lemma_float_opcodes()
    ensures
        spec_op_numeric(0x5bu8) == Some(Instr::FRelOp(Nx::N32, FRelOp::Eq)),
        spec_op_numeric(0x5cu8) == Some(Instr::FRelOp(Nx::N32, FRelOp::Ne)),
        spec_op_numeric(0x5du8) == Some(Instr::FRelOp(Nx::N32, FRelOp::Lt)),
        spec_op_numeric(0x5eu8) == Some(Instr::FRelOp(Nx::N32, FRelOp::Gt)),
        spec_op_numeric(0x5fu8) == Some(Instr::FRelOp(Nx::N32, FRelOp::Le)),
        spec_op_numeric(0x60u8) == Some(Instr::FRelOp(Nx::N32, FRelOp::Ge)),
        spec_op_numeric(0x61u8) == Some(Instr::FRelOp(Nx::N64, FRelOp::Eq)),
        spec_op_numeric(0x62u8) == Some(Instr::FRelOp(Nx::N64, FRelOp::Ne)),
        spec_op_numeric(0x63u8) == Some(Instr::FRelOp(Nx::N64, FRelOp::Lt)),
        spec_op_numeric(0x64u8) == Some(Instr::FRelOp(Nx::N64, FRelOp::Gt)),
        spec_op_numeric(0x65u8) == Some(Instr::FRelOp(Nx::N64, FRelOp::Le)),
        spec_op_numeric(0x66u8) == Some(Instr::FRelOp(Nx::N64, FRelOp::Ge)),
        spec_op_numeric(0x8bu8) == Some(Instr::FUnOp(Nx::N32, FUnOp::Abs)),
        spec_op_numeric(0x8cu8) == Some(Instr::FUnOp(Nx::N32, FUnOp::Neg)),
        spec_op_numeric(0x8du8) == Some(Instr::FUnOp(Nx::N32, FUnOp::Ceil)),
        spec_op_numeric(0x8eu8) == Some(Instr::FUnOp(Nx::N32, FUnOp::Floor)),
        spec_op_numeric(0x8fu8) == Some(Instr::FUnOp(Nx::N32, FUnOp::Trunc)),
        spec_op_numeric(0x90u8) == Some(Instr::FUnOp(Nx::N32, FUnOp::Nearest)),
        spec_op_numeric(0x91u8) == Some(Instr::FUnOp(Nx::N32, FUnOp::Sqrt)),
        spec_op_numeric(0x92u8) == Some(Instr::FBinOp(Nx::N32, FBinOp::Add)),
        spec_op_numeric(0x93u8) == Some(Instr::FBinOp(Nx::N32, FBinOp::Sub)),
        spec_op_numeric(0x94u8) == Some(Instr::FBinOp(Nx::N32, FBinOp::Mul)),
        spec_op_numeric(0x95u8) == Some(Instr::FBinOp(Nx::N32, FBinOp::Div)),
        spec_op_numeric(0x96u8) == Some(Instr::FBinOp(Nx::N32, FBinOp::Min)),
        spec_op_numeric(0x97u8) == Some(Instr::FBinOp(Nx::N32, FBinOp::Max)),
        spec_op_numeric(0x98u8) == Some(Instr::FBinOp(Nx::N32, FBinOp::CopySign)),
        spec_op_numeric(0x99u8) == Some(Instr::FUnOp(Nx::N64, FUnOp::Abs)),
        spec_op_numeric(0x9au8) == Some(Instr::FUnOp(Nx::N64, FUnOp::Neg)),
        spec_op_numeric(0x9bu8) == Some(Instr::FUnOp(Nx::N64, FUnOp::Ceil)),
        spec_op_numeric(0x9cu8) == Some(Instr::FUnOp(Nx::N64, FUnOp::Floor)),
        spec_op_numeric(0x9du8) == Some(Instr::FUnOp(Nx::N64, FUnOp::Trunc)),
        spec_op_numeric(0x9eu8) == Some(Instr::FUnOp(Nx::N64, FUnOp::Nearest)),
        spec_op_numeric(0x9fu8) == Some(Instr::FUnOp(Nx::N64, FUnOp::Sqrt)),
        spec_op_numeric(0xa0u8) == Some(Instr::FBinOp(Nx::N64, FBinOp::Add)),
        spec_op_numeric(0xa1u8) == Some(Instr::FBinOp(Nx::N64, FBinOp::Sub)),
        spec_op_numeric(0xa2u8) == Some(Instr::FBinOp(Nx::N64, FBinOp::Mul)),
        spec_op_numeric(0xa3u8) == Some(Instr::FBinOp(Nx::N64, FBinOp::Div)),
        spec_op_numeric(0xa4u8) == Some(Instr::FBinOp(Nx::N64, FBinOp::Min)),
        spec_op_numeric(0xa5u8) == Some(Instr::FBinOp(Nx::N64, FBinOp::Max)),
        spec_op_numeric(0xa6u8) == Some(Instr::FBinOp(Nx::N64, FBinOp::CopySign)),
{
    lemma_numeric_opcodes_0();
    lemma_numeric_opcodes_1();
    lemma_numeric_opcodes_2();
    lemma_numeric_opcodes_3();
    lemma_numeric_opcodes_4();
    lemma_numeric_opcodes_5();
    lemma_numeric_opcodes_6();
    lemma_numeric_opcodes_7();
    lemma_numeric_opcodes_8();
    lemma_numeric_opcodes_9();
    lemma_numeric_opcodes_10();
    lemma_numeric_opcodes_11();
    lemma_numeric_opcodes_12();
    lemma_numeric_opcodes_13();
    lemma_numeric_opcodes_14();
    lemma_numeric_opcodes_15();
}

/// The opcodes of the conversions: wrapping, truncations, extensions (signed before unsigned),
/// conversions, demotion and promotion, reinterpretations and sign extensions.
pub proof fn lemma_conversion_opcodes()
    ensures
        spec_op_numeric(0xa7u8) == Some(Instr::CvtOp(CvtOp::Wrap)),
        spec_op_numeric(0xa8u8) == Some(Instr::CvtOp(CvtOp::Trunc(Nx::N32, Nx::N32, Sx::S))),
        spec_op_numeric(0xa9u8) == Some(Instr::CvtOp(CvtOp::Trunc(Nx::N32, Nx::N32, Sx::U))),
        spec_op_numeric(0xaau8) == Some(Instr::CvtOp(CvtOp::Trunc(Nx::N32, Nx::N64, Sx::S))),
        spec_op_numeric(0xabu8) == Some(Instr::CvtOp(CvtOp::Trunc(Nx::N32, Nx::N64, Sx::U))),
        spec_op_numeric(0xacu8) == Some(Instr::CvtOp(CvtOp::Extend(Sx::S))),
        spec_op_numeric(0xadu8) == Some(Instr::CvtOp(CvtOp::Extend(Sx::U))),
        spec_op_numeric(0xaeu8) == Some(Instr::CvtOp(CvtOp::Trunc(Nx::N64, Nx::N32, Sx::S))),
        spec_op_numeric(0xafu8) == Some(Instr::CvtOp(CvtOp::Trunc(Nx::N64, Nx::N32, Sx::U))),
        spec_op_numeric(0xb0u8) == Some(Instr::CvtOp(CvtOp::Trunc(Nx::N64, Nx::N64, Sx::S))),
        spec_op_numeric(0xb1u8) == Some(Instr::CvtOp(CvtOp::Trunc(Nx::N64, Nx::N64, Sx::U))),
        spec_op_numeric(0xb2u8) == Some(Instr::CvtOp(CvtOp::Convert(Nx::N32, Nx::N32, Sx::S))),
        spec_op_numeric(0xb3u8) == Some(Instr::CvtOp(CvtOp::Convert(Nx::N32, Nx::N32, Sx::U))),
        spec_op_numeric(0xb4u8) == Some(Instr::CvtOp(CvtOp::Convert(Nx::N32, Nx::N64, Sx::S))),
        spec_op_numeric(0xb5u8) == Some(Instr::CvtOp(CvtOp::Convert(Nx::N32, Nx::N64, Sx::U))),
        spec_op_numeric(0xb6u8) == Some(Instr::CvtOp(CvtOp::Demote)),
        spec_op_numeric(0xb7u8) == Some(Instr::CvtOp(CvtOp::Convert(Nx::N64, Nx::N32, Sx::S))),
        spec_op_numeric(0xb8u8) == Some(Instr::CvtOp(CvtOp::Convert(Nx::N64, Nx::N32, Sx::U))),
        spec_op_numeric(0xb9u8) == Some(Instr::CvtOp(CvtOp::Convert(Nx::N64, Nx::N64, Sx::S))),
        spec_op_numeric(0xbau8) == Some(Instr::CvtOp(CvtOp::Convert(Nx::N64, Nx::N64, Sx::U))),
        spec_op_numeric(0xbbu8) == Some(Instr::CvtOp(CvtOp::Promote)),
        spec_op_numeric(0xbcu8) == Some(Instr::CvtOp(CvtOp::IReinterpret(Nx::N32))),
        spec_op_numeric(0xbdu8) == Some(Instr::CvtOp(CvtOp::IReinterpret(Nx::N64))),
        spec_op_numeric(0xbeu8) == Some(Instr::CvtOp(CvtOp::FReinterpret(Nx::N32))),
        spec_op_numeric(0xbfu8) == Some(Instr::CvtOp(CvtOp::FReinterpret(Nx::N64))),
        spec_op_numeric(0xc0u8) == Some(Instr::IExtend(Bx::N32B8)),
        spec_op_numeric(0xc1u8) == Some(Instr::IExtend(Bx::N32B16)),
        spec_op_numeric(0xc2u8) == Some(Instr::IExtend(Bx::N64B8)),
        spec_op_numeric(0xc3u8) == Some(Instr::IExtend(Bx::N64B16)),
        spec_op_numeric(0xc4u8) == Some(Instr::IExtend(Bx::N64B32)),
{
    lemma_numeric_opcodes_0();
    lemma_numeric_opcodes_1();
    lemma_numeric_opcodes_2();
    lemma_numeric_opcodes_3();
    lemma_numeric_opcodes_4();
    lemma_numeric_opcodes_5();
    lemma_numeric_opcodes_6();
    lemma_numeric_opcodes_7();
    lemma_numeric_opcodes_8();
    lemma_numeric_opcodes_9();
    lemma_numeric_opcodes_10();
    lemma_numeric_opcodes_11();
    lemma_numeric_opcodes_12();
    lemma_numeric_opcodes_13();
    lemma_numeric_opcodes_14();
    lemma_numeric_opcodes_15();
}

/// The sub-opcodes of the saturating truncations after the prefix 0xfc: the integer width, then
/// the floating-point width, then signed before unsigned.
pub proof fn lemma_trunc_sat_opcodes(t: Seq<u8>)
    ensures
        spec_op_fc(0u32, t) == Ok::<(InstrView, nat), Error>((InstrView::Plain(Instr::CvtOp(CvtOp::TruncSat(Nx::N32, Nx::N32, Sx::S))), 0nat)),
        spec_op_fc(1u32, t) == Ok::<(InstrView, nat), Error>((InstrView::Plain(Instr::CvtOp(CvtOp::TruncSat(Nx::N32, Nx::N32, Sx::U))), 0nat)),
        spec_op_fc(2u32, t) == Ok::<(InstrView, nat), Error>((InstrView::Plain(Instr::CvtOp(CvtOp::TruncSat(Nx::N32, Nx::N64, Sx::S))), 0nat)),
        spec_op_fc(3u32, t) == Ok::<(InstrView, nat), Error>((InstrView::Plain(Instr::CvtOp(CvtOp::TruncSat(Nx::N32, Nx::N64, Sx::U))), 0nat)),
        spec_op_fc(4u32, t) == Ok::<(InstrView, nat), Error>((InstrView::Plain(Instr::CvtOp(CvtOp::TruncSat(Nx::N64, Nx::N32, Sx::S))), 0nat)),
        spec_op_fc(5u32, t) == Ok::<(InstrView, nat), Error>((InstrView::Plain(Instr::CvtOp(CvtOp::TruncSat(Nx::N64, Nx::N32, Sx::U))), 0nat)),
        spec_op_fc(6u32, t) == Ok::<(InstrView, nat), Error>((InstrView::Plain(Instr::CvtOp(CvtOp::TruncSat(Nx::N64, Nx::N64, Sx::S))), 0nat)),
        spec_op_fc(7u32, t) == Ok::<(InstrView, nat), Error>((InstrView::Plain(Instr::CvtOp(CvtOp::TruncSat(Nx::N64, Nx::N64, Sx::U))), 0nat)),
{
    assert(((0u32 & 4) != 0) == false && ((0u32 & 2) != 0) == false && (0u32 & 1) == 0u32 && ((1u32 & 4) != 0) == false && ((1u32 & 2) != 0) == false && (1u32 & 1) == 1u32 && ((2u32 & 4) != 0) == false && ((2u32 & 2) != 0) == true && (2u32 & 1) == 0u32 && ((3u32 & 4) != 0) == false && ((3u32 & 2) != 0) == true && (3u32 & 1) == 1u32 && ((4u32 & 4) != 0) == true && ((4u32 & 2) != 0) == false && (4u32 & 1) == 0u32 && ((5u32 & 4) != 0) == true && ((5u32 & 2) != 0) == false && (5u32 & 1) == 1u32 && ((6u32 & 4) != 0) == true && ((6u32 & 2) != 0) == true && (6u32 & 1) == 0u32 && ((7u32 & 4) != 0) == true && ((7u32 & 2) != 0) == true && (7u32 & 1) == 1u32) by (bit_vector);

}

proof fn lemma_wrap_byte(x: u64, y: u64)
    by (bit_vector)
    requires
        0xffff_ffc0u64 <= x < 0x1_0000_0000u64,
        0xffff_ffff_ffff_ffc0u64 <= y,
    ensures
        (x as i32) as int == x - 0x1_0000_0000,
        (y as i64) as int == y - 0x1_0000_0000_0000_0000,
{
}

/// A LEB128 integer of one byte (below 0x80) is that byte: unsigned, its value; signed, its
/// value when bit 6 is clear and its value minus 128 when bit 6 is set (0x7f is -1).
pub proof fn lemma_leb_one_byte(b: u8, rest: Seq<u8>)
    requires
        b < 0x80,
    ensures
        spec_u32(seq![b] + rest) == Ok::<(u32, nat), Error>((b as u32, 1nat)),
        spec_s32(seq![b] + rest) == Ok::<(i32, nat), Error>(((if b < 0x40 { b as int } else { b - 128 }) as i32, 1nat)),
        spec_s64(seq![b] + rest) == Ok::<(i64, nat), Error>(((if b < 0x40 { b as int } else { b - 128 }) as i64, 1nat)),
{
    let s = seq![b] + rest;
    assert(s[0] == b);
    assert(leb_end(s) == Some(1nat));
    assert(s.take(0) =~= Seq::<u8>::empty());
    assert(leb_groups(s.take(0)) == 0);
    vstd::arithmetic::power2::lemma2_to64();
    vstd::arithmetic::power2::lemma2_to64_rest();
    assert(low7(b) == b);
    if b >= 0x40 {
        let x: u64 = (b - 128 + 0x1_0000_0000) as u64;
        let y: u64 = (b - 128 + 0x1_0000_0000_0000_0000) as u64;
        lemma_wrap_byte(x, y);
        assert((b - 128) % (pow2(32) as int) == b - 128 + 0x1_0000_0000);
        assert((b - 128) % (pow2(64) as int) == b - 128 + 0x1_0000_0000_0000_0000);
    }
}

/// The control opcodes without a block type: `unreachable`, `nop`, `else`, `end` and `return`
/// take no immediate; `br`, `br_if` and `call` a label or function index; `call_indirect` reads
/// the type index first and the table index second. Also `drop` and the untyped `select`, and
/// `memory.size` and `memory.grow`, which take a zero byte.
pub proof fn lemma_control_opcodes(t: Seq<u8>, a: u32, n: nat, b: u32, m: nat)
    requires
        spec_u32(t) == Ok::<(u32, nat), Error>((a, n)),
        spec_u32(t.skip(n as int)) == Ok::<(u32, nat), Error>((b, m)),
    ensures
        spec_op_control(0x00u8, t) == Ok::<(InstrView, nat), Error>((InstrView::Plain(Instr::Unreachable), 0nat)),
        spec_op_control(0x01u8, t) == Ok::<(InstrView, nat), Error>((InstrView::Plain(Instr::Nop), 0nat)),
        spec_op_control(0x05u8, t) == Ok::<(InstrView, nat), Error>((InstrView::Plain(Instr::Else), 0nat)),
        spec_op_control(0x0bu8, t) == Ok::<(InstrView, nat), Error>((InstrView::Plain(Instr::End), 0nat)),
        spec_op_control(0x0cu8, t) == Ok::<(InstrView, nat), Error>((InstrView::Plain(Instr::Br(a)), n)),
        spec_op_control(0x0du8, t) == Ok::<(InstrView, nat), Error>((InstrView::Plain(Instr::BrIf(a)), n)),
        spec_op_control(0x0fu8, t) == Ok::<(InstrView, nat), Error>((InstrView::Plain(Instr::Return), 0nat)),
        spec_op_control(0x10u8, t) == Ok::<(InstrView, nat), Error>((InstrView::Plain(Instr::Call(a)), n)),
        spec_op_control(0x11u8, t) == Ok::<(InstrView, nat), Error>((InstrView::Plain(Instr::CallIndirect(b, a)), n + m)),
        spec_op_variable(0x1au8, t) == Ok::<(InstrView, nat), Error>((InstrView::Plain(Instr::Drop), 0nat)),
        spec_op_variable(0x1bu8, t) == Ok::<(InstrView, nat), Error>((InstrView::Select(None), 0nat)),
        spec_op_memory(0x3fu8, seq![0u8]) == Ok::<(InstrView, nat), Error>((InstrView::Plain(Instr::MemorySize), 1nat)),
        spec_op_memory(0x40u8, seq![0u8]) == Ok::<(InstrView, nat), Error>((InstrView::Plain(Instr::MemoryGrow), 1nat)),
        spec_op_memory(0x3fu8, seq![1u8]) == Err::<(InstrView, nat), Error>(Error::Invalid),
{
}

/// The bulk memory and table instructions after the prefix `0xfc`: `memory.init` reads a data
/// index and a zero byte, `data.drop` a data index, `memory.copy` two zero bytes, `memory.fill`
/// one; `table.init` reads the element index first and the table index second, `elem.drop` an
/// element index, `table.copy` the destination then the source table, and `table.grow`,
/// `table.size` and `table.fill` a table index.
pub proof fn lemma_bulk_opcodes(t: Seq<u8>, a: u32, n: nat, b: u32, m: nat)
    requires
        spec_u32(t) == Ok::<(u32, nat), Error>((a, n)),
        spec_u32(t.skip(n as int)) == Ok::<(u32, nat), Error>((b, m)),
    ensures
        t.len() > n && t[n as int] == 0 ==> spec_op_fc(8u32, t) == Ok::<(InstrView, nat), Error>((InstrView::Plain(Instr::MemoryInit(a)), n + 1)),
        t.len() > n && t[n as int] != 0 ==> spec_op_fc(8u32, t) == Err::<(InstrView, nat), Error>(Error::Invalid),
        spec_op_fc(9u32, t) == Ok::<(InstrView, nat), Error>((InstrView::Plain(Instr::DataDrop(a)), n)),
        spec_op_fc(10u32, seq![0u8, 0u8]) == Ok::<(InstrView, nat), Error>((InstrView::Plain(Instr::MemoryCopy), 2nat)),
        spec_op_fc(11u32, seq![0u8]) == Ok::<(InstrView, nat), Error>((InstrView::Plain(Instr::MemoryFill), 1nat)),
        spec_op_fc(12u32, t) == Ok::<(InstrView, nat), Error>((InstrView::Plain(Instr::TableInit(b, a)), n + m)),
        spec_op_fc(13u32, t) == Ok::<(InstrView, nat), Error>((InstrView::Plain(Instr::ElemDrop(a)), n)),
        spec_op_fc(14u32, t) == Ok::<(InstrView, nat), Error>((InstrView::Plain(Instr::TableCopy(a, b)), n + m)),
        spec_op_fc(15u32, t) == Ok::<(InstrView, nat), Error>((InstrView::Plain(Instr::TableGrow(a)), n)),
        spec_op_fc(16u32, t) == Ok::<(InstrView, nat), Error>((InstrView::Plain(Instr::TableSize(a)), n)),
        spec_op_fc(17u32, t) == Ok::<(InstrView, nat), Error>((InstrView::Plain(Instr::TableFill(a)), n)),
{
    let r = t.skip(n as int);
    if t.len() > n {
        assert(r[0] == t[n as int]);
    }
}

/// The opcodes of the memory instructions, followed by their alignment and offset: loads and
/// stores of full width, then the narrow loads (8, 16 and 32 bits, signed before unsigned) and the
/// narrow stores.
#[verifier::rlimit(30)]
pub proof fn lemma_memory_opcodes(t: Seq<u8>, m: MemArg, n: nat)
    requires
        spec_memarg(t) == Ok::<(MemArg, nat), Error>((m, n)),
    ensures
        spec_op_memory(0x28u8, t) == Ok::<(InstrView, nat), Error>((InstrView::Plain(Instr::ILoad(Nx::N32, m)), n)),
        spec_op_memory(0x29u8, t) == Ok::<(InstrView, nat), Error>((InstrView::Plain(Instr::ILoad(Nx::N64, m)), n)),
        spec_op_memory(0x2au8, t) == Ok::<(InstrView, nat), Error>((InstrView::Plain(Instr::FLoad(Nx::N32, m)), n)),
        spec_op_memory(0x2bu8, t) == Ok::<(InstrView, nat), Error>((InstrView::Plain(Instr::FLoad(Nx::N64, m)), n)),
        spec_op_memory(0x2cu8, t) == Ok::<(InstrView, nat), Error>((InstrView::Plain(Instr::ILoad_(Bx::N32B8, Sx::S, m)), n)),
        spec_op_memory(0x2du8, t) == Ok::<(InstrView, nat), Error>((InstrView::Plain(Instr::ILoad_(Bx::N32B8, Sx::U, m)), n)),
        spec_op_memory(0x2eu8, t) == Ok::<(InstrView, nat), Error>((InstrView::Plain(Instr::ILoad_(Bx::N32B16, Sx::S, m)), n)),
        spec_op_memory(0x2fu8, t) == Ok::<(InstrView, nat), Error>((InstrView::Plain(Instr::ILoad_(Bx::N32B16, Sx::U, m)), n)),
        spec_op_memory(0x30u8, t) == Ok::<(InstrView, nat), Error>((InstrView::Plain(Instr::ILoad_(Bx::N64B8, Sx::S, m)), n)),
        spec_op_memory(0x31u8, t) == Ok::<(InstrView, nat), Error>((InstrView::Plain(Instr::ILoad_(Bx::N64B8, Sx::U, m)), n)),
        spec_op_memory(0x32u8, t) == Ok::<(InstrView, nat), Error>((InstrView::Plain(Instr::ILoad_(Bx::N64B16, Sx::S, m)), n)),
        spec_op_memory(0x33u8, t) == Ok::<(InstrView, nat), Error>((InstrView::Plain(Instr::ILoad_(Bx::N64B16, Sx::U, m)), n)),
        spec_op_memory(0x34u8, t) == Ok::<(InstrView, nat), Error>((InstrView::Plain(Instr::ILoad_(Bx::N64B32, Sx::S, m)), n)),
        spec_op_memory(0x35u8, t) == Ok::<(InstrView, nat), Error>((InstrView::Plain(Instr::ILoad_(Bx::N64B32, Sx::U, m)), n)),
        spec_op_memory(0x36u8, t) == Ok::<(InstrView, nat), Error>((InstrView::Plain(Instr::IStore(Nx::N32, m)), n)),
        spec_op_memory(0x37u8, t) == Ok::<(InstrView, nat), Error>((InstrView::Plain(Instr::IStore(Nx::N64, m)), n)),
        spec_op_memory(0x38u8, t) == Ok::<(InstrView, nat), Error>((InstrView::Plain(Instr::FStore(Nx::N32, m)), n)),
        spec_op_memory(0x39u8, t) == Ok::<(InstrView, nat), Error>((InstrView::Plain(Instr::FStore(Nx::N64, m)), n)),
        spec_op_memory(0x3au8, t) == Ok::<(InstrView, nat), Error>((InstrView::Plain(Instr::IStore_(Bx::N32B8, m)), n)),
        spec_op_memory(0x3bu8, t) == Ok::<(InstrView, nat), Error>((InstrView::Plain(Instr::IStore_(Bx::N32B16, m)), n)),
        spec_op_memory(0x3cu8, t) == Ok::<(InstrView, nat), Error>((InstrView::Plain(Instr::IStore_(Bx::N64B8, m)), n)),
        spec_op_memory(0x3du8, t) == Ok::<(InstrView, nat), Error>((InstrView::Plain(Instr::IStore_(Bx::N64B16, m)), n)),
        spec_op_memory(0x3eu8, t) == Ok::<(InstrView, nat), Error>((InstrView::Plain(Instr::IStore_(Bx::N64B32, m)), n)),
{
}

/// The opcodes of the variable instructions, followed by their index: local get, set and tee,
/// global get and set, table get and set.
#[verifier::rlimit(30)]
pub proof fn lemma_variable_opcodes(t: Seq<u8>, x: u32, k: nat)
    requires
        spec_u32(t) == Ok::<(u32, nat), Error>((x, k)),
    ensures
        spec_op_variable(0x20u8, t) == Ok::<(InstrView, nat), Error>((InstrView::Plain(Instr::LocalGet(x)), k)),
        spec_op_variable(0x21u8, t) == Ok::<(InstrView, nat), Error>((InstrView::Plain(Instr::LocalSet(x)), k)),
        spec_op_variable(0x22u8, t) == Ok::<(InstrView, nat), Error>((InstrView::Plain(Instr::LocalTee(x)), k)),
        spec_op_variable(0x23u8, t) == Ok::<(InstrView, nat), Error>((InstrView::Plain(Instr::GlobalGet(x)), k)),
        spec_op_variable(0x24u8, t) == Ok::<(InstrView, nat), Error>((InstrView::Plain(Instr::GlobalSet(x)), k)),
        spec_op_variable(0x25u8, t) == Ok::<(InstrView, nat), Error>((InstrView::Plain(Instr::TableGet(x)), k)),
        spec_op_variable(0x26u8, t) == Ok::<(InstrView, nat), Error>((InstrView::Plain(Instr::TableSet(x)), k)),
{
}

/// Instructions with the 0xfc prefix, by their sub-opcode.
pub open spec fn spec_op_fc(x: u32, t: Seq<u8>) -> Result<(InstrView, nat), Error> {
    if x <= 7 {
        op_plain(
            Instr::CvtOp(
                CvtOp::TruncSat(
                    Nx::spec_from_u8(if x & 4 != 0 { 1 } else { 0 }),
                    Nx::spec_from_u8(if x & 2 != 0 { 1 } else { 0 }),
                    Sx::spec_from_u8((x & 1) as u8),
                ),
            ),
        )
    } else if x == 8 {
        match spec_u32(t) {
            Err(e) => Err(e),
            Ok((d, n0)) => match op_zero(t.skip(n0 as int), Instr::MemoryInit(d)) {
                Ok((i, n1)) => Ok((i, (n0 + n1) as nat)),
                Err(e) => Err(e),
            },
        }
    } else if x == 9 {
        op_u32(t, |d| Instr::DataDrop(d))
    } else if x == 10 {
        if t.len() >= 2 {
            if t[0] == 0 && t[1] == 0 {
                Ok((InstrView::Plain(Instr::MemoryCopy), 2))
            } else {
                Err(Error::Invalid)
            }
        } else {
            Err(Error::Invalid)
        }
    } else if x == 11 {
        op_zero(t, Instr::MemoryFill)
    } else if x == 12 {
        op_u32_u32(t, |y, x| Instr::TableInit(x, y))
    } else if x == 13 {
        op_u32(t, |y| Instr::ElemDrop(y))
    } else if x == 14 {
        op_u32_u32(t, |x, y| Instr::TableCopy(x, y))
    } else if x == 15 {
        op_u32(t, |x| Instr::TableGrow(x))
    } else if x == 16 {
        op_u32(t, |x| Instr::TableSize(x))
    } else if x == 17 {
        op_u32(t, |x| Instr::TableFill(x))
    } else {
        Err(Error::Invalid)
    }
}

/// An instruction given its opcode `op` and the bytes `t` that follow the opcode.
pub open spec fn spec_op(op: u8, t: Seq<u8>) -> Result<(InstrView, nat), Error> {
    if op <= 0x11 {
        spec_op_control(op, t)
    } else if 0x1a <= op <= 0x26 {
        spec_op_variable(op, t)
    } else if 0x28 <= op <= 0x40 {
        spec_op_memory(op, t)
    } else if 0x41 <= op <= 0x44 {
        spec_op_const(op, t)
    } else if 0x45 <= op <= 0xc4 {
        match spec_op_numeric(op) {
            Some(i) => op_plain(i),
            None => Err(Error::Invalid),
        }
    } else if op == 0xd0 {
        match spec_byte_enum::<RefType>(t) {
            Ok((r, n)) => Ok((InstrView::Plain(Instr::RefNull(r)), n)),
            Err(e) => Err(e),
        }
    } else if op == 0xd1 {
        op_plain(Instr::RefIsNull)
    } else if op == 0xd2 {
        op_u32(t, |x| Instr::RefFunc(x))
    } else if op == 0xfc {
        match spec_u32(t) {
            Err(e) => Err(e),
            Ok((x, n0)) => match spec_op_fc(x, t.skip(n0 as int)) {
                Ok((i, n1)) => Ok((i, (n0 + n1) as nat)),
                Err(e) => Err(e),
            },
        }
    } else if op == 0xfd || op == 0xfe {
        Err(Error::Unsupported(Unsupported::Opcode(op)))
    } else {
        Err(Error::Invalid)
    }
}

/// Decoding of an instruction: the instruction and the number of bytes it takes.
#[verifier::opaque]
pub open spec fn spec_instr(s: Seq<u8>) -> Result<(InstrView, nat), Error> {
    match spec_byte(s) {
        Err(e) => Err(e),
        Ok((op, n0)) => match spec_op(op, s.skip(1)) {
            Ok((i, n1)) => Ok((i, (n0 + n1) as nat)),
            Err(e) => Err(e),
        },
    }
}

/// Whether `r` is what an instruction parser returns when `spec` describes the parse.
pub open spec fn parsed_instr(
    old: Parser,
    new: Parser,
    spec: Result<(InstrView, nat), Error>,
    r: Result<Instr, Error>,
) -> bool {
    &&& same_input(old, new)
    &&& match spec {
        Ok((iv, n)) => r matches Ok(i) && i@ == iv && new.pos() == old.pos() + n,
        Err(e) => r is Err && r->Err_0 == e,
    }
}


pub open spec fn spec_u32_pair(t: Seq<u8>) -> Result<((u32, u32), nat), Error> {
    match spec_u32(t) {
        Err(e) => Err(e),
        Ok((x, n0)) => match spec_u32(t.skip(n0 as int)) {
            Err(e) => Err(e),
            Ok((y, n1)) => Ok(((x, y), (n0 + n1) as nat)),
        },
    }
}

/// Decodes the opcode of a numeric instruction (see [`spec_op_numeric`]).
fn numeric_instr(op: u8) -> (r: Option<Instr>)
    ensures
        r == spec_op_numeric(op),
{
    if 0x45 <= op && op <= 0x5a {
        let n = Nx::from_u8((op - 0x45) / 11);
        let y = (op - 0x45) % 11;
        if y == 0 {
            Some(Instr::ITestOp(n, ITestOp::Eqz))
        } else {
            Some(Instr::IRelOp(n, IRelOp::from_u8(y - 1)))
        }
    } else if 0x5b <= op && op <= 0x66 {
        Some(Instr::FRelOp(Nx::from_u8((op - 0x5b) / 6), FRelOp::from_u8((op - 0x5b) % 6)))
    } else if 0x67 <= op && op <= 0x8a {
        let n = Nx::from_u8((op - 0x67) / 18);
        let y = (op - 0x67) % 18;
        if y <= 2 {
            Some(Instr::IUnOp(n, IUnOp::from_u8(y)))
        } else {
            Some(Instr::IBinOp(n, IBinOp::from_u8(y - 3)))
        }
    } else if 0x8b <= op && op <= 0xa6 {
        let n = Nx::from_u8((op - 0x8b) / 14);
        let y = (op - 0x8b) % 14;
        if y <= 6 {
            Some(Instr::FUnOp(n, FUnOp::from_u8(y)))
        } else {
            Some(Instr::FBinOp(n, FBinOp::from_u8(y - 7)))
        }
    } else if op == 0xa7 {
        Some(Instr::CvtOp(CvtOp::Wrap))
    } else if 0xa8 <= op && op <= 0xab {
        Some(
            Instr::CvtOp(
                CvtOp::Trunc(Nx::N32, Nx::from_u8((op - 0xa8) / 2), Sx::from_u8((op - 0xa8) % 2)),
            ),
        )
    } else if 0xac <= op && op <= 0xad {
        Some(Instr::CvtOp(CvtOp::Extend(Sx::from_u8(op - 0xac))))
    } else if 0xae <= op && op <= 0xb1 {
        Some(
            Instr::CvtOp(
                CvtOp::Trunc(Nx::N64, Nx::from_u8((op - 0xae) / 2), Sx::from_u8((op - 0xae) % 2)),
            ),
        )
    } else if 0xb2 <= op && op <= 0xbb {
        let n = Nx::from_u8((op - 0xb2) / 5);
        let y = (op - 0xb2) % 5;
        if y == 4 {
            Some(
                Instr::CvtOp(
                    match n {
                        Nx::N32 => CvtOp::Demote,
                        Nx::N64 => CvtOp::Promote,
                    },
                ),
            )
        } else {
            Some(Instr::CvtOp(CvtOp::Convert(n, Nx::from_u8(y / 2), Sx::from_u8(y % 2))))
        }
    } else if 0xbc <= op && op <= 0xbd {
        Some(Instr::CvtOp(CvtOp::IReinterpret(Nx::from_u8(op - 0xbc))))
    } else if 0xbe <= op && op <= 0xbf {
        Some(Instr::CvtOp(CvtOp::FReinterpret(Nx::from_u8(op - 0xbe))))
    } else if 0xc0 <= op && op <= 0xc4 {
        Some(Instr::IExtend(Bx::from_u8(op - 0xc0)))
    } else {
        None
    }
}


/// The change of block depth caused by an instruction.
pub open spec fn depth_after(i: InstrView, depth: nat) -> int {
    match i {
        InstrView::Plain(Instr::Block(_)) => depth + 1int,
        InstrView::Plain(Instr::Loop(_)) => depth + 1int,
        InstrView::Plain(Instr::If(_)) => depth + 1int,
        InstrView::Plain(Instr::End) => depth - 1,
        _ => depth as int,
    }
}

/// The number of bytes up to and including the `end` that closes `depth` open blocks.
pub open spec fn spec_skip_to_end(s: Seq<u8>, depth: nat) -> Result<nat, Error>
    decreases s.len(),
{
    match spec_instr(s) {
        Err(e) => Err(e),
        Ok((i, n)) => if 1 <= n <= s.len() {
            let d = depth_after(i, depth);
            if d <= 0 {
                Ok(n)
            } else {
                match spec_skip_to_end(s.skip(n as int), d as nat) {
                    Ok(m) => Ok(n + m),
                    Err(e) => Err(e),
                }
            }
        } else {
            Err(Error::Invalid)
        },
    }
}

/// The number of bytes up to and including the `else` of the current block, or up to (and not
/// including) its `end`.
pub open spec fn spec_skip_to_else(s: Seq<u8>, depth: nat) -> Result<nat, Error>
    decreases s.len(),
{
    match spec_instr(s) {
        Err(e) => Err(e),
        Ok((i, n)) => if 1 <= n <= s.len() {
            if depth == 0 && i == InstrView::Plain(Instr::End) {
                Ok(0)
            } else if depth == 0 && i == InstrView::Plain(Instr::Else) {
                Ok(n)
            } else {
                match spec_skip_to_else(s.skip(n as int), depth_after(i, depth) as nat) {
                    Ok(m) => Ok(n + m),
                    Err(e) => Err(e),
                }
            }
        } else {
            Err(Error::Invalid)
        },
    }
}

/// Modes of element segments.
#[derive(Debug, Copy, Clone, PartialEq, Eq, Structural)]
pub enum ElemMode {
    Passive,
    /// Active in `table`: the offset expression is read from the parser given with the mode.
    Active { table: TableIdx },
    Declarative,
}

/// Modes of data segments.
#[derive(Debug, Copy, Clone, PartialEq, Eq, Structural)]
pub enum DataMode {
    Passive,
    /// Active in `memory`: the offset expression is read from the parser given with the mode.
    Active { memory: MemIdx },
}

/// A part of a data segment handed to its receiver: the mode, with the bytes from which its offset
/// expression is read and how many of them it takes; then the bytes of the segment.
pub enum DataPart {
    Mode(DataMode, Seq<u8>, nat),
    Init(Seq<u8>),
}

/// The mode of the data segment at the start of `s`, given by its flags (and memory index), and
/// the number of bytes that give it.
pub open spec fn spec_data_mode(s: Seq<u8>) -> Option<(DataMode, nat)> {
    match spec_u32(s) {
        Ok((f, n0)) => if f == 0 {
            Some((DataMode::Active { memory: 0 }, n0))
        } else if f == 1 {
            Some((DataMode::Passive, n0))
        } else if f == 2 {
            match spec_u32(s.skip(n0 as int)) {
                Ok((x, n1)) => Some((DataMode::Active { memory: x }, n0 + n1)),
                Err(_) => None,
            }
        } else {
            None
        },
        Err(_) => None,
    }
}

/// The bytes of a data segment at the start of `s`, after their length, and the number of bytes
/// they take with their length.
pub open spec fn spec_data_bytes(s: Seq<u8>) -> Option<(Seq<u8>, nat)> {
    match spec_u32(s) {
        Ok((len, n)) => if n + len <= s.len() {
            Some((s.subrange(n as int, n + len), (n + len) as nat))
        } else {
            None
        },
        Err(_) => None,
    }
}

/// Whether parsing a data segment from `p0` to `p1` handed its mode then its bytes to a receiver
/// whose parts went from `u0` to `u1`: the mode given by the flags, with the bytes that follow
/// them for its offset expression, then the bytes after the expression, after their length.
pub open spec fn data_received<'m>(p0: Parser<'m>, p1: Parser<'m>, u0: Seq<DataPart>, u1: Seq<DataPart>) -> bool {
    &&& spec_data_mode(p0.rest()) matches Some((m, a))
    &&& u1.len() == u0.len() + 2
    &&& u1.take(u0.len() as int) == u0
    &&& u1[u0.len() as int] matches DataPart::Mode(m2, rest, n)
    &&& m2 == m
    &&& rest == p0.rest().skip(a as int)
    &&& n <= rest.len()
    &&& spec_data_bytes(rest.skip(n as int)) matches Some((b, k))
    &&& u1[u0.len() + 1int] == DataPart::Init(b)
    &&& p1.pos() == p0.pos() + a + n + k
}

/// A part of an element segment handed to its receiver.
pub enum ElemPart {
    Mode(ElemMode),
    Type(RefType),
    FuncIdx(FuncIdx),
    Expr,
}

/// The mode of the element segment at the start of `s`, given by its flags (and table index), and
/// the number of bytes that give it.
pub open spec fn spec_elem_mode(s: Seq<u8>) -> Result<(ElemMode, nat), Error> {
    match spec_u32(s) {
        Err(e) => Err(e),
        Ok((f, n0)) => if f >= 8 {
            Err(Error::Invalid)
        } else if f % 2 == 0 {
            if (f / 2) % 2 == 0 {
                Ok((ElemMode::Active { table: 0 }, n0))
            } else {
                match spec_u32(s.skip(n0 as int)) {
                    Ok((t, n1)) => Ok((ElemMode::Active { table: t }, n0 + n1)),
                    Err(e) => Err(e),
                }
            }
        } else if (f / 2) % 2 == 0 {
            Ok((ElemMode::Passive, n0))
        } else {
            Ok((ElemMode::Declarative, n0))
        },
    }
}

/// Whether `ps` are the parts of an element segment with flags `f`: its mode, its type (function
/// references when the flags give none), then its elements, function indices or expressions as
/// the flags say.
pub open spec fn elem_parts(f: u32, ps: Seq<ElemPart>) -> bool {
    &&& ps.len() >= 2
    &&& ps[0] is Mode
    &&& ps[1] is Type
    &&& f % 4 == 0 ==> ps[1] == ElemPart::Type(RefType::FuncRef)
    &&& forall|j: int| 2 <= j < ps.len() ==> if f < 4 {
        #[trigger] ps[j] is FuncIdx
    } else {
        ps[j] is Expr
    }
}

/// The element type of a segment with flags `f` at the start of `s` (after its mode), and its
/// length: function references when the flags give none, an element kind byte (which must be 0)
/// for function indices, else a reference type.
pub open spec fn spec_elem_type(f: u32, s: Seq<u8>) -> Result<(RefType, nat), Error> {
    if f % 4 == 0 {
        Ok((RefType::FuncRef, 0))
    } else if f < 4 {
        match spec_byte(s) {
            Ok((b, n)) => if b == 0 {
                Ok((RefType::FuncRef, n))
            } else {
                Err(Error::Invalid)
            },
            Err(e) => Err(e),
        }
    } else {
        spec_byte_enum::<RefType>(s)
    }
}

/// The parts for the function indices `xs`.
pub open spec fn funcidx_parts(xs: Seq<u32>) -> Seq<ElemPart> {
    Seq::new(xs.len(), |j: int| ElemPart::FuncIdx(xs[j]))
}

/// Whether `ps` are the parts of a segment with flags `f` whose bytes after its mode are `s`, of
/// which `end` were read: the element type and count are read from `s`, then the function indices
/// (all `end` bytes) or as many expressions as the count.
pub open spec fn elem_tail(f: u32, s: Seq<u8>, end: int, ps: Seq<ElemPart>) -> bool {
    match spec_elem_type(f, s) {
        Ok((t, n1)) => match spec_u32(s.skip(n1 as int)) {
            Ok((cnt, n2)) => {
                &&& ps.len() >= 2
                &&& ps[1] == ElemPart::Type(t)
                &&& if f < 4 {
                    match spec_u32s(s.skip((n1 + n2) as int), cnt as nat) {
                        Ok((xs, n3)) => ps.skip(2) == funcidx_parts(xs) && end == n1 + n2 + n3,
                        Err(_) => false,
                    }
                } else {
                    ps.len() == 2 + cnt
                }
            },
            Err(_) => false,
        },
        Err(_) => false,
    }
}

/// Receives the parts of an element segment while it is parsed.
pub trait ParseElem<'m> {
    /// What the receiver maintains between the parts.
    spec fn inv(&self) -> bool;

    /// The parts received so far, in order.
    spec fn parts(&self) -> Seq<ElemPart>;

    /// The function types that the receiver keeps unchanged while it receives the parts.
    spec fn kept(&self) -> Seq<u32>;

    /// Receives the mode. For active segments, must read the offset expression from the parser.
    fn mode(&mut self, mode: ElemMode, parser: &mut Parser<'m>) -> (r: Result<(), Error>)
        requires
            old(self).inv(),
            old(parser).wf(),
        ensures
            final(self).inv(),
            final(self).parts() == old(self).parts().push(ElemPart::Mode(mode)),
            final(self).kept() == old(self).kept(),
            same_input(*old(parser), *final(parser)),
    ;

    /// Receives the type of the elements.
    fn type_(&mut self, type_: RefType) -> (r: Result<(), Error>)
        requires
            old(self).inv(),
        ensures
            final(self).inv(),
            final(self).parts() == old(self).parts().push(ElemPart::Type(type_)),
            final(self).kept() == old(self).kept(),
    ;

    /// Receives an element given by its function index.
    fn init_funcidx(&mut self, x: FuncIdx) -> (r: Result<(), Error>)
        requires
            old(self).inv(),
        ensures
            final(self).inv(),
            final(self).parts() == old(self).parts().push(ElemPart::FuncIdx(x)),
            final(self).kept() == old(self).kept(),
    ;

    /// Receives an element given by an expression, which must be read from the parser.
    fn init_expr(&mut self, parser: &mut Parser<'m>) -> (r: Result<(), Error>)
        requires
            old(self).inv(),
            old(parser).wf(),
        ensures
            final(self).inv(),
            final(self).parts() == old(self).parts().push(ElemPart::Expr),
            final(self).kept() == old(self).kept(),
            same_input(*old(parser), *final(parser)),
    ;
}

/// Receives the parts of a data segment while it is parsed.
pub trait ParseData<'m> {
    /// What the receiver maintains between the parts.
    spec fn inv(&self) -> bool;

    /// What the receiver keeps unchanged while it receives the parts.
    type Kept;

    /// The value that the receiver keeps unchanged.
    spec fn kept(&self) -> Self::Kept;

    /// Whether the receiver keeps the parts it receives.
    spec fn keeps_parts() -> bool;

    /// The parts received so far, in order, when the receiver keeps them.
    spec fn parts(&self) -> Seq<DataPart>;

    /// Receives the mode. For active segments, must read the offset expression from the parser.
    fn mode(&mut self, mode: DataMode, parser: &mut Parser<'m>) -> (r: Result<(), Error>)
        requires
            old(self).inv(),
            old(parser).wf(),
        ensures
            final(self).inv(),
            final(self).kept() == old(self).kept(),
            same_input(*old(parser), *final(parser)),
            Self::keeps_parts() && r is Ok ==> final(self).parts() == old(self).parts().push(
                DataPart::Mode(mode, old(parser).rest(), (final(parser).pos() - old(parser).pos()) as nat),
            ),
    ;

    /// Receives the bytes of the segment.
    fn init(&mut self, init: &'m [u8]) -> (r: Result<(), Error>)
        requires
            old(self).inv(),
        ensures
            final(self).inv(),
            final(self).kept() == old(self).kept(),
            Self::keeps_parts() && r is Ok ==> final(self).parts() == old(self).parts().push(
                DataPart::Init(init@),
            ),
    ;
}

/// Whether `p1` and `r` are the outcome of skipping a constant expression (up to and including
/// its `end`) from `p0`.
pub open spec fn skipped_expr<'m>(p0: Parser<'m>, p1: Parser<'m>, r: Result<(), Error>) -> bool {
    match spec_skip_to_end(p0.rest(), 1) {
        Ok(n) => r is Ok && p1.pos() == p0.pos() + n,
        Err(e) => r == Err::<(), Error>(e),
    }
}

/// Skips the parts of element segments.
pub struct SkipElem {
    /// The parts skipped so far.
    pub parts: Ghost<Seq<ElemPart>>,
}

impl<'m> ParseElem<'m> for SkipElem {
    open spec fn inv(&self) -> bool {
        true
    }

    open spec fn kept(&self) -> Seq<u32> {
        Seq::empty()
    }

    open spec fn parts(&self) -> Seq<ElemPart> {
        self.parts@
    }

    fn mode(&mut self, mode: ElemMode, parser: &mut Parser<'m>) -> (r: Result<(), Error>)
        ensures
            mode is Active ==> skipped_expr(*old(parser), *final(parser), r),
            !(mode is Active) ==> r is Ok && *final(parser) == *old(parser),
    {
        self.parts = Ghost(self.parts@.push(ElemPart::Mode(mode)));
        match mode {
            ElemMode::Active { .. } => parser.skip_to_end(0),
            _ => Ok(()),
        }
    }

    fn type_(&mut self, type_: RefType) -> (r: Result<(), Error>)
        ensures
            r is Ok,
    {
        self.parts = Ghost(self.parts@.push(ElemPart::Type(type_)));
        Ok(())
    }

    fn init_funcidx(&mut self, x: FuncIdx) -> (r: Result<(), Error>)
        ensures
            r is Ok,
    {
        self.parts = Ghost(self.parts@.push(ElemPart::FuncIdx(x)));
        Ok(())
    }

    fn init_expr(&mut self, parser: &mut Parser<'m>) -> (r: Result<(), Error>)
        ensures
            skipped_expr(*old(parser), *final(parser), r),
    {
        self.parts = Ghost(self.parts@.push(ElemPart::Expr));
        parser.skip_to_end(0)
    }
}

/// Skips the parts of data segments.
pub struct SkipData;

impl<'m> ParseData<'m> for SkipData {
    open spec fn inv(&self) -> bool {
        true
    }

    type Kept = ();

    open spec fn kept(&self) -> () {
        ()
    }

    open spec fn keeps_parts() -> bool {
        false
    }

    open spec fn parts(&self) -> Seq<DataPart> {
        Seq::empty()
    }

    fn mode(&mut self, mode: DataMode, parser: &mut Parser<'m>) -> (r: Result<(), Error>)
        ensures
            mode is Active ==> skipped_expr(*old(parser), *final(parser), r),
            mode is Passive ==> r is Ok && *final(parser) == *old(parser),
    {
        match mode {
            DataMode::Passive => Ok(()),
            DataMode::Active { .. } => parser.skip_to_end(0),
        }
    }

    fn init(&mut self, _init: &'m [u8]) -> (r: Result<(), Error>)
        ensures
            r is Ok,
    {
        Ok(())
    }
}

// ---------------------------------------------------------------------------------------------
// The parser.

/// A parser reading the bytes of `data` from `start` up to `end`.
#[derive(Debug, Clone, Copy)]
pub struct Parser<'m> {
    data: &'m [u8],
    start: usize,
    end: usize,
}

impl<'m> Parser<'m> {
    pub closed spec fn wf(&self) -> bool {
        self.start <= self.end <= self.data@.len() <= usize::MAX
    }

    /// All the bytes the parser was created from.
    pub closed spec fn source(&self) -> Seq<u8> {
        self.data@
    }

    /// The position of the next byte in the source.
    pub closed spec fn pos(&self) -> int {
        self.start as int
    }

    /// The position after the last byte the parser may read.
    pub closed spec fn limit(&self) -> int {
        self.end as int
    }

    /// The bytes left to parse.
    pub open spec fn rest(&self) -> Seq<u8> {
        self.source().subrange(self.pos(), self.limit())
    }

    pub proof fn lemma_wf(&self)
        requires
            self.wf(),
        ensures
            0 <= self.pos() <= self.limit() <= self.source().len(),
            self.source().len() <= usize::MAX,
            self.rest().len() == self.limit() - self.pos(),
    {
    }

    /// Creates a parser for a byte slice.
    pub fn new(data: &'m [u8]) -> (r: Parser<'m>)
        ensures
            r.wf(),
            r.source() == data@,
            r.pos() == 0,
            r.limit() == data@.len(),
            r.rest() == data@,
    {
        let r = Parser { data, start: 0, end: data.len() };
        assert(r.rest() =~= data@);
        r
    }

    /// Returns the current state of the parser, to be restored later.
    pub fn save(&self) -> (r: Parser<'m>)
        ensures
            r == *self,
    {
        *self
    }

    /// Restores a previously saved state.
    pub fn restore(&mut self, saved: Parser<'m>)
        ensures
            *final(self) == saved,
    {
        *self = saved;
    }

    /// The position of the parser in its source.
    pub fn position(&self) -> (r: usize)
        ensures
            r == self.pos(),
    {
        self.start
    }

    /// Moves the position by `delta` bytes (backward when negative), within the parser's bounds.
    pub fn jump(&mut self, delta: i32) -> (r: Result<(), Error>)
        requires
            old(self).wf(),
        ensures
            final(self).wf(),
            final(self).source() == old(self).source(),
            final(self).limit() == old(self).limit(),
            match r {
                Ok(()) => final(self).pos() == old(self).pos() + delta,
                Err(e) => e == Error::Invalid && *final(self) == *old(self) && !(0 <= old(self).pos()
                    + delta <= old(self).limit()),
            },
    {
        if delta >= 0 {
            let d = delta as usize;
            check(d <= self.end - self.start)?;
            self.start = self.start + d;
        } else {
            let d = if delta == i32::MIN {
                0x8000_0000usize
            } else {
                (-delta) as usize
            };
            check(d <= self.start)?;
            self.start = self.start - d;
        }
        Ok(())
    }

    /// The number of bytes left to parse.
    pub fn remaining(&self) -> (r: usize)
        requires
            self.wf(),
        ensures
            r == self.rest().len(),
    {
        self.end - self.start
    }

    /// Returns whether no byte is left to parse.
    pub fn is_empty(&self) -> (r: bool)
        requires
            self.wf(),
        ensures
            r == (self.rest().len() == 0),
    {
        self.start == self.end
    }

    /// Checks that at least `len` bytes are left.
    pub fn check_len(&self, len: usize) -> (r: Result<(), Error>)
        requires
            self.wf(),
        ensures
            r == (if len <= self.rest().len() {
                Ok::<(), Error>(())
            } else {
                Err(Error::Invalid)
            }),
    {
        check(len <= self.end - self.start)
    }

    /// Parses `len` bytes.
    pub fn parse_bytes(&mut self, len: usize) -> (r: Result<&'m [u8], Error>)
        requires
            old(self).wf(),
        ensures
            same_input(*old(self), *final(self)),
            match r {
                Ok(b) => len <= old(self).rest().len() && b@ == old(self).rest().take(len as int)
                    && final(self).pos() == old(self).pos() + len,
                Err(e) => len > old(self).rest().len() && e == Error::Invalid,
            },
    {
        self.check_len(len)?;
        let result = vstd::slice::slice_subrange(self.data, self.start, self.start + len);
        self.start = self.start + len;
        assert(result@ =~= old(self).rest().take(len as int));
        Ok(result)
    }

    /// Splits off a parser for the next `len` bytes (positions stay relative to the source).
    pub fn split_at(&mut self, len: usize) -> (r: Result<Parser<'m>, Error>)
        requires
            old(self).wf(),
        ensures
            same_input(*old(self), *final(self)),
            match r {
                Ok(p) => len <= old(self).rest().len() && p.wf() && p.source() == old(self).source()
                    && p.pos() == old(self).pos() && p.limit() == old(self).pos() + len
                    && p.rest() == old(self).rest().take(len as int) && final(self).pos()
                    == old(self).pos() + len,
                Err(e) => len > old(self).rest().len() && e == Error::Invalid,
            },
    {
        self.check_len(len)?;
        let p = Parser { data: self.data, start: self.start, end: self.start + len };
        self.start = self.start + len;
        assert(p.rest() =~= old(self).rest().take(len as int));
        Ok(p)
    }

    /// Parses one byte.
    pub fn parse_byte(&mut self) -> (r: Result<u8, Error>)
        requires
            old(self).wf(),
        ensures
            parsed(*old(self), *final(self), spec_byte(old(self).rest()), r),
    {
        if self.start == self.end {
            return Err(invalid());
        }
        let b = self.data[self.start];
        self.start = self.start + 1;
        Ok(b)
    }

    /// Parses a LEB128 integer of `bits` bits.
    pub fn parse_leb128(&mut self, signed: bool, bits: u8) -> (r: Result<u64, Error>)
        requires
            old(self).wf(),
            1 <= bits <= 64,
        ensures
            parsed(*old(self), *final(self), spec_leb128(old(self).rest(), signed, bits as nat), r),
            r is Err ==> final(self).pos() == old(self).pos() + leb_read_len(old(self).rest(), 0, bits as int),
    {
        let ghost s = old(self).rest();
        let mut val: u64 = 0;
        let mut len: u8 = bits;
        let mut sh: u8 = 0;
        let ghost mut k: nat = 0;
        proof {
            vstd::arithmetic::power2::lemma2_to64();
            assert(s.take(0) =~= Seq::<u8>::empty());
        }
        loop
            invariant
                same_input(*old(self), *self),
                s == old(self).rest(),
                self.pos() == old(self).pos() + k,
                k <= s.len(),
                sh == 7 * k,
                sh + len == bits,
                1 <= len,
                bits <= 64,
                forall|i: int| 0 <= i < k ==> s[i] >= 0x80,
                val == leb_groups(s.take(k as int)),
                (val as int) < pow2(sh as nat),
                leb_read_len(s, 0, bits as int) == leb_read_len(s, k, len as int),
            decreases s.len() - k,
        {
            proof {
                lemma_leb_end(s, k);
            }
            proof {
                self.lemma_wf();
            }
            if self.start == self.end {
                return Err(invalid());
            }
            let byte = self.data[self.start];
            assert(byte == s[k as int]);
            self.start = self.start + 1;
            if byte < 0x80 {
                let res = leb128_last(val, byte as u64, sh, len, bits, signed);
                proof {
                    assert(s.take(k as int) == s.take((k + 1) - 1));
                }
                match res {
                    Some(v) => {
                        proof {
                            k = k + 1;
                        }
                        return Ok(v);
                    },
                    None => {
                        return Err(invalid());
                    },
                }
            }
            if len < 8 {
                return Err(invalid());
            }
            proof {
                lemma_leb_groups_step(s, k);
                vstd::arithmetic::power2::lemma2_to64();
                assert(byte as u64 & 0x7f == (byte as u64) % 128) by (bit_vector);
                lemma_shl_or(val, (byte as u64 & 0x7f), sh as u64, 7);
            }
            val = val | ((byte as u64 & 0x7f) << sh);
            len = len - 7;
            sh = sh + 7;
            proof {
                k = k + 1;
                lemma_pow2_adds((sh - 7) as nat, 7);
            }
        }
    }

    /// Parses an unsigned 32-bit LEB128 integer.
    pub fn parse_u32(&mut self) -> (r: Result<u32, Error>)
        requires
            old(self).wf(),
        ensures
            parsed(*old(self), *final(self), spec_u32(old(self).rest()), r),
            r is Err ==> final(self).pos() == old(self).pos() + leb_read_len(old(self).rest(), 0, 32),
    {
        let x = self.parse_leb128(false, 32)?;
        Ok(x as u32)
    }

    /// Parses a signed 32-bit LEB128 integer.
    pub fn parse_s32(&mut self) -> (r: Result<i32, Error>)
        requires
            old(self).wf(),
        ensures
            parsed(*old(self), *final(self), spec_s32(old(self).rest()), r),
    {
        let x = self.parse_leb128(true, 32)?;
        Ok(x as i32)
    }

    /// Parses a signed 32-bit LEB128 integer as its bit pattern.
    pub fn parse_i32(&mut self) -> (r: Result<u32, Error>)
        requires
            old(self).wf(),
        ensures
            parsed(
                *old(self),
                *final(self),
                match spec_s32(old(self).rest()) {
                    Ok((v, n)) => Ok((v as u32, n)),
                    Err(e) => Err(e),
                },
                r,
            ),
    {
        let x = self.parse_s32()?;
        Ok(x as u32)
    }

    /// Parses a signed 64-bit LEB128 integer.
    pub fn parse_s64(&mut self) -> (r: Result<i64, Error>)
        requires
            old(self).wf(),
        ensures
            parsed(*old(self), *final(self), spec_s64(old(self).rest()), r),
    {
        let x = self.parse_leb128(true, 64)?;
        Ok(x as i64)
    }

    /// Parses a signed 64-bit LEB128 integer as its bit pattern.
    pub fn parse_i64(&mut self) -> (r: Result<u64, Error>)
        requires
            old(self).wf(),
        ensures
            parsed(
                *old(self),
                *final(self),
                match spec_s64(old(self).rest()) {
                    Ok((v, n)) => Ok((v as u64, n)),
                    Err(e) => Err(e),
                },
                r,
            ),
    {
        let x = self.parse_s64()?;
        Ok(x as u64)
    }

    pub fn parse_typeidx(&mut self) -> (r: Result<TypeIdx, Error>)
        requires
            old(self).wf(),
        ensures
            parsed(*old(self), *final(self), spec_u32(old(self).rest()), r),
    {
        self.parse_u32()
    }

    pub fn parse_funcidx(&mut self) -> (r: Result<FuncIdx, Error>)
        requires
            old(self).wf(),
        ensures
            parsed(*old(self), *final(self), spec_u32(old(self).rest()), r),
    {
        self.parse_u32()
    }

    pub fn parse_tableidx(&mut self) -> (r: Result<TableIdx, Error>)
        requires
            old(self).wf(),
        ensures
            parsed(*old(self), *final(self), spec_u32(old(self).rest()), r),
    {
        self.parse_u32()
    }

    pub fn parse_memidx(&mut self) -> (r: Result<MemIdx, Error>)
        requires
            old(self).wf(),
        ensures
            parsed(*old(self), *final(self), spec_u32(old(self).rest()), r),
    {
        self.parse_u32()
    }

    pub fn parse_globalidx(&mut self) -> (r: Result<GlobalIdx, Error>)
        requires
            old(self).wf(),
        ensures
            parsed(*old(self), *final(self), spec_u32(old(self).rest()), r),
    {
        self.parse_u32()
    }

    pub fn parse_elemidx(&mut self) -> (r: Result<ElemIdx, Error>)
        requires
            old(self).wf(),
        ensures
            parsed(*old(self), *final(self), spec_u32(old(self).rest()), r),
    {
        self.parse_u32()
    }

    pub fn parse_dataidx(&mut self) -> (r: Result<DataIdx, Error>)
        requires
            old(self).wf(),
        ensures
            parsed(*old(self), *final(self), spec_u32(old(self).rest()), r),
    {
        self.parse_u32()
    }

    pub fn parse_localidx(&mut self) -> (r: Result<LocalIdx, Error>)
        requires
            old(self).wf(),
        ensures
            parsed(*old(self), *final(self), spec_u32(old(self).rest()), r),
    {
        self.parse_u32()
    }

    pub fn parse_labelidx(&mut self) -> (r: Result<LabelIdx, Error>)
        requires
            old(self).wf(),
        ensures
            parsed(*old(self), *final(self), spec_u32(old(self).rest()), r),
    {
        self.parse_u32()
    }

    /// Parses a byte that encodes a value of an enumeration.
    pub fn parse_byte_enum<T: TryFromByte>(&mut self) -> (r: Result<T, Error>)
        requires
            old(self).wf(),
        ensures
            parsed(*old(self), *final(self), spec_byte_enum::<T>(old(self).rest()), r),
    {
        let b = self.parse_byte()?;
        match T::try_from_byte(b) {
            Some(t) => Ok(t),
            None => Err(invalid()),
        }
    }

    pub fn parse_section_id(&mut self) -> (r: Result<SectionId, Error>)
        requires
            old(self).wf(),
        ensures
            parsed(*old(self), *final(self), spec_byte_enum::<SectionId>(old(self).rest()), r),
    {
        self.parse_byte_enum()
    }

    /// Parses the length of a section and splits off a parser for its content.
    pub fn split_section(&mut self) -> (r: Result<Parser<'m>, Error>)
        requires
            old(self).wf(),
        ensures
            same_input(*old(self), *final(self)),
            match r {
                Ok(p) => spec_u32(old(self).rest()) matches Ok((len, n)) && n + len <= old(
                    self,
                ).rest().len() && p.wf() && p.source() == old(self).source() && p.pos() == old(
                    self,
                ).pos() + n && p.limit() == p.pos() + len && final(self).pos() == p.limit(),
                Err(e) => match spec_u32(old(self).rest()) {
                    Ok((len, n)) => n + len > old(self).rest().len() && e == Error::Invalid,
                    Err(f) => e == f,
                },
            },
    {
        let n = self.parse_u32()? as usize;
        self.split_at(n)
    }

    /// Parses a name (a UTF-8 string).
    pub fn parse_name(&mut self) -> (r: Result<&'m str, Error>)
        requires
            old(self).wf(),
        ensures
            same_input(*old(self), *final(self)),
            match spec_name(old(self).rest()) {
                Ok((b, n)) => r matches Ok(x) && x.spec_bytes() == b && final(self).pos() == old(
                    self,
                ).pos() + n,
                Err(e) => r == Err::<&str, Error>(e),
            },
    {
        let n = self.parse_u32()? as usize;
        let xs = self.parse_bytes(n)?;
        proof {
            let s = old(self).rest();
            let m = spec_u32(s)->Ok_0.1;
            assert(xs@ =~= s.subrange(m as int, m + n));
        }
        match str_from_utf8(xs) {
            Some(x) => Ok(x),
            None => Err(invalid()),
        }
    }

    /// Parses the length of a vector.
    pub fn parse_vec(&mut self) -> (r: Result<usize, Error>)
        requires
            old(self).wf(),
        ensures
            parsed(
                *old(self),
                *final(self),
                match spec_u32(old(self).rest()) {
                    Ok((v, n)) => Ok((v as usize, n)),
                    Err(e) => Err(e),
                },
                r,
            ),
    {
        Ok(self.parse_u32()? as usize)
    }

    pub fn parse_valtype(&mut self) -> (r: Result<ValType, Error>)
        requires
            old(self).wf(),
        ensures
            parsed(*old(self), *final(self), spec_byte_enum::<ValType>(old(self).rest()), r),
    {
        self.parse_byte_enum()
    }

    /// Parses a vector of value types.
    pub fn parse_resulttype(&mut self) -> (r: Result<ResultType, Error>)
        requires
            old(self).wf(),
        ensures
            same_input(*old(self), *final(self)),
            match spec_resulttype(old(self).rest()) {
                Ok((ts, n)) => r matches Ok(x) && x@ == ts && final(self).pos() == old(self).pos()
                    + n,
                Err(e) => r is Err && r->Err_0 == e,
            },
    {
        let n = self.parse_vec()?;
        let xs = self.parse_bytes(n)?;
        let ghost s = old(self).rest();
        let ghost m = spec_u32(s)->Ok_0.1;
        proof {
            assert(xs@ =~= s.subrange(m as int, m + n));
        }
        let mut ts: Vec<ValType> = Vec::new();
        let mut i: usize = 0;
        while i < n
            invariant
                same_input(*old(self), *self),
                s == old(self).rest(),
                spec_u32(s) matches Ok((c, k)) && c == n && k == m,
                m + n <= s.len(),
                self.pos() == old(self).pos() + m + n,
                xs@ == s.subrange(m as int, m + n),
                i <= n,
                n == xs@.len(),
                ts@.len() == i,
                forall|j: int|
                    0 <= j < i ==> crate::syntax::valtype_from_byte(xs@[j]) == Some(
                        #[trigger] ts@[j],
                    ),
            decreases n - i,
        {
            match ValType::try_from_byte(xs[i]) {
                Some(t) => ts.push(t),
                None => {
                    proof {
                        assert(crate::syntax::valtype_from_byte(xs@[i as int]) is None);
                        assert(decode_valtypes(xs@) is None);
                    }
                    return Err(invalid());
                },
            }
            i = i + 1;
        }
        proof {
            assert forall|j: int| 0 <= j < xs@.len() implies (#[trigger] crate::syntax::valtype_from_byte(
                xs@[j],
            )) is Some by {
                assert(crate::syntax::valtype_from_byte(xs@[j]) == Some(ts@[j]));
            }
            assert(decode_valtypes(xs@) == Some(ts@)) by {
                assert(ts@ =~= Seq::new(
                    xs@.len(),
                    |j: int| crate::syntax::valtype_from_byte(xs@[j])->Some_0,
                ));
            }
        }
        Ok(ResultType(ts))
    }

    /// Parses a function type.
    pub fn parse_functype(&mut self) -> (r: Result<FuncType, Error>)
        requires
            old(self).wf(),
        ensures
            same_input(*old(self), *final(self)),
            match spec_functype(old(self).rest()) {
                Ok((t, n)) => r matches Ok(x) && x@ == t && final(self).pos() == old(self).pos()
                    + n,
                Err(e) => r is Err && r->Err_0 == e,
            },
    {
        let ghost s = old(self).rest();
        let byte = self.parse_byte()?;
        if byte != 0x60 {
            return Err(invalid());
        }
        proof {
            assert(self.rest() =~= s.skip(1));
        }
        let ghost s1 = self.rest();
        let params = self.parse_resulttype()?;
        proof {
            assert(self.rest() =~= s1.skip(spec_resulttype(s1)->Ok_0.1 as int));
            assert(s1.skip(spec_resulttype(s1)->Ok_0.1 as int) =~= s.skip(
                (1 + spec_resulttype(s1)->Ok_0.1) as int,
            ));
        }
        let results = self.parse_resulttype()?;
        Ok(FuncType { params, results })
    }

    pub fn parse_reftype(&mut self) -> (r: Result<RefType, Error>)
        requires
            old(self).wf(),
        ensures
            parsed(*old(self), *final(self), spec_byte_enum::<RefType>(old(self).rest()), r),
    {
        self.parse_byte_enum()
    }

    pub fn parse_limittype(&mut self) -> (r: Result<LimitType, Error>)
        requires
            old(self).wf(),
        ensures
            parsed(*old(self), *final(self), spec_byte_enum::<LimitType>(old(self).rest()), r),
    {
        self.parse_byte_enum()
    }

    /// Parses limits, with `max` as maximum when none is given.
    pub fn parse_limits(&mut self, max: u32) -> (r: Result<Limits, Error>)
        requires
            old(self).wf(),
        ensures
            parsed(*old(self), *final(self), spec_limits(old(self).rest(), max), r),
    {
        let ghost s = old(self).rest();
        let limit_type = self.parse_limittype()?;
        if limit_type == LimitType::SharedWithMax {
            return Err(unsupported(Unsupported::Opcode(3)));
        }
        proof {
            assert(self.rest() =~= s.skip(1));
        }
        let ghost s1 = self.rest();
        let min = self.parse_u32()?;
        if limit_type == LimitType::Unshared {
            return Ok(Limits { min, max });
        }
        proof {
            let n1 = spec_u32(s1)->Ok_0.1;
            assert(self.rest() =~= s.skip((1 + n1) as int));
        }
        let max = self.parse_u32()?;
        Ok(Limits { min, max })
    }

    pub fn parse_tabletype(&mut self) -> (r: Result<TableType, Error>)
        requires
            old(self).wf(),
        ensures
            parsed(*old(self), *final(self), spec_tabletype(old(self).rest()), r),
    {
        let ghost s = old(self).rest();
        let item = self.parse_reftype()?;
        proof {
            assert(self.rest() =~= s.skip(1));
        }
        let limits = self.parse_limits(TABLE_MAX)?;
        Ok(TableType { limits, item })
    }

    pub fn parse_memtype(&mut self) -> (r: Result<MemType, Error>)
        requires
            old(self).wf(),
        ensures
            parsed(*old(self), *final(self), spec_limits(old(self).rest(), MEM_MAX), r),
    {
        self.parse_limits(MEM_MAX)
    }

    pub fn parse_mut(&mut self) -> (r: Result<Mut, Error>)
        requires
            old(self).wf(),
        ensures
            parsed(*old(self), *final(self), spec_byte_enum::<Mut>(old(self).rest()), r),
    {
        self.parse_byte_enum()
    }

    pub fn parse_globaltype(&mut self) -> (r: Result<GlobalType, Error>)
        requires
            old(self).wf(),
        ensures
            parsed(*old(self), *final(self), spec_globaltype(old(self).rest()), r),
    {
        let ghost s = old(self).rest();
        let value = self.parse_valtype()?;
        proof {
            assert(self.rest() =~= s.skip(1));
        }
        let mutable = self.parse_mut()?;
        Ok(GlobalType { mutable, value })
    }

    pub fn parse_importdesc(&mut self) -> (r: Result<ImportDesc, Error>)
        requires
            old(self).wf(),
        ensures
            parsed(*old(self), *final(self), spec_importdesc(old(self).rest()), r),
    {
        let ghost s = old(self).rest();
        let b = self.parse_byte()?;
        proof {
            assert(self.rest() =~= s.skip(1));
        }
        match b {
            0 => Ok(ImportDesc::Func(self.parse_typeidx()?)),
            1 => Ok(ImportDesc::Table(self.parse_tabletype()?)),
            2 => Ok(ImportDesc::Mem(self.parse_memtype()?)),
            3 => Ok(ImportDesc::Global(self.parse_globaltype()?)),
            _ => Err(invalid()),
        }
    }

    pub fn parse_exportdesc(&mut self) -> (r: Result<ExportDesc, Error>)
        requires
            old(self).wf(),
        ensures
            parsed(*old(self), *final(self), spec_exportdesc(old(self).rest()), r),
    {
        let ghost s = old(self).rest();
        let b = self.parse_byte()?;
        proof {
            assert(self.rest() =~= s.skip(1));
        }
        match b {
            0 => Ok(ExportDesc::Func(self.parse_funcidx()?)),
            1 => Ok(ExportDesc::Table(self.parse_tableidx()?)),
            2 => Ok(ExportDesc::Mem(self.parse_memidx()?)),
            3 => Ok(ExportDesc::Global(self.parse_globalidx()?)),
            _ => Err(invalid()),
        }
    }

    pub fn parse_memarg(&mut self) -> (r: Result<MemArg, Error>)
        requires
            old(self).wf(),
        ensures
            parsed(*old(self), *final(self), spec_memarg(old(self).rest()), r),
    {
        let ghost s = old(self).rest();
        let align = self.parse_u32()?;
        proof {
            assert(self.rest() =~= s.skip(spec_u32(s)->Ok_0.1 as int));
        }
        let offset = self.parse_u32()?;
        Ok(MemArg { align, offset })
    }

    pub fn parse_blocktype(&mut self) -> (r: Result<BlockType, Error>)
        requires
            old(self).wf(),
        ensures
            parsed(*old(self), *final(self), spec_blocktype(old(self).rest()), r),
    {
        let x = self.parse_leb128(true, 33)?;
        if x & 0x100000000 == 0 {
            return Ok(BlockType::Index(x as TypeIdx));
        }
        check(x & 0xffffff80 == 0xffffff80)?;
        let b = (x as u8) & 0x7f;
        if b == 0x40 {
            Ok(BlockType::Empty)
        } else {
            match ValType::try_from_byte(b) {
                Some(t) => Ok(BlockType::Type(t)),
                None => Err(invalid()),
            }
        }
    }

    /// Parses `count` unsigned 32-bit integers.
    fn parse_u32s(&mut self, count: u32) -> (r: Result<Vec<u32>, Error>)
        requires
            old(self).wf(),
        ensures
            same_input(*old(self), *final(self)),
            match spec_u32s(old(self).rest(), count as nat) {
                Ok((xs, n)) => r matches Ok(v) && v@ == xs && final(self).pos() == old(self).pos()
                    + n,
                Err(e) => r is Err && r->Err_0 == e,
            },
    {
        let ghost s = old(self).rest();
        let mut v: Vec<u32> = Vec::new();
        let mut i: u32 = 0;
        while i < count
            invariant
                same_input(*old(self), *self),
                s == old(self).rest(),
                i <= count,
                spec_u32s(s, i as nat) matches Ok((xs, n)) && v@ == xs && self.pos() == old(
                    self,
                ).pos() + n,
                forall|j: nat|
                    i < j <= count ==> spec_u32s(s, i as nat) is Ok || #[trigger] spec_u32s(s, j)
                        is Err,
            decreases count - i,
        {
            let ghost n = spec_u32s(s, i as nat)->Ok_0.1;
            proof {
                assert(self.rest() =~= s.skip(n as int));
            }
            match self.parse_u32() {
                Ok(x) => {
                    v.push(x);
                    i = i + 1;
                },
                Err(e) => {
                    proof {
                        lemma_u32s_err(s, (i + 1) as nat, count as nat);
                    }
                    return Err(e);
                },
            }
        }
        Ok(v)
    }

    /// Parses the operands of a branch table.
    pub fn parse_br_table(&mut self) -> (r: Result<Instr, Error>)
        requires
            old(self).wf(),
        ensures
            same_input(*old(self), *final(self)),
            match spec_br_table(old(self).rest()) {
                Ok((iv, n)) => r matches Ok(x) && x@ == iv && final(self).pos() == old(self).pos()
                    + n,
                Err(e) => r is Err && r->Err_0 == e,
            },
    {
        let ghost s = old(self).rest();
        let count = self.parse_u32()?;
        let ghost n0 = spec_u32(s)->Ok_0.1;
        proof {
            assert(self.rest() =~= s.skip(n0 as int));
        }
        let labels = self.parse_u32s(count)?;
        proof {
            let n1 = spec_u32s(s.skip(n0 as int), count as nat)->Ok_0.1;
            assert(self.rest() =~= s.skip((n0 + n1) as int));
        }
        let ln = self.parse_labelidx()?;
        Ok(Instr::BrTable(labels, ln))
    }

    /// Parses local declarations and appends them to `locals`.
    pub fn parse_locals(&mut self, locals: &mut Vec<ValType>) -> (r: Result<(), Error>)
        requires
            old(self).wf(),
        ensures
            same_input(*old(self), *final(self)),
            match spec_locals(old(self).rest(), old(locals)@) {
                Ok((ls, n)) => r is Ok && final(locals)@ == ls && final(self).pos() == old(
                    self,
                ).pos() + n,
                Err(e) => r == Err::<(), Error>(e),
            },
    {
        let ghost s = old(self).rest();
        let count = self.parse_vec()?;
        let ghost n0 = spec_u32(s)->Ok_0.1;
        let ghost t0 = s.skip(n0 as int);
        proof {
            assert(self.rest() =~= t0);
        }
        let mut i: usize = 0;
        while i < count
            invariant
                same_input(*old(self), *self),
                i <= count,
                count <= u32::MAX,
                self.pos() >= old(self).pos() + n0,
                self.rest() == t0.skip(self.pos() - old(self).pos() - n0),
                t0 == s.skip(n0 as int),
                s == old(self).rest(),
                spec_u32(s) matches Ok((c, m)) && c == count && m == n0,
                spec_local_groups(t0, count as nat, old(locals)@) == match spec_local_groups(
                    self.rest(),
                    (count - i) as nat,
                    locals@,
                ) {
                    Ok((ls, k)) => Ok((ls, (k + (self.pos() - old(self).pos() - n0)) as nat)),
                    Err(e) => Err(e),
                },
            decreases count - i,
        {
            let ghost r0 = self.rest();
            let ghost p0 = self.pos();
            let len = self.parse_u32()? as usize;
            if locals.len() > MAX_LOCALS || len > MAX_LOCALS - locals.len() {
                return Err(unsupported(Unsupported::MaxLocals));
            }
            let ghost n1 = spec_u32(r0)->Ok_0.1;
            proof {
                assert(self.rest() =~= r0.skip(n1 as int));
            }
            let val = self.parse_valtype()?;
            let ghost old_locals = locals@;
            let mut j: usize = 0;
            while j < len
                invariant
                    j <= len,
                    locals@ == old_locals + Seq::new(j as nat, |k: int| val),
                decreases len - j,
            {
                locals.push(val);
                j = j + 1;
                proof {
                    assert(locals@ =~= old_locals + Seq::new(j as nat, |k: int| val));
                }
            }
            i = i + 1;
            proof {
                assert(self.rest() =~= r0.skip((n1 + 1) as int));
                assert(self.rest() =~= t0.skip(self.pos() - old(self).pos() - n0));
            }
        }
        proof {
            assert(spec_local_groups(self.rest(), 0, locals@) == Ok::<(Seq<ValType>, nat), Error>((locals@, 0)));
        }
        Ok(())
    }

    /// Parses two unsigned 32-bit integers.
    fn parse_u32_pair(&mut self) -> (r: Result<(u32, u32), Error>)
        requires
            old(self).wf(),
        ensures
            parsed(*old(self), *final(self), spec_u32_pair(old(self).rest()), r),
    {
        let ghost s = old(self).rest();
        let x = self.parse_u32()?;
        proof {
            assert(self.rest() =~= s.skip(spec_u32(s)->Ok_0.1 as int));
        }
        let y = self.parse_u32()?;
        Ok((x, y))
    }

    /// Parses a memory argument and builds an instruction with it.
    fn parse_op_control(&mut self, op: u8) -> (r: Result<Instr, Error>)
        requires
            old(self).wf(),
            op <= 0x11,
        ensures
            parsed_instr(*old(self), *final(self), spec_op_control(op, old(self).rest()), r),
    {
        match op {
            0x00 => Ok(Instr::Unreachable),
            0x01 => Ok(Instr::Nop),
            0x02 => Ok(Instr::Block(self.parse_blocktype()?)),
            0x03 => Ok(Instr::Loop(self.parse_blocktype()?)),
            0x04 => Ok(Instr::If(self.parse_blocktype()?)),
            0x05 => Ok(Instr::Else),
            0x0b => Ok(Instr::End),
            0x0c => Ok(Instr::Br(self.parse_labelidx()?)),
            0x0d => Ok(Instr::BrIf(self.parse_labelidx()?)),
            0x0e => self.parse_br_table(),
            0x0f => Ok(Instr::Return),
            0x10 => Ok(Instr::Call(self.parse_funcidx()?)),
            0x11 => {
                // The type index comes before the table index.
                let (y, x) = self.parse_u32_pair()?;
                Ok(Instr::CallIndirect(x, y))
            },
            _ => Err(invalid()),
        }
    }

    fn parse_op_variable(&mut self, op: u8) -> (r: Result<Instr, Error>)
        requires
            old(self).wf(),
            0x1a <= op <= 0x26,
        ensures
            parsed_instr(*old(self), *final(self), spec_op_variable(op, old(self).rest()), r),
    {
        match op {
            0x1a => Ok(Instr::Drop),
            0x1b => Ok(Instr::Select(None)),
            0x1c => Ok(Instr::Select(Some(self.parse_resulttype()?))),
            0x20 => Ok(Instr::LocalGet(self.parse_localidx()?)),
            0x21 => Ok(Instr::LocalSet(self.parse_localidx()?)),
            0x22 => Ok(Instr::LocalTee(self.parse_localidx()?)),
            0x23 => Ok(Instr::GlobalGet(self.parse_globalidx()?)),
            0x24 => Ok(Instr::GlobalSet(self.parse_globalidx()?)),
            0x25 => Ok(Instr::TableGet(self.parse_tableidx()?)),
            0x26 => Ok(Instr::TableSet(self.parse_tableidx()?)),
            _ => Err(invalid()),
        }
    }

    /// Parses a zero byte.
    fn parse_zero(&mut self) -> (r: Result<(), Error>)
        requires
            old(self).wf(),
        ensures
            parsed(
                *old(self),
                *final(self),
                match spec_byte(old(self).rest()) {
                    Err(e) => Err(e),
                    Ok((b, n)) => if b == 0 {
                        Ok(((), n))
                    } else {
                        Err(Error::Invalid)
                    },
                },
                r,
            ),
    {
        let b = self.parse_byte()?;
        check(b == 0)
    }

    fn parse_op_memory(&mut self, op: u8) -> (r: Result<Instr, Error>)
        requires
            old(self).wf(),
            0x28 <= op <= 0x40,
        ensures
            parsed_instr(*old(self), *final(self), spec_op_memory(op, old(self).rest()), r),
    {
        if op <= 0x29 {
            Ok(Instr::ILoad(Nx::from_u8(op - 0x28), self.parse_memarg()?))
        } else if op <= 0x2b {
            Ok(Instr::FLoad(Nx::from_u8(op - 0x2a), self.parse_memarg()?))
        } else if op <= 0x35 {
            let b = Bx::from_u8((op - 0x2c) / 2);
            let x = Sx::from_u8((op - 0x2c) % 2);
            Ok(Instr::ILoad_(b, x, self.parse_memarg()?))
        } else if op <= 0x37 {
            Ok(Instr::IStore(Nx::from_u8(op - 0x36), self.parse_memarg()?))
        } else if op <= 0x39 {
            Ok(Instr::FStore(Nx::from_u8(op - 0x38), self.parse_memarg()?))
        } else if op <= 0x3e {
            Ok(Instr::IStore_(Bx::from_u8(op - 0x3a), self.parse_memarg()?))
        } else if op == 0x3f {
            self.parse_zero()?;
            Ok(Instr::MemorySize)
        } else {
            self.parse_zero()?;
            Ok(Instr::MemoryGrow)
        }
    }

    fn parse_op_const(&mut self, op: u8) -> (r: Result<Instr, Error>)
        requires
            old(self).wf(),
            0x41 <= op <= 0x44,
        ensures
            parsed_instr(*old(self), *final(self), spec_op_const(op, old(self).rest()), r),
    {
        if op == 0x41 {
            Ok(Instr::I32Const(self.parse_i32()?))
        } else if op == 0x42 {
            Ok(Instr::I64Const(self.parse_i64()?))
        } else if op == 0x43 {
            let b = self.parse_bytes(4)?;
            Ok(Instr::F32Const(vstd::bytes::u32_from_le_bytes(b)))
        } else {
            let b = self.parse_bytes(8)?;
            Ok(Instr::F64Const(vstd::bytes::u64_from_le_bytes(b)))
        }
    }

    fn parse_op_fc(&mut self, x: u32) -> (r: Result<Instr, Error>)
        requires
            old(self).wf(),
        ensures
            parsed_instr(*old(self), *final(self), spec_op_fc(x, old(self).rest()), r),
    {
        let ghost s = old(self).rest();
        if x <= 7 {
            let n = Nx::from_u8(if x & 4 != 0 { 1 } else { 0 });
            let m = Nx::from_u8(if x & 2 != 0 { 1 } else { 0 });
            proof {
                assert(x & 1 < 2) by (bit_vector);
            }
            let sx = Sx::from_u8((x & 1) as u8);
            return Ok(Instr::CvtOp(CvtOp::TruncSat(n, m, sx)));
        }
        match x {
            8 => {
                let d = self.parse_dataidx()?;
                proof {
                    assert(self.rest() =~= s.skip(spec_u32(s)->Ok_0.1 as int));
                }
                self.parse_zero()?;
                Ok(Instr::MemoryInit(d))
            },
            9 => Ok(Instr::DataDrop(self.parse_dataidx()?)),
            10 => {
                let b = self.parse_bytes(2)?;
                if b[0] == 0 && b[1] == 0 {
                    Ok(Instr::MemoryCopy)
                } else {
                    Err(invalid())
                }
            },
            11 => {
                self.parse_zero()?;
                Ok(Instr::MemoryFill)
            },
            12 => {
                // The element index comes before the table index.
                let (y, x) = self.parse_u32_pair()?;
                Ok(Instr::TableInit(x, y))
            },
            13 => Ok(Instr::ElemDrop(self.parse_elemidx()?)),
            14 => {
                let (x, y) = self.parse_u32_pair()?;
                Ok(Instr::TableCopy(x, y))
            },
            15 => Ok(Instr::TableGrow(self.parse_tableidx()?)),
            16 => Ok(Instr::TableSize(self.parse_tableidx()?)),
            17 => Ok(Instr::TableFill(self.parse_tableidx()?)),
            _ => Err(invalid()),
        }
    }

    /// Parses an instruction.
    pub fn parse_instr(&mut self) -> (r: Result<Instr, Error>)
        requires
            old(self).wf(),
        ensures
            parsed_instr(*old(self), *final(self), spec_instr(old(self).rest()), r),
            r is Ok ==> final(self).pos() >= old(self).pos() + 1,
    {
        let ghost s = old(self).rest();
        proof {
            reveal(spec_instr);
        }
        let op = self.parse_byte()?;
        proof {
            assert(self.rest() =~= s.skip(1));
        }
        if op <= 0x11 {
            self.parse_op_control(op)
        } else if 0x1a <= op && op <= 0x26 {
            self.parse_op_variable(op)
        } else if 0x28 <= op && op <= 0x40 {
            self.parse_op_memory(op)
        } else if 0x41 <= op && op <= 0x44 {
            self.parse_op_const(op)
        } else if 0x45 <= op && op <= 0xc4 {
            match numeric_instr(op) {
                Some(i) => Ok(i),
                None => Err(invalid()),
            }
        } else if op == 0xd0 {
            Ok(Instr::RefNull(self.parse_reftype()?))
        } else if op == 0xd1 {
            Ok(Instr::RefIsNull)
        } else if op == 0xd2 {
            Ok(Instr::RefFunc(self.parse_funcidx()?))
        } else if op == 0xfc {
            let ghost s1 = self.rest();
            let x = self.parse_u32()?;
            proof {
                assert(self.rest() =~= s1.skip(spec_u32(s1)->Ok_0.1 as int));
            }
            self.parse_op_fc(x)
        } else if op == 0xfd || op == 0xfe {
            Err(unsupported(Unsupported::Opcode(op)))
        } else {
            Err(invalid())
        }
    }

    /// Skips instructions up to and including the `end` closing `l + 1` open blocks.
    pub fn skip_to_end(&mut self, l: LabelIdx) -> (r: Result<(), Error>)
        requires
            old(self).wf(),
        ensures
            same_input(*old(self), *final(self)),
            match spec_skip_to_end(old(self).rest(), l as nat + 1) {
                Ok(n) => r is Ok && final(self).pos() == old(self).pos() + n,
                Err(e) => r == Err::<(), Error>(e),
            },
    {
        let mut depth: u128 = l as u128 + 1;
        let ghost s = old(self).rest();
        loop
            invariant
                same_input(*old(self), *self),
                s == old(self).rest(),
                depth >= 1,
                depth <= l as u128 + 1 + (self.pos() - old(self).pos()),
                self.pos() - old(self).pos() <= usize::MAX,
                self.rest() == s.skip(self.pos() - old(self).pos()),
                spec_skip_to_end(s, l as nat + 1) == match spec_skip_to_end(
                    self.rest(),
                    depth as nat,
                ) {
                    Ok(m) => Ok((m + (self.pos() - old(self).pos())) as nat),
                    Err(e) => Err(e),
                },
            decreases self.rest().len(),
        {
            let ghost r0 = self.rest();
            let ghost p0 = self.pos();
            let instr = self.parse_instr()?;
            proof {
                self.lemma_wf();
                assert(self.rest() =~= r0.skip(self.pos() - p0));
                assert(self.rest() =~= s.skip(self.pos() - old(self).pos()));
            }
            match instr {
                Instr::Block(_) | Instr::Loop(_) | Instr::If(_) => depth = depth + 1,
                Instr::End => {
                    depth = depth - 1;
                    if depth == 0 {
                        return Ok(());
                    }
                },
                _ => (),
            }
        }
    }

    /// Skips instructions up to and including the `else` of the current block, or up to (and
    /// not including) its `end`.
    pub fn skip_to_else(&mut self) -> (r: Result<(), Error>)
        requires
            old(self).wf(),
        ensures
            same_input(*old(self), *final(self)),
            match spec_skip_to_else(old(self).rest(), 0) {
                Ok(n) => r is Ok && final(self).pos() == old(self).pos() + n,
                Err(e) => r == Err::<(), Error>(e),
            },
    {
        let mut depth: u128 = 0;
        let ghost s = old(self).rest();
        loop
            invariant
                same_input(*old(self), *self),
                s == old(self).rest(),
                depth <= self.pos() - old(self).pos(),
                self.pos() - old(self).pos() <= usize::MAX,
                self.rest() == s.skip(self.pos() - old(self).pos()),
                spec_skip_to_else(s, 0) == match spec_skip_to_else(self.rest(), depth as nat) {
                    Ok(m) => Ok((m + (self.pos() - old(self).pos())) as nat),
                    Err(e) => Err(e),
                },
            decreases self.rest().len(),
        {
            let ghost r0 = self.rest();
            let ghost p0 = self.pos();
            let saved = self.save();
            let instr = self.parse_instr()?;
            proof {
                self.lemma_wf();
                assert(self.rest() =~= r0.skip(self.pos() - p0));
                assert(self.rest() =~= s.skip(self.pos() - old(self).pos()));
            }
            match instr {
                Instr::Block(_) | Instr::Loop(_) | Instr::If(_) => depth = depth + 1,
                Instr::End => {
                    if depth == 0 {
                        self.restore(saved);
                        return Ok(());
                    }
                    depth = depth - 1;
                },
                Instr::Else => {
                    if depth == 0 {
                        return Ok(());
                    }
                },
                _ => (),
            }
        }
    }

    /// Parses an element segment, handing its parts to `user`.
    #[verifier::rlimit(100)]
    #[verifier::spinoff_prover]
    pub fn parse_elem<U: ParseElem<'m>>(&mut self, user: &mut U) -> (r: Result<(), Error>)
        requires
            old(self).wf(),
            old(user).inv(),
        ensures
            final(user).inv(),
            final(user).kept() == old(user).kept(),
            same_input(*old(self), *final(self)),
            spec_u32(old(self).rest()) is Err ==> r == Err::<(), Error>(
                spec_u32(old(self).rest())->Err_0,
            ),
            spec_u32(old(self).rest()) matches Ok((f, _)) && f >= 8 ==> r == Err::<(), Error>(
                Error::Invalid,
            ),
            final(user).parts().len() >= old(user).parts().len(),
            final(user).parts().take(old(user).parts().len() as int) == old(user).parts(),
            match spec_elem_mode(old(self).rest()) {
                Err(e) => r == Err::<(), Error>(e) && final(user).parts() == old(user).parts(),
                Ok((m, _)) => final(user).parts().len() > old(user).parts().len()
                    && final(user).parts()[old(user).parts().len() as int] == ElemPart::Mode(m),
            },
            r is Ok ==> elem_parts(
                spec_u32(old(self).rest())->Ok_0.0,
                final(user).parts().skip(old(user).parts().len() as int),
            ),
            r is Ok ==> exists|k: int| old(self).pos() <= k <= final(self).pos() && elem_tail(
                spec_u32(old(self).rest())->Ok_0.0,
                old(self).source().subrange(k, old(self).limit()),
                final(self).pos() - k,
                final(user).parts().skip(old(user).parts().len() as int),
            ),
    {
        // Flags: bit 0 is passive or declarative, bit 1 is an explicit table index (or
        // declarative), bit 2 is expressions for the elements (instead of function indices).
        let ghost l0 = user.parts().len();
        let flags = self.parse_u32()?;
        check(flags < 8)?;
        let ghost f0 = flags;
        proof {
            assert(flags < 8 ==> ((flags & 1 == 0) == (flags % 2 == 0) && (flags & 2 == 0) == ((flags / 2) % 2 == 0)
                && (flags & 3 == 0) == (flags % 4 == 0) && (flags & 4 == 0) == (flags < 4))) by (bit_vector);
            self.lemma_wf();
            old(self).lemma_wf();
            assert(self.rest() =~= old(self).rest().skip(self.pos() - old(self).pos()));
        }
        let mode = if flags & 1 == 0 {
            let table = if flags & 2 == 0 {
                0
            } else {
                self.parse_tableidx()?
            };
            ElemMode::Active { table }
        } else if flags & 2 == 0 {
            ElemMode::Passive
        } else {
            ElemMode::Declarative
        };
        proof {
            assert(spec_elem_mode(old(self).rest()) matches Ok((m, _)) && m == mode);
        }
        user.mode(mode, self)?;
        let ghost k = self.pos();
        let ghost sk = self.rest();
        proof {
            assert(user.parts().take(l0 as int) =~= old(user).parts());
            self.lemma_wf();
            assert(sk =~= self.source().subrange(k, old(self).limit()));
        }
        let type_ = if flags & 3 == 0 {
            RefType::FuncRef
        } else if flags & 4 == 0 {
            let kind = self.parse_byte()?;
            check(kind == 0)?;
            RefType::FuncRef
        } else {
            self.parse_reftype()?
        };
        let ghost n1 = self.pos() - k;
        proof {
            self.lemma_wf();
            assert(spec_elem_type(f0, sk) == Ok::<(RefType, nat), Error>((type_, n1 as nat)));
            assert(self.rest() =~= sk.skip(n1));
        }
        user.type_(type_)?;
        proof {
            assert(user.parts().take(l0 as int) =~= old(user).parts());
            assert(elem_parts(f0, user.parts().skip(l0 as int)));
        }
        let n = self.parse_u32()?;
        let ghost n2 = self.pos() - k - n1;
        let ghost s3 = self.rest();
        proof {
            self.lemma_wf();
            assert(s3 =~= self.source().subrange(k + n1 + n2, old(self).limit()));
            assert(spec_u32(sk.skip(n1)) == Ok::<(u32, nat), Error>((n, n2 as nat)));
            assert(self.rest() =~= sk.skip(n1 + n2));
            assert(user.parts().skip(l0 as int).skip(2) =~= funcidx_parts(Seq::empty()));
        }
        let ghost mut xs: Seq<u32> = Seq::empty();
        let mut i: u32 = 0;
        if flags & 4 == 0 {
            while i < n
                invariant
                    same_input(*old(self), *self),
                    user.inv(),
                    user.kept() == old(user).kept(),
                    i <= n,
                    spec_u32(old(self).rest()) matches Ok((f, _)) && f == f0 && f0 < 8,
                    f0 < 4,
                    l0 == old(user).parts().len(),
                    user.parts().len() >= l0 + 2,
                    user.parts().take(l0 as int) == old(user).parts(),
                    user.parts()[l0 as int] == ElemPart::Mode(mode),
                    spec_elem_mode(old(self).rest()) matches Ok((m, _)) && m == mode,
                    elem_parts(f0, user.parts().skip(l0 as int)),
                    self.wf(),
                    self.pos() >= k + n1 + n2,
                    self.rest() == s3.skip(self.pos() - (k + n1 + n2)),
                    s3 == sk.skip(n1 + n2),
                    k + n1 + n2 <= self.pos() <= self.limit() <= self.source().len(),
                    s3 == self.source().subrange(k + n1 + n2, old(self).limit()),
                    self.limit() == old(self).limit(),
                    spec_elem_type(f0, sk) == Ok::<(RefType, nat), Error>((type_, n1 as nat)),
                    spec_u32(sk.skip(n1)) == Ok::<(u32, nat), Error>((n, n2 as nat)),
                    sk == self.source().subrange(k, old(self).limit()),
                    old(self).pos() <= k,
                    user.parts()[(l0 + 1) as int] == ElemPart::Type(type_),
                    xs.len() == i,
                    n1 + n2 >= 0,
                    spec_u32s(s3, i as nat) == Ok::<(Seq<u32>, nat), Error>((xs, (self.pos() - (k + n1 + n2)) as nat)),
                    user.parts().skip(l0 as int).skip(2) == funcidx_parts(xs),
                decreases n - i,
            {
                let ghost q = *self;
                proof {
                    self.lemma_wf();
                }
                let x = self.parse_funcidx()?;
                let ghost before = user.parts();
                user.init_funcidx(x)?;
                proof {
                    self.lemma_wf();
                    q.lemma_wf();
                    assert(self.rest() =~= q.rest().skip(self.pos() - q.pos()));
                    assert(self.rest() =~= s3.skip(self.pos() - (k + n1 + n2)));
                    assert(user.parts().take(l0 as int) =~= old(user).parts());
                    assert(user.parts().skip(l0 as int) =~= before.skip(l0 as int).push(ElemPart::FuncIdx(x)));
                    assert(before.skip(l0 as int).push(ElemPart::FuncIdx(x)).skip(2) =~= before.skip(l0 as int).skip(2).push(
                        ElemPart::FuncIdx(x),
                    ));
                    assert(funcidx_parts(xs).push(ElemPart::FuncIdx(x)) =~= funcidx_parts(xs.push(x)));
                    assert(user.parts().skip(l0 as int).skip(2) =~= funcidx_parts(xs.push(x)));
                    xs = xs.push(x);
                }
                i = i + 1;
            }
        } else {
            while i < n
                invariant
                    same_input(*old(self), *self),
                    user.inv(),
                    user.kept() == old(user).kept(),
                    i <= n,
                    spec_u32(old(self).rest()) matches Ok((f, _)) && f == f0 && f0 < 8,
                    f0 >= 4,
                    l0 == old(user).parts().len(),
                    user.parts().len() >= l0 + 2,
                    user.parts().take(l0 as int) == old(user).parts(),
                    user.parts()[l0 as int] == ElemPart::Mode(mode),
                    spec_elem_mode(old(self).rest()) matches Ok((m, _)) && m == mode,
                    elem_parts(f0, user.parts().skip(l0 as int)),
                    spec_elem_type(f0, sk) == Ok::<(RefType, nat), Error>((type_, n1 as nat)),
                    spec_u32(sk.skip(n1)) == Ok::<(u32, nat), Error>((n, n2 as nat)),
                    k <= self.pos() <= self.limit() <= self.source().len(),
                    self.limit() == old(self).limit(),
                    sk == self.source().subrange(k, old(self).limit()),
                    old(self).pos() <= k,
                    user.parts()[(l0 + 1) as int] == ElemPart::Type(type_),
                    user.parts().len() == l0 + 2 + i,
                decreases n - i,
            {
                let ghost before = user.parts();
                user.init_expr(self)?;
                proof {
                    assert(user.parts().take(l0 as int) =~= old(user).parts());
                    assert(user.parts().skip(l0 as int) =~= before.skip(l0 as int).push(ElemPart::Expr));
                }
                i = i + 1;
            }
            proof {
                assert(elem_tail(f0, sk, self.pos() - k, user.parts().skip(l0 as int)));
            }
        }
        proof {
            assert(elem_tail(f0, sk, self.pos() - k, user.parts().skip(l0 as int)));
        }
        Ok(())
    }

    /// Parses a data segment, handing its parts to `user`.
    pub fn parse_data<U: ParseData<'m>>(&mut self, user: &mut U) -> (r: Result<(), Error>)
        requires
            old(self).wf(),
            old(user).inv(),
        ensures
            final(user).inv(),
            final(user).kept() == old(user).kept(),
            same_input(*old(self), *final(self)),
            spec_u32(old(self).rest()) is Err ==> r == Err::<(), Error>(
                spec_u32(old(self).rest())->Err_0,
            ),
            spec_u32(old(self).rest()) matches Ok((f, _)) && f >= 3 ==> r == Err::<(), Error>(
                Error::Invalid,
            ),
            U::keeps_parts() && r is Ok ==> data_received(
                *old(self),
                *final(self),
                old(user).parts(),
                final(user).parts(),
            ),
    {
        let ghost s0 = old(self).rest();
        let ghost l0 = old(user).parts().len();
        proof {
            old(self).lemma_wf();
        }
        // Flags: bit 0 is passive, bit 1 is an explicit memory index.
        let flags = self.parse_u32()?;
        check(flags < 3)?;
        proof {
            assert(flags < 3 ==> ((flags & 2 == 0) == (flags != 2) && (flags & 1 == 0) == (flags != 1)))
                by (bit_vector);
            self.lemma_wf();
            assert(self.rest() =~= s0.skip(self.pos() - old(self).pos()));
        }
        let memory = if flags & 2 == 0 {
            0
        } else {
            self.parse_memidx()?
        };
        let mode = if flags & 1 == 0 {
            DataMode::Active { memory }
        } else {
            DataMode::Passive
        };
        let ghost pa = *self;
        proof {
            self.lemma_wf();
            assert(self.rest() =~= s0.skip(self.pos() - old(self).pos()));
            assert(spec_data_mode(s0) == Some((mode, (self.pos() - old(self).pos()) as nat)));
        }
        user.mode(mode, self)?;
        let ghost pb = *self;
        proof {
            pa.lemma_wf();
            pb.lemma_wf();
            assert(pb.rest() =~= pa.rest().skip(pb.pos() - pa.pos()));
        }
        let len = self.parse_u32()? as usize;
        let bytes = self.parse_bytes(len)?;
        proof {
            self.lemma_wf();
            let (l, n) = spec_u32(pb.rest())->Ok_0;
            assert(bytes@ =~= pb.rest().subrange(n as int, n + l));
        }
        let r = user.init(bytes);
        proof {
            if U::keeps_parts() && r is Ok {
                assert(user.parts().take(l0 as int) =~= old(user).parts());
            }
        }
        r
    }
}

} // verus!
