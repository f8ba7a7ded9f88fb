//! Semantics of the integer operators on 32-bit and 64-bit values.
use vstd::prelude::*;
use vstd::std_specs::bits::{u32_leading_zeros, u32_trailing_zeros, u64_leading_zeros, u64_trailing_zeros};

use crate::syntax::{IBinOp, IRelOp, ITestOp, IUnOp, Sx};

verus! {

/// Number of set bits of a 64-bit value.
pub open spec fn popcount64(x: u64) -> nat
    decreases x,
{
    if x == 0 {
        0
    } else {
        (x % 2) as nat + popcount64(x / 2)
    }
}

proof fn lemma_popcount64_bound(x: u64, k: nat)
    requires
        (x as int) < vstd::arithmetic::power2::pow2(k) as int,
    ensures
        popcount64(x) <= k,
    decreases x,
{
    if x != 0 {
        if k == 0 {
            vstd::arithmetic::power2::lemma2_to64();
        } else {
            vstd::arithmetic::power2::lemma_pow2_unfold(k);
            lemma_popcount64_bound(x / 2, (k - 1) as nat);
        }
    }
}

fn count_ones32(x: u32) -> (r: u32)
    ensures
        r == crate::bit_field::popcount(x),
{
    let mut y = x;
    let mut r: u32 = 0;
    proof {
        vstd::arithmetic::power2::lemma2_to64();
        lemma_popcount64_bound(x as u64, 32);
        lemma_popcount_same(x);
    }
    while y != 0
        invariant
            r + crate::bit_field::popcount(y) == crate::bit_field::popcount(x),
            crate::bit_field::popcount(x) <= 32,
        decreases y,
    {
        r = r + y % 2;
        y = y / 2;
    }
    r
}

proof fn lemma_popcount_same(x: u32)
    ensures
        crate::bit_field::popcount(x) == popcount64(x as u64),
    decreases x,
{
    if x != 0 {
        lemma_popcount_same(x / 2);
    }
}

fn count_ones64(x: u64) -> (r: u64)
    ensures
        r == popcount64(x),
{
    let mut y = x;
    let mut r: u64 = 0;
    proof {
        vstd::arithmetic::power2::lemma2_to64();
        lemma_popcount64_bound(x, 64);
    }
    while y != 0
        invariant
            r + popcount64(y) == popcount64(x),
            popcount64(x) <= 64,
        decreases y,
    {
        r = r + y % 2;
        y = y / 2;
    }
    r
}

/// Rotation of the bits of a 32-bit value to the left.
pub open spec fn rotl32(x: u32, k: u32) -> u32 {
    let r = k % 32;
    if r == 0 {
        x
    } else {
        (x << r) | (x >> ((32 - r) as u32))
    }
}

/// Rotation of the bits of a 64-bit value to the left.
pub open spec fn rotl64(x: u64, k: u64) -> u64 {
    let r = k % 64;
    if r == 0 {
        x
    } else {
        (x << r) | (x >> ((64 - r) as u64))
    }
}

/// Rotation of the bits of a 32-bit value to the right.
pub open spec fn rotr32(x: u32, k: u32) -> u32 {
    rotl32(x, ((32 - k % 32) % 32) as u32)
}

/// Rotation of the bits of a 64-bit value to the right.
pub open spec fn rotr64(x: u64, k: u64) -> u64 {
    rotl64(x, ((64 - k % 64) % 64) as u64)
}

fn rotate_left32(x: u32, k: u32) -> (r: u32)
    ensures
        r == rotl32(x, k),
{
    let r = k % 32;
    if r == 0 {
        x
    } else {
        (x << r) | (x >> (32 - r))
    }
}

fn rotate_left64(x: u64, k: u64) -> (r: u64)
    ensures
        r == rotl64(x, k),
{
    let r = k % 64;
    if r == 0 {
        x
    } else {
        (x << r) | (x >> (64 - r))
    }
}

/// Signed remainder where the remainder of any division by -1 is 0.
pub open spec fn rem_s32(x: i32, y: i32) -> i32 {
    if y == -1 {
        0
    } else {
        x.checked_rem(y)->Some_0
    }
}

pub open spec fn rem_s64(x: i64, y: i64) -> i64 {
    if y == -1 {
        0
    } else {
        x.checked_rem(y)->Some_0
    }
}

impl ITestOp {
    pub open spec fn spec_n32(&self, x: u32) -> bool {
        x == 0
    }

    pub open spec fn spec_n64(&self, x: u64) -> bool {
        x == 0
    }

    /// Applies the test to a 32-bit value.
    pub fn n32(&self, x: u32) -> (r: bool)
        ensures
            r == self.spec_n32(x),
    {
        match self {
            ITestOp::Eqz => x == 0,
        }
    }

    /// Applies the test to a 64-bit value.
    pub fn n64(&self, x: u64) -> (r: bool)
        ensures
            r == self.spec_n64(x),
    {
        match self {
            ITestOp::Eqz => x == 0,
        }
    }
}

impl IRelOp {
    pub open spec fn spec_n32(&self, x: u32, y: u32) -> bool {
        match *self {
            IRelOp::Eq => x == y,
            IRelOp::Ne => x != y,
            IRelOp::Lt(Sx::U) => x < y,
            IRelOp::Lt(Sx::S) => (x as i32) < (y as i32),
            IRelOp::Gt(Sx::U) => x > y,
            IRelOp::Gt(Sx::S) => (x as i32) > (y as i32),
            IRelOp::Le(Sx::U) => x <= y,
            IRelOp::Le(Sx::S) => (x as i32) <= (y as i32),
            IRelOp::Ge(Sx::U) => x >= y,
            IRelOp::Ge(Sx::S) => (x as i32) >= (y as i32),
        }
    }

    pub open spec fn spec_n64(&self, x: u64, y: u64) -> bool {
        match *self {
            IRelOp::Eq => x == y,
            IRelOp::Ne => x != y,
            IRelOp::Lt(Sx::U) => x < y,
            IRelOp::Lt(Sx::S) => (x as i64) < (y as i64),
            IRelOp::Gt(Sx::U) => x > y,
            IRelOp::Gt(Sx::S) => (x as i64) > (y as i64),
            IRelOp::Le(Sx::U) => x <= y,
            IRelOp::Le(Sx::S) => (x as i64) <= (y as i64),
            IRelOp::Ge(Sx::U) => x >= y,
            IRelOp::Ge(Sx::S) => (x as i64) >= (y as i64),
        }
    }

    /// Compares two 32-bit values.
    pub fn n32(&self, x: u32, y: u32) -> (r: bool)
        ensures
            r == self.spec_n32(x, y),
    {
        match *self {
            IRelOp::Eq => x == y,
            IRelOp::Ne => x != y,
            IRelOp::Lt(Sx::U) => x < y,
            IRelOp::Lt(Sx::S) => (x as i32) < (y as i32),
            IRelOp::Gt(Sx::U) => x > y,
            IRelOp::Gt(Sx::S) => (x as i32) > (y as i32),
            IRelOp::Le(Sx::U) => x <= y,
            IRelOp::Le(Sx::S) => (x as i32) <= (y as i32),
            IRelOp::Ge(Sx::U) => x >= y,
            IRelOp::Ge(Sx::S) => (x as i32) >= (y as i32),
        }
    }

    /// Compares two 64-bit values.
    pub fn n64(&self, x: u64, y: u64) -> (r: bool)
        ensures
            r == self.spec_n64(x, y),
    {
        match *self {
            IRelOp::Eq => x == y,
            IRelOp::Ne => x != y,
            IRelOp::Lt(Sx::U) => x < y,
            IRelOp::Lt(Sx::S) => (x as i64) < (y as i64),
            IRelOp::Gt(Sx::U) => x > y,
            IRelOp::Gt(Sx::S) => (x as i64) > (y as i64),
            IRelOp::Le(Sx::U) => x <= y,
            IRelOp::Le(Sx::S) => (x as i64) <= (y as i64),
            IRelOp::Ge(Sx::U) => x >= y,
            IRelOp::Ge(Sx::S) => (x as i64) >= (y as i64),
        }
    }
}

impl IUnOp {
    pub open spec fn spec_n32(&self, x: u32) -> Option<u32> {
        Some(
            match *self {
                IUnOp::Clz => u32_leading_zeros(x),
                IUnOp::Ctz => u32_trailing_zeros(x),
                IUnOp::PopCnt => crate::bit_field::popcount(x) as u32,
            },
        )
    }

    pub open spec fn spec_n64(&self, x: u64) -> Option<u64> {
        Some(
            match *self {
                IUnOp::Clz => u64_leading_zeros(x) as u64,
                IUnOp::Ctz => u64_trailing_zeros(x) as u64,
                IUnOp::PopCnt => popcount64(x) as u64,
            },
        )
    }

    /// Applies the operator to a 32-bit value.
    pub fn n32(&self, x: u32) -> (r: Option<u32>)
        ensures
            r == self.spec_n32(x),
    {
        Some(
            match *self {
                IUnOp::Clz => x.leading_zeros(),
                IUnOp::Ctz => x.trailing_zeros(),
                IUnOp::PopCnt => count_ones32(x),
            },
        )
    }

    /// Applies the operator to a 64-bit value.
    pub fn n64(&self, x: u64) -> (r: Option<u64>)
        ensures
            r == self.spec_n64(x),
    {
        Some(
            match *self {
                IUnOp::Clz => {
                    let z = x.leading_zeros();
                    z as u64
                },
                IUnOp::Ctz => x.trailing_zeros() as u64,
                IUnOp::PopCnt => count_ones64(x),
            },
        )
    }
}

impl IBinOp {
    pub open spec fn spec_n32(&self, x: u32, y: u32) -> Option<u32> {
        match *self {
            IBinOp::Add => Some(x.wrapping_add(y)),
            IBinOp::Sub => Some(x.wrapping_sub(y)),
            IBinOp::Mul => Some(x.wrapping_mul(y)),
            IBinOp::Div(Sx::U) => if y == 0 {
                None
            } else {
                Some(x / y)
            },
            IBinOp::Div(Sx::S) => match (x as i32).checked_div(y as i32) {
                Some(z) => Some(z as u32),
                None => None,
            },
            IBinOp::Rem(Sx::U) => x.checked_rem(y),
            IBinOp::Rem(Sx::S) => if y == 0 {
                None
            } else {
                Some(rem_s32(x as i32, y as i32) as u32)
            },
            IBinOp::And => Some(x & y),
            IBinOp::Or => Some(x | y),
            IBinOp::Xor => Some(x ^ y),
            IBinOp::Shl => Some(x.wrapping_shl(y)),
            IBinOp::Shr(Sx::U) => Some(x.wrapping_shr(y)),
            IBinOp::Shr(Sx::S) => Some((x as i32).wrapping_shr(y) as u32),
            IBinOp::Rotl => Some(rotl32(x, y)),
            IBinOp::Rotr => Some(rotr32(x, y)),
        }
    }

    pub open spec fn spec_n64(&self, x: u64, y: u64) -> Option<u64> {
        match *self {
            IBinOp::Add => Some(x.wrapping_add(y)),
            IBinOp::Sub => Some(x.wrapping_sub(y)),
            IBinOp::Mul => Some(x.wrapping_mul(y)),
            IBinOp::Div(Sx::U) => if y == 0 {
                None
            } else {
                Some(x / y)
            },
            IBinOp::Div(Sx::S) => match (x as i64).checked_div(y as i64) {
                Some(z) => Some(z as u64),
                None => None,
            },
            IBinOp::Rem(Sx::U) => x.checked_rem(y),
            IBinOp::Rem(Sx::S) => if y == 0 {
                None
            } else {
                Some(rem_s64(x as i64, y as i64) as u64)
            },
            IBinOp::And => Some(x & y),
            IBinOp::Or => Some(x | y),
            IBinOp::Xor => Some(x ^ y),
            IBinOp::Shl => Some(x.wrapping_shl(y as u32)),
            IBinOp::Shr(Sx::U) => Some(x.wrapping_shr(y as u32)),
            IBinOp::Shr(Sx::S) => Some((x as i64).wrapping_shr(y as u32) as u64),
            IBinOp::Rotl => Some(rotl64(x, y)),
            IBinOp::Rotr => Some(rotr64(x, y)),
        }
    }

    /// Applies the operator to two 32-bit values (`None` when the operation traps).
    pub fn n32(&self, x: u32, y: u32) -> (r: Option<u32>)
        ensures
            r == self.spec_n32(x, y),
    {
        match *self {
            IBinOp::Add => Some(x.wrapping_add(y)),
            IBinOp::Sub => Some(x.wrapping_sub(y)),
            IBinOp::Mul => Some(x.wrapping_mul(y)),
            IBinOp::Div(Sx::U) => if y == 0 {
                None
            } else {
                Some(x / y)
            },
            IBinOp::Div(Sx::S) => match (x as i32).checked_div(y as i32) {
                Some(z) => Some(z as u32),
                None => None,
            },
            IBinOp::Rem(Sx::U) => x.checked_rem(y),
            IBinOp::Rem(Sx::S) => {
                if y == 0 {
                    None
                } else if y as i32 == -1 {
                    Some(0)
                } else {
                    assert(y != 0 ==> (y as i32) != 0) by (bit_vector);
                    match (x as i32).checked_rem(y as i32) {
                        Some(z) => Some(z as u32),
                        None => None,
                    }
                }
            },
            IBinOp::And => Some(x & y),
            IBinOp::Or => Some(x | y),
            IBinOp::Xor => Some(x ^ y),
            IBinOp::Shl => Some(x.wrapping_shl(y)),
            IBinOp::Shr(Sx::U) => Some(x.wrapping_shr(y)),
            IBinOp::Shr(Sx::S) => Some((x as i32).wrapping_shr(y) as u32),
            IBinOp::Rotl => Some(rotate_left32(x, y)),
            IBinOp::Rotr => Some(rotate_left32(x, (32 - y % 32) % 32)),
        }
    }

    /// Applies the operator to two 64-bit values (`None` when the operation traps).
    pub fn n64(&self, x: u64, y: u64) -> (r: Option<u64>)
        ensures
            r == self.spec_n64(x, y),
    {
        match *self {
            IBinOp::Add => Some(x.wrapping_add(y)),
            IBinOp::Sub => Some(x.wrapping_sub(y)),
            IBinOp::Mul => Some(x.wrapping_mul(y)),
            IBinOp::Div(Sx::U) => if y == 0 {
                None
            } else {
                Some(x / y)
            },
            IBinOp::Div(Sx::S) => match (x as i64).checked_div(y as i64) {
                Some(z) => Some(z as u64),
                None => None,
            },
            IBinOp::Rem(Sx::U) => x.checked_rem(y),
            IBinOp::Rem(Sx::S) => {
                if y == 0 {
                    None
                } else if y as i64 == -1 {
                    Some(0)
                } else {
                    assert(y != 0 ==> (y as i64) != 0) by (bit_vector);
                    match (x as i64).checked_rem(y as i64) {
                        Some(z) => Some(z as u64),
                        None => None,
                    }
                }
            },
            IBinOp::And => Some(x & y),
            IBinOp::Or => Some(x | y),
            IBinOp::Xor => Some(x ^ y),
            IBinOp::Shl => Some(x.wrapping_shl(y as u32)),
            IBinOp::Shr(Sx::U) => Some(x.wrapping_shr(y as u32)),
            IBinOp::Shr(Sx::S) => Some((x as i64).wrapping_shr(y as u32) as u64),
            IBinOp::Rotl => Some(rotate_left64(x, y)),
            IBinOp::Rotr => Some(rotate_left64(x, (64 - y % 64) % 64)),
        }
    }
}

/// Bit `i` of a 32-bit value.
pub open spec fn bit32(x: u32, i: u32) -> bool {
    (x >> i) & 1 == 1
}

/// Bit `i` of a 64-bit value.
pub open spec fn bit64(x: u64, i: u64) -> bool {
    (x >> i) & 1 == 1
}

/// A 32-bit pattern read as a two's complement integer.
pub open spec fn signed32(x: u32) -> int {
    if x < 0x8000_0000 {
        x as int
    } else {
        x as int - 0x1_0000_0000
    }
}

/// A 64-bit pattern read as a two's complement integer.
pub open spec fn signed64(x: u64) -> int {
    if x < 0x8000_0000_0000_0000 {
        x as int
    } else {
        x as int - 0x1_0000_0000_0000_0000
    }
}

proof fn lemma_bits32(x: u32, y: u32, k: u32, i: u32)
    by (bit_vector)
    requires
        i < 32,
    ensures
        bit32(rotr32(x, k), i) == bit32(x, ((i + k % 32) % 32) as u32),
        bit32(rotl32(x, k), ((i + k % 32) % 32) as u32) == bit32(x, i),
        bit32(x << (k % 32), i) == (i >= k % 32 && bit32(x, (i - k % 32) as u32)),
        bit32(x >> (k % 32), i) == (i + k % 32 < 32 && bit32(x, (i + k % 32) as u32)),
        bit32(((x as i32) >> (k % 32)) as u32, i) == if i + k % 32 < 32 {
            bit32(x, (i + k % 32) as u32)
        } else {
            bit32(x, 31)
        },
        bit32(x & y, i) == (bit32(x, i) && bit32(y, i)),
        bit32(x | y, i) == (bit32(x, i) || bit32(y, i)),
        bit32(x ^ y, i) == (bit32(x, i) != bit32(y, i)),
{
}

proof fn lemma_bits64(x: u64, y: u64, k: u64, i: u64)
    by (bit_vector)
    requires
        i < 64,
    ensures
        bit64(rotr64(x, k), i) == bit64(x, ((i + k % 64) % 64) as u64),
        bit64(rotl64(x, k), ((i + k % 64) % 64) as u64) == bit64(x, i),
        bit64(x << (k % 64), i) == (i >= k % 64 && bit64(x, (i - k % 64) as u64)),
        bit64(x >> (k % 64), i) == (i + k % 64 < 64 && bit64(x, (i + k % 64) as u64)),
        bit64(((x as i64) >> (k % 64)) as u64, i) == if i + k % 64 < 64 {
            bit64(x, (i + k % 64) as u64)
        } else {
            bit64(x, 63)
        },
        bit64(x & y, i) == (bit64(x, i) && bit64(y, i)),
        bit64(x | y, i) == (bit64(x, i) || bit64(y, i)),
        bit64(x ^ y, i) == (bit64(x, i) != bit64(y, i)),
{
}

/// The bitwise operators on 32-bit values, bit by bit: rotating to the right by `k` puts bit
/// `(i + k) mod 32` at bit `i`, rotating to the left puts bit `i` at bit `(i + k) mod 32`, shifting
/// by `k` (taken modulo 32) moves bits left or right, filling with zeros or, for a signed shift to
/// the right, with the sign bit; and, or and exclusive or combine the bits at the same position.
pub proof fn lemma_ibinop32_bits(x: u32, y: u32, i: u32)
    requires
        i < 32,
    ensures
        IBinOp::Rotr.spec_n32(x, y) matches Some(r) && bit32(r, i) == bit32(
            x,
            ((i + y % 32) % 32) as u32,
        ),
        IBinOp::Rotl.spec_n32(x, y) matches Some(r) && bit32(r, ((i + y % 32) % 32) as u32) == bit32(
            x,
            i,
        ),
        IBinOp::Shl.spec_n32(x, y) matches Some(r) && bit32(r, i) == (i >= y % 32 && bit32(
            x,
            (i - y % 32) as u32,
        )),
        IBinOp::Shr(Sx::U).spec_n32(x, y) matches Some(r) && bit32(r, i) == (i + y % 32 < 32
            && bit32(x, (i + y % 32) as u32)),
        IBinOp::Shr(Sx::S).spec_n32(x, y) matches Some(r) && bit32(r, i) == if i + y % 32 < 32 {
            bit32(x, (i + y % 32) as u32)
        } else {
            bit32(x, 31)
        },
        IBinOp::And.spec_n32(x, y) matches Some(r) && bit32(r, i) == (bit32(x, i) && bit32(y, i)),
        IBinOp::Or.spec_n32(x, y) matches Some(r) && bit32(r, i) == (bit32(x, i) || bit32(y, i)),
        IBinOp::Xor.spec_n32(x, y) matches Some(r) && bit32(r, i) == (bit32(x, i) != bit32(y, i)),
{
    lemma_bits32(x, y, y, i);
}

/// The bitwise operators on 64-bit values, bit by bit, as for 32-bit values.
pub proof fn lemma_ibinop64_bits(x: u64, y: u64, i: u64)
    requires
        i < 64,
    ensures
        IBinOp::Rotr.spec_n64(x, y) matches Some(r) && bit64(r, i) == bit64(
            x,
            ((i + y % 64) % 64) as u64,
        ),
        IBinOp::Rotl.spec_n64(x, y) matches Some(r) && bit64(r, ((i + y % 64) % 64) as u64) == bit64(
            x,
            i,
        ),
        IBinOp::Shl.spec_n64(x, y) matches Some(r) && bit64(r, i) == (i >= y % 64 && bit64(
            x,
            (i - y % 64) as u64,
        )),
        IBinOp::Shr(Sx::U).spec_n64(x, y) matches Some(r) && bit64(r, i) == (i + y % 64 < 64
            && bit64(x, (i + y % 64) as u64)),
        IBinOp::Shr(Sx::S).spec_n64(x, y) matches Some(r) && bit64(r, i) == if i + y % 64 < 64 {
            bit64(x, (i + y % 64) as u64)
        } else {
            bit64(x, 63)
        },
        IBinOp::And.spec_n64(x, y) matches Some(r) && bit64(r, i) == (bit64(x, i) && bit64(y, i)),
        IBinOp::Or.spec_n64(x, y) matches Some(r) && bit64(r, i) == (bit64(x, i) || bit64(y, i)),
        IBinOp::Xor.spec_n64(x, y) matches Some(r) && bit64(r, i) == (bit64(x, i) != bit64(y, i)),
{
    lemma_bits64(x, y, y, i);
    assert((y as u32) % 64 == y % 64) by (bit_vector);
}

proof fn lemma_signed32(x: u32, z: i32)
    by (bit_vector)
    ensures
        (x as i32) as int == signed32(x),
        signed32(z as u32) == z as int,
{
}

proof fn lemma_signed64(x: u64, z: i64)
    by (bit_vector)
    ensures
        (x as i64) as int == signed64(x),
        signed64(z as u64) == z as int,
{
}

/// Division and remainder of integers rounded toward zero: `q * d + m == a` where the remainder
/// `m` is smaller than `d` in magnitude and has the sign of `a` (or is zero).
pub open spec fn truncated_division(a: int, d: int, q: int, m: int) -> bool {
    &&& q * d + m == a
    &&& (if m < 0 { -m } else { m }) < (if d < 0 { -d } else { d })
    &&& m == 0 || (m < 0) == (a < 0)
}

spec fn trunc_quot(a: int, d: int) -> int {
    if a == 0 {
        0
    } else if a > 0 && d > 0 {
        a / d
    } else if a < 0 && d < 0 {
        (a * -1) / (d * -1)
    } else if a < 0 {
        ((a * -1) / d) * -1
    } else {
        (a / (d * -1)) * -1
    }
}

spec fn trunc_rem(a: int, d: int) -> int {
    if a == 0 {
        0
    } else if a > 0 && d > 0 {
        a % d
    } else if a < 0 && d < 0 {
        ((a * -1) % (d * -1)) * -1
    } else if a < 0 {
        ((a * -1) % d) * -1
    } else {
        a % (d * -1)
    }
}

#[verifier::spinoff_prover]
proof fn lemma_truncated_division(a: int, d: int)
    requires
        d != 0,
    ensures
        truncated_division(a, d, trunc_quot(a, d), trunc_rem(a, d)),
        (if trunc_quot(a, d) < 0 { -trunc_quot(a, d) } else { trunc_quot(a, d) }) <= (if a < 0 { -a } else { a }),
        (d == 1 || d == -1) ==> trunc_quot(a, d) == a * d && trunc_rem(a, d) == 0,
        !(d == 1 || d == -1) ==> (if trunc_quot(a, d) < 0 { -trunc_quot(a, d) } else { trunc_quot(a, d) }) * 2 <= (if a < 0 { -a } else { a }),
{
    let pa = if a < 0 { -a } else { a };
    let pd = if d < 0 { -d } else { d };
    vstd::arithmetic::div_mod::lemma_fundamental_div_mod(pa, pd);
    vstd::arithmetic::div_mod::lemma_mod_bound(pa, pd);
    let qq = pa / pd;
    let mm = pa % pd;
    assert(pa == pd * qq + mm);
    assert(qq >= 0) by (nonlinear_arith)
        requires pa >= 0, pd >= 1, pa == pd * qq + mm, 0 <= mm < pd;
    assert(qq <= pa) by (nonlinear_arith)
        requires pa >= 0, pd >= 1, pa == pd * qq + mm, 0 <= mm < pd, qq >= 0;
    assert(pd >= 2 ==> qq * 2 <= pa) by (nonlinear_arith)
        requires pa >= 0, pd >= 1, pa == pd * qq + mm, 0 <= mm < pd, qq >= 0;
    assert(pd == 1 ==> mm == 0 && qq == pa) by (nonlinear_arith)
        requires pa == pd * qq + mm, 0 <= mm < pd;
    if a < 0 && d > 0 {
        assert(trunc_quot(a, d) == -qq && trunc_rem(a, d) == -mm);
        assert(-qq * d == -(qq * pd)) by (nonlinear_arith)
            requires pd == d;
    } else if a < 0 && d < 0 {
        assert(trunc_quot(a, d) == qq && trunc_rem(a, d) == -mm);
        assert(qq * d == -(qq * pd)) by (nonlinear_arith)
            requires pd == d * -1;
    } else if a > 0 && d < 0 {
        assert(trunc_quot(a, d) == -qq && trunc_rem(a, d) == mm);
        assert(-qq * d == qq * pd) by (nonlinear_arith)
            requires pd == d * -1;
    } else if a > 0 && d > 0 {
        assert(trunc_quot(a, d) == qq && trunc_rem(a, d) == mm);
    } else {
        assert(trunc_quot(a, d) == 0 && trunc_rem(a, d) == 0);
    }
}

/// Arithmetic on 32-bit values: addition, subtraction and multiplication wrap around modulo
/// 2^32; division and remainder trap on a zero divisor and, signed, read the values as two's
/// complement integers and round toward zero (the signed division of the smallest value by -1,
/// which overflows, traps, and its remainder is 0); comparisons read the values as unsigned
/// numbers or, when signed, as two's complement integers; the test is whether the value is zero.
pub proof fn lemma_inum32(x: u32, y: u32)
    ensures
        IBinOp::Add.spec_n32(x, y) == Some(((x + y) % 0x1_0000_0000) as u32),
        IBinOp::Sub.spec_n32(x, y) == Some(((x - y) % 0x1_0000_0000) as u32),
        IBinOp::Mul.spec_n32(x, y) == Some(((x * y) % 0x1_0000_0000) as u32),
        y == 0 ==> IBinOp::Div(Sx::U).spec_n32(x, y) is None && IBinOp::Rem(Sx::U).spec_n32(x, y) is None,
        y != 0 ==> (IBinOp::Div(Sx::U).spec_n32(x, y) matches Some(q) && IBinOp::Rem(Sx::U).spec_n32(x, y)
            matches Some(m) && y * q + m == x && m < y),
        y == 0 ==> IBinOp::Div(Sx::S).spec_n32(x, y) is None && IBinOp::Rem(Sx::S).spec_n32(x, y) is None,
        signed32(x) == -0x8000_0000 && signed32(y) == -1 ==> IBinOp::Div(Sx::S).spec_n32(x, y) is None
            && IBinOp::Rem(Sx::S).spec_n32(x, y) == Some(0u32),
        y != 0 && !(signed32(x) == -0x8000_0000 && signed32(y) == -1) ==> (IBinOp::Div(Sx::S).spec_n32(x, y)
            matches Some(q) && IBinOp::Rem(Sx::S).spec_n32(x, y) matches Some(m) && truncated_division(
            signed32(x),
            signed32(y),
            signed32(q),
            signed32(m),
        )),
        ITestOp::Eqz.spec_n32(x) == (x == 0),
        IRelOp::Eq.spec_n32(x, y) == (x == y),
        IRelOp::Ne.spec_n32(x, y) == (x != y),
        IRelOp::Lt(Sx::U).spec_n32(x, y) == (x < y),
        IRelOp::Gt(Sx::U).spec_n32(x, y) == (x > y),
        IRelOp::Le(Sx::U).spec_n32(x, y) == (x <= y),
        IRelOp::Ge(Sx::U).spec_n32(x, y) == (x >= y),
        IRelOp::Lt(Sx::S).spec_n32(x, y) == (signed32(x) < signed32(y)),
        IRelOp::Gt(Sx::S).spec_n32(x, y) == (signed32(x) > signed32(y)),
        IRelOp::Le(Sx::S).spec_n32(x, y) == (signed32(x) <= signed32(y)),
        IRelOp::Ge(Sx::S).spec_n32(x, y) == (signed32(x) >= signed32(y)),
{
    lemma_signed32(x, 0);
    lemma_signed32(y, 0);
    let m: int = 0x1_0000_0000;
    if x >= y {
        vstd::arithmetic::div_mod::lemma_small_mod((x - y) as nat, m as nat);
    } else {
        vstd::arithmetic::div_mod::lemma_fundamental_div_mod_converse(x - y, m, -1, x - y + m);
    }
    if x + y < m {
        vstd::arithmetic::div_mod::lemma_small_mod((x + y) as nat, m as nat);
    } else {
        vstd::arithmetic::div_mod::lemma_fundamental_div_mod_converse(x + y, m, 1, x + y - m);
    }
    if y != 0 {
        vstd::arithmetic::div_mod::lemma_fundamental_div_mod(x as int, y as int);
        vstd::arithmetic::div_mod::lemma_mod_bound(x as int, y as int);
        let a = signed32(x);
        let d = signed32(y);
        if a == -0x8000_0000 && d == -1 {
            let xa = (x as i32) as int;
            let ya = (y as i32) as int;
            assert(xa * -1 == 0x8000_0000 && ya * -1 == 1);
            assert((xa * -1) / (ya * -1) == 0x8000_0000) by (nonlinear_arith)
                requires xa * -1 == 0x8000_0000, ya * -1 == 1;
            assert((x as i32).checked_div(y as i32) is None);
            assert((y as i32) == -1i32);
        } else {
            lemma_truncated_division(a, d);
            let qv = trunc_quot(a, d);
            let mv = trunc_rem(a, d);
            assert(-0x8000_0000 <= qv <= 0x7fff_ffff);
            assert(-0x8000_0000 <= mv <= 0x7fff_ffff);
            assert((x as i32).checked_div(y as i32) == Some(qv as i32));
            lemma_signed32(0, qv as i32);
            if d != -1 {
                assert((x as i32).checked_rem(y as i32) == Some(mv as i32));
                lemma_signed32(0, mv as i32);
            } else {
                lemma_signed32(0, 0i32);
            }
        }
    }
}

/// Arithmetic on 64-bit values: addition, subtraction and multiplication wrap around modulo
/// 2^64; division and remainder trap on a zero divisor and, signed, read the values as two's
/// complement integers and round toward zero (the signed division of the smallest value by -1,
/// which overflows, traps, and its remainder is 0); comparisons read the values as unsigned
/// numbers or, when signed, as two's complement integers; the test is whether the value is zero.
pub proof fn lemma_inum64(x: u64, y: u64)
    ensures
        IBinOp::Add.spec_n64(x, y) == Some(((x + y) % 0x1_0000_0000_0000_0000) as u64),
        IBinOp::Sub.spec_n64(x, y) == Some(((x - y) % 0x1_0000_0000_0000_0000) as u64),
        IBinOp::Mul.spec_n64(x, y) == Some(((x * y) % 0x1_0000_0000_0000_0000) as u64),
        y == 0 ==> IBinOp::Div(Sx::U).spec_n64(x, y) is None && IBinOp::Rem(Sx::U).spec_n64(x, y) is None,
        y != 0 ==> (IBinOp::Div(Sx::U).spec_n64(x, y) matches Some(q) && IBinOp::Rem(Sx::U).spec_n64(x, y)
            matches Some(m) && y * q + m == x && m < y),
        y == 0 ==> IBinOp::Div(Sx::S).spec_n64(x, y) is None && IBinOp::Rem(Sx::S).spec_n64(x, y) is None,
        signed64(x) == -0x8000_0000_0000_0000 && signed64(y) == -1 ==> IBinOp::Div(Sx::S).spec_n64(x, y) is None
            && IBinOp::Rem(Sx::S).spec_n64(x, y) == Some(0u64),
        y != 0 && !(signed64(x) == -0x8000_0000_0000_0000 && signed64(y) == -1) ==> (IBinOp::Div(Sx::S).spec_n64(x, y)
            matches Some(q) && IBinOp::Rem(Sx::S).spec_n64(x, y) matches Some(m) && truncated_division(
            signed64(x),
            signed64(y),
            signed64(q),
            signed64(m),
        )),
        ITestOp::Eqz.spec_n64(x) == (x == 0),
        IRelOp::Eq.spec_n64(x, y) == (x == y),
        IRelOp::Ne.spec_n64(x, y) == (x != y),
        IRelOp::Lt(Sx::U).spec_n64(x, y) == (x < y),
        IRelOp::Gt(Sx::U).spec_n64(x, y) == (x > y),
        IRelOp::Le(Sx::U).spec_n64(x, y) == (x <= y),
        IRelOp::Ge(Sx::U).spec_n64(x, y) == (x >= y),
        IRelOp::Lt(Sx::S).spec_n64(x, y) == (signed64(x) < signed64(y)),
        IRelOp::Gt(Sx::S).spec_n64(x, y) == (signed64(x) > signed64(y)),
        IRelOp::Le(Sx::S).spec_n64(x, y) == (signed64(x) <= signed64(y)),
        IRelOp::Ge(Sx::S).spec_n64(x, y) == (signed64(x) >= signed64(y)),
{
    lemma_signed64(x, 0);
    lemma_signed64(y, 0);
    let m: int = 0x1_0000_0000_0000_0000;
    if x >= y {
        vstd::arithmetic::div_mod::lemma_small_mod((x - y) as nat, m as nat);
    } else {
        vstd::arithmetic::div_mod::lemma_fundamental_div_mod_converse(x - y, m, -1, x - y + m);
    }
    if x + y < m {
        vstd::arithmetic::div_mod::lemma_small_mod((x + y) as nat, m as nat);
    } else {
        vstd::arithmetic::div_mod::lemma_fundamental_div_mod_converse(x + y, m, 1, x + y - m);
    }
    if y != 0 {
        vstd::arithmetic::div_mod::lemma_fundamental_div_mod(x as int, y as int);
        vstd::arithmetic::div_mod::lemma_mod_bound(x as int, y as int);
        let a = signed64(x);
        let d = signed64(y);
        if a == -0x8000_0000_0000_0000 && d == -1 {
            let xa = (x as i64) as int;
            let ya = (y as i64) as int;
            assert(xa * -1 == 0x8000_0000_0000_0000 && ya * -1 == 1);
            assert((xa * -1) / (ya * -1) == 0x8000_0000_0000_0000) by (nonlinear_arith)
                requires xa * -1 == 0x8000_0000_0000_0000, ya * -1 == 1;
            assert((x as i64).checked_div(y as i64) is None);
            assert((y as i64) == -1i64);
        } else {
            lemma_truncated_division(a, d);
            let qv = trunc_quot(a, d);
            let mv = trunc_rem(a, d);
            assert(-0x8000_0000_0000_0000 <= qv <= 0x7fff_ffff_ffff_ffff);
            assert(-0x8000_0000_0000_0000 <= mv <= 0x7fff_ffff_ffff_ffff);
            assert((x as i64).checked_div(y as i64) == Some(qv as i64));
            lemma_signed64(0, qv as i64);
            if d != -1 {
                assert((x as i64).checked_rem(y as i64) == Some(mv as i64));
                lemma_signed64(0, mv as i64);
            } else {
                lemma_signed64(0, 0i64);
            }
        }
    }
}

proof fn lemma_bit_and_one(x: u32, y: u64)
    by (bit_vector)
    ensures
        (x & 1 != 0) == (x & 1 == 1),
        (y & 1 != 0) == (y & 1 == 1),
{
}

/// Counting the zero bits of a 32-bit value: `clz` is the number of zero bits above its highest
/// set bit, `ctz` the number of zero bits below its lowest set bit (32 for zero).
pub proof fn lemma_iunop32(x: u32)
    ensures
        IUnOp::Clz.spec_n32(x) matches Some(c) && c <= 32 && (c == 32) == (x == 0) && (forall|j: u32|
            32 - c <= j < 32 ==> !#[trigger] bit32(x, j)) && (c < 32 ==> bit32(x, (31 - c) as u32)),
        IUnOp::Ctz.spec_n32(x) matches Some(c) && c <= 32 && (c == 32) == (x == 0) && (forall|j: u32|
            j < c ==> !#[trigger] bit32(x, j)) && (c < 32 ==> bit32(x, c)),
{
    vstd::std_specs::bits::axiom_u32_leading_zeros(x);
    vstd::std_specs::bits::axiom_u32_trailing_zeros(x);
    let c = u32_leading_zeros(x);
    if c < 32 {
        lemma_bit_and_one(x >> ((31 - c) as u32), 0);
    }
}

/// Counting the zero bits of a 64-bit value, as for 32-bit values (64 for zero).
pub proof fn lemma_iunop64(x: u64)
    ensures
        IUnOp::Clz.spec_n64(x) matches Some(c) && c <= 64 && (c == 64) == (x == 0) && (forall|j: u64|
            64 - c <= j < 64 ==> !#[trigger] bit64(x, j)) && (c < 64 ==> bit64(x, (63 - c) as u64)),
        IUnOp::Ctz.spec_n64(x) matches Some(c) && c <= 64 && (c == 64) == (x == 0) && (forall|j: u64|
            j < c ==> !#[trigger] bit64(x, j)) && (c < 64 ==> bit64(x, c)),
{
    vstd::std_specs::bits::axiom_u64_leading_zeros(x);
    vstd::std_specs::bits::axiom_u64_trailing_zeros(x);
    let c = u64_leading_zeros(x);
    if c < 64 {
        lemma_bit_and_one(0, x >> ((63 - c) as u64));
    }
}

/// Extending the low 8 or 16 bits of a 32-bit value with its sign gives those bits, with all the
/// bits above them copies of their highest bit.
pub proof fn lemma_sign_extend32(a: u32)
    by (bit_vector)
    ensures
        a % 0x100 < 0x80 ==> (a as i8 as u32) == a % 0x100,
        a % 0x100 >= 0x80 ==> (a as i8 as u32) == (a % 0x100) | 0xffff_ff00u32,
        a % 0x1_0000 < 0x8000 ==> (a as i16 as u32) == a % 0x1_0000,
        a % 0x1_0000 >= 0x8000 ==> (a as i16 as u32) == (a % 0x1_0000) | 0xffff_0000u32,
{
}

/// Extending the low 8, 16 or 32 bits of a 64-bit value with its sign gives those bits, with all
/// the bits above them copies of their highest bit.
pub proof fn lemma_sign_extend64(b: u64)
    by (bit_vector)
    ensures
        b % 0x100 < 0x80 ==> (b as i8 as u64) == b % 0x100,
        b % 0x100 >= 0x80 ==> (b as i8 as u64) == (b % 0x100) | 0xffff_ffff_ffff_ff00u64,
        b % 0x1_0000 < 0x8000 ==> (b as i16 as u64) == b % 0x1_0000,
        b % 0x1_0000 >= 0x8000 ==> (b as i16 as u64) == (b % 0x1_0000) | 0xffff_ffff_ffff_0000u64,
        b % 0x1_0000_0000 < 0x8000_0000 ==> (b as i32 as u64) == b % 0x1_0000_0000,
        b % 0x1_0000_0000 >= 0x8000_0000 ==> (b as i32 as u64) == (b % 0x1_0000_0000)
            | 0xffff_ffff_0000_0000u64,
{
}

/// Extending a 32-bit value to 64 bits, with zeros or with its sign, and wrapping a 64-bit value to
/// its low 32 bits.
pub proof fn lemma_extend_wrap(a: u32, b: u64)
    by (bit_vector)
    ensures
        a < 0x8000_0000 ==> (a as i32 as u64) == (a as u64),
        a >= 0x8000_0000 ==> (a as i32 as u64) == (a as u64) | 0xffff_ffff_0000_0000u64,
        (a as u64) < 0x1_0000_0000u64,
        (a as u64) as u32 == a,
        (b as u32) as u64 == b % 0x1_0000_0000,
{
}





/// The number of set bits among the low `k` bits of a 32-bit value.
pub open spec fn ones32(x: u32, k: nat) -> nat
    decreases k,
{
    if k == 0 {
        0
    } else {
        ones32(x, (k - 1) as nat) + if bit32(x, (k - 1) as u32) {
            1nat
        } else {
            0nat
        }
    }
}

proof fn lemma_bit_half32(x: u32, i: u32)
    by (bit_vector)
    requires
        i < 31,
    ensures
        bit32(x, (i + 1) as u32) == bit32(x / 2, i),
        bit32(x, 0) == (x % 2 == 1),
        !bit32(0, i),
{
}

proof fn lemma_ones32_half(x: u32, k: nat)
    requires
        k <= 31,
    ensures
        ones32(x, k + 1) == x % 2 + ones32(x / 2, k),
    decreases k,
{
    lemma_bit_half32(x, 0);
    assert(ones32(x, k + 1) == ones32(x, k) + if bit32(x, k as u32) {
        1nat
    } else {
        0nat
    });
    if k > 0 {
        lemma_ones32_half(x, (k - 1) as nat);
        lemma_bit_half32(x, (k - 1) as u32);
        assert(((k - 1) as u32 + 1) as u32 == k as u32);
        assert(bit32(x, k as u32) == bit32(x / 2, (k - 1) as u32));
        assert(ones32(x / 2, k) == ones32(x / 2, (k - 1) as nat) + if bit32(x / 2, (k - 1) as u32) {
            1nat
        } else {
            0nat
        });
    } else {
        assert(ones32(x / 2, 0) == 0);
    }
}

proof fn lemma_ones32_zero(k: nat)
    requires
        k <= 32,
    ensures
        ones32(0, k) == 0,
    decreases k,
{
    if k > 0 {
        lemma_ones32_zero((k - 1) as nat);
        if k - 1 < 31 {
            lemma_bit_half32(0, (k - 1) as u32);
        } else {
            lemma_bit_half32(0, 0);
            assert(!bit32(0, 31)) by (bit_vector);
        }
    }
}

proof fn lemma_popcount_ones(x: u32, k: nat)
    requires
        k <= 32,
        (x as int) < vstd::arithmetic::power2::pow2(k) as int,
    ensures
        crate::bit_field::popcount(x) == ones32(x, k),
    decreases k,
{
    if x == 0 {
        lemma_ones32_zero(k);
    } else if k == 0 {
        vstd::arithmetic::power2::lemma2_to64();
    } else {
        vstd::arithmetic::power2::lemma_pow2_unfold(k);
        lemma_popcount_ones(x / 2, (k - 1) as nat);
        lemma_ones32_half(x, (k - 1) as nat);
    }
}

/// Counting the set bits of a 32-bit value: `popcnt` is the number of its bits that are set.
pub proof fn lemma_popcnt32(x: u32)
    ensures
        IUnOp::PopCnt.spec_n32(x) == Some(ones32(x, 32) as u32),
{
    vstd::arithmetic::power2::lemma2_to64();
    lemma_popcount_ones(x, 32);
}

/// The number of set bits among the low `k` bits of a 64-bit value.
pub open spec fn ones64(x: u64, k: nat) -> nat
    decreases k,
{
    if k == 0 {
        0
    } else {
        ones64(x, (k - 1) as nat) + if bit64(x, (k - 1) as u64) {
            1nat
        } else {
            0nat
        }
    }
}

proof fn lemma_bit_half64(x: u64, i: u64)
    by (bit_vector)
    requires
        i < 63,
    ensures
        bit64(x, (i + 1) as u64) == bit64(x / 2, i),
        bit64(x, 0) == (x % 2 == 1),
        !bit64(0, i),
        !bit64(0, 63),
{
}

proof fn lemma_ones64_half(x: u64, k: nat)
    requires
        k <= 63,
    ensures
        ones64(x, k + 1) == x % 2 + ones64(x / 2, k),
    decreases k,
{
    lemma_bit_half64(x, 0);
    assert(ones64(x, k + 1) == ones64(x, k) + if bit64(x, k as u64) {
        1nat
    } else {
        0nat
    });
    if k > 0 {
        lemma_ones64_half(x, (k - 1) as nat);
        lemma_bit_half64(x, (k - 1) as u64);
        assert(((k - 1) as u64 + 1) as u64 == k as u64);
        assert(bit64(x, k as u64) == bit64(x / 2, (k - 1) as u64));
        assert(ones64(x / 2, k) == ones64(x / 2, (k - 1) as nat) + if bit64(x / 2, (k - 1) as u64) {
            1nat
        } else {
            0nat
        });
    } else {
        assert(ones64(x / 2, 0) == 0);
    }
}

proof fn lemma_ones64_zero(k: nat)
    requires
        k <= 64,
    ensures
        ones64(0, k) == 0,
    decreases k,
{
    if k > 0 {
        lemma_ones64_zero((k - 1) as nat);
        if k - 1 < 63 {
            lemma_bit_half64(0, (k - 1) as u64);
        } else {
            lemma_bit_half64(0, 0);
        }
    }
}

proof fn lemma_popcount64_ones(x: u64, k: nat)
    requires
        k <= 64,
        (x as int) < vstd::arithmetic::power2::pow2(k) as int,
    ensures
        popcount64(x) == ones64(x, k),
    decreases k,
{
    if x == 0 {
        lemma_ones64_zero(k);
    } else if k == 0 {
        vstd::arithmetic::power2::lemma2_to64();
    } else {
        vstd::arithmetic::power2::lemma_pow2_unfold(k);
        lemma_popcount64_ones(x / 2, (k - 1) as nat);
        lemma_ones64_half(x, (k - 1) as nat);
    }
}

/// Counting the set bits of a 64-bit value: `popcnt` is the number of its bits that are set.
pub proof fn lemma_popcnt64(x: u64)
    ensures
        IUnOp::PopCnt.spec_n64(x) == Some(ones64(x, 64) as u64),
{
    vstd::arithmetic::power2::lemma2_to64();
    lemma_popcount64_ones(x, 64);
}

/// Setting the bits above the low byte of a byte value adds them to it.
pub proof fn lemma_or_high_bits(c: u32, d: u64)
    by (bit_vector)
    requires
        c < 0x100,
        d < 0x100,
    ensures
        c | 0xffff_ff00u32 == (c + 0xffff_ff00u32) as u32,
        d | 0xffff_ffff_ffff_ff00u64 == (d + 0xffff_ffff_ffff_ff00u64) as u64,
{
}

} // verus!
