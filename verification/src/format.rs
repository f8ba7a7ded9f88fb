//! Encoding of LEB128 integers and of sections of the WebAssembly binary format.
use vstd::arithmetic::power2::{lemma2_to64, lemma_pow2_adds, lemma_pow2_pos, pow2};
use vstd::prelude::*;
use vstd::string::StringSliceAdditionalSpecFns;

use crate::parser::{leb_end, leb_groups, lemma_leb_end, low7, spec_u32};

verus! {

/// The unsigned LEB128 encoding of `x`: 7 bits per byte, least significant first, with the high
/// bit set on all bytes but the last.
pub open spec fn spec_leb128_encode(x: nat) -> Seq<u8>
    decreases x,
{
    if x < 128 {
        seq![x as u8]
    } else {
        seq![(0x80 + x % 128) as u8] + spec_leb128_encode(x / 128)
    }
}

/// Appends the LEB128 encoding of `x`.
pub fn leb128(wasm: &mut Vec<u8>, x: usize)
    requires
        x <= u32::MAX,
    ensures
        final(wasm)@ == old(wasm)@ + spec_leb128_encode(x as nat),
{
    let mut x = x;
    let ghost start = old(wasm)@;
    let ghost orig = x as nat;
    while x > 127
        invariant
            start + spec_leb128_encode(orig) == wasm@ + spec_leb128_encode(x as nat),
        decreases x,
    {
        let low = x & 0x7f;
        assert(low == x % 128) by (bit_vector)
            requires
                low == x & 0x7f,
        ;
        assert(x >> 7 == x / 128) by (bit_vector);
        let ghost before = wasm@;
        assert((0x80 | low) == 0x80 + low) by (bit_vector)
            requires
                low < 128,
        ;
        wasm.push((0x80 | low) as u8);
        proof {
            assert(spec_leb128_encode(x as nat) == seq![(0x80 + x % 128) as u8]
                + spec_leb128_encode((x / 128) as nat));
            assert(before + spec_leb128_encode(x as nat) =~= wasm@ + spec_leb128_encode(
                (x / 128) as nat,
            ));
        }
        x = x >> 7;
    }
    wasm.push(x as u8);
    proof {
        assert(spec_leb128_encode(x as nat) == seq![x as u8]);
    }
}

/// The encoding of a section: its identifier, its size, the length of its name, its name and its
/// content. The size assumes that the length of the name takes one byte.
pub open spec fn spec_section(id: u8, content: Seq<u8>, name: Seq<u8>) -> Seq<u8> {
    seq![id] + spec_leb128_encode((1 + name.len() + content.len()) as nat) + spec_leb128_encode(
        name.len(),
    ) + name + content
}

/// Appends a section with the given identifier, name and content.
pub fn section(wasm: &mut Vec<u8>, id: u8, content: &[u8], name: &str)
    requires
        id <= 12,
        1 + name.spec_bytes().len() + content@.len() <= u32::MAX,
    ensures
        final(wasm)@ == old(wasm)@ + spec_section(id, content@, name.spec_bytes()),
{
    wasm.push(id);
    let name_bytes = name.as_bytes();
    leb128(wasm, 1 + name_bytes.len() + content.len());
    leb128(wasm, name_bytes.len());
    append(wasm, name_bytes);
    append(wasm, content);
    proof {
        assert(final(wasm)@ =~= old(wasm)@ + spec_section(id, content@, name.spec_bytes()));
    }
}

/// Appends bytes.
pub fn append(wasm: &mut Vec<u8>, bytes: &[u8])
    ensures
        final(wasm)@ == old(wasm)@ + bytes@,
{
    let mut i: usize = 0;
    while i < bytes.len()
        invariant
            i <= bytes@.len(),
            wasm@ == old(wasm)@ + bytes@.take(i as int),
        decreases bytes@.len() - i,
    {
        wasm.push(bytes[i]);
        i = i + 1;
        proof {
            assert(wasm@ =~= old(wasm)@ + bytes@.take(i as int));
        }
    }
    proof {
        assert(bytes@.take(i as int) =~= bytes@);
    }
}

proof fn lemma_leb_groups_cons(b: u8, t: Seq<u8>)
    ensures
        leb_groups(seq![b] + t) == low7(b) + 128 * leb_groups(t),
    decreases t.len(),
{
    let s = seq![b] + t;
    lemma2_to64();
    if t.len() == 0 {
        assert(s.drop_last() =~= Seq::<u8>::empty());
        assert(leb_groups(s) == leb_groups(s.drop_last()) + low7(s.last()) * pow2(0));
        assert(leb_groups(s.drop_last()) == 0);
    } else {
        assert(s.drop_last() =~= seq![b] + t.drop_last());
        lemma_leb_groups_cons(b, t.drop_last());
        let k = (7 * (t.len() - 1)) as nat;
        lemma_pow2_adds(k, 7);
        assert((7 * (s.len() - 1)) as nat == k + 7);
        let p = pow2(k) as int;
        let l = low7(t.last());
        let g = leb_groups(t.drop_last());
        assert(s.last() == t.last());
        assert(leb_groups(s) == leb_groups(s.drop_last()) + l * pow2(k + 7));
        assert(leb_groups(t) == g + l * p);
        assert(pow2(k + 7) == p * 128);
        assert(128 * g + l * (p * 128) == 128 * (g + l * p)) by (nonlinear_arith);
    }
}

/// The encoding has its continuation bits set on all bytes but the last, and holds the value.
proof fn lemma_encode(x: nat)
    ensures
        spec_leb128_encode(x).len() >= 1,
        forall|i: int|
            0 <= i < spec_leb128_encode(x).len() - 1 ==> #[trigger] spec_leb128_encode(x)[i]
                >= 0x80,
        spec_leb128_encode(x).last() < 0x80,
        leb_groups(spec_leb128_encode(x)) == x,
    decreases x,
{
    lemma2_to64();
    let e = spec_leb128_encode(x);
    if x < 128 {
        assert(e.drop_last() =~= Seq::<u8>::empty());
        assert(leb_groups(e) == leb_groups(e.drop_last()) + low7(e.last()) * pow2(0));
    } else {
        let t = spec_leb128_encode(x / 128);
        lemma_encode(x / 128);
        assert forall|i: int| 0 <= i < e.len() - 1 implies #[trigger] e[i] >= 0x80 by {
            if i > 0 {
                assert(e[i] == t[i - 1]);
            }
        }
        let b = (0x80 + x % 128) as u8;
        assert(e == seq![b] + t);
        lemma_leb_groups_cons(b, t);
        assert(low7(b) == x % 128);
        assert(x == x % 128 + 128 * (x / 128));
    }
}

/// Encodings of numbers below `2^(7k)` take at most `k` bytes.
proof fn lemma_encode_len(x: nat, k: nat)
    requires
        k >= 1,
        x < pow2(7 * k),
    ensures
        spec_leb128_encode(x).len() <= k,
    decreases k,
{
    lemma2_to64();
    if x >= 128 {
        if k == 1 {
            assert(false);
        } else {
            lemma_pow2_adds((7 * (k - 1)) as nat, 7);
            assert((7 * k) as nat == (7 * (k - 1)) as nat + 7);
            lemma_pow2_pos((7 * (k - 1)) as nat);
            assert(x / 128 < pow2((7 * (k - 1)) as nat)) by (nonlinear_arith)
                requires
                    x < pow2((7 * (k - 1)) as nat) * 128,
            ;
            lemma_encode_len(x / 128, (k - 1) as nat);
        }
    }
}

/// Decoding the LEB128 encoding of a 32-bit number gives it back, whatever follows.
pub proof fn lemma_leb128_round_trip(x: u32, rest: Seq<u8>)
    ensures
        spec_u32(spec_leb128_encode(x as nat) + rest) == Ok::<(u32, nat), crate::error::Error>(
            (x, spec_leb128_encode(x as nat).len()),
        ),
{
    let e = spec_leb128_encode(x as nat);
    let s = e + rest;
    let n = e.len();
    lemma_encode(x as nat);
    lemma2_to64();
    vstd::arithmetic::power2::lemma_pow2_strictly_increases(32, 35);
    lemma_encode_len(x as nat, 5);
    assert forall|i: int| 0 <= i < n - 1 implies s[i] >= 0x80 by {
        assert(s[i] == e[i]);
    }
    lemma_leb_end(s, (n - 1) as nat);
    assert(leb_end(s) == Some(n));
    assert(s.take(n - 1) =~= e.drop_last());
    assert(s[n - 1] == e.last());
    assert(low7(e.last()) == e.last());
}

} // verus!
