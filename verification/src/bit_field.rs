//! Packing of small integers into bit fields of a 32-bit word.
use vstd::prelude::*;
use vstd::std_specs::bits::u32_trailing_zeros;

use crate::error::{unsupported, Error, Unsupported};

verus! {

/// Number of set bits of `x`.
pub open spec fn popcount(x: u32) -> nat
    decreases x,
{
    if x == 0 {
        0
    } else {
        (x % 2) as nat + popcount(x / 2)
    }
}

/// The value stored in the bits of `field` selected by `mask`, shifted down to bit 0.
pub open spec fn spec_from_field(mask: u32, field: u32) -> u32 {
    (field & mask) >> u32_trailing_zeros(mask)
}

/// The bits of `value` shifted to the lowest bit of `mask` and restricted to `mask`.
pub open spec fn spec_field_of(mask: u32, value: u32) -> u32 {
    (value << u32_trailing_zeros(mask)) & mask
}

/// Whether `value` is stored without loss in the field described by `mask`.
pub open spec fn fits_field(mask: u32, value: u32) -> bool {
    spec_from_field(mask, spec_field_of(mask, value)) == value
}

/// The bias of the signed encoding: half the range of the field.
pub open spec fn spec_offset(mask: u32) -> i32 {
    1i32 << ((popcount(mask) - 1) as u32)
}

pub open spec fn spec_into_field(mask: u32, value: u32) -> Result<u32, Error> {
    if fits_field(mask, value) {
        Ok(spec_field_of(mask, value))
    } else {
        Err(Error::Unsupported(Unsupported::SideTable))
    }
}

pub open spec fn spec_into_signed_field(mask: u32, value: i32) -> Result<u32, Error> {
    spec_into_field(mask, value.wrapping_add(spec_offset(mask)) as u32)
}

proof fn lemma_popcount_bound(x: u32)
    ensures
        popcount(x) <= 32,
        x != 0 ==> popcount(x) >= 1,
{
    vstd::arithmetic::power2::lemma2_to64();
    lemma_popcount_bound_aux(x, 32);
}

proof fn lemma_popcount_bound_aux(x: u32, k: nat)
    requires
        (x as int) < vstd::arithmetic::power2::pow2(k) as int,
    ensures
        popcount(x) <= k,
        x != 0 ==> popcount(x) >= 1,
    decreases x,
{
    if x != 0 {
        if k == 0 {
            vstd::arithmetic::power2::lemma2_to64();
        } else {
            vstd::arithmetic::power2::lemma_pow2_unfold(k);
            lemma_popcount_bound_aux(x / 2, (k - 1) as nat);
        }
    }
}

/// Counts the set bits of `x`.
fn count_ones(x: u32) -> (r: u32)
    ensures
        r == popcount(x),
{
    let mut y = x;
    let mut r: u32 = 0;
    proof {
        lemma_popcount_bound(x);
    }
    while y != 0
        invariant
            r + popcount(y) == popcount(x),
            popcount(x) <= 32,
        decreases y,
    {
        r = r + y % 2;
        y = y / 2;
    }
    r
}

fn offset(mask: u32) -> (r: i32)
    requires
        mask != 0,
    ensures
        r == spec_offset(mask),
{
    proof {
        lemma_popcount_bound(mask);
    }
    let c = count_ones(mask);
    1i32 << (c - 1)
}

/// Encodes a signed value in the bits of `mask`, biased by half the range of the field.
pub fn into_signed_field(mask: u32, value: i32) -> (r: Result<u32, Error>)
    requires
        mask != 0,
    ensures
        r == spec_into_signed_field(mask, value),
{
    into_field(mask, value.wrapping_add(offset(mask)) as u32)
}

/// Decodes a signed value from the bits of `mask` (inverse of [`into_signed_field`]).
pub fn from_signed_field(mask: u32, field: u32) -> (r: i32)
    requires
        mask != 0,
        i32::MIN <= spec_from_field(mask, field) as i32 - spec_offset(mask) <= i32::MAX,
    ensures
        r == spec_from_field(mask, field) as i32 - spec_offset(mask),
{
    from_field(mask, field) as i32 - offset(mask)
}

/// Encodes `value` in the bits of `mask`, failing when it does not fit.
pub fn into_field(mask: u32, value: u32) -> (r: Result<u32, Error>)
    requires
        mask != 0,
    ensures
        r == spec_into_field(mask, value),
{
    proof {
        vstd::std_specs::bits::axiom_u32_trailing_zeros(mask);
    }
    let field = (value << mask.trailing_zeros()) & mask;
    if from_field(mask, field) != value {
        return Err(unsupported(Unsupported::SideTable));
    }
    Ok(field)
}

/// Decodes the value stored in the bits of `mask`.
pub fn from_field(mask: u32, field: u32) -> (r: u32)
    requires
        mask != 0,
    ensures
        r == spec_from_field(mask, field),
{
    proof {
        vstd::std_specs::bits::axiom_u32_trailing_zeros(mask);
    }
    (field & mask) >> mask.trailing_zeros()
}

/// Decoding a field gives back the value that was encoded in it.
pub proof fn lemma_field_round_trip(mask: u32, value: u32)
    requires
        mask != 0,
        spec_into_field(mask, value) is Ok,
    ensures
        spec_from_field(mask, spec_into_field(mask, value)->Ok_0) == value,
{
}

/// Decoding a signed field gives back the signed value that was encoded in it.
pub proof fn lemma_signed_field_round_trip(mask: u32, value: i32)
    requires
        mask != 0,
        spec_into_signed_field(mask, value) is Ok,
        i32::MIN <= value + spec_offset(mask) <= i32::MAX,
    ensures
        ({
            let f = spec_into_signed_field(mask, value)->Ok_0;
            &&& i32::MIN <= spec_from_field(mask, f) as i32 - spec_offset(mask) <= i32::MAX
            &&& spec_from_field(mask, f) as i32 - spec_offset(mask) == value
        }),
{
    let off = spec_offset(mask);
    let w = value.wrapping_add(off);
    assert(w == value + off);
    assert((w as u32) as i32 == w) by (bit_vector);
}

/// The mask made of `width` consecutive bits starting at bit `shift`.
pub open spec fn contiguous_mask(width: u32, shift: u32) -> u32 {
    (((1u32 << width) - 1) as u32) << shift
}

proof fn lemma_contiguous_trailing_zeros(width: u32, shift: u32)
    requires
        1 <= width < 32,
        shift + width <= 32,
    ensures
        u32_trailing_zeros(contiguous_mask(width, shift)) == shift,
{
    let mask = contiguous_mask(width, shift);
    vstd::std_specs::bits::axiom_u32_trailing_zeros(mask);
    let tz = u32_trailing_zeros(mask);
    assert(mask != 0) by (bit_vector)
        requires
            mask == (((1u32 << width) - 1) as u32) << shift,
            1 <= width < 32,
            shift + width <= 32,
    ;
    if tz < shift {
        assert((mask >> tz) & 1u32 == 0u32) by (bit_vector)
            requires
                mask == (((1u32 << width) - 1) as u32) << shift,
                tz < shift,
                1 <= width < 32,
                shift + width <= 32,
        ;
    } else if tz > shift {
        assert((mask >> shift) & 1u32 == 1u32) by (bit_vector)
            requires
                mask == (((1u32 << width) - 1) as u32) << shift,
                1 <= width < 32,
                shift + width <= 32,
        ;
        assert((mask >> shift) & 1u32 == 0u32);
    }
}

/// With a mask of `width` consecutive bits, exactly the values below `2^width` can be encoded.
pub proof fn lemma_contiguous_fits(width: u32, shift: u32, value: u32)
    requires
        1 <= width < 32,
        shift + width <= 32,
    ensures
        spec_into_field(contiguous_mask(width, shift), value) is Ok <==> value < (1u32 << width),
{
    lemma_contiguous_trailing_zeros(width, shift);
    let mask = contiguous_mask(width, shift);
    assert(((((value << shift) & mask) & mask) >> shift == value) <==> value < (1u32 << width))
        by (bit_vector)
        requires
            mask == (((1u32 << width) - 1) as u32) << shift,
            1 <= width < 32,
            shift + width <= 32,
    ;
}

} // verus!
