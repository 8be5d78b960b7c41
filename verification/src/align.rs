//! Rounding offsets up to an alignment, in arithmetic and by masking bits.

use vstd::prelude::*;

use vstd::arithmetic::div_mod::{lemma_fundamental_div_mod, lemma_mod_multiples_basic};
use vstd::arithmetic::power::pow;
use vstd::arithmetic::power2::{
    is_pow2, is_pow2_equiv, lemma2_to64, lemma_pow2, lemma_pow2_pos,
    lemma_pow2_strictly_increases,
};
use vstd::bits::lemma_usize_low_bits_mask_is_mod;

verus! {

/// The least multiple of `align` that is not below `offset`.
pub open spec fn align_up(offset: int, align: int) -> int {
    ((offset + align - 1) / align) * align
}

/// Rounding up yields a multiple of the alignment, the least one at or above the offset.
pub proof fn lemma_align_up(offset: int, align: int)
    requires
        0 <= offset,
        0 < align,
    ensures
        align_up(offset, align) % align == 0,
        offset <= align_up(offset, align) < offset + align,
        forall|m: int| #[trigger] (m % align) == 0 && offset <= m ==> align_up(offset, align) <= m,
{
    let y = offset + align - 1;
    lemma_fundamental_div_mod(y, align);
    lemma_mod_multiples_basic(y / align, align);
    assert(align * (y / align) == (y / align) * align) by (nonlinear_arith);
    assert forall|m: int| #[trigger] (m % align) == 0 && offset <= m implies align_up(
        offset,
        align,
    ) <= m by {
        lemma_fundamental_div_mod(m, align);
        let q = m / align;
        if q < y / align {
            assert(align * q <= align * (y / align) - align) by (nonlinear_arith)
                requires
                    q + 1 <= y / align,
                    0 < align,
            ;
        } else {
            assert(align * q >= align * (y / align)) by (nonlinear_arith)
                requires
                    q >= y / align,
                    0 < align,
            ;
        }
    }
}

/// An offset that is a multiple of the alignment is its own rounding.
pub proof fn lemma_align_up_of_aligned(offset: int, align: int)
    requires
        0 <= offset,
        0 < align,
        offset % align == 0,
    ensures
        align_up(offset, align) == offset,
{
    lemma_align_up(offset, align);
}

/// Zero is a multiple of every alignment.
pub proof fn lemma_zero_is_aligned(align: int)
    requires
        0 < align,
    ensures
        0int % align == 0,
{
}

/// A power of two is at least 1.
pub proof fn lemma_power_of_two_is_positive(align: int)
    requires
        is_pow2(align),
    ensures
        align >= 1,
{
    is_pow2_equiv(align);
    let k: nat = choose|k: nat| pow(2, k) == align;
    lemma_pow2(k);
    lemma_pow2_pos(k);
}

/// For a power-of-two alignment, masking the low bits of `cursor + align - 1` away rounds
/// `cursor` up to the alignment.
pub proof fn lemma_mask_rounds_up(cursor: usize, align: usize)
    requires
        is_pow2(align as int),
        cursor + align - 1 <= usize::MAX,
    ensures
        align >= 1,
        (((cursor + (align - 1)) as usize) & !((align - 1) as usize)) == align_up(
            cursor as int,
            align as int,
        ),
{
    is_pow2_equiv(align as int);
    let k: nat = choose|k: nat| pow(2, k) == align as int;
    lemma_pow2_pos(k);
    assert(k < usize::BITS) by {
        if k >= usize::BITS {
            lemma2_to64();
            if k > usize::BITS {
                lemma_pow2_strictly_increases(usize::BITS as nat, k);
            }
        }
    }
    let mask = (align - 1) as usize;
    let y = (cursor + mask) as usize;
    lemma_usize_low_bits_mask_is_mod(y, k);
    assert(y & !mask == y - (y & mask)) by (bit_vector);
    lemma_fundamental_div_mod(y as int, align as int);
    assert(align as int * (y as int / align as int) == (y as int / align as int) * align as int)
        by (nonlinear_arith);
}

} // verus!
