//! Offset geometry: alignment, padding and the translation of big-endian
//! field offsets into physical offsets.

use vstd::arithmetic::div_mod::{lemma_fundamental_div_mod, lemma_fundamental_div_mod_converse};
use vstd::arithmetic::power2::{
    lemma2_to64, lemma_pow2_adds, lemma_pow2_pos, lemma_pow2_strictly_increases, pow2,
};
use vstd::bits::{lemma_u64_low_bits_mask_is_mod, low_bits_mask};
use vstd::prelude::*;

verus! {

/// Whether `align` is a power of two.
pub open spec fn is_power_of_two(align: usize) -> bool {
    exists|e: nat| align == pow2(e)
}

/// Whether `m` is a multiple of `align`.
pub open spec fn is_multiple_of(m: int, align: int) -> bool {
    m % align == 0
}

/// Bytes to add to `offset` to reach the next multiple of `align`.
pub open spec fn padding_spec(offset: usize, align: usize) -> int {
    (align - offset % align) % (align as int)
}

/// Smallest multiple of `align` that is not below `offset`.
pub open spec fn aligned_spec(offset: usize, align: usize) -> int {
    offset + padding_spec(offset, align)
}

/// Physical offset of a word of `word_size` bytes whose big-endian offset is
/// `offset`, in a buffer of the given byte order and swap window.
pub open spec fn at_spec(offset: usize, word_size: usize, is_be: bool, swap_size: usize) -> usize {
    if is_be || swap_size < word_size {
        offset
    } else {
        offset ^ ((swap_size - word_size) as usize)
    }
}

/// Masking with `align - 1` takes the remainder by `align`.
proof fn lemma_mask_is_remainder(x: usize, align: usize)
    requires
        is_power_of_two(align),
    ensures
        align > 0,
        x & ((align - 1) as usize) == x % align,
{
    let e = choose|e: nat| align == pow2(e);
    lemma2_to64();
    lemma_pow2_pos(e);
    if e > 64 {
        lemma_pow2_strictly_increases(64, e);
    }
    assert(e < 64);
    lemma_u64_low_bits_mask_is_mod(x as u64, e);
    assert(low_bits_mask(e) as u64 == (align - 1) as usize);
    assert(pow2(e) as u64 == align);
}

/// The number of values of a machine word is a multiple of `align`.
proof fn lemma_word_range_is_multiple(align: usize) -> (k: int)
    requires
        is_power_of_two(align),
    ensures
        k > 0,
        usize::MAX + 1 == k * align,
{
    let e = choose|e: nat| align == pow2(e);
    lemma2_to64();
    lemma_pow2_pos(e);
    let bits: nat = if usize::MAX == 0xffff_ffff { 32 } else { 64 };
    assert(usize::MAX + 1 == pow2(bits));
    if e >= bits {
        if e > bits {
            lemma_pow2_strictly_increases(bits, e);
        }
        assert(false);
    }
    let rest = (bits - e) as nat;
    lemma_pow2_adds(rest, e);
    assert(rest + e == bits);
    let k = pow2(rest) as int;
    assert(k * align == pow2(bits));
    assert(k > 0) by (nonlinear_arith)
        requires
            k >= 0,
            align > 0,
            k * align > 0,
    ;
    k
}

/// What is left of a multiple of `align` after taking `offset` away has the
/// remainder that pads `offset`.
proof fn lemma_remainder_of_negation(offset: int, align: int, k: int)
    requires
        align > 0,
        offset >= 0,
    ensures
        (k * align - offset) % align == (align - offset % align) % align,
{
    let q = offset / align;
    let r = offset % align;
    lemma_fundamental_div_mod(offset, align);
    assert(offset == align * q + r);
    if r == 0 {
        assert(k * align - offset == (k - q) * align + 0) by (nonlinear_arith)
            requires
                offset == align * q,
        ;
        lemma_fundamental_div_mod_converse(k * align - offset, align, k - q, 0);
        lemma_fundamental_div_mod_converse(align, align, 1, 0);
    } else {
        assert(k * align - offset == (k - q - 1) * align + (align - r)) by (nonlinear_arith)
            requires
                offset == align * q + r,
        ;
        lemma_fundamental_div_mod_converse(k * align - offset, align, k - q - 1, align - r);
        lemma_fundamental_div_mod_converse(align - r, align, 0, align - r);
    }
}

/// Where the aligned offset fits into a machine word, so does
/// `offset + align - 1`.
proof fn lemma_round_up_fits(offset: usize, align: usize)
    requires
        is_power_of_two(align),
        aligned_spec(offset, align) <= usize::MAX,
    ensures
        offset + align - 1 <= usize::MAX,
{
    let k = lemma_word_range_is_multiple(align);
    lemma_padding_aligns(offset, align);
    let a = align as int;
    let end = aligned_spec(offset, align);
    let j = end / a;
    lemma_fundamental_div_mod(end, a);
    assert(end == a * j);
    assert(j < k) by (nonlinear_arith)
        requires
            a > 0,
            a * j < k * a,
    ;
    assert(a * j + a <= k * a) by (nonlinear_arith)
        requires
            a > 0,
            j + 1 <= k,
    ;
}

/// Masking with the two's complement of `align` clears what masking with
/// `align - 1` keeps.
proof fn lemma_clear_low_bits(x: usize, align: usize, neg: usize)
    requires
        align > 0,
        neg == usize::MAX + 1 - align,
    ensures
        x & neg == x - (x & ((align - 1) as usize)),
{
    let m = (align - 1) as usize;
    if usize::MAX == 0xffff_ffff {
        let (x, m, neg) = (x as u32, m as u32, neg as u32);
        assert(x & neg == x - (x & m)) by (bit_vector)
            requires
                neg == 0xffff_ffffu32 - m,
        ;
    } else {
        let (x, m, neg) = (x as u64, m as u64, neg as u64);
        assert(x & neg == x - (x & m)) by (bit_vector)
            requires
                neg == 0xffff_ffff_ffff_ffffu64 - m,
        ;
    }
}

/// Rounding `offset + align - 1` down to a multiple of `align` rounds
/// `offset` up to one.
proof fn lemma_round_down(offset: int, align: int)
    requires
        align > 0,
        offset >= 0,
    ensures
        (offset + align - 1) - (offset + align - 1) % align == offset + (align - offset % align)
            % align,
{
    let q = offset / align;
    let r = offset % align;
    lemma_fundamental_div_mod(offset, align);
    if r == 0 {
        assert(offset + align - 1 == q * align + (align - 1)) by (nonlinear_arith)
            requires
                offset == align * q,
        ;
        lemma_fundamental_div_mod_converse(offset + align - 1, align, q, align - 1);
        lemma_fundamental_div_mod_converse(align, align, 1, 0);
    } else {
        assert(offset + align - 1 == (q + 1) * align + (r - 1)) by (nonlinear_arith)
            requires
                offset == align * q + r,
        ;
        lemma_fundamental_div_mod_converse(offset + align - 1, align, q + 1, r - 1);
        lemma_fundamental_div_mod_converse(align - r, align, 0, align - r);
    }
}

/// Calculates the padding of `offset` up to the next multiple of `align`.
///
/// Relies on the two's complement of `offset` in place of a branch or a
/// modulo, which is why `align` has to be a power of two.
pub fn padding(offset: usize, align: usize) -> (pad: usize)
    requires
        is_power_of_two(align),
    ensures
        pad == padding_spec(offset, align),
        pad < align,
        is_multiple_of(offset + pad, align as int),
{
    proof {
        lemma_mask_is_remainder(offset, align);
        lemma_padding_aligns(offset, align);
    }
    let neg: usize = 0usize.wrapping_sub(offset);
    let pad: usize = neg & (align - 1);
    proof {
        let k = lemma_word_range_is_multiple(align);
        lemma_mask_is_remainder(neg, align);
        if offset == 0 {
            lemma_remainder_of_negation(0, align as int, 0);
        } else {
            lemma_remainder_of_negation(offset as int, align as int, k);
        }
    }
    pad
}

/// Calculates the smallest multiple of `align` that is not below `offset`.
///
/// Relies on the two's complement of `align` in place of a branch or a
/// modulo, which is why `align` has to be a power of two. The result has to
/// fit into a machine word.
pub fn aligned(offset: usize, align: usize) -> (end: usize)
    requires
        is_power_of_two(align),
        aligned_spec(offset, align) <= usize::MAX,
    ensures
        end == aligned_spec(offset, align),
        end == offset + padding_spec(offset, align),
        end >= offset,
        is_multiple_of(end as int, align as int),
        forall|m: int| m >= offset && #[trigger] is_multiple_of(m, align as int) ==> m >= end,
{
    proof {
        lemma_mask_is_remainder(offset, align);
        lemma_round_up_fits(offset, align);
    }
    let top: usize = offset + (align - 1);
    let neg: usize = 0usize.wrapping_sub(align);
    let end: usize = top & neg;
    proof {
        lemma_clear_low_bits(top, align, neg);
        lemma_mask_is_remainder(top, align);
        lemma_round_down(offset as int, align as int);
        lemma_padding_aligns(offset, align);
    }
    end
}

/// Translates the big-endian `offset` of a word of `word_size` bytes into its
/// physical offset.
///
/// A big-endian buffer keeps the offset. So does a word wider than the swap
/// window. Otherwise the offset is reflected inside the window by a bitwise
/// exclusive or with `swap_size - word_size`.
pub fn at(offset: usize, word_size: usize, is_be: bool, swap_size: usize) -> (physical: usize)
    ensures
        physical == at_spec(offset, word_size, is_be, swap_size),
{
    if is_be || swap_size < word_size {
        offset
    } else {
        offset ^ (swap_size - word_size)
    }
}

/// The padding is the textbook remainder, it stays below `align`, and it
/// brings `offset` to the multiple of `align` that `aligned` returns.
pub proof fn lemma_padding_aligns(offset: usize, align: usize)
    requires
        align > 0,
    ensures
        padding_spec(offset, align) == (align - offset % align) % (align as int),
        0 <= padding_spec(offset, align) < align,
        aligned_spec(offset, align) == offset + padding_spec(offset, align),
        is_multiple_of(aligned_spec(offset, align), align as int),
        aligned_spec(offset, align) >= offset,
        forall|m: int|
            m >= offset && #[trigger] is_multiple_of(m, align as int) ==> m >= aligned_spec(
                offset,
                align,
            ),
{
    let a = align as int;
    let r = offset as int % a;
    let q = offset as int / a;
    assert(offset as int == a * q + r) by (nonlinear_arith)
        requires a > 0, r == offset as int % a, q == offset as int / a;
    if r == 0 {
        assert((a - 0) % a == 0) by (nonlinear_arith) requires a > 0;
    } else {
        assert((a - r) % a == a - r) by (nonlinear_arith) requires 0 < r < a;
        assert((a * q + a) % a == 0) by (nonlinear_arith) requires a > 0;
    }
    assert forall|m: int| m >= offset && #[trigger] is_multiple_of(m, a) implies m >= aligned_spec(
        offset,
        align,
    ) by {
        if r != 0 && m < a * q + a {
            assert(false) by (nonlinear_arith)
                requires a > 0, 0 < r < a, m >= a * q + r, m < a * q + a, m % a == 0;
        }
    }
}

/// In a little-endian buffer the translation is its own inverse: translating
/// a translated offset gives the offset back.
pub proof fn lemma_at_involution(offset: usize, word_size: usize, swap_size: usize)
    requires
        word_size <= swap_size,
    ensures
        at_spec(at_spec(offset, word_size, false, swap_size), word_size, false, swap_size)
            == offset,
{
    let d = (swap_size - word_size) as usize;
    assert((offset ^ d) ^ d == offset) by (bit_vector);
}

/// In a big-endian buffer every offset is already physical.
pub proof fn lemma_at_big_endian(offset: usize, word_size: usize, swap_size: usize)
    ensures
        at_spec(offset, word_size, true, swap_size) == offset,
{
}

} // verus!
