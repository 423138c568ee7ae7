//! Words as sets of bits.

use vstd::prelude::*;
use vstd::std_specs::bits::{axiom_u64_trailing_zeros, u64_trailing_zeros};

verus! {

/// Whether bit `k` of a 32-bit word is set.
pub open spec fn bit32(word: u32, k: int) -> bool {
    0 <= k < 32 && (word >> (k as u32)) & 1u32 == 1u32
}

/// Whether bit `k` of a 64-bit word is set.
pub open spec fn bit64(word: u64, k: int) -> bool {
    0 <= k < 64 && (word >> (k as u64)) & 1u64 == 1u64
}

/// The word whose bit `k`, for `k` below `n`, is set where `bits(k)` holds.
pub open spec fn word_of(bits: spec_fn(int) -> bool, n: int) -> u32
    decreases n,
{
    if n <= 0 {
        0
    } else if bits(n - 1) {
        word_of(bits, n - 1) | (1u32 << ((n - 1) as u32))
    } else {
        word_of(bits, n - 1)
    }
}

/// No bit of zero is set.
pub proof fn lemma_zero32(k: int)
    ensures
        !bit32(0, k),
{
    if 0 <= k < 32 {
        let kk = k as u32;
        assert((0u32 >> kk) & 1u32 == 0u32) by (bit_vector);
    }
}

/// No bit of zero is set.
pub proof fn lemma_zero64(k: int)
    ensures
        !bit64(0, k),
{
    if 0 <= k < 64 {
        let kk = k as u64;
        assert((0u64 >> kk) & 1u64 == 0u64) by (bit_vector);
    }
}

/// Setting bit `y` sets that bit and no other.
pub proof fn lemma_set_bit32(word: u32, y: u32, k: int)
    requires
        y < 32,
    ensures
        bit32(word | (1u32 << y), k) == (bit32(word, k) || k == y),
{
    if 0 <= k < 32 {
        let kk = k as u32;
        assert((((word | (1u32 << y)) >> kk) & 1u32 == 1u32) == (((word >> kk) & 1u32 == 1u32)
            || kk == y)) by (bit_vector)
            requires
                y < 32,
                kk < 32,
        ;
    }
}

/// Setting bit `y` sets that bit and no other.
pub proof fn lemma_set_bit64(word: u64, y: u64, k: int)
    requires
        y < 64,
    ensures
        bit64(word | (1u64 << y), k) == (bit64(word, k) || k == y),
{
    if 0 <= k < 64 {
        let kk = k as u64;
        assert((((word | (1u64 << y)) >> kk) & 1u64 == 1u64) == (((word >> kk) & 1u64 == 1u64)
            || kk == y)) by (bit_vector)
            requires
                y < 64,
                kk < 64,
        ;
    }
}

/// The bits of the word that is built from `bits`.
pub proof fn lemma_word_of(bits: spec_fn(int) -> bool, n: int, k: int)
    requires
        0 <= n <= 32,
    ensures
        bit32(word_of(bits, n), k) == (0 <= k < n && bits(k)),
    decreases n,
{
    if n <= 0 {
        lemma_zero32(k);
    } else {
        lemma_word_of(bits, n - 1, k);
        if bits(n - 1) {
            lemma_set_bit32(word_of(bits, n - 1), (n - 1) as u32, k);
        }
    }
}

/// Two words with the same bits are the same word.
pub proof fn lemma_same_bits32(a: u32, b: u32)
    requires
        forall|k: int| 0 <= k < 32 ==> bit32(a, k) == bit32(b, k),
    ensures
        a == b,
{
    assert(bit32(a, 0) == bit32(b, 0));
    lemma_bit_value32(a, 0);
    lemma_bit_value32(b, 0);
    assert(bit32(a, 1) == bit32(b, 1));
    lemma_bit_value32(a, 1);
    lemma_bit_value32(b, 1);
    assert(bit32(a, 2) == bit32(b, 2));
    lemma_bit_value32(a, 2);
    lemma_bit_value32(b, 2);
    assert(bit32(a, 3) == bit32(b, 3));
    lemma_bit_value32(a, 3);
    lemma_bit_value32(b, 3);
    assert(bit32(a, 4) == bit32(b, 4));
    lemma_bit_value32(a, 4);
    lemma_bit_value32(b, 4);
    assert(bit32(a, 5) == bit32(b, 5));
    lemma_bit_value32(a, 5);
    lemma_bit_value32(b, 5);
    assert(bit32(a, 6) == bit32(b, 6));
    lemma_bit_value32(a, 6);
    lemma_bit_value32(b, 6);
    assert(bit32(a, 7) == bit32(b, 7));
    lemma_bit_value32(a, 7);
    lemma_bit_value32(b, 7);
    assert(bit32(a, 8) == bit32(b, 8));
    lemma_bit_value32(a, 8);
    lemma_bit_value32(b, 8);
    assert(bit32(a, 9) == bit32(b, 9));
    lemma_bit_value32(a, 9);
    lemma_bit_value32(b, 9);
    assert(bit32(a, 10) == bit32(b, 10));
    lemma_bit_value32(a, 10);
    lemma_bit_value32(b, 10);
    assert(bit32(a, 11) == bit32(b, 11));
    lemma_bit_value32(a, 11);
    lemma_bit_value32(b, 11);
    assert(bit32(a, 12) == bit32(b, 12));
    lemma_bit_value32(a, 12);
    lemma_bit_value32(b, 12);
    assert(bit32(a, 13) == bit32(b, 13));
    lemma_bit_value32(a, 13);
    lemma_bit_value32(b, 13);
    assert(bit32(a, 14) == bit32(b, 14));
    lemma_bit_value32(a, 14);
    lemma_bit_value32(b, 14);
    assert(bit32(a, 15) == bit32(b, 15));
    lemma_bit_value32(a, 15);
    lemma_bit_value32(b, 15);
    assert(bit32(a, 16) == bit32(b, 16));
    lemma_bit_value32(a, 16);
    lemma_bit_value32(b, 16);
    assert(bit32(a, 17) == bit32(b, 17));
    lemma_bit_value32(a, 17);
    lemma_bit_value32(b, 17);
    assert(bit32(a, 18) == bit32(b, 18));
    lemma_bit_value32(a, 18);
    lemma_bit_value32(b, 18);
    assert(bit32(a, 19) == bit32(b, 19));
    lemma_bit_value32(a, 19);
    lemma_bit_value32(b, 19);
    assert(bit32(a, 20) == bit32(b, 20));
    lemma_bit_value32(a, 20);
    lemma_bit_value32(b, 20);
    assert(bit32(a, 21) == bit32(b, 21));
    lemma_bit_value32(a, 21);
    lemma_bit_value32(b, 21);
    assert(bit32(a, 22) == bit32(b, 22));
    lemma_bit_value32(a, 22);
    lemma_bit_value32(b, 22);
    assert(bit32(a, 23) == bit32(b, 23));
    lemma_bit_value32(a, 23);
    lemma_bit_value32(b, 23);
    assert(bit32(a, 24) == bit32(b, 24));
    lemma_bit_value32(a, 24);
    lemma_bit_value32(b, 24);
    assert(bit32(a, 25) == bit32(b, 25));
    lemma_bit_value32(a, 25);
    lemma_bit_value32(b, 25);
    assert(bit32(a, 26) == bit32(b, 26));
    lemma_bit_value32(a, 26);
    lemma_bit_value32(b, 26);
    assert(bit32(a, 27) == bit32(b, 27));
    lemma_bit_value32(a, 27);
    lemma_bit_value32(b, 27);
    assert(bit32(a, 28) == bit32(b, 28));
    lemma_bit_value32(a, 28);
    lemma_bit_value32(b, 28);
    assert(bit32(a, 29) == bit32(b, 29));
    lemma_bit_value32(a, 29);
    lemma_bit_value32(b, 29);
    assert(bit32(a, 30) == bit32(b, 30));
    lemma_bit_value32(a, 30);
    lemma_bit_value32(b, 30);
    assert(bit32(a, 31) == bit32(b, 31));
    lemma_bit_value32(a, 31);
    lemma_bit_value32(b, 31);
    assert(a == b) by (bit_vector)
        requires
            (a >> 0u32) & 1u32 == (b >> 0u32) & 1u32,
            (a >> 1u32) & 1u32 == (b >> 1u32) & 1u32,
            (a >> 2u32) & 1u32 == (b >> 2u32) & 1u32,
            (a >> 3u32) & 1u32 == (b >> 3u32) & 1u32,
            (a >> 4u32) & 1u32 == (b >> 4u32) & 1u32,
            (a >> 5u32) & 1u32 == (b >> 5u32) & 1u32,
            (a >> 6u32) & 1u32 == (b >> 6u32) & 1u32,
            (a >> 7u32) & 1u32 == (b >> 7u32) & 1u32,
            (a >> 8u32) & 1u32 == (b >> 8u32) & 1u32,
            (a >> 9u32) & 1u32 == (b >> 9u32) & 1u32,
            (a >> 10u32) & 1u32 == (b >> 10u32) & 1u32,
            (a >> 11u32) & 1u32 == (b >> 11u32) & 1u32,
            (a >> 12u32) & 1u32 == (b >> 12u32) & 1u32,
            (a >> 13u32) & 1u32 == (b >> 13u32) & 1u32,
            (a >> 14u32) & 1u32 == (b >> 14u32) & 1u32,
            (a >> 15u32) & 1u32 == (b >> 15u32) & 1u32,
            (a >> 16u32) & 1u32 == (b >> 16u32) & 1u32,
            (a >> 17u32) & 1u32 == (b >> 17u32) & 1u32,
            (a >> 18u32) & 1u32 == (b >> 18u32) & 1u32,
            (a >> 19u32) & 1u32 == (b >> 19u32) & 1u32,
            (a >> 20u32) & 1u32 == (b >> 20u32) & 1u32,
            (a >> 21u32) & 1u32 == (b >> 21u32) & 1u32,
            (a >> 22u32) & 1u32 == (b >> 22u32) & 1u32,
            (a >> 23u32) & 1u32 == (b >> 23u32) & 1u32,
            (a >> 24u32) & 1u32 == (b >> 24u32) & 1u32,
            (a >> 25u32) & 1u32 == (b >> 25u32) & 1u32,
            (a >> 26u32) & 1u32 == (b >> 26u32) & 1u32,
            (a >> 27u32) & 1u32 == (b >> 27u32) & 1u32,
            (a >> 28u32) & 1u32 == (b >> 28u32) & 1u32,
            (a >> 29u32) & 1u32 == (b >> 29u32) & 1u32,
            (a >> 30u32) & 1u32 == (b >> 30u32) & 1u32,
            (a >> 31u32) & 1u32 == (b >> 31u32) & 1u32,
    ;
}

/// A bit is 0 or 1.
proof fn lemma_bit_value32(word: u32, k: u32)
    requires
        k < 32,
    ensures
        (word >> k) & 1u32 == 0u32 || (word >> k) & 1u32 == 1u32,
{
    assert((word >> k) & 1u32 == 0u32 || (word >> k) & 1u32 == 1u32) by (bit_vector);
}

/// A bit of a column marks a face that looks down the axis where the bit
/// is set and the bit below it is not.
pub proof fn lemma_descending_mask(col: u64, k: int)
    ensures
        bit64(col & !(col << 1u64), k) == (bit64(col, k) && !bit64(col, k - 1)),
{
    if 1 <= k < 64 {
        let kk = k as u64;
        let below = (k - 1) as u64;
        assert((((col & !(col << 1u64)) >> kk) & 1u64 == 1u64) == (((col >> kk) & 1u64 == 1u64) && !((
        col >> below) & 1u64 == 1u64))) by (bit_vector)
            requires
                1 <= kk < 64,
                below == kk - 1,
        ;
    } else if k == 0 {
        assert(((col & !(col << 1u64)) >> 0u64) & 1u64 == (col >> 0u64) & 1u64) by (bit_vector);
    }
}

/// A bit of a column marks a face that looks up the axis where the bit is
/// set and the bit above it is not.
pub proof fn lemma_ascending_mask(col: u64, k: int)
    ensures
        bit64(col & !(col >> 1u64), k) == (bit64(col, k) && !bit64(col, k + 1)),
{
    if 0 <= k < 63 {
        let kk = k as u64;
        let above = (k + 1) as u64;
        assert((((col & !(col >> 1u64)) >> kk) & 1u64 == 1u64) == (((col >> kk) & 1u64 == 1u64) && !((
        col >> above) & 1u64 == 1u64))) by (bit_vector)
            requires
                kk < 63,
                above == kk + 1,
        ;
    } else if k == 63 {
        assert(((col & !(col >> 1u64)) >> 63u64) & 1u64 == (col >> 63u64) & 1u64) by (bit_vector);
    }
}

/// Dropping the padding of a column of faces: bit `k` of what is left is
/// bit `k + 1` of the column, for the 32 voxels of the chunk.
pub proof fn lemma_strip_padding(col: u64, k: int)
    requires
        0 <= k,
    ensures
        bit64((col >> 1u64) & !(1u64 << 32u64), k) == (bit64(col, k + 1) && k != 32),
{
    if 0 <= k < 63 {
        let kk = k as u64;
        let above = (k + 1) as u64;
        assert(((((col >> 1u64) & !(1u64 << 32u64)) >> kk) & 1u64 == 1u64) == (((col >> above) & 1u64
            == 1u64) && kk != 32)) by (bit_vector)
            requires
                kk < 63,
                above == kk + 1,
        ;
    } else if k == 63 {
        assert((((col >> 1u64) & !(1u64 << 32u64)) >> 63u64) & 1u64 == 0) by (bit_vector);
    }
}

/// The lowest set bit of a word that is not zero.
pub proof fn lemma_lowest_bit(word: u64)
    requires
        word != 0,
    ensures
        u64_trailing_zeros(word) < 64,
        bit64(word, u64_trailing_zeros(word) as int),
        forall|k: int| 0 <= k < u64_trailing_zeros(word) ==> !bit64(word, k),
{
    axiom_u64_trailing_zeros(word);
    assert forall|k: int| 0 <= k < u64_trailing_zeros(word) implies !bit64(word, k) by {
        let kk = k as u64;
        assert((word >> kk) & 1u64 == 0u64);
    }
}

/// Clearing the lowest set bit of a word clears that bit and no other.
pub proof fn lemma_clear_lowest_bit(word: u64, k: int)
    requires
        word != 0,
    ensures
        bit64(word & ((word - 1) as u64), k) == (bit64(word, k) && k != u64_trailing_zeros(word)),
{
    axiom_u64_trailing_zeros(word);
    let lowest = u64_trailing_zeros(word) as u64;
    let rest: u64 = (64 - lowest) as u64;
    if 0 <= k < 64 {
        let kk = k as u64;
        assert((((word & ((word - 1) as u64)) >> kk) & 1u64 == 1u64) == (((word >> kk) & 1u64 == 1u64)
            && kk != lowest)) by (bit_vector)
            requires
                word != 0,
                lowest < 64,
                kk < 64,
                (word >> lowest) & 1u64 == 1u64,
                rest == 64 - lowest,
                word << rest == 0,
        ;
    }
}

/// A word that is built from nine bits is below 512.
pub proof fn lemma_nine_bits(bits: spec_fn(int) -> bool)
    ensures
        word_of(bits, 9) < 512,
{
    let word = word_of(bits, 9);
    let low = word & 0x1ffu32;
    assert forall|k: int| 0 <= k < 32 implies bit32(word, k) == bit32(low, k) by {
        lemma_word_of(bits, 9, k);
        let kk = k as u32;
        assert(((low >> kk) & 1u32 == 1u32) == (((word >> kk) & 1u32 == 1u32) && kk < 9))
            by (bit_vector)
            requires
                low == word & 0x1ffu32,
                kk < 32,
        ;
    }
    lemma_same_bits32(word, low);
    assert(word & 0x1ffu32 < 512) by (bit_vector);
}

/// A key is taken apart into the occlusion and the tag it was made of.
pub proof fn lemma_key_parts(ao: u32, tag: u32)
    requires
        ao < 512,
        tag <= 1,
    ensures
        (ao | (tag << 9u32)) < 1024,
        (ao | (tag << 9u32)) & 0x1ffu32 == ao,
        (ao | (tag << 9u32)) >> 9u32 == tag,
{
    assert((ao | (tag << 9u32)) < 1024 && (ao | (tag << 9u32)) & 0x1ffu32 == ao && (ao | (tag
        << 9u32)) >> 9u32 == tag) by (bit_vector)
        requires
            ao < 512,
            tag <= 1,
    ;
}

} // verus!
