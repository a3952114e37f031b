//! Facts about shifts, masks and xor on machine integers that the codecs share.
use vstd::prelude::*;

verus! {

/// Walking the bits of a byte from the most significant end by shifting it left.
pub(crate) proof fn lemma_u8_msb_walk(val: u8, i: u8)
    by (bit_vector)
    requires
        i < 8,
    ensures
        val << 0u8 == val,
        (((val << i) & 0x80u8) != 0u8) == (((val >> ((7 - i) as u8)) & 1u8) == 1u8),
        ((((val << i) as u32) & 0x80u32) != 0u32) == (((val >> ((7 - i) as u8)) & 1u8) == 1u8),
        (val << i) << 1u8 == val << ((i + 1) as u8),
{
}

/// Walking the bits of a 16 bit word from the most significant end by shifting it left.
pub(crate) proof fn lemma_u16_msb_walk(val: u16, i: u16)
    by (bit_vector)
    requires
        i < 16,
    ensures
        val << 0u16 == val,
        (((val << i) & 0x8000u16) != 0u16) == ((((val as u32) >> ((15 - i) as u32)) & 1u32)
            == 1u32),
        (val << i) << 1u16 == val << ((i + 1) as u16),
{
}

/// Walking the lowest `l` bits of a 32 bit word from the most significant end.
pub(crate) proof fn lemma_u32_msb_walk(val: u32, bitmask: u32, l: u32, ii: u32)
    by (bit_vector)
    requires
        bitmask == 1u32 << ((l - 1) as u32),
        ii < l,
        l <= 32,
    ensures
        val << 0u32 == val,
        (((val << ii) & bitmask) != 0u32) == (((val >> ((l - 1 - ii) as u32)) & 1u32) == 1u32),
        (val << ii) << 1u32 == val << ((ii + 1) as u32),
{
}

/// Walking the odd bits of a 32 bit word from the most significant end, two at a time.
pub(crate) proof fn lemma_u32_odd_walk(val: u32, i: u32)
    by (bit_vector)
    requires
        i < 16,
    ensures
        val << 0u32 == val,
        1u32 << 31u32 == 0x8000_0000u32,
        (((val << (2 * i)) & 0x8000_0000u32) != 0u32) == (((val >> ((31 - 2 * i) as u32)) & 1u32)
            == 1u32),
        (val << (2 * i)) << 2u32 == val << ((2 * i + 2) as u32),
{
}

/// After a left shift by one, bit `j + 1` holds what bit `j` held.
pub(crate) proof fn lemma_u32_shifted_bit(val: u32, j: u32, j1: u32)
    by (bit_vector)
    ensures
        j <= 30 && j1 == j + 1 ==> (((val << 1u32) >> j1) & 1u32) == ((val >> j) & 1u32),
{
}

/// Shifting a cell `c` into a byte from the right.
pub(crate) proof fn lemma_u8_shift_in(w: u8, c: u8, j: u8, j1: u8)
    by (bit_vector)
    ensures
        c <= 1 && 1 <= j <= 7 && j1 == j - 1 ==> ((((w << 1u8) | c) >> j) & 1u8) == ((w >> j1)
            & 1u8),
        c <= 1 ==> (((((w << 1u8) | c) >> 0u8) & 1u8) == c),
{
}

/// Shifting a cell `c` into a 32 bit word from the right.
pub(crate) proof fn lemma_u32_shift_in(w: u32, c: u32, j: u32, j1: u32)
    by (bit_vector)
    ensures
        c <= 1 && 1 <= j <= 31 && j1 == j - 1 ==> ((((w << 1u32) | c) >> j) & 1u32) == ((w
            >> j1) & 1u32),
        c <= 1 ==> (((((w << 1u32) | c) >> 0u32) & 1u32) == c),
{
}

/// Shifting a cell `c` into a 64 bit word from the right.
pub(crate) proof fn lemma_u64_shift_in(w: u64, c: u64, j: u64, j1: u64)
    by (bit_vector)
    ensures
        c <= 1 && 1 <= j <= 63 && j1 == j - 1 ==> ((((w << 1u64) | c) >> j) & 1u64) == ((w
            >> j1) & 1u64),
        c <= 1 ==> (((((w << 1u64) | c) >> 0u64) & 1u64) == c),
{
}

/// The lowest bit of a byte tells whether it is odd.
pub(crate) proof fn lemma_u8_parity(n: u8)
    by (bit_vector)
    ensures
        (n & 1u8) == 1u8 <==> n % 2 == 1,
{
}

/// Single bit masks written as shifts.
pub(crate) proof fn lemma_mask_constants()
    by (bit_vector)
    ensures
        1u32 << 7u32 == 0x80u32,
        1u32 << 9u32 == 0x200u32,
        1u16 << 9u16 == 0x200u16,
{
}

/// Xor with zero, associativity and commutativity of xor.
pub(crate) proof fn lemma_xor_facts(a: u32, x: u32, w: u32)
    by (bit_vector)
    ensures
        a ^ 0u32 == a,
        (a ^ x) ^ w == a ^ (x ^ w),
        x ^ w == w ^ x,
{
}

/// A word is rebuilt from its four bytes, least significant first.
pub(crate) proof fn lemma_le_word_bytes(value: u32, b0: u8, b1: u8, b2: u8, b3: u8)
    by (bit_vector)
    requires
        b0 == (value & 0xffu32) as u8,
        b1 == ((value >> 8u32) & 0xffu32) as u8,
        b2 == ((value >> 16u32) & 0xffu32) as u8,
        b3 == ((value >> 24u32) & 0xffu32) as u8,
    ensures
        (b0 as u32 | ((b1 as u32) << 8u32) | ((b2 as u32) << 16u32) | ((b3 as u32) << 24u32))
            == value,
{
}

} // verus!
