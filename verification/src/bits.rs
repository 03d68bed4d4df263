//! Bits and bytes of 32-bit words.

use vstd::prelude::*;

verus! {

/// Whether bit `i` of a word is set.
pub open spec fn bit(word: u32, i: u32) -> bool {
    (word >> i) & 1 == 1
}

/// Byte `i` of a word, the lowest first.
pub open spec fn byte_of(word: u32, i: u32) -> u32 {
    if i == 0 {
        word % 256
    } else if i == 1 {
        (word / 256) % 256
    } else if i == 2 {
        (word / 65536) % 256
    } else {
        word / 16777216
    }
}

/// Extracts a byte of a word, the lowest first.
pub fn extract_byte(word: u32, byte: u32) -> (value: u32)
    requires
        byte < 4,
    ensures
        value == byte_of(word, byte),
        value == (word >> (byte * 8)) & 0xff,
        value < 256,
{
    proof {
        assert((word >> 0) & 0xff == word % 256 && (word >> 8) & 0xff == (word / 256) % 256 && (word
            >> 16) & 0xff == (word / 65536) % 256 && (word >> 24) & 0xff == word / 16777216)
            by (bit_vector);
    }
    (word >> (byte * 8)) & 0xff
}

/// The highest set bit of a word, which is not zero.
pub open spec fn high_bit(value: u32) -> u32 {
    (31 - vstd::std_specs::bits::u32_leading_zeros(value)) as u32
}

/// The highest set bit is set, and no bit above it is.
pub proof fn law_high_bit(value: u32)
    requires
        value != 0,
    ensures
        high_bit(value) < 32,
        bit(value, high_bit(value)),
        forall|j: u32| high_bit(value) < j < 32 ==> !#[trigger] bit(value, j),
{
    vstd::std_specs::bits::axiom_u32_leading_zeros(value);
    let high = high_bit(value);
    assert((value >> high) & 1 != 0 ==> (value >> high) & 1 == 1) by (bit_vector);
    assert forall|j: u32| high < j < 32 implies !#[trigger] bit(value, j) by {
        assert((value >> j) & 1u32 == 0u32);
    }
}

/// Finds the highest set bit of a word.
pub fn first_bit_high(value: u32) -> (high: u32)
    requires
        value != 0,
    ensures
        high == high_bit(value),
        high < 32,
        bit(value, high),
        forall|j: u32| high < j < 32 ==> !#[trigger] bit(value, j),
{
    proof {
        law_high_bit(value);
        vstd::std_specs::bits::axiom_u32_leading_zeros(value);
    }
    31 - value.leading_zeros()
}

/// How many of the lowest `n` bits are set.
pub open spec fn ones_below(word: u32, n: u32) -> u32
    decreases n,
{
    if n == 0 {
        0
    } else {
        (ones_below(word, (n - 1) as u32) + (if bit(word, (n - 1) as u32) { 1u32 } else { 0u32 })) as u32
    }
}

/// Counts the set bits among the lowest `n`.
pub fn count_ones_below(word: u32, n: u32) -> (count: u32)
    requires
        n <= 32,
    ensures
        count == ones_below(word, n),
        count <= n,
{
    let mut count: u32 = 0;
    let mut i: u32 = 0;
    while i < n
        invariant
            i <= n <= 32,
            count == ones_below(word, i),
            count <= i,
        decreases n - i,
    {
        if (word >> i) & 1 == 1 {
            count = count + 1;
        }
        i = i + 1;
    }
    count
}

/// Clearing a bit clears that bit and no other.
pub proof fn law_clearing_a_bit(word: u32, cleared: u32, i: u32)
    requires
        cleared < 32,
        i < 32,
    ensures
        bit(word & !(1u32 << cleared), i) == (bit(word, i) && i != cleared),
{
    assert((((word & !(1u32 << cleared)) >> i) & 1 == 1) == ((word >> i) & 1 == 1 && i != cleared))
        by (bit_vector)
        requires
            cleared < 32,
            i < 32,
    ;
}

/// A word is zero just if no bit is set.
pub proof fn law_zero_has_no_bits(word: u32)
    ensures
        word == 0 <==> forall|i: u32| i < 32 ==> !#[trigger] bit(word, i),
{
    if word == 0 {
        assert forall|i: u32| i < 32 implies !#[trigger] bit(word, i) by {
            assert((0u32 >> i) & 1 == 0) by (bit_vector);
        }
    } else {
        law_high_bit(word);
        assert(bit(word, high_bit(word)));
    }
}

/// A word reaches 2^24 just if one of its highest eight bits is set.
pub proof fn law_top_byte(word: u32)
    ensures
        (word & 0xff00_0000 != 0) == (word >= 0x0100_0000),
        word >= 0x0100_0000 ==> 24 <= high_bit(word) < 32,
        forall|i: u32| word < 0x0100_0000 && 24 <= i < 32 ==> !#[trigger] bit(word, i),
{
    assert((word & 0xff00_0000 != 0) == (word >= 0x0100_0000)) by (bit_vector);
    if word >= 0x0100_0000 {
        law_high_bit(word);
        assert((word >> 24) & 1 == 1 || (word >> 25) & 1 == 1 || (word >> 26) & 1 == 1 || (word
            >> 27) & 1 == 1 || (word >> 28) & 1 == 1 || (word >> 29) & 1 == 1 || (word >> 30) & 1
            == 1 || (word >> 31) & 1 == 1) by (bit_vector)
            requires
                word >= 0x0100_0000,
        ;
        assert(bit(word, 24) || bit(word, 25) || bit(word, 26) || bit(word, 27) || bit(word, 28)
            || bit(word, 29) || bit(word, 30) || bit(word, 31));
    }
    assert forall|i: u32| word < 0x0100_0000 && 24 <= i < 32 implies !#[trigger] bit(word, i) by {
        assert((word >> i) & 1 == 0) by (bit_vector)
            requires
                word < 0x0100_0000,
                24 <= i < 32,
        ;
    }
}

} // verus!
