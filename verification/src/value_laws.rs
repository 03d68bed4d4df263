//! What comparisons of bit patterns and the bits of words promise.

use vstd::prelude::*;

use crate::bits;
use crate::float_bits;

verus! {

/// Numbers that are not negative are ordered as their bits are.
pub proof fn law_positive_numbers_are_ordered_by_bits(a: u32, b: u32)
    requires
        a <= 0x7f80_0000,
        b <= 0x7f80_0000,
    ensures
        float_bits::less(a, b) == (a < b),
        float_bits::at_most(a, b) == (a <= b),
        float_bits::equal(a, b) == (a == b),
{
}

/// Negative numbers are ordered the other way round.
pub proof fn law_negative_numbers_are_ordered_backwards(a: u32, b: u32)
    requires
        0x8000_0000 <= a <= 0xff80_0000,
        0x8000_0000 <= b <= 0xff80_0000,
    ensures
        float_bits::less(a, b) == (b < a),
        float_bits::at_most(a, b) == (b <= a),
        float_bits::equal(a, b) == (a == b),
{
}

/// Negative numbers lie below positive ones, and the two zeros are equal.
pub proof fn law_signs_are_ordered(negative: u32, positive: u32)
    requires
        0x8000_0000 <= negative <= 0xff80_0000,
        positive <= 0x7f80_0000,
    ensures
        float_bits::at_most(negative, positive),
        float_bits::less(negative, positive) == (negative != 0x8000_0000 || positive != 0),
        float_bits::equal(negative, positive) == (negative == 0x8000_0000 && positive == 0),
        float_bits::less(positive, negative) == false,
{
}

/// Patterns beyond infinity are no numbers, and compare as nothing.
pub proof fn law_what_is_no_number(bits: u32, other: u32)
    ensures
        float_bits::is_nan(bits) == (0x7f80_0000 < bits < 0x8000_0000 || bits > 0xff80_0000),
        float_bits::is_nan(bits) ==> !float_bits::less(bits, other) && !float_bits::less(other, bits)
            && !float_bits::equal(bits, other) && !float_bits::at_most(bits, other)
            && !float_bits::at_most(other, bits),
        float_bits::zero(bits) == (bits == 0 || bits == 0x8000_0000),
        bits < 0x8000_0000 ==> float_bits::magnitude(bits) == bits,
        bits >= 0x8000_0000 ==> float_bits::magnitude(bits) == bits - 0x8000_0000,
{
}

/// The larger of two values is one of them and lies below neither; the smaller
/// likewise. What is no number gives way.
pub proof fn law_larger_and_smaller(a: u32, b: u32)
    ensures
        float_bits::larger(a, b) == a || float_bits::larger(a, b) == b,
        float_bits::smaller(a, b) == a || float_bits::smaller(a, b) == b,
        !float_bits::is_nan(a) && !float_bits::is_nan(b) ==> {
            &&& float_bits::at_most(a, float_bits::larger(a, b))
            &&& float_bits::at_most(b, float_bits::larger(a, b))
            &&& float_bits::at_most(float_bits::smaller(a, b), a)
            &&& float_bits::at_most(float_bits::smaller(a, b), b)
        },
        float_bits::is_nan(a) ==> float_bits::larger(a, b) == b && float_bits::smaller(a, b) == b,
        float_bits::is_nan(b) && !float_bits::is_nan(a) ==> float_bits::larger(a, b) == a
            && float_bits::smaller(a, b) == a,
{
}

/// A word is made of its four bytes, the lowest first.
pub proof fn law_words_are_made_of_bytes(word: u32)
    ensures
        bits::byte_of(word, 0) < 256,
        bits::byte_of(word, 1) < 256,
        bits::byte_of(word, 2) < 256,
        bits::byte_of(word, 3) < 256,
        word == bits::byte_of(word, 0) + 256 * bits::byte_of(word, 1) + 65536 * bits::byte_of(
            word,
            2,
        ) + 16777216 * bits::byte_of(word, 3),
{
}

/// A bit is set in a combination of words just if it is set in one of them.
pub proof fn law_combined_words_have_the_bits_of_both(a: u32, b: u32, i: u32)
    requires
        i < 32,
    ensures
        bits::bit(a | b, i) == (bits::bit(a, i) || bits::bit(b, i)),
{
    assert(((a | b) >> i) & 1 == 1 <==> (a >> i) & 1 == 1 || (b >> i) & 1 == 1) by (bit_vector);
}

/// The bits below `n` that are set are as many as there are places of set bits.
pub proof fn law_set_bits_are_counted(word: u32, n: u32)
    requires
        n <= 32,
    ensures
        Set::new(|i: u32| i < n && bits::bit(word, i)).finite(),
        Set::new(|i: u32| i < n && bits::bit(word, i)).len() == bits::ones_below(word, n),
        bits::ones_below(word, n) <= n,
    decreases n,
{
    let places = Set::new(|i: u32| i < n && bits::bit(word, i));
    if n == 0 {
        assert(places =~= Set::empty());
    } else {
        let last = (n - 1) as u32;
        law_set_bits_are_counted(word, last);
        let before = Set::new(|i: u32| i < last && bits::bit(word, i));
        if bits::bit(word, last) {
            assert(places =~= before.insert(last));
        } else {
            assert(places =~= before);
        }
    }
}

} // verus!
