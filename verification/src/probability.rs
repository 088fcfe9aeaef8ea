use vstd::prelude::*;

verus! {

// Speech probabilities and the detection threshold are single-precision
// numbers. They travel through this crate as their IEEE-754 bit patterns
// (what `f32::to_bits` gives), and are compared here by integer arithmetic on
// those patterns.

/// The bit pattern of positive infinity: the largest magnitude that is a number.
pub const INFINITY_BITS: u32 = 0x7f80_0000;

/// The lowest bit pattern with the sign bit set.
pub const SIGN_BIT: u32 = 0x8000_0000;

/// The bit pattern of the number one.
pub const ONE_BITS: u32 = 0x3f80_0000;

/// The pattern with its sign bit cleared.
pub open spec fn magnitude(bits: u32) -> int {
    if bits >= SIGN_BIT {
        bits - SIGN_BIT
    } else {
        bits as int
    }
}

/// Whether the pattern encodes no number at all.
pub open spec fn is_nan(bits: u32) -> bool {
    magnitude(bits) > INFINITY_BITS
}

/// An integer that orders the patterns of numbers as the numbers themselves
/// are ordered: a single-precision number is a sign and a magnitude, and among
/// numbers of one sign the larger magnitude has the larger pattern. Both zeros
/// get the key 0.
pub open spec fn order_key(bits: u32) -> int {
    if bits >= SIGN_BIT {
        -magnitude(bits)
    } else {
        magnitude(bits)
    }
}

/// `probability >= threshold` as IEEE-754 defines it: false as soon as either
/// side is not a number, and true of equal numbers.
pub open spec fn reaches(probability: u32, threshold: u32) -> bool {
    &&& !is_nan(probability)
    &&& !is_nan(threshold)
    &&& order_key(probability) >= order_key(threshold)
}

/// Whether the pattern encodes a probability: a number from zero to one, both
/// included.
pub open spec fn is_probability(bits: u32) -> bool {
    reaches(bits, 0) && reaches(ONE_BITS, bits)
}

/// Tells whether the pattern encodes no number.
pub fn bits_are_nan(bits: u32) -> (nan: bool)
    ensures
        nan == is_nan(bits),
{
    let mag: u32 = if bits >= SIGN_BIT {
        bits - SIGN_BIT
    } else {
        bits
    };
    mag > INFINITY_BITS
}

/// The ordering key of a pattern.
pub fn key_of(bits: u32) -> (key: i64)
    ensures
        key == order_key(bits),
{
    if bits >= SIGN_BIT {
        let mag: u32 = bits - SIGN_BIT;
        let m: i64 = mag as i64;
        -m
    } else {
        bits as i64
    }
}

/// The decision rule of the classifier: a window is voice when its
/// probability is at least the threshold.
pub fn is_voice(probability: u32, threshold: u32) -> (voice: bool)
    ensures
        voice == reaches(probability, threshold),
{
    !bits_are_nan(probability) && !bits_are_nan(threshold) && key_of(probability) >= key_of(
        threshold,
    )
}

/// Tells whether the pattern encodes a probability.
pub fn bits_are_probability(bits: u32) -> (probability: bool)
    ensures
        probability == is_probability(bits),
{
    is_voice(bits, 0) && is_voice(ONE_BITS, bits)
}

/// A probability equal to the threshold is voice: the boundary is inclusive.
pub proof fn lemma_threshold_is_inclusive(threshold: u32)
    requires
        !is_nan(threshold),
    ensures
        reaches(threshold, threshold),
{
}

/// The probabilities are the patterns from zero to one, and the zero with
/// the sign bit set.
pub proof fn lemma_probabilities_are_the_unit_range(bits: u32)
    ensures
        is_probability(bits) <==> (bits <= ONE_BITS || bits == SIGN_BIT),
{
}

/// Both zeros compare as equal, whatever their sign.
pub proof fn lemma_zeros_are_equal()
    ensures
        reaches(0u32, SIGN_BIT),
        reaches(SIGN_BIT, 0u32),
{
}

/// The rule is monotone in the probability and antitone in the threshold.
pub proof fn lemma_reaches_is_monotone(low: u32, high: u32, threshold: u32)
    requires
        reaches(low, threshold),
        reaches(high, low),
    ensures
        reaches(high, threshold),
{
}

/// A value that is not a number is never voice, and no number reaches a
/// threshold that is not a number.
pub proof fn lemma_nan_is_never_voice(probability: u32, threshold: u32)
    requires
        is_nan(probability) || is_nan(threshold),
    ensures
        !reaches(probability, threshold),
{
}

} // verus!
