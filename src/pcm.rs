//! Normalisation of signed-integer PCM samples to the range [-1, 1].
//!
//! A sample `s` of `bits` bits maps to `s / 2^(bits-1)` when negative and to
//! `s / (2^(bits-1) - 1)` otherwise, so that both ends of the two's
//! complement range map to exactly -1 and +1. The result is kept as an exact
//! fraction; turning it into a float is left to the caller.
use vstd::prelude::*;

verus! {

/// `2^e`.
pub open spec fn two_pow(e: nat) -> nat
    decreases e,
{
    if e == 0 {
        1
    } else {
        2 * two_pow((e - 1) as nat)
    }
}

/// A normalised sample, `numerator / denominator`.
#[derive(Clone, Copy, Debug, PartialEq, Eq)]
pub struct Fraction {
    pub numerator: i32,
    pub denominator: u32,
}

/// Magnitude of the most negative sample of `bits` bits.
pub open spec fn negative_range(bits: nat) -> nat {
    two_pow((bits - 1) as nat)
}

/// The most positive sample of `bits` bits.
pub open spec fn positive_range(bits: nat) -> nat {
    (negative_range(bits) - 1) as nat
}

/// The normalised value of sample `s` of `bits` bits.
pub open spec fn normalized(s: i32, bits: nat) -> Fraction {
    Fraction {
        numerator: s,
        denominator: (if s < 0 { negative_range(bits) } else { positive_range(bits) }) as u32,
    }
}

/// The bit depths of signed-integer PCM that are decoded.
pub open spec fn supported_int_bits(bits: nat) -> bool {
    bits == 8 || bits == 16 || bits == 24 || bits == 32
}

/// Whether `s` is representable as a signed sample of `bits` bits.
pub open spec fn in_sample_range(s: i32, bits: nat) -> bool {
    -(negative_range(bits) as int) <= s <= positive_range(bits)
}

/// Whether a normalised value lies in [-1, 1].
pub open spec fn in_unit_range(f: Fraction) -> bool {
    &&& f.denominator > 0
    &&& -(f.denominator as int) <= f.numerator <= f.denominator
}

proof fn lemma_two_pow_monotonic(e: nat, f: nat)
    requires
        e <= f,
    ensures
        1 <= two_pow(e) <= two_pow(f),
    decreases f,
{
    if f > e {
        lemma_two_pow_monotonic(e, (f - 1) as nat);
    } else if e > 0 {
        lemma_two_pow_monotonic((e - 1) as nat, (e - 1) as nat);
    }
}

proof fn lemma_negative_range_bound(bits: nat)
    requires
        supported_int_bits(bits),
    ensures
        2 <= negative_range(bits) <= 0x8000_0000,
{
    lemma_two_pow_monotonic((bits - 1) as nat, 31);
    lemma_two_pow_monotonic(1, (bits - 1) as nat);
    reveal_with_fuel(two_pow, 32);
    assert(two_pow(1) == 2);
    assert(two_pow(31) == 0x8000_0000);
}

/// Computes `negative_range(bits)`.
fn negative_range_of(bits: u16) -> (r: u32)
    requires
        supported_int_bits(bits as nat),
    ensures
        r == negative_range(bits as nat),
{
    proof {
        lemma_negative_range_bound(bits as nat);
    }
    let mut p: u32 = 1;
    let mut k: u16 = 0;
    while k < bits - 1
        invariant
            supported_int_bits(bits as nat),
            k <= bits - 1,
            p == two_pow(k as nat),
        decreases bits - 1 - k,
    {
        proof {
            lemma_two_pow_monotonic((k + 1) as nat, (bits - 1) as nat);
            lemma_negative_range_bound(bits as nat);
        }
        p = p * 2;
        k += 1;
    }
    p
}

/// Normalises sample `sample` of a `bits_per_sample`-bit signed PCM stream.
pub fn normalize(sample: i32, bits_per_sample: u16) -> (r: Fraction)
    requires
        supported_int_bits(bits_per_sample as nat),
    ensures
        r == normalized(sample, bits_per_sample as nat),
{
    proof {
        lemma_negative_range_bound(bits_per_sample as nat);
    }
    let negative = negative_range_of(bits_per_sample);
    if sample < 0 {
        Fraction { numerator: sample, denominator: negative }
    } else {
        Fraction { numerator: sample, denominator: negative - 1 }
    }
}

/// The most negative sample normalises to exactly -1, the most positive to
/// exactly +1, and zero to zero.
pub proof fn lemma_normalize_extremes(bits: nat)
    requires
        supported_int_bits(bits),
    ensures
        ({
            let lowest = normalized((-(negative_range(bits) as int)) as i32, bits);
            lowest.numerator == -(lowest.denominator as int) && lowest.denominator > 0
        }),
        ({
            let highest = normalized(positive_range(bits) as i32, bits);
            highest.numerator == highest.denominator as int && highest.denominator > 0
        }),
        ({
            let zero = normalized(0, bits);
            zero.numerator == 0 && zero.denominator > 0
        }),
{
    lemma_negative_range_bound(bits);
}

/// A sample within the range of its bit depth normalises to a value in
/// [-1, 1], of the sample's sign.
pub proof fn lemma_normalized_in_unit_range(s: i32, bits: nat)
    requires
        supported_int_bits(bits),
        in_sample_range(s, bits),
    ensures
        in_unit_range(normalized(s, bits)),
        (normalized(s, bits).numerator < 0) == (s < 0),
{
    lemma_negative_range_bound(bits);
}

} // verus!
