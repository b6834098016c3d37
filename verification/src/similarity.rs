//! Cosine similarity of embeddings, in exact integer arithmetic.
//!
//! An embedding is a sequence of 32-bit words, each the IEEE-754 single
//! precision encoding of one component, exactly as the embedding archive
//! stores them. The similarity of two embeddings does not change when one of
//! them is scaled, so each embedding is first scaled by a power of two that
//! brings its largest component to 24 significant bits; every component is
//! then an integer below 2^24 (smaller components lose the bits that fall
//! below one), and the similarity is computed on those integers. However
//! small or large the components are, an embedding with a word other than
//! zero is never read as the zero vector.

use vstd::prelude::*;
use vstd::arithmetic::div_mod::lemma_fundamental_div_mod;
use vstd::arithmetic::div_mod::lemma_fundamental_div_mod_converse;
use crate::fixed::UNIT;

verus! {

/// Every component, as it is read, lies strictly within this limit: 2^24.
pub const COMPONENT_LIMIT: i64 = 0x100_0000;

/// Whether a word encodes zero, of either sign.
pub open spec fn is_zero_word(bits: u32) -> bool {
    bits & 0x7fff_ffff == 0
}

/// The exponent of a word as it counts for scaling: the biased exponent of
/// its encoding, but 1 for subnormal words, whose significand has no hidden
/// bit, and 0 for zero.
pub open spec fn exponent_spec(bits: u32) -> u32 {
    if is_zero_word(bits) {
        0
    } else if (bits >> 23) & 0xff == 0 {
        1
    } else {
        (bits >> 23) & 0xff
    }
}

/// The significand of a word: its 23 fraction bits, under the hidden bit
/// unless the word is subnormal or zero.
pub open spec fn significand_spec(bits: u32) -> u32 {
    if (bits >> 23) & 0xff == 0 {
        bits & 0x7f_ffff
    } else {
        (bits & 0x7f_ffff) | 0x80_0000
    }
}

/// The largest exponent among the words of an embedding; 0 where every word
/// is zero.
pub open spec fn top_exponent_spec(a: Seq<u32>) -> u32
    decreases a.len(),
{
    if a.len() == 0 {
        0
    } else {
        let rest = top_exponent_spec(a.drop_last());
        if exponent_spec(a.last()) > rest {
            exponent_spec(a.last())
        } else {
            rest
        }
    }
}

/// Magnitude of a word in an embedding whose largest exponent is `top`: the
/// significand, shifted down by as many bits as the word's exponent lies
/// below `top`, the bits below one dropped.
pub open spec fn magnitude_spec(bits: u32, top: u32) -> u32 {
    let exponent = exponent_spec(bits);
    if exponent == 0 || exponent > top || top - exponent >= 24 {
        0
    } else {
        significand_spec(bits) >> ((top - exponent) as u32)
    }
}

/// Signed value of a word in an embedding whose largest exponent is `top`.
pub open spec fn component_spec(bits: u32, top: u32) -> int {
    if bits >> 31 == 1 {
        -(magnitude_spec(bits, top) as int)
    } else {
        magnitude_spec(bits, top) as int
    }
}

/// The exponent of a word as it counts for scaling.
pub fn exponent(bits: u32) -> (exponent: u32)
    ensures
        exponent == exponent_spec(bits),
        exponent <= 255,
{
    let biased: u32 = (bits >> 23) & 0xff;
    assert(biased <= 255) by (bit_vector)
        requires
            biased == (bits >> 23) & 0xff,
    ;
    if bits & 0x7fff_ffff == 0 {
        0
    } else if biased == 0 {
        1
    } else {
        biased
    }
}

/// The largest exponent among the words of an embedding.
pub fn top_exponent(a: &[u32]) -> (top: u32)
    ensures
        top == top_exponent_spec(a@),
        top <= 255,
{
    let mut top: u32 = 0;
    let mut i: usize = 0;
    while i < a.len()
        invariant
            i <= a.len(),
            top == top_exponent_spec(a@.take(i as int)),
            top <= 255,
        decreases a.len() - i,
    {
        proof {
            assert(a@.take(i + 1).drop_last() =~= a@.take(i as int));
            assert(a@.take(i + 1).last() == a@[i as int]);
        }
        let here = exponent(a[i]);
        if here > top {
            top = here;
        }
        i = i + 1;
    }
    proof {
        assert(a@.take(i as int) =~= a@);
    }
    top
}

/// Reads a word of an embedding whose largest exponent is `top` as a signed
/// integer.
pub fn component(bits: u32, top: u32) -> (value: i64)
    ensures
        value == component_spec(bits, top),
        -COMPONENT_LIMIT < value < COMPONENT_LIMIT,
{
    let biased: u32 = (bits >> 23) & 0xff;
    let fraction: u32 = bits & 0x7f_ffff;
    let significand: u32 = if biased == 0 {
        fraction
    } else {
        fraction | 0x80_0000
    };
    assert(significand < 0x100_0000) by (bit_vector)
        requires
            significand == bits & 0x7f_ffff || significand == (bits & 0x7f_ffff) | 0x80_0000,
    ;
    let own = exponent(bits);
    let magnitude: u32 = if own == 0 || own > top || top - own >= 24 {
        0
    } else {
        let shift: u32 = top - own;
        assert(significand >> shift < 0x100_0000) by (bit_vector)
            requires
                significand < 0x100_0000,
                shift < 24,
        ;
        significand >> shift
    };
    if bits >> 31 == 1 {
        -(magnitude as i64)
    } else {
        magnitude as i64
    }
}

/// Dot product of two embeddings whose largest exponents are `top_a` and
/// `top_b`, over their components as they are read. Where the lengths
/// differ, the longer one's tail is paired from the back; callers pass equal
/// lengths.
pub open spec fn dot_spec(a: Seq<u32>, b: Seq<u32>, top_a: u32, top_b: u32) -> int
    decreases a.len(),
{
    if a.len() == 0 || b.len() == 0 {
        0
    } else {
        dot_spec(a.drop_last(), b.drop_last(), top_a, top_b) + component_spec(a.last(), top_a)
            * component_spec(b.last(), top_b)
    }
}

/// Squared length of an embedding, in the scale that its largest exponent
/// gives.
pub open spec fn norm_sq_spec(a: Seq<u32>) -> int {
    dot_spec(a, a, top_exponent_spec(a), top_exponent_spec(a))
}

/// An embedding is zero when every word of it encodes zero.
pub open spec fn is_zero_vector(a: Seq<u32>) -> bool {
    forall|i: int| 0 <= i < a.len() ==> is_zero_word(#[trigger] a[i])
}

/// No word of an embedding has an exponent above the largest; and unless the
/// embedding is zero, the largest is the exponent of one of its words.
pub proof fn lemma_top_exponent(a: Seq<u32>)
    ensures
        forall|i: int| 0 <= i < a.len() ==> exponent_spec(#[trigger] a[i]) <= top_exponent_spec(a),
        !is_zero_vector(a) ==> exists|j: int|
            0 <= j < a.len() && !is_zero_word(a[j]) && exponent_spec(#[trigger] a[j])
                == top_exponent_spec(a),
        is_zero_vector(a) ==> top_exponent_spec(a) == 0,
    decreases a.len(),
{
    if a.len() > 0 {
        let rest = a.drop_last();
        lemma_top_exponent(rest);
        assert forall|i: int| 0 <= i < a.len() implies exponent_spec(#[trigger] a[i])
            <= top_exponent_spec(a) by {
            if i < rest.len() {
                assert(rest[i] == a[i]);
            }
        }
        if is_zero_vector(a) {
            assert(is_zero_word(a[a.len() - 1]));
            assert forall|i: int| 0 <= i < rest.len() implies is_zero_word(#[trigger] rest[i]) by {
                assert(rest[i] == a[i]);
            }
        } else {
            if exponent_spec(a.last()) > top_exponent_spec(rest) {
                let j = a.len() - 1;
                assert(!is_zero_word(a[j]) && exponent_spec(a[j]) == top_exponent_spec(a));
            } else {
                if is_zero_vector(rest) {
                    assert(!is_zero_word(a.last())) by {
                        if is_zero_word(a.last()) {
                            assert forall|i: int| 0 <= i < a.len() implies is_zero_word(
                                #[trigger] a[i],
                            ) by {
                                if i < rest.len() {
                                    assert(rest[i] == a[i]);
                                }
                            }
                        }
                    }
                    lemma_exponent_of_nonzero(a.last());
                } else {
                    let j = choose|j: int|
                        0 <= j < rest.len() && !is_zero_word(rest[j]) && exponent_spec(
                            #[trigger] rest[j],
                        ) == top_exponent_spec(rest);
                    assert(rest[j] == a[j]);
                    assert(!is_zero_word(a[j]) && exponent_spec(a[j]) == top_exponent_spec(a));
                }
            }
        }
    }
}

/// A word other than zero has an exponent of at least 1 and a significand
/// of at least 1.
pub proof fn lemma_exponent_of_nonzero(bits: u32)
    requires
        !is_zero_word(bits),
    ensures
        1 <= exponent_spec(bits) <= 255,
        1 <= significand_spec(bits),
        magnitude_spec(bits, exponent_spec(bits)) >= 1,
{
    let biased = (bits >> 23) & 0xff;
    assert(biased <= 255) by (bit_vector)
        requires
            biased == (bits >> 23) & 0xff,
    ;
    assert(((bits & 0x7f_ffff) | 0x80_0000) >= 1) by (bit_vector);
    assert(biased == 0 && bits & 0x7fff_ffff != 0 ==> bits & 0x7f_ffff != 0) by (bit_vector)
        requires
            biased == (bits >> 23) & 0xff,
    ;
    let significand = significand_spec(bits);
    assert(significand >> 0u32 == significand) by (bit_vector);
}

/// The dot product of an embedding with itself is never negative, and never
/// less than the square of one of its components.
pub proof fn lemma_norm_covers(a: Seq<u32>, top: u32, j: int)
    requires
        0 <= j < a.len(),
    ensures
        dot_spec(a, a, top, top) >= component_spec(a[j], top) * component_spec(a[j], top) >= 0,
    decreases a.len(),
{
    let rest = a.drop_last();
    let c = component_spec(a.last(), top);
    assert(c * c >= 0) by (nonlinear_arith);
    lemma_dot_of_self(rest, top);
    if j < rest.len() {
        lemma_norm_covers(rest, top, j);
        assert(rest[j] == a[j]);
    }
}

/// The dot product of an embedding with itself is never negative.
pub proof fn lemma_dot_of_self(a: Seq<u32>, top: u32)
    ensures
        dot_spec(a, a, top, top) >= 0,
    decreases a.len(),
{
    if a.len() > 0 {
        lemma_dot_of_self(a.drop_last(), top);
        let c = component_spec(a.last(), top);
        assert(c * c >= 0) by (nonlinear_arith);
    }
}

/// The dot product with a zero vector is zero.
pub proof fn lemma_dot_with_zero(a: Seq<u32>, b: Seq<u32>, top_a: u32, top_b: u32)
    requires
        is_zero_vector(a) || is_zero_vector(b),
    ensures
        dot_spec(a, b, top_a, top_b) == 0,
    decreases a.len(),
{
    if a.len() > 0 && b.len() > 0 {
        let rest_a = a.drop_last();
        let rest_b = b.drop_last();
        if is_zero_vector(a) {
            assert(is_zero_word(a[a.len() - 1]));
            assert forall|i: int| 0 <= i < rest_a.len() implies is_zero_word(
                #[trigger] rest_a[i],
            ) by {
                assert(rest_a[i] == a[i]);
            }
        } else {
            assert(is_zero_word(b[b.len() - 1]));
            assert forall|i: int| 0 <= i < rest_b.len() implies is_zero_word(
                #[trigger] rest_b[i],
            ) by {
                assert(rest_b[i] == b[i]);
            }
        }
        lemma_dot_with_zero(rest_a, rest_b, top_a, top_b);
        let x = component_spec(a.last(), top_a);
        let y = component_spec(b.last(), top_b);
        assert(x * y == 0) by (nonlinear_arith)
            requires
                x == 0 || y == 0,
        ;
    }
}

/// The squared length is never negative, and it is zero exactly for zero vectors.
pub proof fn lemma_norm_sq_zero(a: Seq<u32>)
    ensures
        norm_sq_spec(a) >= 0,
        norm_sq_spec(a) == 0 <==> is_zero_vector(a),
{
    let top = top_exponent_spec(a);
    lemma_dot_of_self(a, top);
    lemma_top_exponent(a);
    if is_zero_vector(a) {
        lemma_dot_with_zero(a, a, top, top);
    } else {
        let j = choose|j: int|
            0 <= j < a.len() && !is_zero_word(a[j]) && exponent_spec(#[trigger] a[j])
                == top_exponent_spec(a);
        lemma_exponent_of_nonzero(a[j]);
        lemma_norm_covers(a, top, j);
        let c = component_spec(a[j], top);
        assert(c * c >= 1) by (nonlinear_arith)
            requires
                c >= 1 || c <= -1,
        ;
    }
}

/// Largest integer whose square does not exceed `x`.
pub open spec fn isqrt_spec(x: nat) -> nat
    decreases x,
{
    if x == 0 {
        0
    } else {
        let r = isqrt_spec((x - 1) as nat);
        if (r + 1) * (r + 1) <= x {
            r + 1
        } else {
            r
        }
    }
}

/// The integer square root brackets its argument.
pub proof fn lemma_isqrt_brackets(x: nat)
    ensures
        isqrt_spec(x) * isqrt_spec(x) <= x < (isqrt_spec(x) + 1) * (isqrt_spec(x) + 1),
    decreases x,
{
    if x > 0 {
        lemma_isqrt_brackets((x - 1) as nat);
        let r = isqrt_spec((x - 1) as nat);
        if (r + 1) * (r + 1) <= x {
            assert(x <= (r + 1) * (r + 1));
            assert((r + 1) * (r + 1) < (r + 2) * (r + 2)) by (nonlinear_arith)
                requires
                    r >= 0,
            ;
        }
    } else {
        assert(0 * 0 == 0) by (nonlinear_arith);
        assert((0 + 1) * (0 + 1) == 1) by (nonlinear_arith);
    }
}

/// Only one integer brackets `x` between its square and its successor's square.
pub proof fn lemma_isqrt_unique(x: nat, r: nat)
    requires
        r * r <= x < (r + 1) * (r + 1),
    ensures
        r == isqrt_spec(x),
{
    lemma_isqrt_brackets(x);
    let s = isqrt_spec(x);
    if r < s {
        assert((r + 1) * (r + 1) <= s * s) by (nonlinear_arith)
            requires
                0 <= r + 1 <= s,
        ;
    }
    if s < r {
        assert((s + 1) * (s + 1) <= r * r) by (nonlinear_arith)
            requires
                0 <= s + 1 <= r,
        ;
    }
}

/// Integer square root.
pub fn isqrt(x: u128) -> (root: u64)
    ensures
        root == isqrt_spec(x as nat),
{
    let mut low: u128 = 0;
    let mut high: u128 = 0x1_0000_0000_0000_0000;
    assert(0 * 0 == 0) by (nonlinear_arith);
    assert(0x1_0000_0000_0000_0000int * 0x1_0000_0000_0000_0000int
        == 0x1_0000_0000_0000_0000_0000_0000_0000_0000int) by (nonlinear_arith);
    while high - low > 1
        invariant
            low < high <= 0x1_0000_0000_0000_0000,
            low * low <= x < high * high,
        decreases high - low,
    {
        let middle: u128 = low + (high - low) / 2;
        assert(middle * middle <= 0xffff_ffff_ffff_ffff * 0xffff_ffff_ffff_ffff) by (nonlinear_arith)
            requires
                0 <= middle <= 0xffff_ffff_ffff_ffff,
        ;
        if middle * middle <= x {
            low = middle;
        } else {
            high = middle;
        }
    }
    proof {
        lemma_isqrt_unique(x as nat, low as nat);
    }
    low as u64
}

/// Cosine similarity in millionths: the dot product over the product of the two
/// integer lengths, each embedding in the scale that its own largest exponent
/// gives; truncated toward zero and held within `-UNIT ..= UNIT`. Embeddings
/// of different lengths, and any pairing with a zero vector, score 0.
pub open spec fn cosine_spec(a: Seq<u32>, b: Seq<u32>) -> int {
    let dot = dot_spec(a, b, top_exponent_spec(a), top_exponent_spec(b));
    let scale = isqrt_spec(norm_sq_spec(a) as nat) * isqrt_spec(norm_sq_spec(b) as nat);
    if a.len() != b.len() || scale == 0 {
        0
    } else if dot >= 0 {
        if dot >= scale {
            UNIT as int
        } else {
            (dot * UNIT) / (scale as int)
        }
    } else {
        if -dot >= scale {
            -(UNIT as int)
        } else {
            -(((-dot) * UNIT) / (scale as int))
        }
    }
}

/// Dot product of two embeddings of equal length, read in the scales that
/// `top_a` and `top_b` give.
fn dot(a: &[u32], b: &[u32], top_a: u32, top_b: u32) -> (sum: i128)
    requires
        a@.len() == b@.len(),
    ensures
        sum == dot_spec(a@, b@, top_a, top_b),
        -(a@.len() * 0x1_0000_0000_0000) <= sum <= a@.len() * 0x1_0000_0000_0000,
{
    let n = a.len();
    let mut sum: i128 = 0;
    let mut i: usize = 0;
    while i < n
        invariant
            i <= n,
            n == a@.len(),
            n == b@.len(),
            sum == dot_spec(a@.take(i as int), b@.take(i as int), top_a, top_b),
            -(i * 0x1_0000_0000_0000) <= sum <= i * 0x1_0000_0000_0000,
        decreases n - i,
    {
        let x = component(a[i], top_a);
        let y = component(b[i], top_b);
        proof {
            assert(a@.take(i + 1).drop_last() =~= a@.take(i as int));
            assert(b@.take(i + 1).drop_last() =~= b@.take(i as int));
            assert(a@.take(i + 1).last() == a@[i as int]);
            assert(b@.take(i + 1).last() == b@[i as int]);
            assert(-0x1_0000_0000_0000 <= x * y <= 0x1_0000_0000_0000) by (nonlinear_arith)
                requires
                    -0x100_0000 <= x <= 0x100_0000,
                    -0x100_0000 <= y <= 0x100_0000,
            ;
            assert((i + 1) * 0x1_0000_0000_0000 == i * 0x1_0000_0000_0000 + 0x1_0000_0000_0000)
                by (nonlinear_arith);
        }
        sum = sum + (x as i128) * (y as i128);
        i = i + 1;
    }
    proof {
        assert(a@.take(n as int) =~= a@);
        assert(b@.take(n as int) =~= b@);
    }
    sum
}

/// Ten to the power of `digits`, for the six digits of a millionth.
spec fn power_of_ten(digits: u32) -> int {
    if digits == 0 {
        1
    } else if digits == 1 {
        10
    } else if digits == 2 {
        100
    } else if digits == 3 {
        1_000
    } else if digits == 4 {
        10_000
    } else if digits == 5 {
        100_000
    } else {
        1_000_000
    }
}

/// `numerator * UNIT / denominator`, rounded down, by long division in base ten:
/// no intermediate value exceeds ten times the denominator.
fn scaled_ratio(numerator: u128, denominator: u128) -> (quotient: i64)
    requires
        numerator < denominator,
        denominator <= 0x1000_0000_0000_0000_0000_0000_0000_0000,
    ensures
        quotient == (numerator * UNIT) / (denominator as int),
        0 <= quotient < UNIT,
{
    let mut quotient: i64 = 0;
    let mut remainder: u128 = numerator;
    let mut power: i64 = 1;
    let mut digits: u32 = 0;
    while digits < 6
        invariant
            digits <= 6,
            0 < denominator <= 0x1000_0000_0000_0000_0000_0000_0000_0000,
            remainder < denominator,
            0 <= quotient < power,
            power == power_of_ten(digits),
            quotient * denominator + remainder == numerator * power,
        decreases 6 - digits,
    {
        let scaled: u128 = remainder * 10;
        let digit: u128 = scaled / denominator;
        let rest: u128 = scaled % denominator;
        proof {
            lemma_fundamental_div_mod(scaled as int, denominator as int);
            assert(digit < 10) by (nonlinear_arith)
                requires
                    scaled == denominator * digit + rest,
                    scaled < 10 * denominator,
                    0 <= rest,
                    0 < denominator,
            ;
            assert((quotient * 10 + digit) * denominator + rest == numerator * (power * 10))
                by (nonlinear_arith)
                requires
                    quotient * denominator + remainder == numerator * power,
                    remainder * 10 == denominator * digit + rest,
            ;
        }
        quotient = quotient * 10 + digit as i64;
        remainder = rest;
        power = power * 10;
        digits = digits + 1;
    }
    proof {
        assert(numerator * 1_000_000 == denominator * quotient + remainder) by (nonlinear_arith)
            requires
                quotient * denominator + remainder == numerator * 1_000_000,
        ;
        lemma_fundamental_div_mod_converse(
            numerator * 1_000_000,
            denominator as int,
            quotient as int,
            remainder as int,
        );
    }
    quotient
}

/// Cosine similarity of two embeddings, in millionths.
pub fn cosine_similarity(a: &[u32], b: &[u32]) -> (score: i64)
    ensures
        score == cosine_spec(a@, b@),
        -UNIT <= score <= UNIT,
{
    if a.len() != b.len() {
        return 0;
    }
    let top_a = top_exponent(a);
    let top_b = top_exponent(b);
    let product = dot(a, b, top_a, top_b);
    let norm_a = dot(a, a, top_a, top_a);
    let norm_b = dot(b, b, top_b, top_b);
    proof {
        lemma_dot_of_self(a@, top_a);
        lemma_dot_of_self(b@, top_b);
    }
    assert(a@.len() * 0x1_0000_0000_0000 <= 0xffff_ffff_ffff_ffff * 0x1_0000_0000_0000)
        by (nonlinear_arith)
        requires
            a@.len() <= 0xffff_ffff_ffff_ffff,
    ;
    let length_a = isqrt(norm_a as u128);
    let length_b = isqrt(norm_b as u128);
    proof {
        lemma_isqrt_brackets(norm_a as nat);
        lemma_isqrt_brackets(norm_b as nat);
        let la = length_a as int;
        let lb = length_b as int;
        assert(la < 0x100_0000_0000_0000) by (nonlinear_arith)
            requires
                la * la <= 0xffff_ffff_ffff_ffff * 0x1_0000_0000_0000,
                0 <= la,
        ;
        assert(lb < 0x100_0000_0000_0000) by (nonlinear_arith)
            requires
                lb * lb <= 0xffff_ffff_ffff_ffff * 0x1_0000_0000_0000,
                0 <= lb,
        ;
        assert(la * lb <= 0x100_0000_0000_0000 * 0x100_0000_0000_0000) by (nonlinear_arith)
            requires
                0 <= la < 0x100_0000_0000_0000,
                0 <= lb < 0x100_0000_0000_0000,
        ;
    }
    let scale: u128 = (length_a as u128) * (length_b as u128);
    if scale == 0 {
        return 0;
    }
    if product >= 0 {
        let magnitude = product as u128;
        if magnitude >= scale {
            UNIT
        } else {
            scaled_ratio(magnitude, scale)
        }
    } else {
        let magnitude = (-product) as u128;
        if magnitude >= scale {
            -UNIT
        } else {
            -scaled_ratio(magnitude, scale)
        }
    }
}

/// A similarity never leaves the range from minus one to one.
pub proof fn lemma_cosine_bounds(a: Seq<u32>, b: Seq<u32>)
    ensures
        -UNIT <= cosine_spec(a, b) <= UNIT,
{
    let dot = dot_spec(a, b, top_exponent_spec(a), top_exponent_spec(b));
    let scale = (isqrt_spec(norm_sq_spec(a) as nat) * isqrt_spec(norm_sq_spec(b) as nat)) as int;
    if a.len() != b.len() || scale == 0 {
    } else if dot >= 0 {
        if dot < scale {
            lemma_ratio_below_unit(dot, scale);
        }
    } else {
        if -dot < scale {
            lemma_ratio_below_unit(-dot, scale);
        }
    }
}

proof fn lemma_ratio_below_unit(numerator: int, denominator: int)
    requires
        0 <= numerator < denominator,
    ensures
        0 <= (numerator * UNIT) / denominator < UNIT,
{
    let q = (numerator * 1_000_000) / denominator;
    lemma_fundamental_div_mod(numerator * 1_000_000, denominator);
    let r = (numerator * 1_000_000) % denominator;
    assert(0 <= r < denominator);
    assert(q >= 0) by (nonlinear_arith)
        requires
            numerator * 1_000_000 == denominator * q + r,
            0 <= numerator,
            0 <= r < denominator,
    ;
    assert(q < 1_000_000) by (nonlinear_arith)
        requires
            numerator * 1_000_000 == denominator * q + r,
            0 <= numerator < denominator,
            0 <= r < denominator,
    ;
}

/// Any embedding with a word other than zero is as similar to itself as can
/// be, however small or large its components are.
pub proof fn lemma_cosine_of_self(a: Seq<u32>)
    requires
        !is_zero_vector(a),
    ensures
        cosine_spec(a, a) == UNIT,
{
    lemma_norm_sq_zero(a);
    let norm = norm_sq_spec(a) as nat;
    lemma_isqrt_brackets(norm);
    let root = isqrt_spec(norm);
    if root == 0 {
        assert((0 + 1) * (0 + 1) == 1) by (nonlinear_arith);
    }
    assert(root * root > 0) by (nonlinear_arith)
        requires
            root > 0,
    ;
}

/// A zero vector is similar to nothing, not even to itself.
pub proof fn lemma_cosine_of_zero(a: Seq<u32>, b: Seq<u32>)
    requires
        is_zero_vector(a) || is_zero_vector(b),
    ensures
        cosine_spec(a, b) == 0,
{
    lemma_norm_sq_zero(a);
    lemma_norm_sq_zero(b);
    let root_a = isqrt_spec(norm_sq_spec(a) as nat);
    let root_b = isqrt_spec(norm_sq_spec(b) as nat);
    assert(isqrt_spec(0) == 0);
    assert(root_a * root_b == 0) by (nonlinear_arith)
        requires
            root_a == 0 || root_b == 0,
    ;
}

} // verus!
