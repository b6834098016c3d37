use ziggurat_mind::fixed::UNIT;
use ziggurat_mind::similarity::{component, cosine_similarity, exponent, isqrt, top_exponent};

fn bits(values: &[f32]) -> Vec<u32> {
    values.iter().map(|v| v.to_bits()).collect()
}

#[test]
fn vector_store_test_cosine_similarity() {
    let a = bits(&[1.0, 0.0, 0.0]);
    let b = bits(&[0.0, 1.0, 0.0]);
    let c = bits(&[1.0, 0.0, 0.0]);
    let d = bits(&[2.0, 0.0, 0.0]);

    assert_eq!(cosine_similarity(&a, &b), 0);
    assert_eq!(cosine_similarity(&a, &c), UNIT);
    assert_eq!(cosine_similarity(&a, &d), UNIT);
}

#[test]
fn exponents_of_words_and_embeddings() {
    assert_eq!(exponent(1.0f32.to_bits()), 127);
    assert_eq!(exponent((-1.0f32).to_bits()), 127);
    assert_eq!(exponent(2.0f32.to_bits()), 128);
    assert_eq!(exponent(0.5f32.to_bits()), 126);
    assert_eq!(exponent(0.0f32.to_bits()), 0);
    assert_eq!(exponent((-0.0f32).to_bits()), 0);
    // subnormal words count as of the smallest normal exponent
    assert_eq!(exponent(1), 1);
    assert_eq!(exponent(0x0080_0000), 1);
    assert_eq!(exponent(f32::INFINITY.to_bits()), 255);
    assert_eq!(exponent(1.0e-6f32.to_bits()), 107);

    assert_eq!(top_exponent(&[]), 0);
    assert_eq!(top_exponent(&bits(&[0.0, -0.0])), 0);
    assert_eq!(top_exponent(&bits(&[0.5, -4.0, 1.0])), 129);
    assert_eq!(top_exponent(&bits(&[1.0e-6, 0.0])), 107);
}

#[test]
fn component_reads_in_the_scale_of_the_largest_exponent() {
    // in its own scale a word is its significand, 24 bits wide
    assert_eq!(component(1.0f32.to_bits(), 127), 0x80_0000);
    assert_eq!(component((-1.0f32).to_bits(), 127), -0x80_0000);
    assert_eq!(component(1.5f32.to_bits(), 127), 0xc0_0000);
    assert_eq!(component(1.0e-6f32.to_bits(), 107), 0x86_37bd);
    assert_eq!(component(f32::INFINITY.to_bits(), 255), 0x80_0000);
    assert_eq!(component(f32::NEG_INFINITY.to_bits(), 255), -0x80_0000);
    // one exponent below the largest, it is half of that
    assert_eq!(component(0.5f32.to_bits(), 127), 0x40_0000);
    assert_eq!(component(1.5f32.to_bits(), 128), 0x60_0000);
    assert_eq!(component(3.0f32.to_bits(), 128), 0xc0_0000);
    // the bits that fall below one are dropped
    assert_eq!(component(1.0f32.to_bits(), 150), 1);
    assert_eq!(component(1.5f32.to_bits(), 150), 1);
    assert_eq!(component(1.0f32.to_bits(), 151), 0);
    assert_eq!(component(1.0f32.to_bits(), 255), 0);
    // zero is zero in every scale, and subnormal words have no hidden bit
    assert_eq!(component(0.0f32.to_bits(), 127), 0);
    assert_eq!(component((-0.0f32).to_bits(), 0), 0);
    assert_eq!(component(1, 1), 1);
    assert_eq!(component(0x8000_0003, 1), -3);
    assert_eq!(component(0x007f_ffff, 2), 0x3f_ffff);
    // a scale below the word's own exponent is no scale for it
    assert_eq!(component(1.0f32.to_bits(), 126), 0);
}

#[test]
fn small_and_large_embeddings_score_like_any_other() {
    let tiny = bits(&[1.0e-6]);
    assert_eq!(cosine_similarity(&tiny, &tiny), UNIT);
    let faint = bits(&[1.0e-30, -2.0e-30, 3.0e-30]);
    assert_eq!(cosine_similarity(&faint, &faint), UNIT);
    let subnormal = vec![1u32, 2, 3];
    assert_eq!(cosine_similarity(&subnormal, &subnormal), UNIT);
    let huge = bits(&[1.0e30, 2.0e30]);
    assert_eq!(cosine_similarity(&huge, &huge), UNIT);
    // scaling one side changes nothing
    assert_eq!(cosine_similarity(&bits(&[1.0e-6, 2.0e-6]), &bits(&[2.0e6, 1.0e6])), 800_000);
    assert_eq!(cosine_similarity(&bits(&[1.0, 2.0]), &bits(&[2.0, 1.0])), 800_000);
    assert_eq!(cosine_similarity(&tiny, &bits(&[-5.0e20])), -UNIT);
    assert_eq!(cosine_similarity(&tiny, &bits(&[0.0])), 0);
}

#[test]
fn isqrt_is_exact() {
    assert_eq!(isqrt(0), 0);
    assert_eq!(isqrt(1), 1);
    assert_eq!(isqrt(3), 1);
    assert_eq!(isqrt(4), 2);
    assert_eq!(isqrt(99), 9);
    assert_eq!(isqrt(100), 10);
    assert_eq!(isqrt(u128::MAX), u64::MAX);
}

#[test]
fn cosine_of_opposite_and_skewed_vectors() {
    let a = bits(&[1.0, 2.0, 3.0]);
    let b = bits(&[-1.0, -2.0, -3.0]);
    assert_eq!(cosine_similarity(&a, &b), -UNIT);
    // 45 degrees: 1/sqrt(2) = 0.70710678..., rounded down to millionths
    let x = bits(&[1.0, 0.0]);
    let y = bits(&[1.0, 1.0]);
    assert_eq!(cosine_similarity(&x, &y), 707_106);
    assert_eq!(cosine_similarity(&y, &x), 707_106);
}

#[test]
fn cosine_with_zero_vector_or_other_length_is_zero() {
    let zero = bits(&[0.0, 0.0, 0.0]);
    let a = bits(&[1.0, 2.0, 3.0]);
    assert_eq!(cosine_similarity(&zero, &a), 0);
    assert_eq!(cosine_similarity(&a, &zero), 0);
    assert_eq!(cosine_similarity(&zero, &zero), 0);
    assert_eq!(cosine_similarity(&a, &bits(&[1.0, 2.0])), 0);
    assert_eq!(cosine_similarity(&[], &[]), 0);
}

#[test]
fn cosine_stays_in_range_and_self_is_one() {
    let vectors = [
        bits(&[0.3, -0.2, 0.9, 0.01]),
        bits(&[12.5, 100.0, -7.0, 3.0]),
        bits(&[0.001, 0.002, 0.003, 0.004]),
        bits(&[-5.0, 5.0, -5.0, 5.0]),
    ];
    for a in &vectors {
        assert_eq!(cosine_similarity(a, a), UNIT);
        for b in &vectors {
            let s = cosine_similarity(a, b);
            assert!(-UNIT <= s && s <= UNIT);
        }
    }
}
