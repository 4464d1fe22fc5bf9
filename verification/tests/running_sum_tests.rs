use orchard_action::running_sum::{decompose_word, RunningSumConfig};

fn u128_to_bits(v: u128, n: usize) -> Vec<bool> {
    let mut out = Vec::new();
    for i in 0..n {
        if i < 128 {
            out.push((v >> i) & 1 == 1);
        } else {
            out.push(false);
        }
    }
    out
}

fn bits_to_u128(bits: &[bool]) -> u128 {
    let mut acc: u128 = 0;
    for (i, b) in bits.iter().enumerate() {
        if *b {
            assert!(i < 128);
            acc += 1u128 << i;
        }
    }
    acc
}

#[test]
fn test_running_sum() {
    let config = RunningSumConfig::configure(3);

    // A word that uses all 255 bits: strict full decomposition (85
    // windows of 3 bits) succeeds.
    {
        let mut bits = vec![false; 255];
        for i in 0..255 {
            bits[i] = i % 3 == 0 || i % 7 == 0;
        }
        let rs = config.witness_decompose(&bits, true, 255, 85);
        assert!(rs.strict_satisfied(85));
    }

    // A 64-bit word: strict decomposition over 22 windows succeeds.
    {
        let alpha: u128 = 0xdeadbeef_cafef00d;
        let bits = u128_to_bits(alpha, 64);
        let rs = config.witness_decompose(&bits, true, 64, 22);
        assert!(rs.strict_satisfied(22));
    }

    // 2^66 does not fit in 22 windows of 3 bits: the strict final
    // constraint `z = 0` is violated at row 22, while a non-strict
    // decomposition of the same value is unconstrained there.
    {
        let alpha: u128 = 1 << 66;
        let bits = u128_to_bits(alpha, 255);
        let rs = config.witness_decompose(&bits, true, 255, 22);
        assert!(!rs.strict_satisfied(22));

        let rs = config.witness_decompose(&bits, false, 255, 22);
        assert!(rs.strict_satisfied(22));
    }
}

#[test]
fn running_sum_values() {
    let config = RunningSumConfig::configure(3);
    let alpha: u128 = 0b101_110_011;
    let bits = u128_to_bits(alpha, 9);
    let rs = config.witness_decompose(&bits, true, 9, 3);
    assert_eq!(rs.zs.len(), 3);
    assert_eq!(bits_to_u128(&rs.zs[0]), alpha >> 3);
    assert_eq!(bits_to_u128(&rs.zs[1]), alpha >> 6);
    assert_eq!(bits_to_u128(&rs.zs[2]), 0);
    assert!(rs.strict_satisfied(3));
}

#[test]
fn copy_decompose_matches_witness_decompose() {
    let config = RunningSumConfig::configure(2);
    let bits = u128_to_bits(0b10_01_11, 6);
    let a = config.witness_decompose(&bits, true, 6, 3);
    let b = config.copy_decompose(&bits, true, 6, 3);
    assert_eq!(a.zs, b.zs);
    assert_eq!(a.strict, b.strict);
}

#[test]
fn decompose_word_extracts_windows() {
    // 0b101_110_011 in 3-bit windows, little-endian: 0b011, 0b110, 0b101.
    let bits = u128_to_bits(0b101_110_011, 9);
    let windows = decompose_word(&bits, 3);
    assert_eq!(windows, vec![0b011, 0b110, 0b101]);

    // A word whose width is not a multiple of the window size: the last
    // window carries the leftover high bits.
    let bits = u128_to_bits(0b1_011, 4);
    let windows = decompose_word(&bits, 3);
    assert_eq!(windows, vec![0b011, 0b1]);
}

#[test]
fn windows_reconstruct_the_word() {
    // The weighted window sum rebuilds the decomposed word exactly.
    let alpha: u128 = 371;
    let bits = u128_to_bits(alpha, 9);
    let windows = decompose_word(&bits, 3);
    let mut sum: u128 = 0;
    for (i, w) in windows.iter().enumerate() {
        sum += (*w as u128) << (3 * i);
    }
    assert_eq!(sum, alpha);
}
