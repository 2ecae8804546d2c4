use bitvector_search::fingerprint::hamming;
use bitvector_search::fingerprint::hamming64;
use bitvector_search::fingerprint::popcount;
use bitvector_search::fingerprint::quantize;
use bitvector_search::fingerprint::quantize64;
use bitvector_search::fingerprint::Fingerprint;

fn signs_of(bits: &[u8]) -> Vec<bool> {
    bits.iter().map(|&b| b != 0).collect()
}

#[test]
fn quantize_packs_bits_in_word_order() {
    // bits 0, 2 and 64 set: word 0 = 0b101, word 1 = 0b1
    let mut signs = vec![false; 65];
    signs[0] = true;
    signs[2] = true;
    signs[64] = true;
    let fp = quantize(&signs);
    assert_eq!(fp.width(), 2);
    assert_eq!(fp.word(0), 0b101u64);
    assert_eq!(fp.word(1), 1u64);
}

#[test]
fn quantize_is_deterministic() {
    let signs = signs_of(&[1, 0, 1, 1, 0, 0, 1, 0, 1]);
    let a = quantize(&signs);
    let b = quantize(&signs);
    assert_eq!(a.width(), b.width());
    for i in 0..a.width() {
        assert_eq!(a.word(i), b.word(i));
    }
}

#[test]
fn quantize_empty_input_has_no_words() {
    let fp = quantize(&Vec::new());
    assert_eq!(fp.width(), 0);
}

#[test]
fn quantize64_packs_low_bits() {
    let signs = signs_of(&[1, 1, 0, 1]);
    assert_eq!(quantize64(&signs), 0b1011u64);
    assert_eq!(quantize64(&Vec::new()), 0u64);
}

#[test]
fn popcount_exact_values() {
    assert_eq!(popcount(0), 0);
    assert_eq!(popcount(u64::MAX), 64);
    assert_eq!(popcount(0b1011), 3);
    assert_eq!(popcount(1u64 << 63), 1);
}

#[test]
fn hamming_is_symmetric_zero_on_self_and_bounded() {
    let a = Fingerprint::from_words(vec![0b1010, 0xffff_0000_ffff_0000]);
    let b = Fingerprint::from_words(vec![0b0110, 0x0000_ffff_0000_ffff]);
    let ab = hamming(&a, &b);
    let ba = hamming(&b, &a);
    assert_eq!(ab, ba);
    assert_eq!(hamming(&a, &a), 0);
    assert_eq!(hamming(&b, &b), 0);
    assert!(ab <= 128);
    // exact: words differ in 2 + 64 positions
    assert_eq!(ab, 66);
}

#[test]
fn hamming64_exact_values() {
    assert_eq!(hamming64(0b1010, 0b0110), 2);
    assert_eq!(hamming64(7, 7), 0);
    assert_eq!(hamming64(0, u64::MAX), 64);
}
