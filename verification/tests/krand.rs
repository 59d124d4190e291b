use rustvox::krand::{gradient_index, khash, khash_float2, octave_seed};

#[test]
fn khash_gives_the_known_values() {
    assert_eq!(khash(0), 707605509);
    assert_eq!(khash(1), 1878078624);
    assert_eq!(khash(69), 418854474);
    assert_eq!(khash(u32::MAX), 1854345889);
    assert_eq!(khash(123454321), 522085571);
}

#[test]
fn khash_is_the_same_on_every_call() {
    for seed in [0u32, 7, 69, 0xdead_beef, u32::MAX] {
        assert_eq!(khash(seed), khash(seed));
    }
}

#[test]
fn khash_scatters_neighbouring_seeds() {
    let mut seen = std::collections::HashSet::new();
    for seed in 0..10_000u32 {
        seen.insert(khash(seed));
    }
    assert_eq!(seen.len(), 9999);
    // The low bit of the hash is no copy of the low bit of the seed.
    let odd = (0..10_000u32).filter(|s| khash(*s) & 1 == 1).count();
    assert_eq!(odd, 4878);
}

#[test]
fn khash_float2_folds_the_bit_patterns_into_the_seed() {
    let x = 1.0f32.to_bits();
    let y = 2.0f32.to_bits();
    assert_eq!(x, 1065353216);
    assert_eq!(y, 1073741824);
    assert_eq!(khash_float2(69, x, y), 4198403198);
    assert_eq!(khash_float2(0, 0, 0), khash(0));
}

#[test]
fn khash_float2_is_not_symmetric_in_its_coordinates() {
    let a = 3.0f32.to_bits();
    let b = (-3.0f32).to_bits();
    assert_ne!(khash_float2(5, a, b), khash_float2(5, b, a));
}

#[test]
fn gradient_index_is_the_low_nibble_of_the_hash() {
    for n in 0..1000u32 {
        let x = (n as f32 - 500.0).to_bits();
        let y = (n as f32 * 0.5).to_bits();
        let g = gradient_index(69, x, y);
        assert!(g < 16);
        assert_eq!(g as u32, khash_float2(69, x, y) & 15);
    }
}

#[test]
fn octave_seed_multiplies_modulo_two_to_the_32() {
    assert_eq!(octave_seed(1, 0), 0x3523423);
    assert_eq!(octave_seed(1, 1), 0xF73DB187);
    assert_eq!(octave_seed(1, 2), 0x159CBAFE);
    assert_eq!(octave_seed(1, 3), 0x83242364);
    assert_eq!(octave_seed(69, 1), 69u32.wrapping_mul(0xF73DB187));
    assert_eq!(octave_seed(0, 3), 0);
}
