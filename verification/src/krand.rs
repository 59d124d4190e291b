//! Integer scrambling used as the only source of pseudo-randomness.

use vstd::prelude::*;

verus! {

/// Multiplier of the first mixing stage.
pub const MIX_1: u32 = 0xB5297A4D;

/// Summand of the second mixing stage.
pub const MIX_2: u32 = 0x68E31DA4;

/// Multiplier of the third mixing stage.
pub const MIX_3: u32 = 0x1B56C4E9;

/// Multiplier applied to the bit pattern of the first coordinate.
pub const FOLD_X: u32 = 0x548AB4C9;

/// Multiplier applied to the bit pattern of the second coordinate.
pub const FOLD_Y: u32 = 0x97124DA8;

/// `x` with its bits rotated right by `n` places, for `0 < n < 32`.
pub open spec fn rotr(x: u32, n: u32) -> u32 {
    (x >> n) | (x << ((32 - n) as u32))
}

/// `x` with its bits rotated left by `n` places, for `0 < n < 32`.
pub open spec fn rotl(x: u32, n: u32) -> u32 {
    (x << n) | (x >> ((32 - n) as u32))
}

/// The scrambled value of `seed`: multiply, fold in a rotation, add, fold in a
/// rotation, multiply, fold in a rotation, all modulo 2^32.
pub open spec fn spec_khash(seed: u32) -> u32 {
    let a = seed.wrapping_mul(MIX_1);
    let b = a ^ rotr(a, 13);
    let c = b.wrapping_add(MIX_2);
    let d = c ^ rotl(c, 7);
    let e = d.wrapping_mul(MIX_3);
    e ^ rotr(e, 9)
}

/// The seed that stands for `seed` at the lattice point whose coordinates have
/// the bit patterns `x_bits` and `y_bits`.
pub open spec fn spec_fold2(seed: u32, x_bits: u32, y_bits: u32) -> u32 {
    seed.wrapping_add(x_bits.wrapping_mul(FOLD_X).wrapping_add(y_bits.wrapping_mul(FOLD_Y)))
}

fn rotate_right(x: u32, n: u32) -> (r: u32)
    requires
        0 < n < 32,
    ensures
        r == rotr(x, n),
{
    (x >> n) | (x << (32 - n))
}

fn rotate_left(x: u32, n: u32) -> (r: u32)
    requires
        0 < n < 32,
    ensures
        r == rotl(x, n),
{
    (x << n) | (x >> (32 - n))
}

/// Scrambles `seed`. The same input always gives the same output; there is no
/// state.
pub fn khash(seed: u32) -> (r: u32)
    ensures
        r == spec_khash(seed),
{
    let mut mangled: u32 = seed;
    mangled = mangled.wrapping_mul(MIX_1);
    mangled = mangled ^ rotate_right(mangled, 13);
    mangled = mangled.wrapping_add(MIX_2);
    mangled = mangled ^ rotate_left(mangled, 7);
    mangled = mangled.wrapping_mul(MIX_3);
    mangled = mangled ^ rotate_right(mangled, 9);
    mangled
}

/// Hash of a seed and a point of the plane, the point given by the bit
/// patterns of its two single-precision coordinates.
pub fn khash_float2(seed: u32, x_bits: u32, y_bits: u32) -> (r: u32)
    ensures
        r == spec_khash(spec_fold2(seed, x_bits, y_bits)),
{
    khash(seed.wrapping_add(x_bits.wrapping_mul(FOLD_X).wrapping_add(y_bits.wrapping_mul(FOLD_Y))))
}

/// Number of directions in the table of gradients.
pub const GRADIENTS: u32 = 16;

/// The multipliers that give each of the four octaves of fractal noise a
/// seed of its own.
pub open spec fn octave_multiplier(octave: int) -> u32 {
    if octave == 0 {
        0x3523423
    } else if octave == 1 {
        0xF73DB187
    } else if octave == 2 {
        0x159CBAFE
    } else {
        0x83242364
    }
}

/// Which direction of the table of gradients belongs to the lattice point
/// whose coordinates have the bit patterns `x_bits` and `y_bits`: the low
/// four bits of the point's hash.
pub fn gradient_index(seed: u32, x_bits: u32, y_bits: u32) -> (r: usize)
    ensures
        r == spec_khash(spec_fold2(seed, x_bits, y_bits)) & 15,
        r < GRADIENTS,
{
    let h = khash_float2(seed, x_bits, y_bits);
    assert(h & 15 < 16) by (bit_vector);
    (h & 15) as usize
}

/// The seed of one octave (0 to 3) of fractal noise: the base seed times
/// the octave's multiplier, modulo 2^32.
pub fn octave_seed(seed: u32, octave: usize) -> (r: u32)
    requires
        octave < 4,
    ensures
        r == seed.wrapping_mul(octave_multiplier(octave as int)),
{
    let m: u32 = if octave == 0 {
        0x3523423
    } else if octave == 1 {
        0xF73DB187
    } else if octave == 2 {
        0x159CBAFE
    } else {
        0x83242364
    };
    seed.wrapping_mul(m)
}

} // verus!
