//! The deterministic integer hash behind every pseudo-random choice the
//! demos make: a seeded avalanche over `u32`, and its two-dimensional
//! variant for grid noise.

use vstd::prelude::*;

verus! {

/// The value `khash` returns: three rounds of xor-shift and wrapping
/// multiplication by the same odd constant.
pub open spec fn khash_spec(state: u32) -> u32 {
    let s1 = vstd::wrapping::u32_specs::wrapping_mul(state ^ 2747636419u32, 2654435769u32);
    let s2 = vstd::wrapping::u32_specs::wrapping_mul(s1 ^ (s1 >> 16u32), 2654435769u32);
    vstd::wrapping::u32_specs::wrapping_mul(s2 ^ (s2 >> 16u32), 2654435769u32)
}

/// The value `khash2i` returns: the hash of a linear combination of the two
/// grid coordinates and the seed.
pub open spec fn khash2i_spec(x: i32, y: i32, seed: u32) -> u32 {
    khash_spec(
        vstd::wrapping::u32_specs::wrapping_add(
            vstd::wrapping::u32_specs::wrapping_add(
                vstd::wrapping::u32_specs::wrapping_mul(x as u32, 123176957u32),
                vstd::wrapping::u32_specs::wrapping_mul(y as u32, 489172373u32),
            ),
            seed,
        ),
    )
}

/// Deterministic avalanche hash of a 32-bit state.
pub fn khash(state: u32) -> (r: u32)
    ensures
        r == khash_spec(state),
{
    let s1: u32 = (state ^ 2747636419).wrapping_mul(2654435769);
    let s2: u32 = (s1 ^ (s1 >> 16)).wrapping_mul(2654435769);
    (s2 ^ (s2 >> 16)).wrapping_mul(2654435769)
}

/// Deterministic hash of a grid cell and a seed.
pub fn khash2i(x: i32, y: i32, seed: u32) -> (r: u32)
    ensures
        r == khash2i_spec(x, y, seed),
{
    khash(
        (#[verifier::truncate] (x as u32)).wrapping_mul(123176957).wrapping_add(
            (#[verifier::truncate] (y as u32)).wrapping_mul(489172373),
        ).wrapping_add(seed),
    )
}

} // verus!
