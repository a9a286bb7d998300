//! A colour-walk grid: a torus of RGB tiles and a walking head whose next
//! colour and direction are hashed from the tile it stands on.  The library
//! holds the grid state and its deterministic construction; drawing it is
//! the renderer's business.

use vstd::prelude::*;

use crate::kmath::{khash, khash_spec};

verus! {

/// The base colour every tile starts from, hashed from the seed.
pub open spec fn base_colour_spec(seed: u32) -> [u8; 3] {
    [
        khash_spec(vstd::wrapping::u32_specs::wrapping_add(seed, 1712317u32)) as u8,
        khash_spec(vstd::wrapping::u32_specs::wrapping_add(seed, 1231247u32)) as u8,
        khash_spec(vstd::wrapping::u32_specs::wrapping_add(seed, 123123177u32)) as u8,
    ]
}

/// The walk state: a `w` by `h` grid of RGB tiles, the head's position and
/// colour, and the seed everything is hashed from.
pub struct RGBUTM {
    pub grid: Vec<[u8; 3]>,
    pub w: usize,
    pub h: usize,
    pub head_colour: [u8; 3],
    pub head_x: i32,
    pub head_y: i32,
    pub steps_per_frame: usize,
    pub seed: u32,
}

impl RGBUTM {
    /// One tile per grid cell.
    pub open spec fn wf(&self) -> bool {
        self.grid@.len() == self.w * self.h
    }

    /// A fresh walk: every tile carries the seed's base colour, the head
    /// stands at the origin in cyan.
    pub fn new(w: usize, h: usize, seed: u32) -> (r: RGBUTM)
        requires
            w * h <= usize::MAX,
        ensures
            r.w == w,
            r.h == h,
            r.seed == seed,
            r.head_colour@ == [0u8, 255u8, 255u8]@,
            r.head_x == 0,
            r.head_y == 0,
            r.steps_per_frame == 100,
            r.wf(),
            forall|i: int| 0 <= i < w * h ==> r.grid@[i]@ == base_colour_spec(seed)@,
    {
        let head_colour: [u8; 3] = [0, 255, 255];
        let c0 = khash(seed.wrapping_add(1712317));
        let c1 = khash(seed.wrapping_add(1231247));
        let c2 = khash(seed.wrapping_add(123123177));
        let base: [u8; 3] = [
            #[verifier::truncate] (c0 as u8),
            #[verifier::truncate] (c1 as u8),
            #[verifier::truncate] (c2 as u8),
        ];
        proof {
            assert(base@ == base_colour_spec(seed)@);
        }
        let n = w * h;
        let mut grid: Vec<[u8; 3]> = Vec::new();
        let mut i: usize = 0;
        while i < n
            invariant
                i <= n,
                grid@.len() == i,
                base@ == base_colour_spec(seed)@,
                forall|k: int| 0 <= k < i ==> grid@[k]@ == base_colour_spec(seed)@,
            decreases n - i,
        {
            grid.push(base);
            i = i + 1;
        }
        RGBUTM { grid, w, h, seed, head_colour, head_x: 0, head_y: 0, steps_per_frame: 100 }
    }
}

} // verus!
