//! The integer bookkeeping of the demo's sound effects: the table of effect
//! identifiers with their durations, one playing instance, and the manager
//! that spawns instances with fresh deterministic seeds.  The audio math
//! itself (oscillators, envelopes) lives with the audio device, outside the
//! library.

use vstd::prelude::*;

use crate::kmath::{khash, khash_spec};

verus! {

pub const LASER: u32 = 0;

pub const ENEMY_SHOOT: u32 = 1;

pub const PLAYER_DIE: u32 = 2;

pub const ENEMY_DIE: u32 = 3;

pub const ENEMY_SPAWN: u32 = 4;

pub const LASER_POP: u32 = 5;

/// How many effect identifiers the duration table covers.
pub const SOUND_ID_COUNT: u32 = 9;

/// Duration in samples of each effect; the laser holds until released.
pub open spec fn duration_spec(id: u32) -> u64 {
    if id == 0 {
        u64::MAX
    } else if id == 1 {
        2500
    } else if id == 2 {
        15000
    } else if id == 3 {
        10000
    } else if id == 4 {
        2500
    } else if id == 5 {
        5000
    } else {
        100
    }
}

/// The seed `play_sound` derives for the next instance from the manager's
/// current seed.
pub open spec fn next_seed_spec(seed: u32) -> u32 {
    khash_spec(
        vstd::wrapping::u32_specs::wrapping_add(
            vstd::wrapping::u32_specs::wrapping_mul(seed, 1241417u32),
            124114u32,
        ),
    )
}

/// One playing sound effect: when it started, how old it is, which effect
/// it is, and its pitch seed.
pub struct SoundInstance {
    pub birth: u64,
    pub age: u64,
    pub id: u32,
    pub seed: u32,
}

impl SoundInstance {
    /// How many samples this effect lasts.
    pub fn duration(&self) -> (r: u64)
        requires
            self.id < SOUND_ID_COUNT,
        ensures
            r == duration_spec(self.id),
    {
        if self.id == 0 {
            u64::MAX
        } else if self.id == 1 {
            2500
        } else if self.id == 2 {
            15000
        } else if self.id == 3 {
            10000
        } else if self.id == 4 {
            2500
        } else if self.id == 5 {
            5000
        } else {
            100
        }
    }
}

/// Spawns sound instances, rolling its seed forward deterministically so
/// that every instance gets a fresh one.
pub struct SoundManager {
    pub age: u64,
    pub seed: u32,
    pub sounds: Vec<SoundInstance>,
}

impl Default for SoundManager {
    /// Same state as `new`: silent, with the fixed initial seed.
    fn default() -> (m: SoundManager)
        ensures
            m.age == 0,
            m.seed == 134157u32,
            m.sounds@.len() == 0,
    {
        SoundManager::new()
    }
}

impl SoundManager {
    /// A manager with no playing sounds and the fixed initial seed.
    pub fn new() -> (m: SoundManager)
        ensures
            m.age == 0,
            m.seed == 134157u32,
            m.sounds@.len() == 0,
    {
        SoundManager { age: 0, seed: 134157, sounds: Vec::new() }
    }

    /// Start playing effect `id`: roll the seed forward and append a fresh
    /// instance born now.
    pub fn play_sound(&mut self, id: u32)
        ensures
            final(self).age == old(self).age,
            final(self).seed == next_seed_spec(old(self).seed),
            final(self).sounds@ == old(self).sounds@.push(
                (SoundInstance {
                    age: 0,
                    birth: old(self).age,
                    id,
                    seed: next_seed_spec(old(self).seed),
                }),
            ),
    {
        self.seed = khash(self.seed.wrapping_mul(1241417).wrapping_add(124114));
        let instance = SoundInstance { age: 0, birth: self.age, id, seed: self.seed };
        self.sounds.push(instance);
    }
}

} // verus!
