//! The output aggregates: the difficulty attributes one rating pass
//! produces, and the performance attributes a downstream performance
//! calculator fills around them.

use vstd::prelude::*;

verus! {

/// The difficulty attributes of one map under one mod selection. All
/// fractional fields are fixed-point values scaled by [`crate::fx::FP`].
#[derive(Clone, Copy, Debug, PartialEq, Eq, Structural)]
pub struct OsuDifficultyAttributes {
    pub aim_strain: u64,
    pub speed_strain: u64,
    pub ar: i64,
    pub od: i64,
    pub hp: u64,
    pub n_circles: u64,
    pub n_sliders: u64,
    pub n_spinners: u64,
    pub stars: u64,
    pub max_combo: u64,
}

impl Default for OsuDifficultyAttributes {
    /// The minimal attributes value: every field zero.
    fn default() -> (r: Self)
        ensures
            r == OsuDifficultyAttributes::zero(),
    {
        OsuDifficultyAttributes {
            aim_strain: 0,
            speed_strain: 0,
            ar: 0,
            od: 0,
            hp: 0,
            n_circles: 0,
            n_sliders: 0,
            n_spinners: 0,
            stars: 0,
            max_combo: 0,
        }
    }
}

impl OsuDifficultyAttributes {
    pub open spec fn zero() -> Self {
        OsuDifficultyAttributes {
            aim_strain: 0,
            speed_strain: 0,
            ar: 0,
            od: 0,
            hp: 0,
            n_circles: 0,
            n_sliders: 0,
            n_spinners: 0,
            stars: 0,
            max_combo: 0,
        }
    }
}

/// Performance attributes: the difficulty attributes together with the
/// performance components a downstream calculator derives from them.
#[derive(Clone, Copy, Debug, PartialEq, Eq, Structural)]
pub struct OsuPerformanceAttributes {
    pub difficulty: OsuDifficultyAttributes,
    pub pp: u64,
    pub pp_acc: u64,
    pub pp_aim: u64,
    pub pp_flashlight: u64,
    pub pp_speed: u64,
}

/// Saturating counter update: real maps stay far below the ceiling.
pub open spec fn sat_add_spec(a: u64, b: u64) -> u64 {
    if a + b <= u64::MAX {
        (a + b) as u64
    } else {
        u64::MAX
    }
}

pub fn sat_add(a: u64, b: u64) -> (r: u64)
    ensures
        r == sat_add_spec(a, b),
{
    if a <= u64::MAX - b {
        a + b
    } else {
        u64::MAX
    }
}

} // verus!
