//! The engine's own map representation: hit objects with their paths, and the
//! per-time timing and difficulty point tables, all as fixed-point values.
//! A collaborator that parses a map file fills this structure in.

use vstd::prelude::*;
use crate::geom::{Pos, pos_bounded};
use crate::curve::{CTRL_LIMIT, MAP_POS_LIMIT, PATH_CAP};
use crate::fx::FP;

verus! {

/// Latest start time a hit object may carry (fixed-point milliseconds).
pub const TIME_LIMIT: u64 = 1_000_000_000_000;

/// Longest beat length a timing point may carry.
pub const BEAT_LIMIT: u64 = 10_000_000_000;

/// Largest velocity-like multiplier (slider velocity, slider multiplier,
/// tick rate) the map may carry.
pub const VEL_LIMIT: u64 = 1_000_000;

/// Most spans a single hold object may have.
pub const REPEAT_LIMIT: usize = 10_000;

#[derive(Clone, Copy, Debug, PartialEq, Eq, Structural)]
pub struct TimingPoint {
    pub time: u64,
    pub beat_len: u64,
}

#[derive(Clone, Copy, Debug, PartialEq, Eq, Structural)]
pub struct DifficultyPoint {
    pub time: u64,
    pub slider_vel: u64,
    pub generate_ticks: bool,
}

pub enum HitKind {
    Circle,
    Slider { pixel_len: u64, repeats: usize, control_points: Vec<Pos> },
    Spinner,
}

pub struct HitObject {
    pub start_time: u64,
    pub pos: Pos,
    pub kind: HitKind,
}

pub struct Beatmap {
    pub hit_objects: Vec<HitObject>,
    pub timing_points: Vec<TimingPoint>,
    pub difficulty_points: Vec<DifficultyPoint>,
    pub slider_mult: u64,
    pub tick_rate: u64,
    pub version: u32,
    pub cs: u64,
    pub od: u64,
    pub hp: u64,
}

pub open spec fn wf_hit_object(h: HitObject) -> bool {
    &&& h.start_time <= TIME_LIMIT
    &&& pos_bounded(h.pos, MAP_POS_LIMIT as int)
    &&& match h.kind {
        HitKind::Circle => true,
        HitKind::Slider { pixel_len, repeats, control_points } => {
            &&& pixel_len <= PATH_CAP
            &&& repeats <= REPEAT_LIMIT
            &&& control_points@.len() <= CTRL_LIMIT
            &&& forall|i: int|
                0 <= i < control_points@.len()
                    ==> pos_bounded(#[trigger] control_points@[i], MAP_POS_LIMIT as int)
        },
        HitKind::Spinner => true,
    }
}

impl Beatmap {
    pub open spec fn wf(self) -> bool {
        &&& forall|i: int|
            0 <= i < self.hit_objects@.len() ==> wf_hit_object(#[trigger] self.hit_objects@[i])
        &&& forall|i: int, j: int|
            0 <= i <= j < self.hit_objects@.len()
                ==> self.hit_objects@[i].start_time <= self.hit_objects@[j].start_time
        &&& self.timing_points@.len() >= 1
        &&& forall|i: int|
            0 <= i < self.timing_points@.len()
                ==> 1 <= (#[trigger] self.timing_points@[i]).beat_len <= BEAT_LIMIT
        &&& forall|i: int, j: int|
            0 <= i <= j < self.timing_points@.len()
                ==> self.timing_points@[i].time <= self.timing_points@[j].time
        &&& forall|i: int|
            0 <= i < self.difficulty_points@.len()
                ==> 1 <= (#[trigger] self.difficulty_points@[i]).slider_vel <= VEL_LIMIT
        &&& forall|i: int, j: int|
            0 <= i <= j < self.difficulty_points@.len()
                ==> self.difficulty_points@[i].time <= self.difficulty_points@[j].time
        &&& 1 <= self.slider_mult <= VEL_LIMIT
        &&& 1 <= self.tick_rate <= VEL_LIMIT
        &&& self.cs <= 10 * FP
        &&& self.od <= 10 * FP
        &&& self.hp <= 10 * FP
    }
}

/// Index of the last timing point at or before `t`, starting the scan at `i`;
/// the first point stands in when all points lie after `t`.
pub open spec fn point_index_from(times: Seq<u64>, t: u64, i: int) -> int
    decreases times.len() - i,
{
    if i + 1 < times.len() && times[i + 1] <= t {
        point_index_from(times, t, i + 1)
    } else {
        i
    }
}

pub open spec fn timing_point_at_spec(m: Beatmap, t: u64) -> TimingPoint {
    m.timing_points@[point_index_from(m.timing_points@.map_values(|p: TimingPoint| p.time), t, 0)]
}

/// The difficulty point governing time `t`; absent one, the neutral default.
pub open spec fn difficulty_point_at_spec(m: Beatmap, t: u64) -> DifficultyPoint {
    let dps = m.difficulty_points@;
    if dps.len() == 0 || dps[0].time > t {
        DifficultyPoint { time: 0, slider_vel: FP, generate_ticks: true }
    } else {
        dps[point_index_from(dps.map_values(|p: DifficultyPoint| p.time), t, 0)]
    }
}

impl Beatmap {
    /// The timing point governing time `t`: the last one at or before it.
    pub fn timing_point_at(&self, t: u64) -> (r: TimingPoint)
        requires
            self.wf(),
        ensures
            r == timing_point_at_spec(*self, t),
            1 <= r.beat_len <= BEAT_LIMIT,
    {
        let ghost times = self.timing_points@.map_values(|p: TimingPoint| p.time);
        let mut i: usize = 0;
        while i + 1 < self.timing_points.len() && self.timing_points[i + 1].time <= t
            invariant
                self.wf(),
                i < usize::MAX,
                0 <= i < self.timing_points@.len(),
                times == self.timing_points@.map_values(|p: TimingPoint| p.time),
                point_index_from(times, t, 0) == point_index_from(times, t, i as int),
            decreases self.timing_points@.len() - i,
        {
            i = i + 1;
        }
        self.timing_points[i]
    }

    /// The difficulty point governing time `t`, or the neutral default when
    /// none lies at or before it.
    pub fn difficulty_point_at(&self, t: u64) -> (r: DifficultyPoint)
        requires
            self.wf(),
        ensures
            r == difficulty_point_at_spec(*self, t),
            1 <= r.slider_vel <= VEL_LIMIT,
    {
        if self.difficulty_points.len() == 0 || self.difficulty_points[0].time > t {
            return DifficultyPoint { time: 0, slider_vel: FP, generate_ticks: true };
        }
        let ghost times = self.difficulty_points@.map_values(|p: DifficultyPoint| p.time);
        let mut i: usize = 0;
        while i + 1 < self.difficulty_points.len() && self.difficulty_points[i + 1].time <= t
            invariant
                self.wf(),
                i < usize::MAX,
                0 <= i < self.difficulty_points@.len(),
                times == self.difficulty_points@.map_values(|p: DifficultyPoint| p.time),
                point_index_from(times, t, 0) == point_index_from(times, t, i as int),
            decreases self.difficulty_points@.len() - i,
        {
            i = i + 1;
        }
        self.difficulty_points[i]
    }
}

} // verus!
