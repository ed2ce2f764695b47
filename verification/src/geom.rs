//! Plane geometry over fixed-point coordinates: positions, Euclidean
//! distance, linear interpolation, and the follow-circle travel accumulator
//! that models a player's positional lag behind a moving hold-object target.

use vstd::prelude::*;
use crate::fx::{FP, fx_div_spec, isqrt, sqrt_floor, lemma_sqrt_floor_le, fx_div};

verus! {

/// Coordinate magnitude every position handled by the engine stays within.
pub const POS_LIMIT: i64 = 2_000_000_000;

/// Upper bound on the distance between two in-range positions.
pub const DIST_LIMIT: u64 = 6_000_000_000;

/// Accumulated travel distance saturates here; real maps stay far below.
pub const TRAVEL_CAP: u64 = 1_000_000_000_000_000;

#[derive(Clone, Copy, Debug, PartialEq, Eq, Structural)]
pub struct Pos {
    pub x: i64,
    pub y: i64,
}

pub open spec fn pos_bounded(p: Pos, limit: int) -> bool {
    -limit <= p.x <= limit && -limit <= p.y <= limit
}

pub open spec fn sq(a: int) -> int {
    a * a
}

/// Euclidean distance, rounded down to the fixed-point grid.
pub open spec fn dist_spec(p: Pos, q: Pos) -> int {
    sqrt_floor(sq(p.x - q.x) + sq(p.y - q.y))
}

proof fn lemma_sq_abs(a: int, b: int)
    ensures
        sq(a - b) == sq(if a >= b { a - b } else { b - a }),
        sq(a - b) >= 0,
    {
    assert((a - b) * (a - b) == (b - a) * (b - a)) by (nonlinear_arith);
    assert((a - b) * (a - b) >= 0) by (nonlinear_arith);
}

pub fn dist_between(p: &Pos, q: &Pos) -> (r: u64)
    requires
        pos_bounded(*p, POS_LIMIT as int),
        pos_bounded(*q, POS_LIMIT as int),
    ensures
        r == dist_spec(*p, *q),
        r <= DIST_LIMIT,
{
    let dx: u64 = if p.x >= q.x { (p.x - q.x) as u64 } else { (q.x - p.x) as u64 };
    let dy: u64 = if p.y >= q.y { (p.y - q.y) as u64 } else { (q.y - p.y) as u64 };
    proof {
        lemma_sq_abs(p.x as int, q.x as int);
        lemma_sq_abs(p.y as int, q.y as int);
        assert((dx as int) * (dx as int) <= 4_000_000_000int * 4_000_000_000int)
            by (nonlinear_arith)
            requires 0 <= dx <= 4_000_000_000u64;
        assert((dy as int) * (dy as int) <= 4_000_000_000int * 4_000_000_000int)
            by (nonlinear_arith)
            requires 0 <= dy <= 4_000_000_000u64;
    }
    let n: u128 = (dx as u128) * (dx as u128) + (dy as u128) * (dy as u128);
    let r = isqrt(n);
    proof {
        lemma_sqrt_floor_le(n as int, DIST_LIMIT as int);
    }
    r
}

/// The point a fraction `t / FP` of the way from `a` to `b`, one coordinate.
pub open spec fn lerp_coord_spec(a: int, b: int, t: int) -> int {
    if b >= a {
        a + (b - a) * t / (FP as int)
    } else {
        a - (a - b) * t / (FP as int)
    }
}

pub proof fn lemma_lerp_coord_between(a: int, b: int, t: int)
    requires
        0 <= t <= FP,
    ensures
        lerp_coord_spec(a, b, t) >= if a <= b { a } else { b },
        lerp_coord_spec(a, b, t) <= if a >= b { a } else { b },
{
    if b >= a {
        let d = b - a;
        assert(0 <= d * t <= d * (FP as int)) by (nonlinear_arith)
            requires 0 <= t <= FP, d >= 0;
        assert(d * (FP as int) / (FP as int) == d) by (nonlinear_arith)
            requires d >= 0;
        assert(d * t / (FP as int) <= d * (FP as int) / (FP as int)) by (nonlinear_arith)
            requires 0 <= d * t <= d * (FP as int);
    } else {
        let d = a - b;
        assert(0 <= d * t <= d * (FP as int)) by (nonlinear_arith)
            requires 0 <= t <= FP, d >= 0;
        assert(d * (FP as int) / (FP as int) == d) by (nonlinear_arith)
            requires d >= 0;
        assert(d * t / (FP as int) <= d * (FP as int) / (FP as int)) by (nonlinear_arith)
            requires 0 <= d * t <= d * (FP as int);
    }
}

pub fn lerp_coord(a: i64, b: i64, t: u64) -> (r: i64)
    requires
        -(POS_LIMIT as int) <= a <= POS_LIMIT as int,
        -(POS_LIMIT as int) <= b <= POS_LIMIT as int,
        t <= FP,
    ensures
        r == lerp_coord_spec(a as int, b as int, t as int),
{
    proof {
        lemma_lerp_coord_between(a as int, b as int, t as int);
    }
    if b >= a {
        let d: u64 = (b - a) as u64;
        let step: u64 = (((d as u128) * (t as u128)) / (FP as u128)) as u64;
        a + (step as i64)
    } else {
        let d: u64 = (a - b) as u64;
        let step: u64 = (((d as u128) * (t as u128)) / (FP as u128)) as u64;
        a - (step as i64)
    }
}

pub open spec fn pos_lerp_spec(p: Pos, q: Pos, t: int) -> Pos {
    Pos { x: lerp_coord_spec(p.x as int, q.x as int, t) as i64,
          y: lerp_coord_spec(p.y as int, q.y as int, t) as i64 }
}

/// Running state of the follow-circle accumulator: the effective tracked
/// position and the travel distance gathered so far.
#[derive(Clone, Copy, Debug, PartialEq, Eq, Structural)]
pub struct TravelState {
    pub end_pos: Pos,
    pub travel: u64,
}

/// One vertex of the hold-object walk: the tracked position moves toward the
/// sampled target only by the excess beyond the follow-circle radius, and
/// that excess (saturated at `TRAVEL_CAP`) is what counts as travel.
pub open spec fn follow_step_spec(st: TravelState, target: Pos, radius: u64) -> TravelState {
    let d = dist_spec(st.end_pos, target);
    if d > radius {
        let excess = d - radius;
        let t = fx_div_spec(excess, d);
        TravelState {
            end_pos: pos_lerp_spec(st.end_pos, target, t),
            travel: if st.travel + excess <= TRAVEL_CAP { (st.travel + excess) as u64 } else { TRAVEL_CAP },
        }
    } else {
        st
    }
}

/// The follow-circle accumulator folded over a vertex sequence, left to right.
pub open spec fn follow_fold(targets: Seq<Pos>, init: TravelState, radius: u64) -> TravelState
    decreases targets.len(),
{
    if targets.len() == 0 {
        init
    } else {
        follow_step_spec(follow_fold(targets.drop_last(), init, radius), targets.last(), radius)
    }
}

pub fn follow_step(st: TravelState, target: &Pos, radius: u64) -> (r: TravelState)
    requires
        pos_bounded(st.end_pos, POS_LIMIT as int),
        pos_bounded(*target, POS_LIMIT as int),
        st.travel <= TRAVEL_CAP,
    ensures
        r == follow_step_spec(st, *target, radius),
        pos_bounded(r.end_pos, POS_LIMIT as int),
        r.travel <= TRAVEL_CAP,
        r.travel >= st.travel,
{
    let d = dist_between(&st.end_pos, target);
    if d > radius {
        let excess: u64 = d - radius;
        proof {
            assert(excess * (FP as int) <= d * (FP as int)) by (nonlinear_arith)
                requires 0 <= excess <= d;
            assert(d * (FP as int) / (d as int) == FP as int) by (nonlinear_arith)
                requires d >= 1;
            assert(excess * (FP as int) / (d as int) <= d * (FP as int) / (d as int))
                by (nonlinear_arith)
                requires 0 <= excess * (FP as int) <= d * (FP as int), d >= 1;
        }
        let t: u64 = fx_div(excess, d);
        proof {
            lemma_lerp_coord_between(st.end_pos.x as int, target.x as int, t as int);
            lemma_lerp_coord_between(st.end_pos.y as int, target.y as int, t as int);
        }
        let nx = lerp_coord(st.end_pos.x, target.x, t);
        let ny = lerp_coord(st.end_pos.y, target.y, t);
        let travel: u64 = if st.travel <= TRAVEL_CAP - excess { st.travel + excess } else { TRAVEL_CAP };
        TravelState { end_pos: Pos { x: nx, y: ny }, travel }
    } else {
        st
    }
}

/// Travel only ever grows along the walk.
pub proof fn lemma_follow_fold_monotone(targets: Seq<Pos>, init: TravelState, radius: u64)
    requires
        init.travel <= TRAVEL_CAP,
    ensures
        follow_fold(targets, init, radius).travel >= init.travel,
        follow_fold(targets, init, radius).travel <= TRAVEL_CAP,
    decreases targets.len(),
{
    if targets.len() > 0 {
        lemma_follow_fold_monotone(targets.drop_last(), init, radius);
    }
}

/// A walk whose every vertex stays within the follow circle of the starting
/// position never moves the tracked position and gathers no travel.
pub proof fn lemma_follow_fold_within_radius(targets: Seq<Pos>, init: TravelState, radius: u64)
    requires
        init.travel == 0,
        forall|i: int| 0 <= i < targets.len()
            ==> dist_spec(init.end_pos, #[trigger] targets[i]) <= radius,
    ensures
        follow_fold(targets, init, radius) == init,
    decreases targets.len(),
{
    if targets.len() > 0 {
        lemma_follow_fold_within_radius(targets.drop_last(), init, radius);
    }
}

/// A walk with some vertex beyond the follow circle of the starting position
/// gathers strictly positive travel.
pub proof fn lemma_follow_fold_beyond_radius(targets: Seq<Pos>, init: TravelState, radius: u64, k: int)
    requires
        init.travel == 0,
        0 <= k < targets.len(),
        dist_spec(init.end_pos, targets[k]) > radius,
    ensures
        follow_fold(targets, init, radius).travel > 0,
    decreases targets.len(),
{
    let prefix = targets.drop_last();
    if k == targets.len() - 1 {
        let st = follow_fold(prefix, init, radius);
        lemma_follow_fold_monotone(prefix, init, radius);
        if st.travel == 0 {
            if st == init {
                assert(follow_step_spec(st, targets.last(), radius).travel > 0);
            } else {
                lemma_follow_fold_first_move(prefix, init, radius);
            }
        }
    } else {
        assert(prefix[k] == targets[k]);
        lemma_follow_fold_beyond_radius(prefix, init, radius, k);
        lemma_follow_fold_monotone(prefix, init, radius);
        let st = follow_fold(prefix, init, radius);
        assert(follow_step_spec(st, targets.last(), radius).travel >= st.travel);
    }
}

/// While no travel has been gathered, the tracked position has not moved.
proof fn lemma_follow_fold_first_move(targets: Seq<Pos>, init: TravelState, radius: u64)
    requires
        init.travel == 0,
    ensures
        follow_fold(targets, init, radius).travel == 0 ==> follow_fold(targets, init, radius) == init,
    decreases targets.len(),
{
    if targets.len() > 0 {
        lemma_follow_fold_first_move(targets.drop_last(), init, radius);
        let st = follow_fold(targets.drop_last(), init, radius);
        lemma_follow_fold_monotone(targets.drop_last(), init, radius);
    }
}

} // verus!
