//! The transition metric: one pair of consecutive object samples reduced to
//! the two scalars the skills consume — normalized jump distance and strain
//! time — with an optional bonus drawn from the previous transition.

use vstd::prelude::*;
use crate::fx::{FP, fx_mul_spec, fx_div_spec, fx_mul, fx_div, umax, umin};
use crate::geom::{pos_bounded, dist_spec, dist_between, POS_LIMIT, DIST_LIMIT};
use crate::object::{OsuObject, OBJ_TIME_LIMIT};

verus! {

/// Shortest strain time: deltas are floored here so near-simultaneous
/// objects cannot blow up the per-time contributions.
pub const MIN_STRAIN_TIME: u64 = 500_000;

/// Largest normalized jump distance a transition can carry.
pub const JUMP_LIMIT: u64 = 1_000_000_000_000;

/// Slowest and fastest clock rates the engine accepts.
pub const CLOCK_MIN: u64 = 2_500;

pub const CLOCK_MAX: u64 = 40_000;

/// Largest distance-normalization factor the engine accepts.
pub const SCALING_LIMIT: u64 = 1_000_000;

/// Fixed-point weight of the previous-transition jump bonus.
pub const FLOW_BONUS: u64 = 1_000;

#[derive(Clone, Copy, Debug, PartialEq, Eq, Structural)]
pub struct DifficultyObject {
    /// Clock-adjusted time since the previous object.
    pub delta: u64,
    /// `delta` floored at `MIN_STRAIN_TIME`.
    pub strain_time: u64,
    /// Normalized jump distance from the previous object's effective end
    /// position to this object's position.
    pub jump_dist: u64,
    /// Clock-adjusted time of the current object.
    pub base_time: u64,
}

pub open spec fn wf_transition(h: DifficultyObject) -> bool {
    &&& h.strain_time >= MIN_STRAIN_TIME
    &&& h.jump_dist <= JUMP_LIMIT
}

/// The raw normalized jump: zero when either endpoint is a duration-only
/// object, else the scaled distance from the previous effective end position.
pub open spec fn base_jump_spec(curr: OsuObject, prev: OsuObject, scaling: u64) -> int {
    if curr.travel_dist is None || prev.travel_dist is None {
        0
    } else {
        fx_mul_spec(dist_spec(prev.end_pos, curr.pos), scaling as int)
    }
}

/// The jump after the version-specific continuation bonus: transitions that
/// follow another sizable jump are weighted up by a tenth of the smaller of
/// the two.
pub open spec fn jump_spec(
    curr: OsuObject,
    prev: OsuObject,
    prev_vals: Option<(u64, u64)>,
    scaling: u64,
    flow_bonus: bool,
) -> int {
    let base = base_jump_spec(curr, prev, scaling);
    match prev_vals {
        Option::Some(v) => {
            if flow_bonus {
                let smaller: int = if base <= v.0 { base } else { v.0 as int };
                base + fx_mul_spec(smaller, FLOW_BONUS as int)
            } else {
                base
            }
        },
        Option::None => base,
    }
}

pub open spec fn transition_spec(
    curr: OsuObject,
    prev: OsuObject,
    prev_vals: Option<(u64, u64)>,
    clock_rate: u64,
    scaling: u64,
    flow_bonus: bool,
) -> DifficultyObject {
    let delta = fx_div_spec(curr.time - prev.time, clock_rate as int);
    DifficultyObject {
        delta: delta as u64,
        strain_time: (if delta >= MIN_STRAIN_TIME { delta } else { MIN_STRAIN_TIME as int }) as u64,
        jump_dist: jump_spec(curr, prev, prev_vals, scaling, flow_bonus) as u64,
        base_time: fx_div_spec(curr.time as int, clock_rate as int) as u64,
    }
}

impl DifficultyObject {
    /// Reduces one consecutive object pair to the skills' inputs. A clock
    /// rate of `FP` leaves times as they stand, for rule versions that
    /// normalize them at object creation instead.
    pub fn new(
        curr: &OsuObject,
        prev: &OsuObject,
        prev_vals: Option<(u64, u64)>,
        clock_rate: u64,
        scaling: u64,
        flow_bonus: bool,
    ) -> (r: DifficultyObject)
        requires
            prev.time <= curr.time <= OBJ_TIME_LIMIT,
            pos_bounded(curr.pos, POS_LIMIT as int),
            pos_bounded(prev.end_pos, POS_LIMIT as int),
            CLOCK_MIN <= clock_rate <= CLOCK_MAX,
            scaling <= SCALING_LIMIT,
            prev_vals matches Option::Some(v) ==> v.0 <= JUMP_LIMIT,
        ensures
            r == transition_spec(*curr, *prev, prev_vals, clock_rate, scaling, flow_bonus),
            wf_transition(r),
            r.base_time <= 4 * OBJ_TIME_LIMIT,
    {
        proof {
            assert((curr.time - prev.time) * (FP as int) <= (OBJ_TIME_LIMIT as int) * (FP as int));
            assert((curr.time - prev.time) * (FP as int) / (clock_rate as int)
                <= (curr.time - prev.time) * (FP as int) / (CLOCK_MIN as int)) by (nonlinear_arith)
                requires
                    (curr.time - prev.time) * (FP as int) >= 0,
                    CLOCK_MIN <= clock_rate,
            ;
            assert((curr.time as int) * (FP as int) / (clock_rate as int)
                <= (curr.time as int) * (FP as int) / (CLOCK_MIN as int)) by (nonlinear_arith)
                requires
                    (curr.time as int) * (FP as int) >= 0,
                    CLOCK_MIN <= clock_rate,
            ;
            assert((curr.time as int) * (FP as int) / (CLOCK_MIN as int)
                == 4 * (curr.time as int)) by (nonlinear_arith)
                requires curr.time >= 0;
        }
        let delta = fx_div(curr.time - prev.time, clock_rate);
        let strain_time = umax(delta, MIN_STRAIN_TIME);
        let base_time = fx_div(curr.time, clock_rate);

        let base: u64 = if curr.travel_dist.is_none() || prev.travel_dist.is_none() {
            0
        } else {
            let d = dist_between(&prev.end_pos, &curr.pos);
            proof {
                assert(0 <= (d as int) * (scaling as int) / (FP as int)
                    <= (DIST_LIMIT as int) * (SCALING_LIMIT as int) / (FP as int))
                    by (nonlinear_arith)
                    requires 0 <= d <= DIST_LIMIT, 0 <= scaling <= SCALING_LIMIT;
            }
            fx_mul(d, scaling)
        };
        assert(base <= 600_000_000_000);
        let jump: u64 = match prev_vals {
            Option::Some(v) => {
                if flow_bonus {
                    let smaller = umin(base, v.0);
                    proof {
                        assert(0 <= (smaller as int) * (FLOW_BONUS as int) / (FP as int)
                            <= 60_000_000_000) by (nonlinear_arith)
                            requires 0 <= smaller <= 600_000_000_000;
                    }
                    base + fx_mul(smaller, FLOW_BONUS)
                } else {
                    base
                }
            },
            Option::None => base,
        };
        DifficultyObject { delta, strain_time, jump_dist: jump, base_time }
    }
}

} // verus!
