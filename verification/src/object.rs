//! Per-object sampling: one raw hit object becomes a normalized summary of
//! time, position, effective end position, and travel distance. Hold objects
//! walk their curve at every tick and repeat boundary, feeding the
//! follow-circle accumulator; the walk replays the first span's tick times,
//! reversed on odd spans.

use vstd::prelude::*;
use crate::fx::{
    FP, fx_mul_spec, fx_div_spec, fx_mul, fx_div, umax, umin, lemma_fx_mul_le, lemma_fx_div_le_fp,
};
use crate::geom::{
    Pos, pos_bounded, dist_spec, TravelState, follow_fold, follow_step,
    lemma_follow_fold_within_radius, lemma_follow_fold_beyond_radius, POS_LIMIT, TRAVEL_CAP,
};
use crate::curve::{Curve, ext_verts, curve_len_spec, pos_at_spec, MAP_POS_LIMIT, PATH_CAP};
use crate::map::{
    Beatmap, HitObject, HitKind, wf_hit_object, timing_point_at_spec, difficulty_point_at_spec,
    TIME_LIMIT, VEL_LIMIT, REPEAT_LIMIT,
};
use crate::attributes::{OsuDifficultyAttributes, sat_add_spec, sat_add};

verus! {

/// Latest time a (possibly clock-normalized) object sample may carry.
pub const OBJ_TIME_LIMIT: u64 = 4_000_000_000_000;

/// Fixed-point scoring distance per beat at velocity one (100 pixels).
pub const BASE_SCORING_DISTANCE: u64 = 1_000_000;

/// Timing slack before a hold object's tail, inherited from the host game's
/// legacy tail handling (36 milliseconds).
pub const LEGACY_LAST_TICK_OFFSET: u64 = 360_000;

/// Smallest spacing between generated ticks, bounding the walk on degenerate
/// velocities (a tenth of a pixel).
pub const TICK_FLOOR: u64 = 1_000;

/// A normalized per-object summary: `travel_dist` is `None` for a
/// duration-only object, zero for a point object, and the accumulated
/// follow-circle travel for a hold object.
#[derive(Clone, Copy, Debug, PartialEq, Eq, Structural)]
pub struct OsuObject {
    pub time: u64,
    pub pos: Pos,
    pub end_pos: Pos,
    pub travel_dist: Option<u64>,
}

impl OsuObject {
    /// A duration-only object neither jumps nor travels.
    pub fn is_spinner(&self) -> (r: bool)
        ensures
            r == (self.travel_dist is None),
    {
        self.travel_dist.is_none()
    }
}

/// Largest object radius the engine accepts.
pub const RADIUS_LIMIT: u64 = 1_000_000;

/// Progress through repeated spans folded into one span, alternating
/// direction: even spans run forward, odd spans run backward.
pub open spec fn reflect_spec(raw: int) -> int {
    let m = raw % (2 * (FP as int));
    if m >= FP {
        2 * (FP as int) - m
    } else {
        m
    }
}

/// The absolute position a hold-object walk samples at walk time `t`.
pub open spec fn vertex_target_spec(
    points: Seq<Pos>,
    declared: u64,
    hpos: Pos,
    start: int,
    sd: int,
    t: int,
) -> Pos {
    let raw = fx_div_spec(t - start, sd);
    let p = reflect_spec(raw);
    let c = pos_at_spec(ext_verts(points, declared), curve_len_spec(points, declared), p);
    Pos { x: (hpos.x + c.x) as i64, y: (hpos.y + c.y) as i64 }
}

/// Walk times of the first span's ticks, spaced `td` along the path up to
/// the margin before its end.
pub open spec fn tick_times_rec(
    curr: int,
    limit: int,
    td: int,
    start: int,
    sd: int,
    clen: int,
) -> Seq<int>
    decreases limit - curr when td >= 1
{
    if curr < limit {
        let nxt: int = if curr + td < limit {
            curr + td
        } else {
            limit
        };
        seq![start + fx_mul_spec(fx_div_spec(curr, clen), sd)]
            + tick_times_rec(nxt, limit, td, start, sd, clen)
    } else {
        Seq::<int>::empty()
    }
}

/// The first span's tick times replayed backward, shifted into span `off`.
pub open spec fn rev_span_spec(ticks: Seq<int>, off: int, base: int) -> Seq<int> {
    Seq::new(ticks.len(), |k: int| off + base - ticks[ticks.len() - 1 - k])
}

/// The first span's tick times replayed forward, shifted into span `off`.
pub open spec fn fwd_span_spec(ticks: Seq<int>, off: int) -> Seq<int> {
    Seq::new(ticks.len(), |k: int| off + ticks[k])
}

/// One repeat span's walk times: the repeat boundary, then the replayed
/// ticks, reversed on odd spans.
pub open spec fn span_block_spec(idx: int, ticks: Seq<int>, start: int, sd: int) -> Seq<int> {
    let off = idx * sd;
    seq![start + off] + (if idx % 2 == 1 {
        rev_span_spec(ticks, off, 2 * start + sd)
    } else {
        fwd_span_spec(ticks, off)
    })
}

/// Walk times of every repeat span from `idx` up.
pub open spec fn spans_rec(idx: int, repeats: int, ticks: Seq<int>, start: int, sd: int) -> Seq<int>
    decreases repeats - idx + 1 when idx >= 0
{
    if idx > repeats {
        Seq::<int>::empty()
    } else {
        span_block_spec(idx, ticks, start, sd) + spans_rec(idx + 1, repeats, ticks, start, sd)
    }
}

/// The tail vertex's walk time: the later of half the total duration and the
/// final span's end less the legacy tail offset.
pub open spec fn tail_time_spec(start: int, sd: int, repeats: int) -> int {
    let half = start + (repeats + 1) * sd / 2;
    let legacy = start + repeats * sd + sd - (LEGACY_LAST_TICK_OFFSET as int);
    if half >= legacy {
        half
    } else {
        legacy
    }
}

pub open spec fn scoring_dist_spec(m: Beatmap, t: u64) -> int {
    fx_mul_spec(
        fx_mul_spec(BASE_SCORING_DISTANCE as int, m.slider_mult as int),
        difficulty_point_at_spec(m, t).slider_vel as int,
    )
}

pub open spec fn vel_spec(m: Beatmap, t: u64) -> int {
    let v = fx_div_spec(scoring_dist_spec(m, t), timing_point_at_spec(m, t).beat_len as int);
    if v >= 1 {
        v
    } else {
        1
    }
}

pub open spec fn span_dur_spec(m: Beatmap, t: u64, points: Seq<Pos>, declared: u64) -> int {
    let d = fx_div_spec(curve_len_spec(points, declared), vel_spec(m, t));
    if d >= 1 {
        d
    } else {
        1
    }
}

/// The tick spacing before clamping: zero stands for a walk with no tick or
/// repeat vertices at all.
pub open spec fn tick_dist_clamped_spec(m: Beatmap, t: u64, clen: int) -> int {
    let dp = difficulty_point_at_spec(m, t);
    let base = fx_div_spec(scoring_dist_spec(m, t), m.tick_rate as int);
    let raw = if m.version < 8 {
        fx_div_spec(base, dp.slider_vel as int)
    } else {
        base
    };
    let pre: int = if dp.generate_ticks {
        raw
    } else {
        clen
    };
    if pre <= clen {
        pre
    } else {
        clen
    }
}

/// Every walk time of one hold object, in order: the first span's ticks,
/// each repeat span's boundary and replayed ticks, and the tail.
pub open spec fn slider_times_spec(
    m: Beatmap,
    t: u64,
    points: Seq<Pos>,
    declared: u64,
    repeats: int,
) -> Seq<int> {
    let clen = curve_len_spec(points, declared);
    let vel = vel_spec(m, t);
    let sd = span_dur_spec(m, t, points, declared);
    let td_cl = tick_dist_clamped_spec(m, t, clen);
    let tail = tail_time_spec(t as int, sd, repeats);
    if td_cl == 0 {
        seq![tail]
    } else {
        let td: int = if td_cl >= TICK_FLOOR {
            td_cl
        } else {
            TICK_FLOOR as int
        };
        let margin = 10 * vel;
        let limit: int = if margin < clen {
            clen - margin
        } else {
            0
        };
        let ticks = tick_times_rec(td, limit, td, t as int, sd, clen);
        ticks + spans_rec(1, repeats, ticks, t as int, sd) + seq![tail]
    }
}

/// The follow-circle walk over every sampled vertex of one hold object.
pub open spec fn slider_travel_spec(
    m: Beatmap,
    t: u64,
    hpos: Pos,
    points: Seq<Pos>,
    declared: u64,
    repeats: int,
    radius: u64,
) -> TravelState {
    let sd = span_dur_spec(m, t, points, declared);
    let times = slider_times_spec(m, t, points, declared, repeats);
    let targets = times.map_values(
        |wt: int| vertex_target_spec(points, declared, hpos, t as int, sd, wt),
    );
    follow_fold(targets, TravelState { end_pos: hpos, travel: 0 }, (3 * radius) as u64)
}

/// The sample one raw hit object gives rise to.
pub open spec fn sample_spec(h: HitObject, m: Beatmap, radius: u64, scaling: u64) -> OsuObject {
    match h.kind {
        HitKind::Circle => OsuObject {
            time: h.start_time,
            pos: h.pos,
            end_pos: h.pos,
            travel_dist: Option::Some(0u64),
        },
        HitKind::Spinner => OsuObject {
            time: h.start_time,
            pos: h.pos,
            end_pos: h.pos,
            travel_dist: Option::None,
        },
        HitKind::Slider { pixel_len, repeats, control_points } => {
            let st = slider_travel_spec(
                m,
                h.start_time,
                h.pos,
                control_points@,
                pixel_len,
                repeats as int,
                radius,
            );
            OsuObject {
                time: h.start_time,
                pos: h.pos,
                end_pos: st.end_pos,
                travel_dist: Option::Some(fx_mul_spec(st.travel as int, scaling as int) as u64),
            }
        },
    }
}

/// How many vertices one object contributes to the combo beyond its head.
pub open spec fn extra_combo_spec(h: HitObject, m: Beatmap) -> int {
    match h.kind {
        HitKind::Circle => 0,
        HitKind::Spinner => 0,
        HitKind::Slider { pixel_len, repeats, control_points } => slider_times_spec(
            m,
            h.start_time,
            control_points@,
            pixel_len,
            repeats as int,
        ).len() as int,
    }
}

/// The running difficulty counters after one object: the combo grows by the
/// head and every sampled vertex, and the object's kind counter steps.
pub open spec fn attrs_after_spec(
    a: OsuDifficultyAttributes,
    h: HitObject,
    m: Beatmap,
) -> OsuDifficultyAttributes {
    let combo = sat_add_spec(
        sat_add_spec(a.max_combo, 1),
        extra_combo_spec(h, m) as u64,
    );
    match h.kind {
        HitKind::Circle => OsuDifficultyAttributes {
            max_combo: combo,
            n_circles: sat_add_spec(a.n_circles, 1),
            ..a
        },
        HitKind::Spinner => OsuDifficultyAttributes {
            max_combo: combo,
            n_spinners: sat_add_spec(a.n_spinners, 1),
            ..a
        },
        HitKind::Slider { .. } => OsuDifficultyAttributes {
            max_combo: combo,
            n_sliders: sat_add_spec(a.n_sliders, 1),
            ..a
        },
    }
}

/// Bounds every object sample satisfies.
pub open spec fn wf_sample(o: OsuObject) -> bool {
    &&& o.time <= OBJ_TIME_LIMIT
    &&& pos_bounded(o.pos, POS_LIMIT as int)
    &&& pos_bounded(o.end_pos, POS_LIMIT as int)
}


impl OsuObject {
    /// Samples one raw hit object: a point object is its own summary, a
    /// duration-only object carries no travel, and a hold object walks its
    /// curve at every tick and repeat boundary, accumulating follow-circle
    /// travel. Updates the running difficulty counters, and reuses (and
    /// clears) the caller's tick scratch buffer.
    pub fn new(
        h: &HitObject,
        map: &Beatmap,
        radius: u64,
        scaling: u64,
        ticks: &mut Vec<u64>,
        attrs: &mut OsuDifficultyAttributes,
    ) -> (r: OsuObject)
        requires
            map.wf(),
            wf_hit_object(*h),
            1 <= radius <= RADIUS_LIMIT,
            scaling <= 1_000_000,
            old(ticks)@.len() == 0,
        ensures
            r == sample_spec(*h, *map, radius, scaling),
            *final(attrs) == attrs_after_spec(*old(attrs), *h, *map),
            final(ticks)@.len() == 0,
            wf_sample(r),
    {
        match &h.kind {
            HitKind::Circle => {
                attrs.max_combo = sat_add(attrs.max_combo, 1);
                attrs.n_circles = sat_add(attrs.n_circles, 1);
                OsuObject {
                    time: h.start_time,
                    pos: h.pos,
                    end_pos: h.pos,
                    travel_dist: Option::Some(0),
                }
            },
            HitKind::Spinner => {
                attrs.max_combo = sat_add(attrs.max_combo, 1);
                attrs.n_spinners = sat_add(attrs.n_spinners, 1);
                OsuObject {
                    time: h.start_time,
                    pos: h.pos,
                    end_pos: h.pos,
                    travel_dist: Option::None,
                }
            },
            HitKind::Slider { pixel_len, repeats, control_points } => {
                attrs.n_sliders = sat_add(attrs.n_sliders, 1);
                let start: u64 = h.start_time;
                let reps: u64 = *repeats as u64;
                let tp = map.timing_point_at(start);
                let dp = map.difficulty_point_at(start);
                proof {
                    assert(0 <= (BASE_SCORING_DISTANCE as int) * (map.slider_mult as int)
                        / (FP as int) <= 100_000_000int) by (nonlinear_arith)
                        requires 1 <= map.slider_mult <= VEL_LIMIT;
                }
                let s1 = fx_mul(BASE_SCORING_DISTANCE, map.slider_mult);
                proof {
                    assert(0 <= (s1 as int) * (dp.slider_vel as int) / (FP as int)
                        <= 10_000_000_000int) by (nonlinear_arith)
                        requires 0 <= s1 <= 100_000_000u64, 1 <= dp.slider_vel <= VEL_LIMIT;
                }
                let scoring = fx_mul(s1, dp.slider_vel);
                proof {
                    assert(0 <= (scoring as int) * (FP as int) / (tp.beat_len as int)
                        <= 100_000_000_000_000int) by (nonlinear_arith)
                        requires 0 <= scoring <= 10_000_000_000u64, tp.beat_len >= 1;
                }
                let vel = umax(1, fx_div(scoring, tp.beat_len));
                let curve = Curve::new(control_points, *pixel_len);
                let clen = curve.dist();
                proof {
                    assert(clen <= PATH_CAP);
                    assert(0 <= (clen as int) * (FP as int) / (vel as int)
                        <= 10_000_000_000_000int) by (nonlinear_arith)
                        requires 0 <= clen <= PATH_CAP, vel >= 1;
                }
                let sd = umax(1, fx_div(clen, vel));
                proof {
                    assert(0 <= (scoring as int) * (FP as int) / (map.tick_rate as int)
                        <= 100_000_000_000_000int) by (nonlinear_arith)
                        requires 0 <= scoring <= 10_000_000_000u64, map.tick_rate >= 1;
                }
                let tick_base = fx_div(scoring, map.tick_rate);
                let tick_raw: u64 = if map.version < 8 {
                    proof {
                        assert(0 <= (tick_base as int) * (FP as int) / (dp.slider_vel as int)
                            <= 1_000_000_000_000_000_000int) by (nonlinear_arith)
                            requires 0 <= tick_base <= 100_000_000_000_000u64, dp.slider_vel >= 1;
                    }
                    fx_div(tick_base, dp.slider_vel)
                } else {
                    tick_base
                };
                let td_pre: u64 = if dp.generate_ticks {
                    tick_raw
                } else {
                    clen
                };
                let td_cl = umin(td_pre, clen);

                proof {
                    assert(0 <= (reps + 1) * (sd as int) <= 10_001int * 10_000_000_000_000int)
                        by (nonlinear_arith)
                        requires 0 <= reps <= REPEAT_LIMIT as u64, 1 <= sd <= 10_000_000_000_000u64;
                    assert(0 <= (reps as int) * (sd as int)
                        && (reps as int) * (sd as int) + (sd as int) == (reps + 1) * (sd as int))
                        by (nonlinear_arith);
                }
                let total: u64 = (reps + 1) * sd;
                let half: u64 = start + total / 2;
                let endbase: u64 = start + reps * sd + sd;
                let tail: u64 = if endbase >= LEGACY_LAST_TICK_OFFSET {
                    umax(half, endbase - LEGACY_LAST_TICK_OFFSET)
                } else {
                    half
                };
                proof {
                    assert(tail == tail_time_spec(start as int, sd as int, reps as int));
                    assert(start <= tail && tail - start <= (reps + 1) * (sd as int));
                }

                let ghost m = *map;
                let ghost spec_times = slider_times_spec(m, start, control_points@, *pixel_len, reps as int);
                let mut all_times: Vec<u64> = Vec::new();
                let ghost mut gtimes: Seq<int> = Seq::<int>::empty();

                if td_cl == 0 {
                    all_times.push(tail);
                    proof {
                        gtimes = seq![tail as int];
                        assert(gtimes =~= spec_times);
                    }
                } else {
                    let td = umax(td_cl, TICK_FLOOR);
                    let margin: u64 = 10 * vel;
                    let limit: u64 = if margin < clen {
                        clen - margin
                    } else {
                        0
                    };
                    let ghost gtd = td as int;
                    let ghost glim = limit as int;
                    let ghost gstart = start as int;
                    let ghost gsd = sd as int;
                    let ghost gclen = clen as int;
                    let mut curr: u64 = td;
                    let ghost mut gticks: Seq<int> = Seq::<int>::empty();
                    while curr < limit
                        invariant
                            1 <= td <= 1_000_000_000u64,
                            limit <= clen <= PATH_CAP,
                            1 <= sd <= 10_000_000_000_000u64,
                            start <= TIME_LIMIT,
                            td <= curr <= limit + td,
                            gtd == td as int && glim == limit as int && gstart == start as int
                                && gsd == sd as int && gclen == clen as int,
                            ticks@.len() == gticks.len(),
                            all_times@.len() == gticks.len(),
                            forall|k: int| 0 <= k < gticks.len() ==> ticks@[k] == gticks[k],
                            forall|k: int| 0 <= k < gticks.len() ==> all_times@[k] == gticks[k],
                            forall|k: int|
                                0 <= k < gticks.len()
                                    ==> gstart <= #[trigger] gticks[k] && gticks[k] <= gstart + gsd,
                            tick_times_rec(gtd, glim, gtd, gstart, gsd, gclen) == gticks
                                + tick_times_rec(
                                if curr < limit {
                                    curr as int
                                } else {
                                    glim
                                },
                                glim,
                                gtd,
                                gstart,
                                gsd,
                                gclen,
                            ),
                        decreases (if curr < limit { limit - curr } else { 0 }),
                    {
                        proof {
                            lemma_fx_div_le_fp(curr as int, clen as int);
                        }
                        let progress = fx_div(curr, clen);
                        proof {
                            lemma_fx_mul_le(progress as int, sd as int);
                        }
                        let toff = fx_mul(progress, sd);
                        let t: u64 = start + toff;
                        ticks.push(t);
                        all_times.push(t);
                        proof {
                            let gcurr = curr as int;
                            let nxt: int = if gcurr + gtd < glim {
                                gcurr + gtd
                            } else {
                                glim
                            };
                            assert(tick_times_rec(gcurr, glim, gtd, gstart, gsd, gclen)
                                =~= seq![t as int] + tick_times_rec(nxt, glim, gtd, gstart, gsd, gclen));
                            gticks = gticks + seq![t as int];
                            assert(gticks + tick_times_rec(nxt, glim, gtd, gstart, gsd, gclen)
                                =~= (gticks.drop_last()) + (seq![t as int] + tick_times_rec(
                                nxt,
                                glim,
                                gtd,
                                gstart,
                                gsd,
                                gclen,
                            )));
                        }
                        curr = curr + td;
                    }
                    proof {
                        gtimes = gticks;
                        assert(tick_times_rec(glim, glim, gtd, gstart, gsd, gclen)
                            =~= Seq::<int>::empty());
                        assert(tick_times_rec(gtd, glim, gtd, gstart, gsd, gclen) =~= gticks);
                    }

                    let mut idx: usize = 1;
                    while idx <= *repeats
                        invariant
                            1 <= idx <= *repeats + 1,
                            reps == *repeats as u64,
                            reps <= REPEAT_LIMIT as u64,
                            1 <= sd <= 10_000_000_000_000u64,
                            start <= TIME_LIMIT,
                            gstart == start as int && gsd == sd as int,
                            ticks@.len() == gticks.len(),
                            forall|k: int| 0 <= k < gticks.len() ==> ticks@[k] == gticks[k],
                            forall|k: int|
                                0 <= k < gticks.len()
                                    ==> gstart <= #[trigger] gticks[k] && gticks[k] <= gstart + gsd,
                            all_times@.len() == gtimes.len(),
                            forall|k: int| 0 <= k < gtimes.len() ==> all_times@[k] == gtimes[k],
                            forall|k: int|
                                0 <= k < gtimes.len()
                                    ==> gstart <= #[trigger] gtimes[k]
                                        && gtimes[k] <= gstart + (reps + 1) * gsd,
                            gticks + spans_rec(1, reps as int, gticks, gstart, gsd) == gtimes
                                + spans_rec(idx as int, reps as int, gticks, gstart, gsd),
                        decreases *repeats + 1 - idx,
                    {
                        let ghost gprev = gtimes;
                        let gidx: u64 = idx as u64;
                        proof {
                            assert(0 <= (gidx as int) * gsd <= (reps as int) * gsd)
                                by (nonlinear_arith)
                                requires 1 <= gidx <= reps, gsd >= 1;
                            assert((reps as int) * gsd <= 10_000int * 10_000_000_000_000int)
                                by (nonlinear_arith)
                                requires 0 <= reps <= 10_000u64, 1 <= gsd <= 10_000_000_000_000int;
                            assert((gidx as int + 1) * gsd <= (reps as int + 1) * gsd)
                                by (nonlinear_arith)
                                requires gidx <= reps, gsd >= 1;
                            assert((gidx as int) * gsd + gsd == (gidx as int + 1) * gsd)
                                by (nonlinear_arith);
                        }
                        let off: u64 = gidx * sd;
                        let rep_t: u64 = start + off;
                        all_times.push(rep_t);
                        proof {
                            gtimes = gtimes + seq![rep_t as int];
                        }
                        let base2: u64 = start + start + sd;
                        let ghost goff = off as int;
                        let ghost gbase2 = base2 as int;
                        let ghost after_rep = gtimes;
                        if idx % 2 == 1 {
                            let mut k: usize = 0;
                            while k < ticks.len()
                                invariant
                                    0 <= k <= gticks.len(),
                                    ticks@.len() == gticks.len(),
                                    forall|j: int| 0 <= j < gticks.len() ==> ticks@[j] == gticks[j],
                                    forall|j: int|
                                        0 <= j < gticks.len()
                                            ==> gstart <= #[trigger] gticks[j]
                                                && gticks[j] <= gstart + gsd,
                                    goff == off as int && gbase2 == base2 as int,
                                    base2 == start + start + sd,
                                    off == gidx * sd,
                                    off <= 100_000_000_000_000_000u64,
                                    1 <= gidx <= reps,
                                    gstart == start as int && gsd == sd as int,
                                    start <= TIME_LIMIT,
                                    1 <= sd <= 10_000_000_000_000u64,
                                    reps <= REPEAT_LIMIT as u64,
                                    all_times@.len() == gtimes.len(),
                                    forall|j: int| 0 <= j < gtimes.len() ==> all_times@[j] == gtimes[j],
                                    forall|j: int|
                                        0 <= j < gtimes.len()
                                            ==> gstart <= #[trigger] gtimes[j]
                                                && gtimes[j] <= gstart + (reps + 1) * gsd,
                                    gtimes == after_rep + rev_span_spec(gticks, goff, gbase2).take(
                                        k as int,
                                    ),
                                decreases gticks.len() - k,
                            {
                                proof {
                                    assert(gticks[gticks.len() - 1 - k as int] >= gstart);
                                }
                                let tick_v: u64 = ticks[ticks.len() - 1 - k];
                                proof {
                                    assert(tick_v as int == gticks[gticks.len() - 1 - k as int]);
                                    assert(gstart <= tick_v as int <= gstart + gsd);
                                }
                                let t: u64 = off + (base2 - tick_v);
                                proof {
                                    assert((gidx as int + 1) * gsd <= (reps as int + 1) * gsd)
                                        by (nonlinear_arith)
                                        requires gidx <= reps, gsd >= 1;
                                    assert((gidx as int) * gsd + gsd == (gidx as int + 1) * gsd)
                                        by (nonlinear_arith);
                                    assert(rev_span_spec(gticks, goff, gbase2)[k as int] == t as int);
                                    assert(rev_span_spec(gticks, goff, gbase2).take(k + 1)
                                        =~= rev_span_spec(gticks, goff, gbase2).take(k as int).push(
                                        t as int,
                                    ));
                                }
                                all_times.push(t);
                                proof {
                                    gtimes = gtimes + seq![t as int];
                                    assert(gtimes =~= after_rep + rev_span_spec(
                                        gticks,
                                        goff,
                                        gbase2,
                                    ).take(k + 1));
                                }
                                k = k + 1;
                            }
                            proof {
                                assert(rev_span_spec(gticks, goff, gbase2).take(gticks.len() as int)
                                    =~= rev_span_spec(gticks, goff, gbase2));
                            }
                        } else {
                            let mut k: usize = 0;
                            while k < ticks.len()
                                invariant
                                    0 <= k <= gticks.len(),
                                    ticks@.len() == gticks.len(),
                                    forall|j: int| 0 <= j < gticks.len() ==> ticks@[j] == gticks[j],
                                    forall|j: int|
                                        0 <= j < gticks.len()
                                            ==> gstart <= #[trigger] gticks[j]
                                                && gticks[j] <= gstart + gsd,
                                    goff == off as int,
                                    off == gidx * sd,
                                    off <= 100_000_000_000_000_000u64,
                                    1 <= gidx <= reps,
                                    gstart == start as int && gsd == sd as int,
                                    start <= TIME_LIMIT,
                                    1 <= sd <= 10_000_000_000_000u64,
                                    reps <= REPEAT_LIMIT as u64,
                                    all_times@.len() == gtimes.len(),
                                    forall|j: int| 0 <= j < gtimes.len() ==> all_times@[j] == gtimes[j],
                                    forall|j: int|
                                        0 <= j < gtimes.len()
                                            ==> gstart <= #[trigger] gtimes[j]
                                                && gtimes[j] <= gstart + (reps + 1) * gsd,
                                    gtimes == after_rep + fwd_span_spec(gticks, goff).take(k as int),
                                decreases gticks.len() - k,
                            {
                                proof {
                                    assert(gticks[k as int] >= gstart);
                                }
                                let tick_v: u64 = ticks[k];
                                proof {
                                    assert(tick_v as int == gticks[k as int]);
                                    assert(gstart <= tick_v as int <= gstart + gsd);
                                }
                                let t: u64 = off + tick_v;
                                proof {
                                    assert((gidx as int + 1) * gsd <= (reps as int + 1) * gsd)
                                        by (nonlinear_arith)
                                        requires gidx <= reps, gsd >= 1;
                                    assert((gidx as int) * gsd + gsd == (gidx as int + 1) * gsd)
                                        by (nonlinear_arith);
                                    assert(fwd_span_spec(gticks, goff)[k as int] == t as int);
                                    assert(fwd_span_spec(gticks, goff).take(k + 1)
                                        =~= fwd_span_spec(gticks, goff).take(k as int).push(t as int));
                                }
                                all_times.push(t);
                                proof {
                                    gtimes = gtimes + seq![t as int];
                                    assert(gtimes =~= after_rep + fwd_span_spec(gticks, goff).take(
                                        k + 1,
                                    ));
                                }
                                k = k + 1;
                            }
                            proof {
                                assert(fwd_span_spec(gticks, goff).take(gticks.len() as int)
                                    =~= fwd_span_spec(gticks, goff));
                            }
                        }
                        proof {
                            assert(gtimes =~= gprev + span_block_spec(gidx as int, gticks, gstart, gsd));
                            assert(spans_rec(gidx as int, reps as int, gticks, gstart, gsd)
                                == span_block_spec(gidx as int, gticks, gstart, gsd) + spans_rec(
                                gidx as int + 1,
                                reps as int,
                                gticks,
                                gstart,
                                gsd,
                            ));
                            assert(gprev + (span_block_spec(gidx as int, gticks, gstart, gsd)
                                + spans_rec(gidx as int + 1, reps as int, gticks, gstart, gsd))
                                =~= (gprev + span_block_spec(gidx as int, gticks, gstart, gsd))
                                + spans_rec(gidx as int + 1, reps as int, gticks, gstart, gsd));
                        }
                        idx = idx + 1;
                    }
                    all_times.push(tail);
                    proof {
                        assert(spans_rec(reps as int + 1, reps as int, gticks, gstart, gsd)
                            =~= Seq::<int>::empty());
                        gtimes = gtimes + seq![tail as int];
                        assert(gtimes =~= (gticks + spans_rec(1, reps as int, gticks, gstart, gsd))
                            + seq![tail as int]);
                        assert(gtimes =~= spec_times);
                    }
                    ticks.clear();
                }

                // The follow-circle walk over the collected vertex times.
                let fr: u64 = 3 * radius;
                let ghost cps = control_points@;
                let ghost decl = *pixel_len;
                let ghost targets = gtimes.map_values(
                    |wt: int| vertex_target_spec(cps, decl, h.pos, start as int, sd as int, wt),
                );
                let init = TravelState { end_pos: h.pos, travel: 0 };
                let mut st = init;
                let mut i: usize = 0;
                proof {
                    assert(targets.take(0) =~= Seq::<Pos>::empty());
                }
                while i < all_times.len()
                    invariant
                        0 <= i <= gtimes.len(),
                        all_times@.len() == gtimes.len(),
                        forall|k: int| 0 <= k < gtimes.len() ==> all_times@[k] == gtimes[k],
                        forall|k: int|
                            0 <= k < gtimes.len()
                                ==> start as int <= #[trigger] gtimes[k]
                                    && gtimes[k] <= start + (reps + 1) * (sd as int),
                        targets == gtimes.map_values(
                            |wt: int| vertex_target_spec(cps, decl, h.pos, start as int, sd as int, wt),
                        ),
                        st == follow_fold(targets.take(i as int), init, fr),
                        pos_bounded(st.end_pos, POS_LIMIT as int),
                        st.travel <= TRAVEL_CAP,
                        init == (TravelState { end_pos: h.pos, travel: 0 }),
                        curve.wf(),
                        curve.verts@ == ext_verts(cps, decl),
                        curve.length == curve_len_spec(cps, decl),
                        1 <= sd <= 10_000_000_000_000u64,
                        reps <= REPEAT_LIMIT as u64,
                        start <= TIME_LIMIT,
                        pos_bounded(h.pos, MAP_POS_LIMIT as int),
                    decreases gtimes.len() - i,
                {
                    let t: u64 = all_times[i];
                    proof {
                        assert(gtimes[i as int] == t as int);
                        assert(0 <= (t - start) * (FP as int) / (sd as int)
                            <= (reps + 1) * (FP as int)) by (nonlinear_arith)
                            requires
                                0 <= t - start <= (reps + 1) * (sd as int),
                                sd >= 1,
                        ;
                        assert((reps + 1) * (FP as int) <= 10_001int * (FP as int))
                            by (nonlinear_arith)
                            requires reps <= 10_000u64;
                    }
                    let raw = fx_div(t - start, sd);
                    let m2: u64 = raw % (2 * FP);
                    let p: u64 = if m2 >= FP {
                        2 * FP - m2
                    } else {
                        m2
                    };
                    proof {
                        assert(p as int == reflect_spec(raw as int));
                    }
                    let cpos = curve.position_at(p);
                    let target = Pos { x: h.pos.x + cpos.x, y: h.pos.y + cpos.y };
                    proof {
                        assert(target == targets[i as int]);
                        assert(targets.take(i + 1).drop_last() =~= targets.take(i as int));
                        assert(targets.take(i + 1).last() == targets[i as int]);
                    }
                    let ns = follow_step(st, &target, fr);
                    st = ns;
                    i = i + 1;
                }
                proof {
                    assert(targets.take(gtimes.len() as int) =~= targets);
                    assert(0 <= (st.travel as int) * (scaling as int) / (FP as int)
                        <= 100_000_000_000_000_000int) by (nonlinear_arith)
                        requires 0 <= st.travel <= TRAVEL_CAP, 0 <= scaling <= 1_000_000u64;
                }
                let travel = fx_mul(st.travel, scaling);
                attrs.max_combo = sat_add(sat_add(attrs.max_combo, 1), all_times.len() as u64);
                OsuObject {
                    time: start,
                    pos: h.pos,
                    end_pos: st.end_pos,
                    travel_dist: Option::Some(travel),
                }
            },
        }
    }
}


/// A hold object whose every sampled vertex stays within the follow circle
/// of its head gathers no travel and leaves the tracked position at the head.
pub proof fn lemma_slider_travel_zero_within_follow(
    m: Beatmap,
    t: u64,
    hpos: Pos,
    points: Seq<Pos>,
    declared: u64,
    repeats: int,
    radius: u64,
)
    requires
        radius <= RADIUS_LIMIT,
        forall|i: int|
            0 <= i < slider_times_spec(m, t, points, declared, repeats).len()
                ==> dist_spec(
                    hpos,
                    #[trigger] vertex_target_spec(
                        points,
                        declared,
                        hpos,
                        t as int,
                        span_dur_spec(m, t, points, declared),
                        slider_times_spec(m, t, points, declared, repeats)[i],
                    ),
                ) <= 3 * radius,
    ensures
        slider_travel_spec(m, t, hpos, points, declared, repeats, radius).travel == 0,
        slider_travel_spec(m, t, hpos, points, declared, repeats, radius).end_pos == hpos,
{
    let sd = span_dur_spec(m, t, points, declared);
    let times = slider_times_spec(m, t, points, declared, repeats);
    let targets = times.map_values(
        |wt: int| vertex_target_spec(points, declared, hpos, t as int, sd, wt),
    );
    let init = TravelState { end_pos: hpos, travel: 0 };
    assert forall|i: int| 0 <= i < targets.len() implies dist_spec(
        init.end_pos,
        #[trigger] targets[i],
    ) <= (3 * radius) as u64 by {
        assert(targets[i] == vertex_target_spec(points, declared, hpos, t as int, sd, times[i]));
    }
    lemma_follow_fold_within_radius(targets, init, (3 * radius) as u64);
}

/// A hold object with some sampled vertex beyond the follow circle of its
/// head gathers strictly positive travel.
pub proof fn lemma_slider_travel_positive_beyond_follow(
    m: Beatmap,
    t: u64,
    hpos: Pos,
    points: Seq<Pos>,
    declared: u64,
    repeats: int,
    radius: u64,
    k: int,
)
    requires
        radius <= RADIUS_LIMIT,
        0 <= k < slider_times_spec(m, t, points, declared, repeats).len(),
        dist_spec(
            hpos,
            vertex_target_spec(
                points,
                declared,
                hpos,
                t as int,
                span_dur_spec(m, t, points, declared),
                slider_times_spec(m, t, points, declared, repeats)[k],
            ),
        ) > 3 * radius,
    ensures
        slider_travel_spec(m, t, hpos, points, declared, repeats, radius).travel > 0,
{
    let sd = span_dur_spec(m, t, points, declared);
    let times = slider_times_spec(m, t, points, declared, repeats);
    let targets = times.map_values(
        |wt: int| vertex_target_spec(points, declared, hpos, t as int, sd, wt),
    );
    let init = TravelState { end_pos: hpos, travel: 0 };
    assert(targets[k] == vertex_target_spec(points, declared, hpos, t as int, sd, times[k]));
    lemma_follow_fold_beyond_radius(targets, init, (3 * radius) as u64, k);
}


} // verus!
