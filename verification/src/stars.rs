//! The rating orchestrator: one left-to-right pass over a map's hit objects,
//! pairing consecutive samples, feeding both skill accumulators, and closing
//! strain sections as their boundaries pass, then combining the two skill
//! ratings into the final star value.
//!
//! Historically pinned rule versions share this engine and differ only in a
//! small configuration: whether the section width scales with the clock rate,
//! whether overall difficulty is remapped through the legacy hit-window
//! formula, whether object times are normalized at creation, and whether the
//! transition metric carries the previous jump's bonus.

use vstd::prelude::*;
use crate::fx::{
    FP, fx_mul_spec, fx_div_spec, sqrt_floor, fx_mul, fx_div, fx_sqrt, umax, umin,
    lemma_fx_div_mono, lemma_sqrt_floor_bounds, lemma_sqrt_floor_le,
};
use crate::map::{Beatmap, TIME_LIMIT};
use crate::object::{
    OsuObject, sample_spec, attrs_after_spec, wf_sample, OBJ_TIME_LIMIT, RADIUS_LIMIT,
};
use crate::transition::{
    DifficultyObject, transition_spec, CLOCK_MIN, CLOCK_MAX, SCALING_LIMIT, JUMP_LIMIT,
};
use crate::skill::{
    Skill, SkillModel, SkillKind, process_spec, save_peak_spec, new_section_spec, wf_skill,
    weighted_sum, sort_desc, SECTION_LEN,
};
use crate::attributes::OsuDifficultyAttributes;

verus! {

/// Base object radius at circle size zero adjustment (64 pixels).
pub const OBJECT_RADIUS: u64 = 640_000;

/// The radius jumps are normalized to (52 pixels).
pub const NORMALIZED_RADIUS: u64 = 520_000;

/// Scale from the raw weighted strain sum to the displayed rating (0.0675).
pub const DIFFICULTY_MULTIPLIER: u64 = 675;

/// Legacy hit-window bounds of the overall-difficulty remapping, in
/// fixed-point milliseconds. The lower window belongs to the higher
/// difficulty, so the clamp reads backwards on purpose: it reproduces the
/// historical formula literally.
pub const OD_MIN_WINDOW: u64 = 795_000;

pub const OD_MAX_WINDOW: u64 = 195_000;

/// Mod-derived attributes, resolved by the caller's mod-application
/// collaborator: effective clock rate, approach rate, overall difficulty and
/// circle size, plus the two mod predicates the legacy remapping reads.
#[derive(Clone, Copy, Debug, PartialEq, Eq, Structural)]
pub struct ModAttributes {
    pub ar: i64,
    pub od: i64,
    pub cs: u64,
    pub clock_rate: u64,
    pub hr: bool,
    pub ez: bool,
}

pub open spec fn wf_mods(a: ModAttributes) -> bool {
    &&& CLOCK_MIN <= a.clock_rate <= CLOCK_MAX
    &&& a.cs <= 10 * FP
}

/// The per-version configuration the shared engine runs under.
#[derive(Clone, Copy, Debug, PartialEq, Eq, Structural)]
pub struct VersionConfig {
    /// The section width scales with the clock rate.
    pub scale_section_with_clock: bool,
    /// Overall difficulty goes through the legacy hit-window remapping.
    pub remap_od: bool,
    /// Object times are divided by the clock rate at creation; transitions
    /// then see them unscaled.
    pub normalize_time_at_creation: bool,
    /// Transitions carry the previous jump's continuation bonus.
    pub flow_bonus: bool,
}

impl VersionConfig {
    /// The early ruleset: raw object times, clock-scaled sections, and the
    /// legacy overall-difficulty remapping.
    pub fn april_2015() -> (r: VersionConfig)
        ensures
            r == (VersionConfig {
                scale_section_with_clock: true,
                remap_od: true,
                normalize_time_at_creation: false,
                flow_bonus: false,
            }),
    {
        VersionConfig {
            scale_section_with_clock: true,
            remap_od: true,
            normalize_time_at_creation: false,
            flow_bonus: false,
        }
    }

    /// The later ruleset: clock-normalized object times, fixed sections, and
    /// the transition continuation bonus.
    pub fn july_2021() -> (r: VersionConfig)
        ensures
            r == (VersionConfig {
                scale_section_with_clock: false,
                remap_od: false,
                normalize_time_at_creation: true,
                flow_bonus: true,
            }),
    {
        VersionConfig {
            scale_section_with_clock: false,
            remap_od: false,
            normalize_time_at_creation: true,
            flow_bonus: true,
        }
    }
}

/// The overall-difficulty multiplier the mod predicates select.
pub open spec fn mod_mult_spec(hr: bool, ez: bool) -> u64 {
    if hr {
        14_000
    } else if ez {
        5_000
    } else {
        FP
    }
}

/// The legacy overall-difficulty remapping: difficulty to hit window, the
/// historical backwards clamp, clock scaling, and back to difficulty.
pub open spec fn modify_od_spec(base_od: u64, speed_mult: u64, mod_mult: u64) -> int {
    let od = fx_mul_spec(base_od as int, mod_mult as int);
    let cceil = ((6 * od + (FP as int) - 1) / (FP as int)) * (FP as int);
    let odms0 = OD_MIN_WINDOW - cceil;
    let odms1: int = if odms0 < OD_MAX_WINDOW {
        OD_MAX_WINDOW as int
    } else {
        odms0
    };
    let odms2: int = if odms1 > OD_MIN_WINDOW {
        OD_MIN_WINDOW as int
    } else {
        odms1
    };
    let odms3 = fx_div_spec(odms2, speed_mult as int);
    if odms3 <= OD_MIN_WINDOW {
        (OD_MIN_WINDOW - odms3) / 6
    } else {
        -((odms3 - OD_MIN_WINDOW) / 6)
    }
}

/// Remaps the overall difficulty through the legacy hit windows.
pub fn modify_od(base_od: u64, speed_mult: u64, mod_mult: u64) -> (r: i64)
    requires
        base_od <= 10 * FP,
        CLOCK_MIN <= speed_mult <= CLOCK_MAX,
        mod_mult <= 20_000,
    ensures
        r == modify_od_spec(base_od, speed_mult, mod_mult),
{
    proof {
        assert(0 <= (base_od as int) * (mod_mult as int) / (FP as int) <= 200_000int)
            by (nonlinear_arith)
            requires base_od <= 10 * FP, mod_mult <= 20_000u64;
    }
    let od: u64 = fx_mul(base_od, mod_mult);
    let cceil: u64 = ((6 * od + (FP - 1)) / FP) * FP;
    let odms1: u64 = if cceil >= OD_MIN_WINDOW || OD_MIN_WINDOW - cceil < OD_MAX_WINDOW {
        OD_MAX_WINDOW
    } else {
        OD_MIN_WINDOW - cceil
    };
    let odms2: u64 = umin(odms1, OD_MIN_WINDOW);
    proof {
        assert(0 <= (odms2 as int) * (FP as int) / (speed_mult as int)
            <= (OD_MIN_WINDOW as int) * (FP as int) / (CLOCK_MIN as int)) by (nonlinear_arith)
            requires 0 <= odms2 <= OD_MIN_WINDOW, CLOCK_MIN <= speed_mult;
    }
    let odms3: u64 = fx_div(odms2, speed_mult);
    if odms3 <= OD_MIN_WINDOW {
        ((OD_MIN_WINDOW - odms3) / 6) as i64
    } else {
        -(((odms3 - OD_MIN_WINDOW) / 6) as i64)
    }
}

/// The effective object radius under a circle size, in fixed-point pixels.
pub open spec fn radius_spec(cs: u64) -> int {
    let factor: int = if cs >= 5 * FP {
        FP - 7 * (cs - 5 * (FP as int)) / 50
    } else {
        FP + 7 * (5 * (FP as int) - cs) / 50
    };
    fx_mul_spec(OBJECT_RADIUS as int, factor) / 2
}

/// The jump-normalization factor: the normalized radius over the object
/// radius, with a precision bonus of up to ten percent for small circles.
pub open spec fn scaling_spec(cs: u64) -> int {
    let r = radius_spec(cs);
    let s = fx_div_spec(NORMALIZED_RADIUS as int, r);
    if r < 300_000 {
        let bonus: int = (if 300_000 - r <= 50_000 { 300_000 - r } else { 50_000int }) / 50;
        fx_mul_spec(s, (FP as int) + bonus)
    } else {
        s
    }
}

/// Computes the object radius and jump-normalization factor of a circle size.
pub fn radius_and_scaling(cs: u64) -> (r: (u64, u64))
    requires
        cs <= 10 * FP,
    ensures
        r.0 == radius_spec(cs),
        r.1 == scaling_spec(cs),
        96_000 <= r.0 <= 544_000,
        1 <= r.1 <= 100_000,
{
    let factor: u64 = if cs >= 5 * FP {
        FP - 7 * (cs - 5 * FP) / 50
    } else {
        FP + 7 * (5 * FP - cs) / 50
    };
    proof {
        assert(3_000 <= factor <= 17_000);
        assert((OBJECT_RADIUS as int) * (factor as int) / (FP as int) / 2 >= 96_000int)
            by (nonlinear_arith)
            requires 3_000 <= factor;
        assert((OBJECT_RADIUS as int) * (factor as int) / (FP as int) / 2 <= 544_000int)
            by (nonlinear_arith)
            requires factor <= 17_000u64;
        assert(0 <= (OBJECT_RADIUS as int) * (factor as int) / (FP as int) <= u64::MAX as int)
            by (nonlinear_arith)
            requires factor <= 17_000u64;
    }
    let radius: u64 = fx_mul(OBJECT_RADIUS, factor) / 2;
    proof {
        assert(9_000int <= (NORMALIZED_RADIUS as int) * (FP as int) / (radius as int)
            <= 60_000int) by (nonlinear_arith)
            requires 96_000 <= radius <= 544_000u64;
    }
    let s0: u64 = fx_div(NORMALIZED_RADIUS, radius);
    let scaling: u64 = if radius < 300_000 {
        let bonus: u64 = umin(300_000 - radius, 50_000) / 50;
        proof {
            assert(0 <= (s0 as int) * ((FP as int) + bonus) / (FP as int) <= 100_000int)
                by (nonlinear_arith)
                requires 9_000 <= s0 <= 60_000u64, 0 <= bonus <= 1_000u64;
            assert((s0 as int) * ((FP as int) + bonus) / (FP as int) >= 1int)
                by (nonlinear_arith)
                requires 9_000 <= s0 <= 60_000u64, 0 <= bonus;
        }
        fx_mul(s0, FP + bonus)
    } else {
        s0
    };
    (radius, scaling)
}

/// The section width of one pass: fixed, or scaled with the clock rate.
pub open spec fn slen_spec(cfg: VersionConfig, clock_rate: u64) -> int {
    if cfg.scale_section_with_clock {
        let s = fx_mul_spec(SECTION_LEN as int, clock_rate as int);
        if s >= 1 {
            s
        } else {
            1
        }
    } else {
        SECTION_LEN as int
    }
}

/// The clock rate transitions divide by: one when the times were already
/// normalized at creation.
pub open spec fn clock_eff_spec(mods: ModAttributes, cfg: VersionConfig) -> u64 {
    if cfg.normalize_time_at_creation {
        FP
    } else {
        mods.clock_rate
    }
}

/// The sample of object `i`, its time normalized when the version asks so.
pub open spec fn sample_at(
    m: Beatmap,
    i: int,
    radius: u64,
    scaling: u64,
    mods: ModAttributes,
    cfg: VersionConfig,
) -> OsuObject {
    let o = sample_spec(m.hit_objects@[i], m, radius, scaling);
    if cfg.normalize_time_at_creation {
        OsuObject { time: fx_div_spec(o.time as int, mods.clock_rate as int) as u64, ..o }
    } else {
        o
    }
}

/// The first section boundary at or after `t`, stepping by whole sections.
pub open spec fn ceil_mul_spec(t: int, s: int) -> int {
    ((t + s - 1) / s) * s
}

/// The boundary cursor advanced past `t` without closing sections: the very
/// first pairing anchors the cursor relative to the first object.
pub open spec fn anchor_spec(se: int, t: int, slen: int) -> int
    decreases t - se + slen when slen >= 1
{
    if t > se {
        anchor_spec(se + slen, t, slen)
    } else {
        se
    }
}

/// Both accumulators driven across every boundary up to `t`: each crossing
/// freezes one section peak.
pub open spec fn advance_spec(
    aim: SkillModel,
    speed: SkillModel,
    se: int,
    t: int,
    slen: int,
) -> (SkillModel, SkillModel, int)
    decreases t - se + slen when slen >= 1
{
    if t > se {
        advance_spec(
            new_section_spec(aim, se as u64),
            new_section_spec(speed, se as u64),
            se + slen,
            t,
            slen,
        )
    } else {
        (aim, speed, se)
    }
}

pub open spec fn fresh_skill(kind: SkillKind) -> SkillModel {
    SkillModel {
        kind,
        current_strain: 0,
        current_peak: 0,
        peaks: Seq::<u64>::empty(),
        prev_time: 0,
    }
}

/// The pipeline state after the leading pair of objects.
pub ghost struct PipeState {
    pub aim: SkillModel,
    pub speed: SkillModel,
    pub prev: OsuObject,
    pub prev_vals: Option<(u64, u64)>,
    pub section_end: int,
}

pub open spec fn init_state(
    m: Beatmap,
    radius: u64,
    scaling: u64,
    mods: ModAttributes,
    cfg: VersionConfig,
    slen: int,
) -> PipeState {
    let s0 = sample_at(m, 0, radius, scaling, mods, cfg);
    let s1 = sample_at(m, 1, radius, scaling, mods, cfg);
    let se0 = ceil_mul_spec(s0.time as int, slen);
    let tr = transition_spec(s1, s0, Option::None, clock_eff_spec(mods, cfg), scaling, cfg.flow_bonus);
    let se1 = anchor_spec(se0, tr.base_time as int, slen);
    PipeState {
        aim: process_spec(fresh_skill(SkillKind::Aim), tr),
        speed: process_spec(fresh_skill(SkillKind::Speed), tr),
        prev: s1,
        prev_vals: Option::Some((tr.jump_dist, tr.strain_time)),
        section_end: se1,
    }
}

pub open spec fn pipe_step(
    st: PipeState,
    obj: OsuObject,
    mods: ModAttributes,
    cfg: VersionConfig,
    scaling: u64,
    slen: int,
) -> PipeState {
    let tr = transition_spec(
        obj,
        st.prev,
        st.prev_vals,
        clock_eff_spec(mods, cfg),
        scaling,
        cfg.flow_bonus,
    );
    let adv = advance_spec(st.aim, st.speed, st.section_end, tr.base_time as int, slen);
    PipeState {
        aim: process_spec(adv.0, tr),
        speed: process_spec(adv.1, tr),
        prev: obj,
        prev_vals: Option::Some((tr.jump_dist, tr.strain_time)),
        section_end: adv.2,
    }
}

/// The pipeline state after the first `i` objects, `i` at least two.
pub open spec fn pipeline_rec(
    m: Beatmap,
    i: int,
    radius: u64,
    scaling: u64,
    mods: ModAttributes,
    cfg: VersionConfig,
    slen: int,
) -> PipeState
    decreases i when i >= 2
{
    if i <= 2 {
        init_state(m, radius, scaling, mods, cfg, slen)
    } else {
        pipe_step(
            pipeline_rec(m, i - 1, radius, scaling, mods, cfg, slen),
            sample_at(m, i - 1, radius, scaling, mods, cfg),
            mods,
            cfg,
            scaling,
            slen,
        )
    }
}

/// The difficulty counters after the first `i` objects.
pub open spec fn attrs_rec(m: Beatmap, base: OsuDifficultyAttributes, i: int) -> OsuDifficultyAttributes
    decreases i when i >= 0
{
    if i <= 0 {
        base
    } else {
        attrs_after_spec(attrs_rec(m, base, i - 1), m.hit_objects@[i - 1], m)
    }
}

/// From a raw weighted strain sum to a displayed component rating.
pub open spec fn rating_of(dv: int) -> int {
    fx_mul_spec(sqrt_floor(dv * (FP as int)), DIFFICULTY_MULTIPLIER as int)
}

/// The star combination: the two components plus half their gap, so the
/// stronger skill dominates without the weaker one vanishing.
pub open spec fn combine_spec(aim: int, speed: int) -> int {
    aim + speed + (if aim >= speed { aim - speed } else { speed - aim }) / 2
}

/// The overall difficulty reported: remapped in early versions, the
/// mod-adjusted value in later ones.
pub open spec fn od_of_spec(m: Beatmap, mods: ModAttributes, cfg: VersionConfig) -> int {
    if cfg.remap_od {
        modify_od_spec(m.od, mods.clock_rate, mod_mult_spec(mods.hr, mods.ez))
    } else {
        mods.od as int
    }
}

/// The attributes value a pass with fewer than two objects in scope returns.
pub open spec fn minimal_attrs_spec(m: Beatmap, mods: ModAttributes, cfg: VersionConfig) -> OsuDifficultyAttributes {
    OsuDifficultyAttributes {
        aim_strain: 0,
        speed_strain: 0,
        ar: mods.ar,
        od: od_of_spec(m, mods, cfg) as i64,
        hp: 0,
        n_circles: 0,
        n_sliders: 0,
        n_spinners: 0,
        stars: 0,
        max_combo: 0,
    }
}

/// How many objects a pass covers: a requested cutoff, capped at the map.
pub open spec fn take_eff_spec(m: Beatmap, passed_objects: Option<usize>) -> int {
    let n = m.hit_objects@.len() as int;
    match passed_objects {
        Option::Some(k) => if k <= n { k as int } else { n },
        Option::None => n,
    }
}

/// The full rating pass as one function of its inputs.
pub open spec fn stars_spec(
    m: Beatmap,
    mods: ModAttributes,
    take: int,
    cfg: VersionConfig,
) -> OsuDifficultyAttributes {
    let base = minimal_attrs_spec(m, mods, cfg);
    if take < 2 {
        base
    } else {
        let radius = radius_spec(mods.cs) as u64;
        let scaling = scaling_spec(mods.cs) as u64;
        let slen = slen_spec(cfg, mods.clock_rate);
        let st = pipeline_rec(m, take, radius, scaling, mods, cfg, slen);
        let aimf = save_peak_spec(st.aim);
        let speedf = save_peak_spec(st.speed);
        let aim_rating = rating_of(weighted_sum(sort_desc(aimf.peaks), FP as int));
        let speed_rating = rating_of(weighted_sum(sort_desc(speedf.peaks), FP as int));
        let counted = attrs_rec(m, base, take);
        OsuDifficultyAttributes {
            aim_strain: aim_rating as u64,
            speed_strain: speed_rating as u64,
            stars: combine_spec(aim_rating, speed_rating) as u64,
            ..counted
        }
    }
}

/// Identical inputs always give identical attributes: the whole pass is a
/// function of the map, the mod attributes, the cutoff and the version.
pub proof fn lemma_stars_deterministic(
    m1: Beatmap,
    m2: Beatmap,
    a1: ModAttributes,
    a2: ModAttributes,
    t1: int,
    t2: int,
    c1: VersionConfig,
    c2: VersionConfig,
)
    requires
        m1 == m2,
        a1 == a2,
        t1 == t2,
        c1 == c2,
    ensures
        stars_spec(m1, a1, t1, c1) == stars_spec(m2, a2, t2, c2),
{
}

/// Builds object `i`'s sample, normalizing its time when the version asks so.
fn next_sample(
    map: &Beatmap,
    i: usize,
    radius: u64,
    scaling: u64,
    mods: &ModAttributes,
    config: &VersionConfig,
    ticks: &mut Vec<u64>,
    attrs: &mut OsuDifficultyAttributes,
) -> (r: OsuObject)
    requires
        map.wf(),
        wf_mods(*mods),
        i < map.hit_objects@.len(),
        1 <= radius <= RADIUS_LIMIT,
        scaling <= SCALING_LIMIT,
        old(ticks)@.len() == 0,
    ensures
        r == sample_at(*map, i as int, radius, scaling, *mods, *config),
        *final(attrs) == attrs_after_spec(*old(attrs), map.hit_objects@[i as int], *map),
        final(ticks)@.len() == 0,
        wf_sample(r),
        r.time <= OBJ_TIME_LIMIT,
{
    let o = OsuObject::new(&map.hit_objects[i], map, radius, scaling, ticks, attrs);
    proof {
        assert(o.time == map.hit_objects@[i as int].start_time);
        assert(o.time <= TIME_LIMIT);
    }
    if config.normalize_time_at_creation {
        proof {
            assert(0 <= (o.time as int) * (FP as int) / (mods.clock_rate as int)
                <= 4 * (TIME_LIMIT as int)) by (nonlinear_arith)
                requires 0 <= o.time <= TIME_LIMIT, CLOCK_MIN <= mods.clock_rate;
        }
        let t2 = fx_div(o.time, mods.clock_rate);
        OsuObject { time: t2, pos: o.pos, end_pos: o.end_pos, travel_dist: o.travel_dist }
    } else {
        o
    }
}

/// Rates one map under one mod selection. For a cutoff covering fewer than
/// two objects the minimal attributes value is returned, carrying only the
/// approach rate and overall difficulty.

/// Runs the strain pass over objects two onward, the leading pair handled
/// first to anchor the section cursor, and returns both accumulators.
fn run_pass(
    map: &Beatmap,
    mods: &ModAttributes,
    config: &VersionConfig,
    radius: u64,
    scaling: u64,
    slen: u64,
    ce: u64,
    take: usize,
    attrs: &mut OsuDifficultyAttributes,
) -> (r: (Skill, Skill))
    requires
        map.wf(),
        wf_mods(*mods),
        2 <= take <= map.hit_objects@.len(),
        1 <= radius <= RADIUS_LIMIT,
        1 <= scaling <= SCALING_LIMIT,
        1 <= slen <= 16_000_000,
        slen as int == slen_spec(*config, mods.clock_rate),
        ce == clock_eff_spec(*mods, *config),
        CLOCK_MIN <= ce <= CLOCK_MAX,
    ensures
        r.0@ == pipeline_rec(*map, take as int, radius, scaling, *mods, *config, slen as int).aim,
        r.1@ == pipeline_rec(*map, take as int, radius, scaling, *mods, *config, slen as int).speed,
        wf_skill(r.0@),
        wf_skill(r.1@),
        *final(attrs) == attrs_rec(*map, *old(attrs), take as int),
{
    let ghost base = *old(attrs);
    let ghost m = *map;
    let ghost gslen = slen as int;
    let ghost gmods = *mods;
    let ghost gcfg = *config;

    let mut ticks: Vec<u64> = Vec::new();
    proof {
        assert(ticks@.len() == 0);
    }
    let s0 = next_sample(map, 0, radius, scaling, mods, config, &mut ticks, attrs);
    proof {
        assert((((s0.time + (slen - 1)) as int) / (slen as int)) * (slen as int)
            <= s0.time + slen - 1
            && (((s0.time + (slen - 1)) as int) / (slen as int)) * (slen as int) >= 0)
            by (nonlinear_arith)
            requires slen >= 1, s0.time >= 0;
    }
    let mut section_end: u64 = ((s0.time + (slen - 1)) / slen) * slen;
    let ghost se0 = section_end as int;
    let s1 = next_sample(map, 1, radius, scaling, mods, config, &mut ticks, attrs);
    proof {
        lemma_sample_time_mono(m, 0, 1, radius, scaling, gmods, gcfg);
    }
    let tr1 = DifficultyObject::new(&s1, &s0, Option::None, ce, scaling, config.flow_bonus);
    while tr1.base_time > section_end
        invariant
            slen >= 1,
            slen <= 16_000_000,
            gslen == slen as int,
            tr1.base_time <= 4 * OBJ_TIME_LIMIT,
            anchor_spec(se0, tr1.base_time as int, gslen)
                == anchor_spec(section_end as int, tr1.base_time as int, gslen),
        decreases tr1.base_time + slen - section_end,
    {
        section_end = section_end + slen;
    }
    let mut aim = Skill::new(SkillKind::Aim);
    let mut speed = Skill::new(SkillKind::Speed);
    aim.process(&tr1);
    speed.process(&tr1);
    let mut prev = s1;
    let mut prev_vals: Option<(u64, u64)> = Option::Some((tr1.jump_dist, tr1.strain_time));
    proof {
        let st2 = pipeline_rec(m, 2, radius, scaling, gmods, gcfg, gslen);
        assert(st2 == init_state(m, radius, scaling, gmods, gcfg, gslen));
        assert(aim@ == st2.aim && speed@ == st2.speed && prev == st2.prev
            && prev_vals == st2.prev_vals && section_end as int == st2.section_end);
        assert(attrs_rec(m, base, 0) == base);
        assert(attrs_rec(m, base, 1) == attrs_after_spec(base, m.hit_objects@[0], m));
        assert(attrs_rec(m, base, 2) == attrs_after_spec(
            attrs_rec(m, base, 1),
            m.hit_objects@[1],
            m,
        ));
    }
    let mut i: usize = 2;
    while i < take
        invariant
            2 <= i <= take,
            take <= m.hit_objects@.len(),
            m == *map,
            gmods == *mods,
            gcfg == *config,
            gslen == slen as int,
            1 <= slen <= 16_000_000,
            map.wf(),
            wf_mods(*mods),
            1 <= radius <= RADIUS_LIMIT,
            1 <= scaling <= SCALING_LIMIT,
            ce == clock_eff_spec(gmods, gcfg),
            CLOCK_MIN <= ce <= CLOCK_MAX,
            ticks@.len() == 0,
            wf_skill(aim@),
            wf_skill(speed@),
            wf_sample(prev),
            prev_vals matches Option::Some(v) ==> v.0 <= JUMP_LIMIT,
            prev == sample_at(m, i - 1, radius, scaling, gmods, gcfg),
            aim@ == pipeline_rec(m, i as int, radius, scaling, gmods, gcfg, gslen).aim,
            speed@ == pipeline_rec(m, i as int, radius, scaling, gmods, gcfg, gslen).speed,
            prev == pipeline_rec(m, i as int, radius, scaling, gmods, gcfg, gslen).prev,
            prev_vals == pipeline_rec(m, i as int, radius, scaling, gmods, gcfg, gslen).prev_vals,
            section_end as int == pipeline_rec(
                m,
                i as int,
                radius,
                scaling,
                gmods,
                gcfg,
                gslen,
            ).section_end,
            *attrs == attrs_rec(m, base, i as int),
        decreases take - i,
    {
        let ghost old_state = pipeline_rec(m, i as int, radius, scaling, gmods, gcfg, gslen);
        let o = next_sample(map, i, radius, scaling, mods, config, &mut ticks, attrs);
        proof {
            lemma_sample_time_mono(m, i - 1, i as int, radius, scaling, gmods, gcfg);
        }
        let tr = DifficultyObject::new(&o, &prev, prev_vals, ce, scaling, config.flow_bonus);
        let ghost aim_in = aim@;
        let ghost speed_in = speed@;
        let ghost se_in = section_end as int;
        while tr.base_time > section_end
            invariant
                slen >= 1,
                slen <= 16_000_000,
                gslen == slen as int,
                wf_skill(aim@),
                wf_skill(speed@),
                tr.base_time <= 4 * OBJ_TIME_LIMIT,
                advance_spec(aim_in, speed_in, se_in, tr.base_time as int, gslen)
                    == advance_spec(
                    aim@,
                    speed@,
                    section_end as int,
                    tr.base_time as int,
                    gslen,
                ),
            decreases tr.base_time + slen - section_end,
        {
            aim.start_new_section_from(section_end);
            speed.start_new_section_from(section_end);
            section_end = section_end + slen;
        }
        aim.process(&tr);
        speed.process(&tr);
        prev = o;
        prev_vals = Option::Some((tr.jump_dist, tr.strain_time));
        proof {
            let ns = pipe_step(old_state, o, gmods, gcfg, scaling, gslen);
            assert(pipeline_rec(m, i + 1, radius, scaling, gmods, gcfg, gslen) == ns);
            assert(aim@ == ns.aim && speed@ == ns.speed && prev == ns.prev
                && prev_vals == ns.prev_vals && section_end as int == ns.section_end);
        }
        i = i + 1;
    }

    (aim, speed)
}

#[verifier::rlimit(100)]
pub fn stars(
    map: &Beatmap,
    mods: &ModAttributes,
    passed_objects: Option<usize>,
    config: &VersionConfig,
) -> (r: OsuDifficultyAttributes)
    requires
        map.wf(),
        wf_mods(*mods),
    ensures
        r == stars_spec(*map, *mods, take_eff_spec(*map, passed_objects), *config),
        take_eff_spec(*map, passed_objects) < 2 ==> r == minimal_attrs_spec(*map, *mods, *config),
{
    let n = map.hit_objects.len();
    let take: usize = match passed_objects {
        Option::Some(k) => if k <= n {
            k
        } else {
            n
        },
        Option::None => n,
    };
    let od: i64 = if config.remap_od {
        let mm: u64 = if mods.hr {
            14_000
        } else if mods.ez {
            5_000
        } else {
            FP
        };
        modify_od(map.od, mods.clock_rate, mm)
    } else {
        mods.od
    };
    let base = OsuDifficultyAttributes {
        aim_strain: 0,
        speed_strain: 0,
        ar: mods.ar,
        od,
        hp: 0,
        n_circles: 0,
        n_sliders: 0,
        n_spinners: 0,
        stars: 0,
        max_combo: 0,
    };
    proof {
        assert(base == minimal_attrs_spec(*map, *mods, *config));
    }
    if take < 2 {
        return base;
    }
    let rs = radius_and_scaling(mods.cs);
    let radius = rs.0;
    let scaling = rs.1;
    let slen: u64 = if config.scale_section_with_clock {
        proof {
            assert(0 <= (SECTION_LEN as int) * (mods.clock_rate as int) / (FP as int)
                <= 16_000_000int) by (nonlinear_arith)
                requires mods.clock_rate <= CLOCK_MAX;
        }
        umax(1, fx_mul(SECTION_LEN, mods.clock_rate))
    } else {
        SECTION_LEN
    };
    assert(1 <= slen <= 16_000_000);
    let ce: u64 = if config.normalize_time_at_creation {
        FP
    } else {
        mods.clock_rate
    };
    let mut attrs = base;
    let pass = run_pass(map, mods, config, radius, scaling, slen, ce, take, &mut attrs);
    let mut aim = pass.0;
    let mut speed = pass.1;
    aim.save_current_peak();
    speed.save_current_peak();
    let aim_dv = aim.difficulty_value();
    let speed_dv = speed.difficulty_value();
    proof {
        lemma_sqrt_floor_bounds(aim_dv * (FP as int));
        lemma_sqrt_floor_le(aim_dv * (FP as int), 400_000_000int);
        lemma_sqrt_floor_bounds(speed_dv * (FP as int));
        lemma_sqrt_floor_le(speed_dv * (FP as int), 400_000_000int);
    }
    let aim_rating = fx_mul(fx_sqrt(aim_dv), DIFFICULTY_MULTIPLIER);
    let speed_rating = fx_mul(fx_sqrt(speed_dv), DIFFICULTY_MULTIPLIER);
    let gap: u64 = if aim_rating >= speed_rating {
        aim_rating - speed_rating
    } else {
        speed_rating - aim_rating
    };
    let stars_value: u64 = aim_rating + speed_rating + gap / 2;
    attrs.aim_strain = aim_rating;
    attrs.speed_strain = speed_rating;
    attrs.stars = stars_value;
    attrs
}

/// Object samples inherit the map's time order, normalized or not.
proof fn lemma_sample_time_mono(
    m: Beatmap,
    i: int,
    j: int,
    radius: u64,
    scaling: u64,
    mods: ModAttributes,
    cfg: VersionConfig,
)
    requires
        m.wf(),
        wf_mods(mods),
        0 <= i <= j < m.hit_objects@.len(),
    ensures
        sample_at(m, i, radius, scaling, mods, cfg).time
            <= sample_at(m, j, radius, scaling, mods, cfg).time,
{
    let hi = m.hit_objects@[i];
    let hj = m.hit_objects@[j];
    assert(hi.start_time <= hj.start_time);
    assert(sample_spec(hi, m, radius, scaling).time == hi.start_time);
    assert(sample_spec(hj, m, radius, scaling).time == hj.start_time);
    if cfg.normalize_time_at_creation {
        lemma_fx_div_mono(hi.start_time as int, hj.start_time as int, mods.clock_rate as int);
    }
}


} // verus!
