//! The skill accumulator: per skill kind, a running strain value decayed
//! between transitions, a per-section running peak, and the permanent list of
//! frozen section peaks, aggregated at the end into a single difficulty value
//! by a geometrically weighted sum over the peaks sorted descending.

use vstd::prelude::*;
use crate::fx::{
    FP, fx_mul_spec, fx_div_spec, fx_pow_spec, fx_mul, fx_div, fx_pow, umin, umax,
    lemma_fx_mul_le, lemma_fx_pow_bounds,
};
use crate::transition::{DifficultyObject, wf_transition, MIN_STRAIN_TIME, JUMP_LIMIT};

verus! {

/// Width of one strain section (400 milliseconds).
pub const SECTION_LEN: u64 = 4_000_000;

/// Geometric weight applied per rank in the peak aggregation (0.9).
pub const DECAY_WEIGHT: u64 = 9_000;

/// Strain values saturate here; real maps stay far below.
pub const STRAIN_BOUND: u64 = 1_000_000_000_000;

/// One transition's strain contribution saturates here.
pub const CONTRIB_CAP: u64 = 10_000_000_000;

/// Granularity of strain decay (100 milliseconds per decay step).
pub const DECAY_STEP: u64 = 1_000_000;

/// Per-step strain decay of the aim skill (0.15 per second).
pub const AIM_DECAY: u64 = 8_270;

/// Per-step strain decay of the speed skill (0.3 per second).
pub const SPEED_DECAY: u64 = 8_870;

/// Weight of the aim contribution (26.25).
pub const AIM_MULTIPLIER: u64 = 262_500;

/// Weight of the speed contribution (1.4).
pub const SPEED_MULTIPLIER: u64 = 14_000;

/// Numerator of the speed value: shorter strain times score higher largely
/// independent of distance (2500 fixed-point milliseconds).
pub const SPEED_SCALE: u64 = 25_000_000;

/// Largest value one transition can score before the multiplier.
pub const VALUE_LIMIT: u64 = 20_000_000_000;

#[derive(Clone, Copy, Debug, PartialEq, Eq, Structural)]
pub enum SkillKind {
    Aim,
    Speed,
}

pub open spec fn decay_base_of(kind: SkillKind) -> u64 {
    match kind {
        SkillKind::Aim => AIM_DECAY,
        SkillKind::Speed => SPEED_DECAY,
    }
}

pub open spec fn multiplier_of(kind: SkillKind) -> u64 {
    match kind {
        SkillKind::Aim => AIM_MULTIPLIER,
        SkillKind::Speed => SPEED_MULTIPLIER,
    }
}

/// Strain decay over an elapsed span, quantized to whole decay steps.
pub open spec fn decay_spec(kind: SkillKind, elapsed: int) -> int {
    fx_pow_spec(
        decay_base_of(kind) as int,
        (if elapsed >= 0 { elapsed / (DECAY_STEP as int) } else { 0 }) as nat,
    )
}

/// The raw per-transition value: aim favors large jumps over short times,
/// speed favors short strain times independent of distance.
pub open spec fn value_spec(kind: SkillKind, jump: int, strain_time: int) -> int {
    match kind {
        SkillKind::Aim => fx_div_spec(jump, strain_time),
        SkillKind::Speed => fx_div_spec(SPEED_SCALE as int, strain_time),
    }
}

/// The weighted contribution, saturated at `CONTRIB_CAP`.
pub open spec fn contrib_spec(kind: SkillKind, jump: int, strain_time: int) -> int {
    let c = fx_mul_spec(value_spec(kind, jump, strain_time), multiplier_of(kind) as int);
    if c <= CONTRIB_CAP {
        c
    } else {
        CONTRIB_CAP as int
    }
}

/// The ghost state of one skill accumulator.
pub ghost struct SkillModel {
    pub kind: SkillKind,
    pub current_strain: u64,
    pub current_peak: u64,
    pub peaks: Seq<u64>,
    pub prev_time: u64,
}

pub open spec fn wf_skill(m: SkillModel) -> bool {
    &&& m.current_strain <= STRAIN_BOUND
    &&& m.current_peak <= STRAIN_BOUND
    &&& forall|i: int| 0 <= i < m.peaks.len() ==> m.peaks[i] <= STRAIN_BOUND
}

/// One transition processed: the strain decays over the elapsed delta, takes
/// the transition's contribution (saturating at `STRAIN_BOUND`), and the
/// section peak keeps the maximum observed strain.
pub open spec fn process_spec(m: SkillModel, h: DifficultyObject) -> SkillModel {
    let decayed = fx_mul_spec(m.current_strain as int, decay_spec(m.kind, h.delta as int));
    let raw = decayed + contrib_spec(m.kind, h.jump_dist as int, h.strain_time as int);
    let ns: int = if raw <= STRAIN_BOUND { raw } else { STRAIN_BOUND as int };
    SkillModel {
        kind: m.kind,
        current_strain: ns as u64,
        current_peak: (if m.current_peak >= ns { m.current_peak as int } else { ns }) as u64,
        peaks: m.peaks,
        prev_time: h.base_time,
    }
}

/// The just-closed section's peak frozen into the permanent list.
pub open spec fn save_peak_spec(m: SkillModel) -> SkillModel {
    SkillModel { peaks: m.peaks.push(m.current_peak), ..m }
}

/// A section boundary crossed: the closed section's peak is frozen, and the
/// new section starts from the strain decayed to the boundary time.
pub open spec fn new_section_spec(m: SkillModel, time: u64) -> SkillModel {
    let elapsed: int = if time >= m.prev_time { time - m.prev_time } else { 0 };
    let decayed = fx_mul_spec(m.current_strain as int, decay_spec(m.kind, elapsed));
    SkillModel {
        kind: m.kind,
        current_strain: m.current_strain,
        current_peak: decayed as u64,
        peaks: m.peaks.push(m.current_peak),
        prev_time: m.prev_time,
    }
}

pub struct Skill {
    pub kind: SkillKind,
    pub current_strain: u64,
    pub current_peak: u64,
    pub peaks: Vec<u64>,
    pub prev_time: u64,
}

impl View for Skill {
    type V = SkillModel;

    open spec fn view(&self) -> SkillModel {
        SkillModel {
            kind: self.kind,
            current_strain: self.current_strain,
            current_peak: self.current_peak,
            peaks: self.peaks@,
            prev_time: self.prev_time,
        }
    }
}

fn decay_of(kind: SkillKind, elapsed: u64) -> (r: u64)
    ensures
        r == decay_spec(kind, elapsed as int),
        r <= FP,
{
    let base = match kind {
        SkillKind::Aim => AIM_DECAY,
        SkillKind::Speed => SPEED_DECAY,
    };
    let k = elapsed / DECAY_STEP;
    proof {
        lemma_fx_pow_bounds(base as int, k as nat);
    }
    fx_pow(base, k)
}

fn skill_value(kind: SkillKind, jump: u64, strain_time: u64) -> (r: u64)
    requires
        jump <= JUMP_LIMIT,
        strain_time >= MIN_STRAIN_TIME,
    ensures
        r == value_spec(kind, jump as int, strain_time as int),
        r <= VALUE_LIMIT,
{
    proof {
        assert(0 <= (jump as int) * (FP as int) / (strain_time as int) <= VALUE_LIMIT)
            by (nonlinear_arith)
            requires 0 <= jump <= JUMP_LIMIT, strain_time >= MIN_STRAIN_TIME;
        assert(0 <= (SPEED_SCALE as int) * (FP as int) / (strain_time as int) <= VALUE_LIMIT)
            by (nonlinear_arith)
            requires strain_time >= MIN_STRAIN_TIME;
    }
    match kind {
        SkillKind::Aim => fx_div(jump, strain_time),
        SkillKind::Speed => fx_div(SPEED_SCALE, strain_time),
    }
}

impl Skill {
    pub fn new(kind: SkillKind) -> (r: Skill)
        ensures
            r@ == (SkillModel {
                kind,
                current_strain: 0,
                current_peak: 0,
                peaks: Seq::<u64>::empty(),
                prev_time: 0,
            }),
            wf_skill(r@),
    {
        let r = Skill { kind, current_strain: 0, current_peak: 0, peaks: Vec::new(), prev_time: 0 };
        proof {
            assert(r.peaks@ =~= Seq::<u64>::empty());
        }
        r
    }

    /// Feeds one transition into the accumulator.
    pub fn process(&mut self, h: &DifficultyObject)
        requires
            wf_skill(old(self)@),
            wf_transition(*h),
        ensures
            final(self)@ == process_spec(old(self)@, *h),
            wf_skill(final(self)@),
    {
        let decay = decay_of(self.kind, h.delta);
        proof {
            lemma_fx_mul_le(decay as int, self.current_strain as int);
            assert(fx_mul_spec(self.current_strain as int, decay as int)
                == fx_mul_spec(decay as int, self.current_strain as int)) by (nonlinear_arith);
        }
        let decayed = fx_mul(self.current_strain, decay);
        let value = skill_value(self.kind, h.jump_dist, h.strain_time);
        let mult = match self.kind {
            SkillKind::Aim => AIM_MULTIPLIER,
            SkillKind::Speed => SPEED_MULTIPLIER,
        };
        proof {
            assert(0 <= (value as int) * (mult as int) / (FP as int)
                <= (VALUE_LIMIT as int) * (AIM_MULTIPLIER as int) / (FP as int))
                by (nonlinear_arith)
                requires 0 <= value <= VALUE_LIMIT, 0 < mult <= AIM_MULTIPLIER;
        }
        let gain = umin(fx_mul(value, mult), CONTRIB_CAP);
        let ns = umin(decayed + gain, STRAIN_BOUND);
        self.current_strain = ns;
        self.current_peak = umax(self.current_peak, ns);
        self.prev_time = h.base_time;
    }

    /// Freezes the in-progress section's peak into the permanent list.
    pub fn save_current_peak(&mut self)
        requires
            wf_skill(old(self)@),
        ensures
            final(self)@ == save_peak_spec(old(self)@),
            wf_skill(final(self)@),
    {
        let p = self.current_peak;
        self.peaks.push(p);
    }

    /// Crosses one section boundary: freezes the closed section's peak, then
    /// restarts the peak tracker from the strain decayed to the boundary
    /// time. A boundary already passed decays over an empty span.
    pub fn start_new_section_from(&mut self, time: u64)
        requires
            wf_skill(old(self)@),
        ensures
            final(self)@ == new_section_spec(old(self)@, time),
            wf_skill(final(self)@),
    {
        let p = self.current_peak;
        self.peaks.push(p);
        let elapsed = if time >= self.prev_time { time - self.prev_time } else { 0 };
        let decay = decay_of(self.kind, elapsed);
        proof {
            lemma_fx_mul_le(decay as int, self.current_strain as int);
            assert(fx_mul_spec(self.current_strain as int, decay as int)
                == fx_mul_spec(decay as int, self.current_strain as int)) by (nonlinear_arith);
        }
        self.current_peak = fx_mul(self.current_strain, decay);
    }
}

/// Closing a section appends exactly one frozen peak; every previously saved
/// peak keeps its value and its index, however often boundaries are crossed,
/// including boundary times that have already passed.
pub proof fn lemma_section_close_preserves_peaks(m: SkillModel, t1: u64, t2: u64)
    ensures
        new_section_spec(m, t1).peaks.len() == m.peaks.len() + 1,
        forall|i: int| 0 <= i < m.peaks.len() ==> new_section_spec(m, t1).peaks[i] == m.peaks[i],
        new_section_spec(m, t1).peaks[m.peaks.len() as int] == m.current_peak,
        forall|i: int|
            0 <= i < m.peaks.len() + 1
                ==> new_section_spec(new_section_spec(m, t1), t2).peaks[i]
                    == new_section_spec(m, t1).peaks[i],
{
}

/// A peak list inserted into, keeping the descending order.
pub open spec fn insert_desc(s: Seq<u64>, x: u64) -> Seq<u64>
    decreases s.len(),
{
    if s.len() == 0 {
        seq![x]
    } else if x >= s[0] {
        seq![x] + s
    } else {
        seq![s[0]] + insert_desc(s.drop_first(), x)
    }
}

/// The peak list sorted descending, by repeated insertion.
pub open spec fn sort_desc(s: Seq<u64>) -> Seq<u64>
    decreases s.len(),
{
    if s.len() == 0 {
        Seq::<u64>::empty()
    } else {
        insert_desc(sort_desc(s.drop_last()), s.last())
    }
}

/// The geometrically weighted sum: entry `i` of `s` counts with weight
/// `cw * DECAY_WEIGHT^i / FP^i`.
pub open spec fn weighted_sum(s: Seq<u64>, cw: int) -> int
    decreases s.len(),
{
    if s.len() == 0 {
        0
    } else {
        fx_mul_spec(s[0] as int, cw) + weighted_sum(s.drop_first(), fx_mul_spec(cw, DECAY_WEIGHT as int))
    }
}

proof fn lemma_insert_desc_split(s: Seq<u64>, x: u64, p: int)
    requires
        0 <= p <= s.len(),
        forall|i: int| 0 <= i < p ==> s[i] > x,
        p < s.len() ==> x >= s[p],
    ensures
        insert_desc(s, x) =~= s.subrange(0, p) + seq![x] + s.subrange(p, s.len() as int),
    decreases p,
{
    if p == 0 {
        if s.len() == 0 {
            assert(insert_desc(s, x) =~= s.subrange(0, 0) + seq![x] + s.subrange(0, 0));
        } else {
            assert(insert_desc(s, x) =~= s.subrange(0, 0) + seq![x] + s.subrange(0, s.len() as int));
        }
    } else {
        let rest = s.drop_first();
        assert(forall|i: int| 0 <= i < p - 1 ==> rest[i] > x);
        lemma_insert_desc_split(rest, x, p - 1);
        assert(insert_desc(s, x) == seq![s[0]] + insert_desc(rest, x));
        assert(insert_desc(s, x) =~= s.subrange(0, p) + seq![x] + s.subrange(p, s.len() as int));
    }
}

proof fn lemma_insert_desc_bound(s: Seq<u64>, x: u64, b: u64)
    requires
        forall|i: int| 0 <= i < s.len() ==> s[i] <= b,
        x <= b,
    ensures
        insert_desc(s, x).len() == s.len() + 1,
        forall|i: int| 0 <= i < insert_desc(s, x).len() ==> insert_desc(s, x)[i] <= b,
    decreases s.len(),
{
    if s.len() != 0 && !(x >= s[0]) {
        lemma_insert_desc_bound(s.drop_first(), x, b);
    }
}

proof fn lemma_sort_desc_bound(s: Seq<u64>, b: u64)
    requires
        forall|i: int| 0 <= i < s.len() ==> s[i] <= b,
    ensures
        sort_desc(s).len() == s.len(),
        forall|i: int| 0 <= i < sort_desc(s).len() ==> sort_desc(s)[i] <= b,
    decreases s.len(),
{
    if s.len() > 0 {
        lemma_sort_desc_bound(s.drop_last(), b);
        lemma_insert_desc_bound(sort_desc(s.drop_last()), s.last(), b);
    }
}

proof fn lemma_weighted_sum_bound(s: Seq<u64>, cw: int)
    requires
        forall|i: int| 0 <= i < s.len() ==> s[i] <= STRAIN_BOUND,
        0 <= cw <= FP,
    ensures
        0 <= weighted_sum(s, cw),
        weighted_sum(s, cw) * (FP as int) <= 10 * (STRAIN_BOUND as int) * cw,
    decreases s.len(),
{
    if s.len() == 0 {
    } else {
        let t = fx_mul_spec(s[0] as int, cw);
        let cw2 = fx_mul_spec(cw, DECAY_WEIGHT as int);
        lemma_fx_mul_le(cw, DECAY_WEIGHT as int);
        lemma_weighted_sum_bound(s.drop_first(), cw2);
        let rest = weighted_sum(s.drop_first(), cw2);
        assert(t >= 0 && t * (FP as int) <= (s[0] as int) * cw) by (nonlinear_arith)
            requires t == (s[0] as int) * cw / (FP as int), s[0] >= 0, cw >= 0;
        assert((s[0] as int) * cw <= (STRAIN_BOUND as int) * cw) by (nonlinear_arith)
            requires 0 <= s[0] <= STRAIN_BOUND, cw >= 0;
        assert(10 * (STRAIN_BOUND as int) * cw2 <= 9 * (STRAIN_BOUND as int) * cw)
            by (nonlinear_arith)
            requires cw >= 0, cw2 == cw * (DECAY_WEIGHT as int) / (FP as int);
        assert(weighted_sum(s, cw) * (FP as int) == t * (FP as int) + rest * (FP as int))
            by (nonlinear_arith)
            requires weighted_sum(s, cw) == t + rest;
    }
}

/// Inserts one value into a descending list, keeping it descending.
fn insert_desc_vec(v: &Vec<u64>, x: u64) -> (r: Vec<u64>)
    ensures
        r@ == insert_desc(v@, x),
{
    let mut p: usize = 0;
    while p < v.len() && v[p] > x
        invariant
            0 <= p <= v@.len(),
            forall|i: int| 0 <= i < p ==> v@[i] > x,
        decreases v@.len() - p,
    {
        p = p + 1;
    }
    let mut r: Vec<u64> = Vec::new();
    let mut i: usize = 0;
    while i < p
        invariant
            0 <= i <= p <= v@.len(),
            r@ == v@.subrange(0, i as int),
        decreases p - i,
    {
        r.push(v[i]);
        i = i + 1;
    }
    r.push(x);
    let mut j: usize = p;
    while j < v.len()
        invariant
            p <= j <= v@.len(),
            r@ == v@.subrange(0, p as int) + seq![x] + v@.subrange(p as int, j as int),
        decreases v@.len() - j,
    {
        proof {
            assert(v@.subrange(0, p as int) + seq![x] + v@.subrange(p as int, j + 1)
                =~= (v@.subrange(0, p as int) + seq![x] + v@.subrange(p as int, j as int)).push(
                v@[j as int]));
        }
        r.push(v[j]);
        j = j + 1;
    }
    proof {
        lemma_insert_desc_split(v@, x, p as int);
        assert(r@ =~= insert_desc(v@, x));
    }
    r
}

/// The peak list sorted descending.
fn sort_desc_vec(v: &Vec<u64>) -> (r: Vec<u64>)
    ensures
        r@ == sort_desc(v@),
{
    let mut r: Vec<u64> = Vec::new();
    let mut i: usize = 0;
    proof {
        assert(v@.subrange(0, 0) =~= Seq::<u64>::empty());
    }
    while i < v.len()
        invariant
            0 <= i <= v@.len(),
            r@ == sort_desc(v@.subrange(0, i as int)),
        decreases v@.len() - i,
    {
        let nr = insert_desc_vec(&r, v[i]);
        proof {
            assert(v@.subrange(0, i + 1).drop_last() =~= v@.subrange(0, i as int));
            assert(v@.subrange(0, i + 1).last() == v@[i as int]);
        }
        r = nr;
        i = i + 1;
    }
    proof {
        assert(v@.subrange(0, v@.len() as int) =~= v@);
    }
    r
}

impl Skill {
    /// Aggregates the frozen peaks: sorted descending, then summed with a
    /// geometrically decreasing weight per rank, so several highly strained
    /// sections count for more than one outlier.
    pub fn difficulty_value(&self) -> (r: u64)
        requires
            wf_skill(self@),
        ensures
            r == weighted_sum(sort_desc(self@.peaks), FP as int),
            r <= 10 * STRAIN_BOUND,
    {
        let sorted = sort_desc_vec(&self.peaks);
        proof {
            assert(self@.peaks == self.peaks@);
            assert(forall|i: int| 0 <= i < self.peaks@.len() ==> self.peaks@[i] <= STRAIN_BOUND);
            lemma_sort_desc_bound(self.peaks@, STRAIN_BOUND);
            lemma_weighted_sum_bound(sorted@, FP as int);
        }
        let mut total: u64 = 0;
        let mut cw: u64 = FP;
        let mut i: usize = 0;
        proof {
            assert(sorted@.skip(0) =~= sorted@);
        }
        while i < sorted.len()
            invariant
                0 <= i <= sorted@.len(),
                cw <= FP,
                sorted@ == sort_desc(self@.peaks),
                forall|k: int| 0 <= k < sorted@.len() ==> sorted@[k] <= STRAIN_BOUND,
                total + weighted_sum(sorted@.skip(i as int), cw as int)
                    == weighted_sum(sorted@, FP as int),
                weighted_sum(sorted@, FP as int) <= 10 * STRAIN_BOUND,
            decreases sorted@.len() - i,
        {
            let ghost suffix = sorted@.skip(i as int);
            proof {
                assert(suffix[0] == sorted@[i as int]);
                assert(suffix.drop_first() =~= sorted@.skip(i + 1));
                lemma_fx_mul_le(cw as int, sorted@[i as int] as int);
                assert(fx_mul_spec(sorted@[i as int] as int, cw as int)
                    == fx_mul_spec(cw as int, sorted@[i as int] as int)) by (nonlinear_arith);
                lemma_fx_mul_le(cw as int, DECAY_WEIGHT as int);
                lemma_weighted_sum_bound(
                    sorted@.skip(i + 1),
                    fx_mul_spec(cw as int, DECAY_WEIGHT as int),
                );
            }
            total = total + fx_mul(sorted[i], cw);
            cw = fx_mul(cw, DECAY_WEIGHT);
            i = i + 1;
        }
        proof {
            assert(sorted@.skip(sorted@.len() as int) =~= Seq::<u64>::empty());
        }
        total
    }
}


} // verus!
