//! The curve evaluator: a hold object's control points become a polyline with
//! a cumulative-arclength table, answering `position_at` by interpolation at
//! a requested fraction of the total length.
//!
//! A declared length longer than the geometry extrapolates one vertex along
//! the final segment's direction, capped at [`PATH_CAP`]; a declared length
//! shorter than the geometry clamps the usable length. Degenerate paths
//! (fewer than two distinct points) are treated as zero-length.

use vstd::prelude::*;
use crate::fx::{
    FP, fx_mul_spec, fx_div_spec, fx_mul, fx_div, sqrt_floor, lemma_sqrt_floor_bounds,
    lemma_sqrt_floor_le, lemma_fx_mul_le, lemma_fx_div_le_fp,
};
use crate::geom::{
    Pos, pos_bounded, sq, dist_spec, dist_between, pos_lerp_spec, lerp_coord,
    lemma_lerp_coord_between,
};

verus! {

/// Most control points a single path may carry.
pub const CTRL_LIMIT: usize = 10_000;

/// Coordinate magnitude for raw map data (control points, object positions).
pub const MAP_POS_LIMIT: i64 = 100_000_000;

/// Sanity cap on a path's usable length, bounding work on malformed input.
pub const PATH_CAP: u64 = 1_000_000_000;

/// Bound on one segment between two map-range points.
pub const SEG_DIST_LIMIT: u64 = 300_000_000;

/// Bound on a whole polyline's arclength, extension included.
pub const CURVE_TOTAL_LIMIT: u64 = 4_000_000_000_000;

/// Coordinate magnitude a polyline vertex stays within: map-range points,
/// plus at most one capped extrapolation step.
pub const CURVE_POS_LIMIT: i64 = 1_200_000_000;

/// Cumulative arclength of a polyline up to vertex `i`.
pub open spec fn cum_of(verts: Seq<Pos>, i: int) -> int
    decreases i,
{
    if i <= 0 {
        0
    } else {
        cum_of(verts, i - 1) + dist_spec(verts[i - 1], verts[i])
    }
}

pub proof fn lemma_dist_nonneg(p: Pos, q: Pos)
    ensures
        dist_spec(p, q) >= 0,
{
    assert(sq(p.x - q.x) >= 0 && sq(p.y - q.y) >= 0) by (nonlinear_arith);
    lemma_sqrt_floor_bounds(sq(p.x - q.x) + sq(p.y - q.y));
}

pub proof fn lemma_dist_symm(p: Pos, q: Pos)
    ensures
        dist_spec(p, q) == dist_spec(q, p),
{
    assert(sq(p.x - q.x) == sq(q.x - p.x) && sq(p.y - q.y) == sq(q.y - p.y))
        by (nonlinear_arith);
}

pub proof fn lemma_dist_bound(p: Pos, q: Pos, m: int)
    requires
        m >= 0,
        pos_bounded(p, m),
        pos_bounded(q, m),
    ensures
        0 <= dist_spec(p, q) <= 3 * m,
{
    lemma_dist_nonneg(p, q);
    assert(0 <= sq(p.x - q.x) + sq(p.y - q.y) < (3 * m + 1) * (3 * m + 1)) by (nonlinear_arith)
        requires
            m >= 0,
            -(m + m) <= p.x - q.x <= m + m,
            -(m + m) <= p.y - q.y <= m + m,
            sq(p.x - q.x) == (p.x - q.x) * (p.x - q.x),
            sq(p.y - q.y) == (p.y - q.y) * (p.y - q.y),
    ;
    lemma_sqrt_floor_le(sq(p.x - q.x) + sq(p.y - q.y), 3 * m);
}

pub proof fn lemma_cum_monotone(verts: Seq<Pos>, i: int, j: int)
    requires
        0 <= i <= j,
    ensures
        cum_of(verts, i) <= cum_of(verts, j),
        cum_of(verts, i) >= 0,
    decreases j,
{
    if j > i {
        lemma_cum_monotone(verts, i, j - 1);
        lemma_dist_nonneg(verts[j - 1], verts[j]);
    } else if j == i && i > 0 {
        lemma_cum_monotone(verts, i - 1, i - 1);
        lemma_dist_nonneg(verts[i - 1], verts[i]);
    }
}

/// The vertex list a control-point list gives rise to, before extension.
pub open spec fn base_verts(points: Seq<Pos>) -> Seq<Pos> {
    if points.len() == 0 {
        seq![Pos { x: 0, y: 0 }]
    } else {
        points
    }
}

/// Largest index at or below `j` whose vertex differs from the final vertex.
pub open spec fn last_distinct_from(verts: Seq<Pos>, j: int) -> int
    decreases j + 1,
{
    if j < 0 {
        -1
    } else if verts[j] != verts[verts.len() - 1] {
        j
    } else {
        last_distinct_from(verts, j - 1)
    }
}

/// One coordinate of a point moved from `a` away from `b` (or toward it, for
/// a shortened step) by `need / seglen` of the segment from `b` to `a`.
pub open spec fn ext_coord_spec(a: int, b: int, need: int, seglen: int) -> int {
    if a >= b {
        a + (a - b) * need / seglen
    } else {
        a - (b - a) * need / seglen
    }
}

/// The extrapolation vertex appended when the declared length exceeds the
/// geometry: the final vertex pushed `need` further along the last segment.
pub open spec fn ext_vertex_spec(verts: Seq<Pos>, need: int) -> Pos {
    let last = verts[verts.len() - 1];
    let j = last_distinct_from(verts, verts.len() - 2);
    let prev = verts[j];
    let seglen = dist_spec(prev, last);
    Pos {
        x: ext_coord_spec(last.x as int, prev.x as int, need, seglen) as i64,
        y: ext_coord_spec(last.y as int, prev.y as int, need, seglen) as i64,
    }
}

/// The final vertex list: the base polyline, extended by one vertex when the
/// declared length (capped at `PATH_CAP`) exceeds the geometric length.
pub open spec fn ext_verts(points: Seq<Pos>, declared: u64) -> Seq<Pos> {
    let base = base_verts(points);
    let geo = cum_of(base, base.len() - 1);
    let tgt: int = if declared <= PATH_CAP { declared as int } else { PATH_CAP as int };
    if geo > 0 && tgt > geo {
        base.push(ext_vertex_spec(base, tgt - geo))
    } else {
        base
    }
}

/// The usable length: total arclength clamped to the declared length.
pub open spec fn curve_len_spec(points: Seq<Pos>, declared: u64) -> int {
    let verts = ext_verts(points, declared);
    let total = cum_of(verts, verts.len() - 1);
    if declared <= total {
        declared as int
    } else {
        total
    }
}

/// An arclength-indexed polyline evaluator for one hold object's path.
pub struct Curve {
    pub verts: Vec<Pos>,
    pub cum: Vec<u64>,
    pub length: u64,
}

impl Curve {
    pub open spec fn wf(self) -> bool {
        &&& self.verts@.len() >= 1
        &&& self.cum@.len() == self.verts@.len()
        &&& forall|i: int| 0 <= i < self.cum@.len() ==> self.cum@[i] == cum_of(self.verts@, i)
        &&& forall|i: int|
            0 <= i < self.verts@.len()
                ==> pos_bounded(#[trigger] self.verts@[i], CURVE_POS_LIMIT as int)
        &&& cum_of(self.verts@, self.verts@.len() - 1) <= CURVE_TOTAL_LIMIT
        &&& self.length <= cum_of(self.verts@, self.verts@.len() - 1)
    }

    /// Total usable path length, in fixed-point pixels.
    pub fn dist(&self) -> (r: u64)
        ensures
            r == self.length,
    {
        self.length
    }
}

/// Two distinct grid points are at least one grid unit apart.
proof fn lemma_dist_pos(p: Pos, q: Pos)
    requires
        p != q,
    ensures
        dist_spec(p, q) >= 1,
{
    let n = sq(p.x - q.x) + sq(p.y - q.y);
    assert(n >= 1) by (nonlinear_arith)
        requires p.x != q.x || p.y != q.y, n == (p.x - q.x) * (p.x - q.x) + (p.y - q.y) * (p.y - q.y);
    lemma_sqrt_floor_bounds(n);
    if sqrt_floor(n) == 0 {
        assert((sqrt_floor(n) + 1) * (sqrt_floor(n) + 1) == 1) by (nonlinear_arith)
            requires sqrt_floor(n) == 0;
        assert(false);
    }
}

/// A coordinate difference never exceeds the Euclidean distance.
proof fn lemma_coord_le_dist(p: Pos, q: Pos)
    ensures
        (if p.x >= q.x { p.x - q.x } else { q.x - p.x }) <= dist_spec(p, q),
        (if p.y >= q.y { p.y - q.y } else { q.y - p.y }) <= dist_spec(p, q),
{
    let n = sq(p.x - q.x) + sq(p.y - q.y);
    let dx = if p.x >= q.x { p.x - q.x } else { q.x - p.x };
    let dy = if p.y >= q.y { p.y - q.y } else { q.y - p.y };
    assert(n >= 0) by (nonlinear_arith)
        requires n == (p.x - q.x) * (p.x - q.x) + (p.y - q.y) * (p.y - q.y);
    lemma_sqrt_floor_bounds(n);
    let s = sqrt_floor(n);
    assert(dx * dx <= n && dy * dy <= n) by (nonlinear_arith)
        requires
            n == (p.x - q.x) * (p.x - q.x) + (p.y - q.y) * (p.y - q.y),
            dx == if p.x >= q.x { p.x - q.x } else { q.x - p.x },
            dy == if p.y >= q.y { p.y - q.y } else { q.y - p.y },
    ;
    if dx > s {
        assert((s + 1) * (s + 1) <= dx * dx) by (nonlinear_arith)
            requires 0 <= s, s + 1 <= dx;
    }
    if dy > s {
        assert((s + 1) * (s + 1) <= dy * dy) by (nonlinear_arith)
            requires 0 <= s, s + 1 <= dy;
    }
}

/// Cumulative length reads only the vertices up to its index.
proof fn lemma_cum_of_prefix(s: Seq<Pos>, t: Seq<Pos>, i: int)
    requires
        0 <= i < s.len(),
        i < t.len(),
        forall|k: int| 0 <= k <= i ==> s[k] == t[k],
    ensures
        cum_of(s, i) == cum_of(t, i),
    decreases i,
{
    if i > 0 {
        lemma_cum_of_prefix(s, t, i - 1);
    }
}

/// When every vertex up to `j` equals the final one, all are one point.
proof fn lemma_no_distinct_zero_length(verts: Seq<Pos>, j: int)
    requires
        verts.len() >= 1,
        j == verts.len() - 2,
        last_distinct_from(verts, j) == -1,
    ensures
        cum_of(verts, verts.len() - 1) == 0,
{
    assert forall|k: int| 0 <= k < verts.len() implies #[trigger] verts[k] == verts[verts.len() - 1] by {
        lemma_last_distinct_all_same(verts, j, k);
    }
    lemma_cum_all_same(verts, verts.len() - 1);
}

proof fn lemma_last_distinct_all_same(verts: Seq<Pos>, j: int, k: int)
    requires
        last_distinct_from(verts, j) == -1,
        0 <= k < verts.len(),
        k <= j || k == verts.len() - 1,
    ensures
        verts[k] == verts[verts.len() - 1],
    decreases j + 1,
{
    if k < verts.len() - 1 && j >= 0 {
        if k < j {
            lemma_last_distinct_all_same(verts, j - 1, k);
        }
    }
}

proof fn lemma_cum_all_same(verts: Seq<Pos>, i: int)
    requires
        0 <= i < verts.len(),
        forall|k: int| 0 <= k < verts.len() ==> #[trigger] verts[k] == verts[verts.len() - 1],
    ensures
        cum_of(verts, i) == 0,
    decreases i,
{
    if i > 0 {
        lemma_cum_all_same(verts, i - 1);
        assert(verts[i - 1] == verts[i]);
        assert(sq(0) == 0) by (nonlinear_arith);
        lemma_sqrt_floor_bounds(0);
    }
}

/// Index of the polyline segment that contains a target arclength.
pub open spec fn seg_index_from(verts: Seq<Pos>, target: int, i: int) -> int
    decreases verts.len() - i,
{
    if i + 1 < verts.len() && cum_of(verts, i + 1) <= target {
        seg_index_from(verts, target, i + 1)
    } else {
        i
    }
}

proof fn lemma_seg_index_props(verts: Seq<Pos>, target: int, i: int)
    requires
        0 <= i < verts.len(),
        cum_of(verts, i) <= target,
    ensures
        i <= seg_index_from(verts, target, i) < verts.len(),
        cum_of(verts, seg_index_from(verts, target, i)) <= target,
        seg_index_from(verts, target, i) + 1 < verts.len()
            ==> cum_of(verts, seg_index_from(verts, target, i) + 1) > target,
    decreases verts.len() - i,
{
    if i + 1 < verts.len() && cum_of(verts, i + 1) <= target {
        lemma_seg_index_props(verts, target, i + 1);
    }
}

/// The position a fraction `progress / FP` of the way along the usable
/// length, interpolated between the bracketing polyline vertices.
pub open spec fn pos_at_spec(verts: Seq<Pos>, length: int, progress: int) -> Pos {
    let target = fx_mul_spec(progress, length);
    let i = seg_index_from(verts, target, 0);
    if i + 1 >= verts.len() {
        verts[i]
    } else {
        let seg = cum_of(verts, i + 1) - cum_of(verts, i);
        let t = fx_div_spec(target - cum_of(verts, i), seg);
        pos_lerp_spec(verts[i], verts[i + 1], t)
    }
}

impl Curve {
    /// Builds the evaluator: the control points become the polyline, a
    /// cumulative-length table is accumulated over it, and a declared length
    /// beyond the geometry extrapolates one final vertex.
    pub fn new(points: &Vec<Pos>, declared: u64) -> (r: Curve)
        requires
            points@.len() <= CTRL_LIMIT,
            forall|i: int|
                0 <= i < points@.len() ==> pos_bounded(#[trigger] points@[i], MAP_POS_LIMIT as int),
        ensures
            r.wf(),
            r.verts@ == ext_verts(points@, declared),
            r.length == curve_len_spec(points@, declared),
    {
        let mut verts: Vec<Pos> = Vec::new();
        if points.len() == 0 {
            verts.push(Pos { x: 0, y: 0 });
        } else {
            let mut i: usize = 0;
            while i < points.len()
                invariant
                    i <= points@.len(),
                    verts@ == points@.subrange(0, i as int),
                decreases points@.len() - i,
            {
                verts.push(points[i]);
                i = i + 1;
            }
            proof {
                assert(verts@ =~= points@);
            }
        }
        proof {
            assert(verts@ =~= base_verts(points@));
        }
        let ghost base = verts@;

        let mut cum: Vec<u64> = Vec::new();
        cum.push(0);
        let mut i: usize = 1;
        while i < verts.len()
            invariant
                1 <= i <= verts@.len(),
                verts@ == base,
                base == base_verts(points@),
                verts@.len() <= CTRL_LIMIT + 1,
                forall|k: int|
                    0 <= k < verts@.len()
                        ==> pos_bounded(#[trigger] verts@[k], MAP_POS_LIMIT as int),
                cum@.len() == i,
                forall|k: int| 0 <= k < i ==> cum@[k] == cum_of(verts@, k),
                cum_of(verts@, i - 1) <= (i - 1) * (SEG_DIST_LIMIT as int),
            decreases verts@.len() - i,
        {
            proof {
                lemma_dist_bound(verts@[i - 1], verts@[i as int], MAP_POS_LIMIT as int);
            }
            let d = dist_between(&verts[i - 1], &verts[i]);
            let prev: u64 = cum[i - 1];
            cum.push(prev + d);
            i = i + 1;
        }
        let glen: u64 = cum[verts.len() - 1];
        let tgt: u64 = if declared <= PATH_CAP { declared } else { PATH_CAP };

        if glen > 0 && tgt > glen {
            let need: u64 = tgt - glen;
            let lastv: Pos = verts[verts.len() - 1];
            let mut j: usize = verts.len() - 1;
            while j > 0 && verts[j - 1] == lastv
                invariant
                    0 <= j <= verts@.len() - 1,
                    lastv == verts@[verts@.len() - 1],
                    last_distinct_from(verts@, verts@.len() - 2)
                        == last_distinct_from(verts@, j - 1),
                decreases j,
            {
                j = j - 1;
            }
            if j == 0 {
                proof {
                    lemma_no_distinct_zero_length(verts@, verts@.len() - 2);
                }
                assert(false);
            }
            let prevv: Pos = verts[j - 1];
            proof {
                lemma_dist_bound(prevv, lastv, MAP_POS_LIMIT as int);
                lemma_dist_pos(prevv, lastv);
                lemma_coord_le_dist(lastv, prevv);
                lemma_dist_symm(lastv, prevv);
            }
            let seglen: u64 = dist_between(&prevv, &lastv);
            let ex: i64 = ext_coord(lastv.x, prevv.x, need, seglen);
            let ey: i64 = ext_coord(lastv.y, prevv.y, need, seglen);
            let extv = Pos { x: ex, y: ey };
            proof {
                assert(extv == ext_vertex_spec(base, need as int));
                assert(verts@.push(extv) =~= ext_verts(points@, declared));
                lemma_cum_of_prefix(verts@, verts@.push(extv), verts@.len() - 1);
            }
            verts.push(extv);
            let dext = dist_between(&lastv, &extv);
            cum.push(glen + dext);
            proof {
                assert(cum@[verts@.len() - 1] == cum_of(verts@, verts@.len() - 1));
                assert forall|k: int| 0 <= k < cum@.len() implies cum@[k] == cum_of(verts@, k) by {
                    if k < verts@.len() - 1 {
                        lemma_cum_of_prefix(base, verts@, k);
                    }
                }
            }
            let total: u64 = glen + dext;
            let length: u64 = if declared <= total { declared } else { total };
            Curve { verts, cum, length }
        } else {
            let length: u64 = if declared <= glen { declared } else { glen };
            proof {
                assert(verts@ =~= ext_verts(points@, declared));
            }
            Curve { verts, cum, length }
        }
    }

    /// The point at a fraction `progress / FP` of the usable length.
    pub fn position_at(&self, progress: u64) -> (r: Pos)
        requires
            self.wf(),
            progress <= FP,
        ensures
            r == pos_at_spec(self.verts@, self.length as int, progress as int),
            pos_bounded(r, CURVE_POS_LIMIT as int),
    {
        proof {
            lemma_fx_mul_le(progress as int, self.length as int);
        }
        let target: u64 = fx_mul(progress, self.length);
        let mut i: usize = 0;
        proof {
            lemma_cum_monotone(self.verts@, 0, 0);
        }
        while i + 1 < self.verts.len() && self.cum[i + 1] <= target
            invariant
                self.wf(),
                target <= self.length,
                i < usize::MAX,
                0 <= i < self.verts@.len(),
                cum_of(self.verts@, i as int) <= target as int,
                seg_index_from(self.verts@, target as int, 0)
                    == seg_index_from(self.verts@, target as int, i as int),
            decreases self.verts@.len() - i,
        {
            i = i + 1;
        }
        if i + 1 >= self.verts.len() {
            self.verts[i]
        } else {
            let seg: u64 = self.cum[i + 1] - self.cum[i];
            let offset: u64 = target - self.cum[i];
            proof {
                lemma_fx_div_le_fp(offset as int, seg as int);
            }
            let t = fx_div(offset, seg);
            proof {
                lemma_lerp_coord_between(self.verts@[i as int].x as int, self.verts@[i + 1].x as int, t as int);
                lemma_lerp_coord_between(self.verts@[i as int].y as int, self.verts@[i + 1].y as int, t as int);
            }
            let nx = lerp_coord(self.verts[i].x, self.verts[i + 1].x, t);
            let ny = lerp_coord(self.verts[i].y, self.verts[i + 1].y, t);
            Pos { x: nx, y: ny }
        }
    }
}

/// One coordinate of the extrapolation vertex.
fn ext_coord(a: i64, b: i64, need: u64, seglen: u64) -> (r: i64)
    requires
        -(MAP_POS_LIMIT as int) <= a <= MAP_POS_LIMIT as int,
        -(MAP_POS_LIMIT as int) <= b <= MAP_POS_LIMIT as int,
        1 <= seglen <= SEG_DIST_LIMIT,
        need <= PATH_CAP,
        (if a >= b { a - b } else { b - a }) <= seglen,
    ensures
        r == ext_coord_spec(a as int, b as int, need as int, seglen as int),
        -(MAP_POS_LIMIT as int) - (PATH_CAP as int) <= r <= (MAP_POS_LIMIT as int) + (PATH_CAP as int),
{
    if a >= b {
        let d: u64 = (a - b) as u64;
        proof {
            assert(d * need <= seglen * need) by (nonlinear_arith)
                requires 0 <= d <= seglen, need >= 0;
            assert(seglen * need <= (SEG_DIST_LIMIT as int) * (PATH_CAP as int))
                by (nonlinear_arith)
                requires 0 <= seglen <= SEG_DIST_LIMIT, 0 <= need <= PATH_CAP;
            assert(seglen * need / (seglen as int) == need) by (nonlinear_arith)
                requires seglen >= 1, need >= 0;
            assert(d * need / (seglen as int) <= seglen * need / (seglen as int))
                by (nonlinear_arith)
                requires 0 <= d * need <= seglen * need, seglen >= 1;
        }
        let step: u64 = (((d as u128) * (need as u128)) / (seglen as u128)) as u64;
        a + (step as i64)
    } else {
        let d: u64 = (b - a) as u64;
        proof {
            assert(d * need <= seglen * need) by (nonlinear_arith)
                requires 0 <= d <= seglen, need >= 0;
            assert(seglen * need <= (SEG_DIST_LIMIT as int) * (PATH_CAP as int))
                by (nonlinear_arith)
                requires 0 <= seglen <= SEG_DIST_LIMIT, 0 <= need <= PATH_CAP;
            assert(seglen * need / (seglen as int) == need) by (nonlinear_arith)
                requires seglen >= 1, need >= 0;
            assert(d * need / (seglen as int) <= seglen * need / (seglen as int))
                by (nonlinear_arith)
                requires 0 <= d * need <= seglen * need, seglen >= 1;
        }
        let step: u64 = (((d as u128) * (need as u128)) / (seglen as u128)) as u64;
        a - (step as i64)
    }
}

/// A straight two-point path of a declared length equal to its Euclidean
/// length evaluates its far endpoint at full progress, and its usable length
/// is exactly the declared length.
pub proof fn lemma_straight_path_round_trip(p0: Pos, p1: Pos, declared: u64)
    requires
        pos_bounded(p0, MAP_POS_LIMIT as int),
        pos_bounded(p1, MAP_POS_LIMIT as int),
        declared == dist_spec(p0, p1),
    ensures
        curve_len_spec(seq![p0, p1], declared) == declared,
        pos_at_spec(ext_verts(seq![p0, p1], declared), declared as int, FP as int) == p1,
{
    let pts = seq![p0, p1];
    lemma_dist_bound(p0, p1, MAP_POS_LIMIT as int);
    assert(base_verts(pts) == pts);
    assert(cum_of(pts, 0) == 0);
    assert(cum_of(pts, 1) == dist_spec(p0, p1));
    assert(ext_verts(pts, declared) =~= pts);
    assert(curve_len_spec(pts, declared) == declared);
    let l = declared as int;
    assert((FP as int) * l / (FP as int) == l) by (nonlinear_arith)
        requires l >= 0;
    let target = fx_mul_spec(FP as int, l);
    assert(target == l);
    assert(seg_index_from(pts, target, 1) == 1);
    assert(seg_index_from(pts, target, 0) == 1);
    assert(pos_at_spec(pts, l, FP as int) == pts[1]);
}

} // verus!

