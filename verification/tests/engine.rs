use osu_stars::attributes::OsuDifficultyAttributes;
use osu_stars::curve::Curve;
use osu_stars::fx::FP;
use osu_stars::geom::Pos;
use osu_stars::map::{Beatmap, DifficultyPoint, HitKind, HitObject, TimingPoint};
use osu_stars::object::OsuObject;
use osu_stars::skill::{Skill, SkillKind};
use osu_stars::stars::{modify_od, stars, ModAttributes, VersionConfig};

fn default_mods() -> ModAttributes {
    ModAttributes { ar: 50_000, od: 50_000, cs: 40_000, clock_rate: FP, hr: false, ez: false }
}

fn circle(t: u64, x: i64, y: i64) -> HitObject {
    HitObject { start_time: t, pos: Pos { x, y }, kind: HitKind::Circle }
}

fn map_of(objects: Vec<HitObject>) -> Beatmap {
    Beatmap {
        hit_objects: objects,
        timing_points: vec![TimingPoint { time: 0, beat_len: 5_000_000 }],
        difficulty_points: vec![],
        slider_mult: FP,
        tick_rate: FP,
        version: 14,
        cs: 40_000,
        od: 50_000,
        hp: 50_000,
    }
}

#[test]
fn curve_straight_round_trip() {
    let points = vec![Pos { x: 0, y: 0 }, Pos { x: 1_000_000, y: 0 }];
    let curve = Curve::new(&points, 1_000_000);
    assert_eq!(curve.dist(), 1_000_000);
    assert_eq!(curve.position_at(FP), Pos { x: 1_000_000, y: 0 });
    assert_eq!(curve.position_at(0), Pos { x: 0, y: 0 });
}

#[test]
fn curve_declared_shorter_clamps() {
    let points = vec![Pos { x: 0, y: 0 }, Pos { x: 1_000_000, y: 0 }];
    let curve = Curve::new(&points, 500_000);
    assert_eq!(curve.dist(), 500_000);
    assert_eq!(curve.position_at(FP), Pos { x: 500_000, y: 0 });
}

#[test]
fn curve_declared_longer_extrapolates() {
    let points = vec![Pos { x: 0, y: 0 }, Pos { x: 1_000_000, y: 0 }];
    let curve = Curve::new(&points, 2_000_000);
    assert_eq!(curve.dist(), 2_000_000);
    assert_eq!(curve.position_at(FP), Pos { x: 2_000_000, y: 0 });
}

#[test]
fn curve_degenerate_returns_first_point() {
    let points = vec![Pos { x: 7, y: 9 }];
    let curve = Curve::new(&points, 1_000_000);
    assert_eq!(curve.dist(), 0);
    assert_eq!(curve.position_at(0), Pos { x: 7, y: 9 });
    assert_eq!(curve.position_at(FP), Pos { x: 7, y: 9 });
    assert_eq!(curve.position_at(5_000), Pos { x: 7, y: 9 });
}

#[test]
fn curve_midpoint_interpolates() {
    let points = vec![Pos { x: 0, y: 0 }, Pos { x: 1_000_000, y: 0 }];
    let curve = Curve::new(&points, 1_000_000);
    assert_eq!(curve.position_at(FP / 2), Pos { x: 500_000, y: 0 });
}

fn skill_with_peaks(peaks: Vec<u64>) -> Skill {
    Skill { kind: SkillKind::Aim, current_strain: 0, current_peak: 0, peaks, prev_time: 0 }
}

#[test]
fn weighted_sum_already_sorted() {
    // peaks 4, 2, 1 with decay weight 0.9: 4 + 2*0.9 + 1*0.81 = 6.61
    let s = skill_with_peaks(vec![40_000, 20_000, 10_000]);
    assert_eq!(s.difficulty_value(), 66_100);
}

#[test]
fn weighted_sum_reverse_sorted_input() {
    let s = skill_with_peaks(vec![10_000, 20_000, 40_000]);
    assert_eq!(s.difficulty_value(), 66_100);
}

#[test]
fn weighted_sum_empty_peaks_is_zero() {
    let s = Skill::new(SkillKind::Speed);
    assert_eq!(s.difficulty_value(), 0);
}

#[test]
fn section_close_appends_and_preserves_peaks() {
    let mut s = skill_with_peaks(vec![5, 7]);
    s.current_peak = 9;
    s.start_new_section_from(1_000_000);
    assert_eq!(s.peaks, vec![5, 7, 9]);
    // a boundary already passed: earlier peaks stay in place, one more appends
    let frozen = s.current_peak;
    s.start_new_section_from(0);
    assert_eq!(s.peaks[0], 5);
    assert_eq!(s.peaks[1], 7);
    assert_eq!(s.peaks[2], 9);
    assert_eq!(s.peaks[3], frozen);
    assert_eq!(s.peaks.len(), 4);
}

#[test]
fn stars_cutoff_under_two_gives_minimal_attributes() {
    let map = map_of(vec![circle(0, 0, 0), circle(5_000_000, 1_000_000, 0)]);
    let mods = default_mods();
    let cfg = VersionConfig::july_2021();
    for cutoff in [Some(0), Some(1)] {
        let attrs = stars(&map, &mods, cutoff, &cfg);
        assert_eq!(attrs.ar, 50_000);
        assert_eq!(attrs.od, 50_000);
        assert_eq!(attrs.stars, 0);
        assert_eq!(attrs.aim_strain, 0);
        assert_eq!(attrs.speed_strain, 0);
        assert_eq!(attrs.max_combo, 0);
        assert_eq!(attrs.n_circles, 0);
    }
}

#[test]
fn stars_single_object_map_gives_minimal_attributes() {
    let map = map_of(vec![circle(0, 0, 0)]);
    let mods = default_mods();
    let attrs = stars(&map, &mods, None, &VersionConfig::april_2015());
    assert_eq!(attrs.stars, 0);
    assert_eq!(attrs.max_combo, 0);
    assert_eq!(attrs.ar, 50_000);
}

#[test]
fn stars_three_circle_scenario() {
    // circle at t=0 (0,0); t=500ms (100px,0); t=1000ms (100px,100px)
    let map = map_of(vec![
        circle(0, 0, 0),
        circle(5_000_000, 1_000_000, 0),
        circle(10_000_000, 1_000_000, 1_000_000),
    ]);
    let mods = default_mods();
    let attrs = stars(&map, &mods, None, &VersionConfig::july_2021());
    assert_eq!(attrs.max_combo, 3);
    assert_eq!(attrs.n_circles, 3);
    assert_eq!(attrs.n_sliders, 0);
    assert_eq!(attrs.n_spinners, 0);
    assert!(attrs.stars > 0);
    assert!(attrs.speed_strain > 0);
    assert!(attrs.stars >= attrs.aim_strain);
    assert!(attrs.stars >= attrs.speed_strain);
}

#[test]
fn stars_deterministic_on_identical_input() {
    let map = map_of(vec![
        circle(0, 0, 0),
        circle(5_000_000, 1_000_000, 0),
        circle(10_000_000, 1_000_000, 1_000_000),
    ]);
    let mods = default_mods();
    let cfg = VersionConfig::april_2015();
    let a = stars(&map, &mods, None, &cfg);
    let b = stars(&map, &mods, None, &cfg);
    assert_eq!(a, b);
}

#[test]
fn stars_cutoff_beyond_map_length_equals_full_map() {
    let map = map_of(vec![
        circle(0, 0, 0),
        circle(5_000_000, 1_000_000, 0),
        circle(10_000_000, 1_000_000, 1_000_000),
    ]);
    let mods = default_mods();
    let cfg = VersionConfig::july_2021();
    let a = stars(&map, &mods, Some(100), &cfg);
    let b = stars(&map, &mods, None, &cfg);
    assert_eq!(a, b);
}

fn slider(t: u64, len_px_fx: u64) -> HitObject {
    HitObject {
        start_time: t,
        pos: Pos { x: 0, y: 0 },
        kind: HitKind::Slider {
            pixel_len: len_px_fx,
            repeats: 0,
            control_points: vec![Pos { x: 0, y: 0 }, Pos { x: len_px_fx as i64, y: 0 }],
        },
    }
}

#[test]
fn travel_positive_when_path_leaves_follow_circle() {
    // 300px path against a follow circle of 3 * 54.4px
    let map = map_of(vec![slider(0, 3_000_000)]);
    let mut ticks: Vec<u64> = Vec::new();
    let mut attrs = OsuDifficultyAttributes::default();
    let o = OsuObject::new(&map.hit_objects[0], &map, 544_000, FP, &mut ticks, &mut attrs);
    match o.travel_dist {
        Some(d) => assert!(d > 0),
        None => panic!("a hold object must carry a travel distance"),
    }
    assert!(attrs.max_combo >= 2);
    assert_eq!(attrs.n_sliders, 1);
    assert_eq!(ticks.len(), 0);
}

#[test]
fn travel_zero_when_path_stays_inside_follow_circle() {
    // 100px path, follow circle 3 * 54.4px = 163.2px
    let map = map_of(vec![slider(0, 1_000_000)]);
    let mut ticks: Vec<u64> = Vec::new();
    let mut attrs = OsuDifficultyAttributes::default();
    let o = OsuObject::new(&map.hit_objects[0], &map, 544_000, FP, &mut ticks, &mut attrs);
    assert_eq!(o.travel_dist, Some(0));
    assert_eq!(o.end_pos, Pos { x: 0, y: 0 });
}

#[test]
fn circle_sample_is_its_own_summary() {
    let map = map_of(vec![circle(1_000, 5, 6)]);
    let mut ticks: Vec<u64> = Vec::new();
    let mut attrs = OsuDifficultyAttributes::default();
    let o = OsuObject::new(&map.hit_objects[0], &map, 544_000, FP, &mut ticks, &mut attrs);
    assert_eq!(o.time, 1_000);
    assert_eq!(o.pos, Pos { x: 5, y: 6 });
    assert_eq!(o.end_pos, Pos { x: 5, y: 6 });
    assert_eq!(o.travel_dist, Some(0));
    assert!(!o.is_spinner());
    assert_eq!(attrs.max_combo, 1);
    assert_eq!(attrs.n_circles, 1);
}

#[test]
fn spinner_sample_has_no_travel() {
    let map = map_of(vec![HitObject {
        start_time: 0,
        pos: Pos { x: 0, y: 0 },
        kind: HitKind::Spinner,
    }]);
    let mut ticks: Vec<u64> = Vec::new();
    let mut attrs = OsuDifficultyAttributes::default();
    let o = OsuObject::new(&map.hit_objects[0], &map, 544_000, FP, &mut ticks, &mut attrs);
    assert_eq!(o.travel_dist, None);
    assert!(o.is_spinner());
    assert_eq!(attrs.n_spinners, 1);
    assert_eq!(attrs.max_combo, 1);
}

#[test]
fn modify_od_identity_at_no_mods() {
    // od 5.0, clock 1.0, multiplier 1.0: the window remap is exact
    assert_eq!(modify_od(50_000, FP, FP), 50_000);
}

#[test]
fn modify_od_hard_multiplier() {
    // od 5.0 under the 1.4 multiplier: window 79.5 - 42 = 37.5ms, back to 7.0
    assert_eq!(modify_od(50_000, FP, 14_000), 70_000);
}

#[test]
fn modify_od_low_clamp_applies() {
    // od 10 * 1.4 = 14: 6*14 = 84ms exceeds the window span, clamp at 19.5ms
    assert_eq!(modify_od(100_000, FP, 14_000), 100_000);
}

#[test]
fn timing_point_lookup_takes_last_at_or_before() {
    let mut map = map_of(vec![circle(0, 0, 0)]);
    map.timing_points = vec![
        TimingPoint { time: 0, beat_len: 5_000_000 },
        TimingPoint { time: 10_000_000, beat_len: 2_500_000 },
    ];
    assert_eq!(map.timing_point_at(0).beat_len, 5_000_000);
    assert_eq!(map.timing_point_at(9_999_999).beat_len, 5_000_000);
    assert_eq!(map.timing_point_at(10_000_000).beat_len, 2_500_000);
    assert_eq!(map.timing_point_at(u64::MAX).beat_len, 2_500_000);
}

#[test]
fn difficulty_point_lookup_defaults_when_absent() {
    let mut map = map_of(vec![circle(0, 0, 0)]);
    map.difficulty_points = vec![DifficultyPoint {
        time: 10_000_000,
        slider_vel: 20_000,
        generate_ticks: false,
    }];
    let before = map.difficulty_point_at(0);
    assert_eq!(before.slider_vel, FP);
    assert!(before.generate_ticks);
    let after = map.difficulty_point_at(10_000_000);
    assert_eq!(after.slider_vel, 20_000);
    assert!(!after.generate_ticks);
}

#[test]
fn stars_slider_map_counts_combo_beyond_heads() {
    let map = map_of(vec![slider(0, 3_000_000), circle(10_000_000, 2_000_000, 0)]);
    let mods = default_mods();
    let attrs = stars(&map, &mods, None, &VersionConfig::july_2021());
    assert_eq!(attrs.n_sliders, 1);
    assert_eq!(attrs.n_circles, 1);
    // slider head + its sampled vertices + the circle
    assert!(attrs.max_combo >= 3);
    assert!(attrs.stars > 0);
}

#[test]
fn stars_2015_version_remaps_od() {
    let map = map_of(vec![
        circle(0, 0, 0),
        circle(5_000_000, 1_000_000, 0),
    ]);
    let mods = default_mods();
    let attrs = stars(&map, &mods, None, &VersionConfig::april_2015());
    // map od 5.0 at clock 1.0 with no mod multiplier: remap is exact
    assert_eq!(attrs.od, 50_000);
    assert!(attrs.stars > 0);
}

#[test]
fn stars_empty_map_gives_minimal_attributes() {
    let map = map_of(vec![]);
    let mods = default_mods();
    let attrs = stars(&map, &mods, None, &VersionConfig::july_2021());
    assert_eq!(attrs.stars, 0);
    assert_eq!(attrs.max_combo, 0);
    assert_eq!(attrs.ar, 50_000);
    assert_eq!(attrs.od, 50_000);
}

#[test]
fn slider_with_repeat_replays_ticks() {
    // 300px path, 100px ticks: two ticks, one repeat boundary, two replayed
    // ticks, and the tail — seven combo in all with the head
    let map = map_of(vec![HitObject {
        start_time: 0,
        pos: Pos { x: 0, y: 0 },
        kind: HitKind::Slider {
            pixel_len: 3_000_000,
            repeats: 1,
            control_points: vec![Pos { x: 0, y: 0 }, Pos { x: 3_000_000, y: 0 }],
        },
    }]);
    let mut ticks: Vec<u64> = Vec::new();
    let mut attrs = OsuDifficultyAttributes::default();
    let o = OsuObject::new(&map.hit_objects[0], &map, 544_000, FP, &mut ticks, &mut attrs);
    assert_eq!(attrs.max_combo, 7);
    assert!(matches!(o.travel_dist, Some(d) if d > 0));
}

#[test]
fn slider_without_tick_generation_samples_only_tail() {
    let mut map = map_of(vec![slider(0, 3_000_000)]);
    map.difficulty_points = vec![DifficultyPoint {
        time: 0,
        slider_vel: FP,
        generate_ticks: false,
    }];
    let mut ticks: Vec<u64> = Vec::new();
    let mut attrs = OsuDifficultyAttributes::default();
    let _ = OsuObject::new(&map.hit_objects[0], &map, 544_000, FP, &mut ticks, &mut attrs);
    // head plus the tail vertex alone
    assert_eq!(attrs.max_combo, 2);
}
