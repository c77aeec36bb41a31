use baby_core::sequencer::CueSequencer;
use baby_core::track::{find_segment, lerp, snap, Fraction};

fn one() -> Fraction {
    Fraction { num: 1, den: 1 }
}

#[test]
fn empty_track_has_no_sample() {
    let curve: Vec<(u64, i64)> = vec![];
    assert_eq!(CueSequencer::get_curve(&curve, 0), None);
    assert_eq!(find_segment(&curve, 7), None);
}

#[test]
fn before_first_keyframe_is_first_value() {
    let curve: Vec<(u64, i64)> = vec![(10, 100), (20, 200), (40, 400)];
    assert_eq!(CueSequencer::get_curve(&curve, 0), Some((100, 100, one())));
    assert_eq!(CueSequencer::get_curve(&curve, 9), Some((100, 100, one())));
}

#[test]
fn at_and_after_last_keyframe_is_last_value() {
    let curve: Vec<(u64, i64)> = vec![(10, 100), (20, 200), (40, 400)];
    assert_eq!(CueSequencer::get_curve(&curve, 40), Some((400, 400, one())));
    assert_eq!(CueSequencer::get_curve(&curve, 1_000_000), Some((400, 400, one())));
}

#[test]
fn inside_a_segment_gives_the_elapsed_share() {
    let curve: Vec<(u64, i64)> = vec![(10, 100), (20, 200), (40, 400)];
    assert_eq!(
        CueSequencer::get_curve(&curve, 25),
        Some((200, 400, Fraction { num: 5, den: 20 }))
    );
    assert_eq!(
        CueSequencer::get_curve(&curve, 19),
        Some((100, 200, Fraction { num: 9, den: 10 }))
    );
}

#[test]
fn a_keyframe_starts_its_own_segment() {
    let curve: Vec<(u64, i64)> = vec![(10, 100), (20, 200), (40, 400)];
    assert_eq!(
        CueSequencer::get_curve(&curve, 10),
        Some((100, 200, Fraction { num: 0, den: 10 }))
    );
    assert_eq!(
        CueSequencer::get_curve(&curve, 20),
        Some((200, 400, Fraction { num: 0, den: 20 }))
    );
}

#[test]
fn single_keyframe_at_zero_always_returns_it() {
    let curve: Vec<(u64, bool)> = vec![(0, true)];
    assert_eq!(CueSequencer::get_curve(&curve, 0), Some((true, true, one())));
    assert_eq!(CueSequencer::get_curve(&curve, 99), Some((true, true, one())));
}

#[test]
fn repeated_times_skip_to_the_later_keyframe() {
    let curve: Vec<(u64, i64)> = vec![(5, 1), (5, 2), (9, 3)];
    assert_eq!(
        CueSequencer::get_curve(&curve, 5),
        Some((2, 3, Fraction { num: 0, den: 4 }))
    );
    assert_eq!(find_segment(&curve, 5), Some((1, 2, Fraction { num: 0, den: 4 })));
}

#[test]
fn find_segment_reports_indices() {
    let curve: Vec<(u64, i64)> = vec![(10, 100), (20, 200), (40, 400)];
    assert_eq!(find_segment(&curve, 3), Some((0, 0, one())));
    assert_eq!(find_segment(&curve, 30), Some((1, 2, Fraction { num: 10, den: 20 })));
    assert_eq!(find_segment(&curve, 40), Some((2, 2, one())));
}

#[test]
fn lerp_blends_and_rounds_down() {
    assert_eq!(lerp(0, 800, Fraction { num: 1, den: 3 }), 266);
    assert_eq!(lerp(0, 800, Fraction { num: 2, den: 4 }), 400);
    assert_eq!(lerp(800, 0, Fraction { num: 1, den: 3 }), 533);
    assert_eq!(lerp(-10, 10, Fraction { num: 1, den: 4 }), -5);
    assert_eq!(lerp(-3, 0, Fraction { num: 1, den: 2 }), -2);
    assert_eq!(lerp(0, -3, Fraction { num: 1, den: 2 }), -2);
}

#[test]
fn lerp_meets_its_ends() {
    assert_eq!(lerp(7, 99, Fraction { num: 0, den: 5 }), 7);
    assert_eq!(lerp(7, 99, Fraction { num: 5, den: 5 }), 99);
    assert_eq!(lerp(i64::MIN, i64::MAX, Fraction { num: 0, den: u64::MAX }), i64::MIN);
    assert_eq!(lerp(i64::MIN, i64::MAX, Fraction { num: u64::MAX, den: u64::MAX }), i64::MAX);
    assert_eq!(lerp(i64::MAX, i64::MIN, one()), i64::MIN);
}

#[test]
fn snap_switches_only_at_one() {
    assert_eq!(snap(false, true, Fraction { num: 9, den: 10 }), false);
    assert_eq!(snap(false, true, Fraction { num: 10, den: 10 }), true);
    assert_eq!(snap(3, 4, Fraction { num: 0, den: 10 }), 3);
    assert!(Fraction::whole().reached());
    assert!(!Fraction { num: 0, den: 1 }.reached());
}

#[test]
fn a_value_is_reached_at_its_keyframe() {
    let curve: Vec<(u64, i64)> = vec![(10, 100), (20, 200), (40, 400)];
    for (time, value) in [(10, 100), (20, 200), (40, 400)] {
        let (a, b, f) = CueSequencer::get_curve(&curve, time).unwrap();
        assert_eq!(lerp(a, b, f), value);
        assert_eq!(snap(a, b, f), value);
    }
    let (a, b, f) = CueSequencer::get_curve(&curve, 39).unwrap();
    assert_eq!(lerp(a, b, f), 390);
    assert_eq!(snap(a, b, f), 200);
}
