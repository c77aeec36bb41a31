use baby_core::camera::{inv_lerp, inverse_lerp, pan_camera, sequence_camera, CAMERA_MAX, CQ};
use baby_core::geometry::Vec2i;
use baby_core::track::Fraction;

fn v(x: i64, y: i64) -> Vec2i {
    Vec2i { x, y }
}

fn cam_cues() -> Vec<CQ> {
    vec![
        CQ { time: (20000, 60000), scale: (1000, 400), tran: ((0, 0, 0), (60, -185, 0)) },
        CQ { time: (65000, 65500), scale: (400, 800), tran: ((60, -185, 0), (60, -120, 0)) },
    ]
}

#[test]
fn camera_stays_while_the_target_is_within_the_bound() {
    assert_eq!(pan_camera(v(0, 0), v(100, -100), 100), v(0, 0));
    assert_eq!(pan_camera(v(10, 20), v(-90, 120), 100), v(10, 20));
    assert_eq!(pan_camera(v(10, 20), v(10, 20), 0), v(10, 20));
}

#[test]
fn camera_follows_to_keep_the_target_at_the_bound() {
    assert_eq!(pan_camera(v(0, 0), v(101, 0), 100), v(1, 0));
    assert_eq!(pan_camera(v(0, 0), v(-250, 30), 100), v(-150, 0));
    assert_eq!(pan_camera(v(0, 0), v(30, 170), 100), v(0, 70));
    assert_eq!(pan_camera(v(0, 0), v(500, -500), 100), v(400, -400));
    assert_eq!(pan_camera(v(5, 5), v(7, 3), 0), v(7, 3));
    assert_eq!(
        pan_camera(v(-CAMERA_MAX, CAMERA_MAX), v(CAMERA_MAX, -CAMERA_MAX), CAMERA_MAX),
        v(0, 0)
    );
}

#[test]
fn inverse_lerp_is_the_share_of_the_range() {
    assert_eq!(inverse_lerp(20, 60, 20), Some(Fraction { num: 0, den: 40 }));
    assert_eq!(inverse_lerp(20, 60, 30), Some(Fraction { num: 10, den: 40 }));
    assert_eq!(inverse_lerp(20, 60, 60), Some(Fraction { num: 40, den: 40 }));
    assert_eq!(inverse_lerp(20, 60, 19), None);
    assert_eq!(inverse_lerp(20, 60, 61), None);
    assert_eq!(inverse_lerp(5, 5, 5), Some(Fraction { num: 1, den: 1 }));
    assert_eq!(inverse_lerp(5, 5, 6), None);
    assert_eq!(inverse_lerp(6, 5, 5), None);
}

#[test]
fn camera_move_that_runs() {
    let cues = cam_cues();
    assert_eq!(sequence_camera(&cues, 0), None);
    assert_eq!(sequence_camera(&cues, 19999), None);
    assert_eq!(sequence_camera(&cues, 20000), Some((0, Fraction { num: 0, den: 40000 })));
    assert_eq!(sequence_camera(&cues, 40000), Some((0, Fraction { num: 20000, den: 40000 })));
    assert_eq!(sequence_camera(&cues, 60000), Some((0, Fraction { num: 40000, den: 40000 })));
    assert_eq!(sequence_camera(&cues, 62000), None);
    assert_eq!(sequence_camera(&cues, 65250), Some((1, Fraction { num: 250, den: 500 })));
    assert_eq!(sequence_camera(&cues, 65501), None);
    assert_eq!(sequence_camera(&vec![], 5), None);
}

#[test]
fn of_camera_moves_that_overlap_the_last_runs() {
    let mut cues = cam_cues();
    cues.push(CQ { time: (30000, 66000), scale: (1, 2), tran: ((0, 0, 0), (0, 0, 0)) });
    assert_eq!(sequence_camera(&cues, 25000), Some((0, Fraction { num: 5000, den: 40000 })));
    assert_eq!(sequence_camera(&cues, 40000), Some((2, Fraction { num: 10000, den: 36000 })));
    assert_eq!(sequence_camera(&cues, 65250), Some((2, Fraction { num: 35250, den: 36000 })));
}

#[test]
fn clamped_inverse_lerp_holds_at_the_ends() {
    assert_eq!(inv_lerp(20, 60, 10), Fraction { num: 0, den: 1 });
    assert_eq!(inv_lerp(20, 60, 20), Fraction { num: 0, den: 40 });
    assert_eq!(inv_lerp(20, 60, 30), Fraction { num: 10, den: 40 });
    assert_eq!(inv_lerp(20, 60, 60), Fraction { num: 40, den: 40 });
    assert_eq!(inv_lerp(20, 60, 70), Fraction { num: 1, den: 1 });
    assert_eq!(inv_lerp(5, 5, 5), Fraction { num: 1, den: 1 });
    assert_eq!(inv_lerp(5, 5, 4), Fraction { num: 0, den: 1 });
}
