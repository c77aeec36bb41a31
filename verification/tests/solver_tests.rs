use baby_core::collide::Collide;
use baby_core::geometry::{Aabb, Vec2i};
use baby_core::geometry::COORD_MAX;
use baby_core::solver::{
    aabb_in_limits, can_check_collide, check_collide, gather, physics_step, sort_nearest,
    Candidate, Movement, Physics, PhysicsTick, PushRecord, Solid, TickRecord, EXTENT_MAX,
    REACH_MAX, SPEED_MAX,
};

fn v(x: i64, y: i64) -> Vec2i {
    Vec2i { x, y }
}

fn aabb(cx: i64, cy: i64, hx: i64, hy: i64) -> Aabb {
    Aabb::new(v(cx, cy), v(hx, hy))
}

fn solid(shape: Collide, cx: i64, cy: i64) -> Solid {
    Solid { shape, aabb: aabb(cx, cy, 25, 25) }
}

fn moving(ctl: Vec2i, force: Vec2i) -> Movement {
    Movement { ctl, force, out: v(99, 99), climb: true }
}

fn physics(gravity: i64) -> Physics {
    Physics { gravity, tick_rate: 60, time_scale: 60 }
}

fn call(
    p: &Physics,
    dt: i64,
    rem: &mut PhysicsTick,
    b: &Aabb,
    m: &mut Movement,
    solids: &Vec<Solid>,
) -> Option<TickRecord> {
    assert!(can_check_collide(p, dt, rem, b, m, solids));
    check_collide(p, dt, rem, b, m, solids)
}

fn pushed(pass: usize, shape: Collide, push: Vec2i, damph: bool, dampv: bool) -> PushRecord {
    PushRecord { pass, shape, push, damph, dampv }
}

#[test]
fn square_collision_zeroes_vertical_force_only() {
    let p = physics(1);
    let mut rem = PhysicsTick(1);
    let actor = aabb(0, 0, 25, 25);
    let mut m = moving(v(0, 0), v(3, -5));
    let solids = vec![solid(Collide::Square, 0, -40)];
    call(&p, 1, &mut rem, &actor, &mut m, &solids);
    assert_eq!(m.force, v(3, 0));
    assert_eq!(m.out, v(3, 10));
    assert!(!m.climb);
    assert_eq!(m.ctl, v(0, 0));
    assert_eq!(rem, PhysicsTick(1));
}

#[test]
fn idle_actor_does_not_move_and_banks_no_time() {
    let p = physics(1);
    let mut rem = PhysicsTick(17);
    let actor = aabb(0, 0, 25, 25);
    let mut m = moving(v(0, 0), v(0, 0));
    let solids = vec![solid(Collide::Square, 0, -40)];
    call(&p, 50, &mut rem, &actor, &mut m, &solids);
    assert_eq!(m, Movement { ctl: v(0, 0), force: v(0, 0), out: v(0, 0), climb: false });
    assert_eq!(rem, PhysicsTick(17));
}

#[test]
fn control_against_force_is_not_idle() {
    let p = physics(0);
    let mut rem = PhysicsTick(1);
    let actor = aabb(0, 0, 25, 25);
    let mut m = moving(v(0, 5), v(0, -5));
    call(&p, 1, &mut rem, &actor, &mut m, &vec![]);
    assert_eq!(m.out, v(0, 0));
    assert_eq!(m.force, v(0, -5));
    assert_eq!(rem, PhysicsTick(1));
    let mut m = moving(v(0, 5), v(0, -5));
    let p = physics(2);
    call(&p, 1, &mut rem, &actor, &mut m, &vec![]);
    assert_eq!(m.out, v(0, -2));
    assert_eq!(m.force, v(0, -7));
}

#[test]
fn free_fall_accumulates_gravity() {
    let p = physics(2);
    let mut rem = PhysicsTick(0);
    let actor = aabb(0, 0, 25, 25);
    let mut m = moving(v(5, 0), v(0, 0));
    call(&p, 4, &mut rem, &actor, &mut m, &vec![]);
    assert_eq!(m.out, v(15, -12));
    assert_eq!(m.force, v(0, -6));
    assert!(!m.climb);
    assert_eq!(rem, PhysicsTick(60));
}

#[test]
fn budget_of_exactly_one_tick_runs_none() {
    let p = physics(2);
    let mut rem = PhysicsTick(0);
    let actor = aabb(0, 0, 25, 25);
    let mut m = moving(v(5, 0), v(0, 0));
    call(&p, 1, &mut rem, &actor, &mut m, &vec![]);
    assert_eq!(m.out, v(0, 0));
    assert_eq!(m.force, v(0, 0));
    assert_eq!(rem, PhysicsTick(60));
    call(&p, 1, &mut rem, &actor, &mut m, &vec![]);
    assert_eq!(m.out, v(5, -2));
    assert_eq!(rem, PhysicsTick(60));
}

#[test]
fn zero_or_negative_time_adds_no_budget() {
    let p = physics(2);
    let actor = aabb(0, 0, 25, 25);
    for dt in [0, -1, -1000, i64::MIN] {
        let mut rem = PhysicsTick(45);
        let mut m = moving(v(5, 0), v(0, -3));
        call(&p, dt, &mut rem, &actor, &mut m, &vec![]);
        assert_eq!(m.out, v(0, 0));
        assert_eq!(m.force, v(0, -3));
        assert!(!m.climb);
        assert_eq!(rem, PhysicsTick(45));
    }
}

#[test]
fn pushing_down_against_upward_control_is_climbing() {
    let p = physics(1);
    let mut rem = PhysicsTick(1);
    let actor = aabb(0, 0, 25, 25);
    let mut m = Movement { ctl: v(0, 5), force: v(0, 0), out: v(0, 0), climb: false };
    let solids = vec![solid(Collide::Square, 0, 50)];
    call(&p, 1, &mut rem, &actor, &mut m, &solids);
    assert!(m.climb);
    assert_eq!(m.force, v(0, 0));
    assert_eq!(m.out, v(0, 0));
    let mut m = Movement { ctl: v(0, 5), force: v(0, 0), out: v(0, 0), climb: true };
    call(&p, 1, &mut rem, &actor, &mut m, &vec![]);
    assert!(!m.climb);
    assert_eq!(m.out, v(0, 4));
}

#[test]
fn horizontal_force_is_zeroed_only_against_the_push() {
    let p = physics(0);
    let actor = aabb(0, 0, 25, 25);
    let solids = vec![solid(Collide::Square, 50, 0)];
    let mut rem = PhysicsTick(1);
    let mut m = moving(v(0, 0), v(7, 0));
    call(&p, 1, &mut rem, &actor, &mut m, &solids);
    assert_eq!(m.force, v(0, 0));
    assert_eq!(m.out, v(0, 0));
    let mut m = moving(v(9, 0), v(-2, 0));
    call(&p, 1, &mut rem, &actor, &mut m, &solids);
    assert_eq!(m.force, v(-2, 0));
    assert_eq!(m.out, v(0, 0));
}

#[test]
fn diagonal_contact_lets_fall_on_a_slope_where_a_step_holds() {
    let p = physics(1);
    let actor = aabb(0, 45, 25, 25);
    for (shape, force_y) in [(Collide::StepR, 0), (Collide::SlopeR, -5)] {
        let mut rem = PhysicsTick(1);
        let mut m = moving(v(0, 0), v(0, -4));
        let solids = vec![solid(shape, 0, 0)];
        call(&p, 1, &mut rem, &actor, &mut m, &solids);
        assert_eq!(m.out, v(-5, 0));
        assert_eq!(m.force, v(0, force_y));
    }
}

#[test]
fn landing_on_a_slope_from_above_stops_the_fall() {
    let p = physics(1);
    for shape in [Collide::SlopeR, Collide::StepR] {
        let mut rem = PhysicsTick(1);
        let actor = aabb(35, 54, 25, 25);
        let mut m = moving(v(0, 0), v(0, -8));
        let solids = vec![solid(shape, 0, 0)];
        call(&p, 1, &mut rem, &actor, &mut m, &solids);
        assert_eq!(m.out, v(0, -4));
        assert_eq!(m.force, v(0, 0));
    }
}

#[test]
fn fixed_timestep_determinism() {
    let p = Physics { gravity: 3, tick_rate: 60, time_scale: 240 };
    let mut solids = vec![];
    let mut x = -200;
    while x <= 600 {
        solids.push(solid(Collide::Square, x, -100));
        x += 50;
    }
    solids.push(solid(Collide::SlopeR, 150, -50));
    solids.push(solid(Collide::StepL, 300, -50));
    let ctl = v(5, 0);

    let mut whole_pos = v(0, 0);
    let mut whole = Movement { ctl, force: v(0, 0), out: v(0, 0), climb: false };
    let mut whole_rem = PhysicsTick(0);
    let mut parts_pos = v(0, 0);
    let mut parts = Movement { ctl, force: v(0, 0), out: v(0, 0), climb: false };
    let mut parts_rem = PhysicsTick(0);
    for _ in 0..60 {
        let before = whole_pos;
        let b = Aabb::new(whole_pos, v(20, 30));
        call(&p, 4, &mut whole_rem, &b, &mut whole, &solids);
        whole_pos = v(whole_pos.x + whole.out.x, whole_pos.y + whole.out.y);

        let mut climbed = false;
        for _ in 0..4 {
            let b = Aabb::new(parts_pos, v(20, 30));
            call(&p, 1, &mut parts_rem, &b, &mut parts, &solids);
            parts_pos = v(parts_pos.x + parts.out.x, parts_pos.y + parts.out.y);
            climbed = climbed || parts.climb;
        }
        assert_eq!(parts_pos, whole_pos);
        assert_eq!(parts.force, whole.force);
        assert_eq!(parts_rem, whole_rem);
        assert_eq!(climbed, whole.climb);
        assert_eq!(
            v(parts_pos.x - before.x, parts_pos.y - before.y),
            whole.out
        );
    }
    assert!(whole_pos.x > 50);
    assert!(whole_pos.y >= -45);
}

#[test]
fn step_lands_on_the_floor_and_stays() {
    let p = physics(3);
    let solids = vec![solid(Collide::Square, 0, -100)];
    let mut b = aabb(0, 0, 25, 25);
    let mut m = Movement { ctl: v(0, 0), force: v(0, -1), out: v(0, 0), climb: false };
    for _ in 0..20 {
        physics_step(&mut b, &mut m, &p, &solids);
    }
    assert_eq!(b.center, v(0, -50));
    assert_eq!(m.force, v(0, 0));
    assert_eq!(b.half, v(25, 25));
}

#[test]
fn gather_keeps_touching_tiles_with_their_distance() {
    let solids = vec![
        solid(Collide::Square, 100, 0),
        solid(Collide::StepL, 50, 50),
        solid(Collide::SlopeR, -30, 10),
        solid(Collide::Square, 0, -51),
        solid(Collide::StepR, 0, 0),
    ];
    let got = gather(&solids, &aabb(0, 0, 25, 25));
    assert_eq!(
        got,
        vec![
            Candidate { dist: 5000, shape: Collide::StepL, aabb: aabb(50, 50, 25, 25) },
            Candidate { dist: 1000, shape: Collide::SlopeR, aabb: aabb(-30, 10, 25, 25) },
            Candidate { dist: 0, shape: Collide::StepR, aabb: aabb(0, 0, 25, 25) },
        ]
    );
}

#[test]
fn sort_is_nearest_first_and_stable() {
    let c = |dist: i64, shape: Collide| Candidate { dist, shape, aabb: aabb(0, 0, 1, 1) };
    let cands = vec![
        c(5, Collide::Square),
        c(3, Collide::StepL),
        c(5, Collide::StepR),
        c(1, Collide::SlopeL),
        c(3, Collide::SlopeR),
    ];
    assert_eq!(
        sort_nearest(&cands),
        vec![
            c(1, Collide::SlopeL),
            c(3, Collide::StepL),
            c(3, Collide::SlopeR),
            c(5, Collide::Square),
            c(5, Collide::StepR),
        ]
    );
    assert_eq!(sort_nearest(&vec![]), vec![]);
}

#[test]
fn nearest_tile_pushes_first() {
    let p = physics(0);
    let far_first = vec![solid(Collide::Square, 40, -45), solid(Collide::Square, 0, -45)];
    let near_first = vec![solid(Collide::Square, 0, -45), solid(Collide::Square, 40, -45)];
    for solids in [far_first, near_first] {
        let mut b = aabb(0, 0, 25, 25);
        let mut m = Movement { ctl: v(0, 0), force: v(0, -2), out: v(0, 0), climb: false };
        physics_step(&mut b, &mut m, &p, &solids);
        assert_eq!(b.center, v(0, 5));
        assert_eq!(m.force, v(0, 0));
    }
}

#[test]
fn limits_are_checked() {
    let p = physics(1);
    let rem = PhysicsTick(0);
    let b = aabb(0, 0, 25, 25);
    let m = moving(v(1, 0), v(0, 0));
    let none: Vec<Solid> = vec![];
    assert!(can_check_collide(&p, 1, &rem, &b, &m, &none));
    assert!(!can_check_collide(&physics(-1), 1, &rem, &b, &m, &none));
    assert!(can_check_collide(&physics(SPEED_MAX), 1, &rem, &b, &m, &none));
    assert!(!can_check_collide(&physics(SPEED_MAX + 1), 1, &rem, &b, &m, &none));
    assert!(can_check_collide(
        &Physics { gravity: 1, tick_rate: 0, time_scale: 60 },
        1,
        &rem,
        &b,
        &m,
        &none
    ));
    assert!(!can_check_collide(
        &Physics { gravity: 1, tick_rate: 60, time_scale: 0 },
        1,
        &rem,
        &b,
        &m,
        &none
    ));
    assert!(can_check_collide(&p, 1, &rem, &aabb(i64::MAX, i64::MIN, 25, 25), &m, &none));
    assert!(can_check_collide(&p, 1, &rem, &aabb(0, 0, 0, EXTENT_MAX), &m, &none));
    assert!(!can_check_collide(&p, 1, &rem, &aabb(0, 0, 25, EXTENT_MAX + 1), &m, &none));
    assert!(!can_check_collide(&p, 1, &rem, &aabb(0, 0, -1, 25), &m, &none));
    assert!(can_check_collide(&p, 1, &rem, &b, &moving(v(SPEED_MAX, -SPEED_MAX), v(0, 0)), &none));
    assert!(!can_check_collide(&p, 1, &rem, &b, &moving(v(SPEED_MAX + 1, 0), v(0, 0)), &none));
    assert!(!can_check_collide(&p, 1, &rem, &b, &moving(v(0, -SPEED_MAX - 1), v(0, 0)), &none));
    assert!(can_check_collide(&p, 1, &rem, &b, &moving(v(1, 0), v(i64::MAX, i64::MIN)), &none));
    let far = vec![solid(Collide::Square, 0, 0), solid(Collide::Square, COORD_MAX, -COORD_MAX)];
    assert!(can_check_collide(&p, 1, &rem, &b, &m, &far));
    let bad = vec![solid(Collide::Square, 0, 0), solid(Collide::Square, 0, -COORD_MAX - 1)];
    assert!(!can_check_collide(&p, 1, &rem, &b, &m, &bad));
    let wide = vec![Solid { shape: Collide::Square, aabb: aabb(0, 0, EXTENT_MAX + 1, 25) }];
    assert!(!can_check_collide(&p, 1, &rem, &b, &m, &wide));
    assert!(can_check_collide(&p, i64::MAX / 60, &rem, &b, &m, &none));
    assert!(!can_check_collide(&p, i64::MAX, &rem, &b, &m, &none));
    assert!(can_check_collide(&p, 0, &PhysicsTick(u64::MAX), &b, &m, &none));
    assert!(!can_check_collide(&p, 1, &PhysicsTick(u64::MAX), &b, &m, &none));
    assert!(aabb_in_limits(&aabb(-COORD_MAX, COORD_MAX, 0, EXTENT_MAX)));
    assert!(!aabb_in_limits(&aabb(0, -COORD_MAX - 1, 0, 0)));
}

#[test]
fn many_ticks_in_one_call() {
    let p = physics(1);
    let mut rem = PhysicsTick(60);
    let b = aabb(0, 0, 25, 25);
    let mut m = moving(v(1, 0), v(0, 0));
    let n: i64 = 100_000;
    call(&p, n, &mut rem, &b, &mut m, &vec![]);
    assert_eq!(m.force, v(0, -n));
    assert_eq!(m.out, v(n, -n * (n + 1) / 2));
    assert_eq!(rem, PhysicsTick(60));
}

#[test]
fn actor_out_of_range_runs_no_tick_and_keeps_the_budget() {
    let p = physics(1);
    for (b, force) in [
        (aabb(REACH_MAX + 1, 0, 25, 25), v(0, 0)),
        (aabb(0, -REACH_MAX - 1, 25, 25), v(0, 0)),
        (aabb(i64::MIN, i64::MAX, 25, 25), v(0, 0)),
        (aabb(0, 0, 25, 25), v(SPEED_MAX + 1, 0)),
        (aabb(0, 0, 25, 25), v(0, i64::MIN)),
    ] {
        let mut rem = PhysicsTick(30);
        let mut m = moving(v(1, 0), force);
        call(&p, 5, &mut rem, &b, &mut m, &vec![]);
        assert_eq!(m.out, v(0, 0));
        assert_eq!(m.force, force);
        assert!(!m.climb);
        assert_eq!(rem, PhysicsTick(330));
    }
    let mut rem = PhysicsTick(30);
    let mut m = moving(v(1, 0), v(-SPEED_MAX, SPEED_MAX));
    call(&p, 1, &mut rem, &aabb(REACH_MAX, -REACH_MAX, 25, 25), &mut m, &vec![]);
    assert_eq!(m.out, v(1 - SPEED_MAX, SPEED_MAX - 1));
    assert_eq!(m.force, v(-SPEED_MAX, SPEED_MAX - 1));
    assert_eq!(rem, PhysicsTick(30));
}

#[test]
fn run_ends_where_the_force_leaves_the_range() {
    let p = physics(2);
    let mut rem = PhysicsTick(30);
    let mut m = moving(v(1, 0), v(0, 1 - SPEED_MAX));
    call(&p, 5, &mut rem, &aabb(0, 0, 25, 25), &mut m, &vec![]);
    assert_eq!(m.force, v(0, -SPEED_MAX - 1));
    assert_eq!(m.out, v(1, -SPEED_MAX - 1));
    assert_eq!(rem, PhysicsTick(270));
    let before = m;
    call(&p, 5, &mut rem, &aabb(1, -SPEED_MAX - 1, 25, 25), &mut m, &vec![]);
    assert_eq!(m.force, before.force);
    assert_eq!(m.out, v(0, 0));
    assert_eq!(rem, PhysicsTick(570));
}

#[test]
fn actor_that_comes_to_rest_banks_no_more_time() {
    let p = Physics { gravity: 1, tick_rate: 1, time_scale: 60 };
    let actor = aabb(0, 0, 25, 25);
    let solids = vec![solid(Collide::Square, 0, -54)];
    let start = Movement { ctl: v(0, 0), force: v(0, -4), out: v(0, 0), climb: false };

    let mut parts = start;
    let mut parts_rem = PhysicsTick(0);
    call(&p, 90, &mut parts_rem, &actor, &mut parts, &solids);
    assert_eq!(parts.out, v(0, -4));
    assert_eq!(parts.force, v(0, 0));
    assert_eq!(parts_rem, PhysicsTick(30));
    let landed = aabb(0, -4, 25, 25);
    call(&p, 10, &mut parts_rem, &landed, &mut parts, &solids);
    assert_eq!(parts.out, v(0, 0));
    assert_eq!(parts_rem, PhysicsTick(30));

    let mut whole = start;
    let mut whole_rem = PhysicsTick(0);
    call(&p, 100, &mut whole_rem, &actor, &mut whole, &solids);
    assert_eq!(whole.out, v(0, -4));
    assert_eq!(whole.force, v(0, 0));
    assert_eq!(whole_rem, PhysicsTick(40));
}

#[test]
fn last_tick_is_recorded() {
    let p = physics(1);
    let mut rem = PhysicsTick(1);
    let actor = aabb(0, 0, 25, 25);
    let mut m = moving(v(0, 0), v(3, -5));
    let solids = vec![solid(Collide::Square, 0, -140), solid(Collide::Square, 0, -40)];
    let record = call(&p, 1, &mut rem, &actor, &mut m, &solids).unwrap();
    assert_eq!(
        record.collisions,
        vec![Candidate { dist: 1165, shape: Collide::Square, aabb: aabb(0, -40, 25, 25) }]
    );
    assert_eq!(record.pushes, vec![pushed(0, Collide::Square, v(0, 16), false, true)]);

    let mut m = moving(v(1, 0), v(0, 0));
    let record = call(&p, 3, &mut rem, &aabb(0, 100, 25, 25), &mut m, &solids).unwrap();
    assert!(record.collisions.is_empty());
    assert!(record.pushes.is_empty());
}

#[test]
fn nothing_is_recorded_where_no_tick_runs() {
    let p = physics(1);
    let solids = vec![solid(Collide::Square, 0, -40)];
    let mut rem = PhysicsTick(0);
    let mut m = moving(v(0, 0), v(3, -5));
    assert!(call(&p, 1, &mut rem, &aabb(0, 0, 25, 25), &mut m, &solids).is_none());
    let mut m = moving(v(0, 0), v(0, 0));
    assert!(call(&p, 9, &mut rem, &aabb(0, 0, 25, 25), &mut m, &solids).is_none());
    let mut m = moving(v(1, 0), v(0, 0));
    assert!(call(&p, 9, &mut rem, &aabb(REACH_MAX + 1, 0, 25, 25), &mut m, &solids).is_none());
}

#[test]
fn pushes_are_recorded_pass_by_pass() {
    let p = physics(0);
    let solids = vec![solid(Collide::Square, 47, 0), solid(Collide::Square, -40, 0)];
    let mut b = aabb(0, 0, 25, 25);
    let mut m = Movement { ctl: v(0, 0), force: v(0, 0), out: v(0, 0), climb: false };
    let record = physics_step(&mut b, &mut m, &p, &solids);
    assert_eq!(b.center, v(-3, 0));
    assert_eq!(
        record.collisions,
        vec![
            Candidate { dist: 1600, shape: Collide::Square, aabb: aabb(-40, 0, 25, 25) },
            Candidate { dist: 2209, shape: Collide::Square, aabb: aabb(47, 0, 25, 25) },
        ]
    );
    assert_eq!(
        record.pushes,
        vec![
            pushed(0, Collide::Square, v(10, 0), true, false),
            pushed(0, Collide::Square, v(-13, 0), true, false),
            pushed(1, Collide::Square, v(13, 0), true, false),
            pushed(1, Collide::Square, v(-13, 0), true, false),
            pushed(2, Collide::Square, v(13, 0), true, false),
            pushed(2, Collide::Square, v(-13, 0), true, false),
        ]
    );

    let mut b = aabb(0, 45, 25, 25);
    let mut m = Movement { ctl: v(0, 0), force: v(0, -4), out: v(0, 0), climb: false };
    let record = physics_step(&mut b, &mut m, &physics(1), &vec![solid(Collide::SlopeR, 0, 0)]);
    assert_eq!(record.pushes, vec![pushed(0, Collide::SlopeR, v(-5, 5), false, false)]);
}
