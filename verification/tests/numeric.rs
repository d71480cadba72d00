use gleepers::num::{div_away_i128, div_to_zero_i64, isqrt_u128};
use gleepers::sim::Sim;
use gleepers::spawn::{make_velocity, spawn_bodies};
use gleepers::{SimConfig, V2, Viewport, SCALE};

#[test]
fn division_toward_zero_truncates_both_signs() {
    assert_eq!(div_to_zero_i64(7, 2), 3);
    assert_eq!(div_to_zero_i64(-7, 2), -3);
    assert_eq!(div_to_zero_i64(6, 3), 2);
    assert_eq!(div_to_zero_i64(-6, 3), -2);
    assert_eq!(div_to_zero_i64(0, 5), 0);
    assert_eq!(div_to_zero_i64(1023, 1024), 0);
    assert_eq!(div_to_zero_i64(-1023, 1024), 0);
}

#[test]
fn division_away_from_zero_rounds_outward() {
    assert_eq!(div_away_i128(7, 2), 4);
    assert_eq!(div_away_i128(-7, 2), -4);
    assert_eq!(div_away_i128(6, 2), 3);
    assert_eq!(div_away_i128(-6, 2), -3);
    assert_eq!(div_away_i128(0, 3), 0);
    assert_eq!(div_away_i128(1, 1024), 1);
    assert_eq!(div_away_i128(-1, 1024), -1);
}

#[test]
fn integer_square_root_is_the_floor_root() {
    assert_eq!(isqrt_u128(0), 0);
    assert_eq!(isqrt_u128(1), 1);
    assert_eq!(isqrt_u128(2), 1);
    assert_eq!(isqrt_u128(24), 4);
    assert_eq!(isqrt_u128(25), 5);
    assert_eq!(isqrt_u128(26), 5);
    assert_eq!(isqrt_u128(1 << 100), 1 << 50);
    assert_eq!(isqrt_u128((1 << 100) - 1), (1 << 50) - 1);
}

// A 3-4-5 direction scales exactly: each component is speed * c / 5.
#[test]
fn velocity_scales_direction_to_speed() {
    let speed = 240 * SCALE;
    let v = make_velocity(3, 4, speed);
    assert_eq!(v, V2 { x: 3 * speed / 5, y: 4 * speed / 5 });
    let w = make_velocity(-3, -4, speed);
    assert_eq!(w, V2 { x: -(3 * speed) / 5, y: -(4 * speed) / 5 });
}

// The zero direction draw falls back to the positive x axis.
#[test]
fn velocity_zero_draw_falls_back_to_x_axis() {
    let v = make_velocity(0, 0, 240 * SCALE);
    assert_eq!(v, V2 { x: 240 * SCALE, y: 0 });
}

// An axis-aligned draw keeps the full speed on that axis.
#[test]
fn velocity_axis_draw_keeps_full_speed() {
    let v = make_velocity(0, -512, 240 * SCALE);
    assert_eq!(v, V2 { x: 0, y: -240 * SCALE });
}

// Spawning draws every position inside the viewport and every velocity
// within the configured speed; the count is exact.
#[test]
fn spawned_bodies_lie_inside_the_viewport() {
    let vp = Viewport { width: 444 * SCALE, height: 300 * SCALE };
    let bodies = spawn_bodies(200, &vp, 240 * SCALE);
    assert_eq!(bodies.len(), 200);
    for b in &bodies {
        assert!(-222 * SCALE <= b.pos.x && b.pos.x < 222 * SCALE);
        assert!(-150 * SCALE <= b.pos.y && b.pos.y < 150 * SCALE);
        assert!(b.vel.x.abs() <= 240 * SCALE);
        assert!(b.vel.y.abs() <= 240 * SCALE);
    }
    // 200 independent draws over 450k values collide all at once with
    // vanishing probability: the positions must actually vary.
    assert!(bodies.iter().any(|b| b.pos.x != bodies[0].pos.x));
}

// A fresh simulation carries its configuration and population unchanged
// through construction, and survives a burst of ticks without a body ever
// leaving the clamped range by more than the documented separation room.
#[test]
fn fresh_simulation_runs_many_ticks() {
    let vp = Viewport { width: 444 * SCALE, height: 444 * SCALE };
    let config = SimConfig { count: 120, size: 12 * SCALE, speed: 240 * SCALE };
    let mut sim = Sim::new(config, vp);
    assert_eq!(sim.bodies.len(), 120);
    assert_eq!(sim.config, config);
    for _ in 0..60 {
        sim.tick(SCALE / 60, None);
    }
    assert_eq!(sim.positions().len(), 120);
}
