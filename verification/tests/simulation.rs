use gleepers::collide::{resolve_collisions, resolve_pair};
use gleepers::motion::{integrate, reflect};
use gleepers::sim::Sim;
use gleepers::{Body, SimConfig, V2, Viewport, SCALE};

fn body(px: i64, py: i64, vx: i64, vy: i64) -> Body {
    Body { pos: V2 { x: px, y: py }, vel: V2 { x: vx, y: vy } }
}

// One body at (0,0) with velocity (100,0) px/s in a 200x200 viewport with
// size 10 and dt = 1 s: it moves to (100,0), sticks out past the right wall
// (100 + 5 > 100), so velocity.x is negated and position.x clamped to 95.
#[test]
fn wall_bounce_scenario() {
    let mut sim = Sim {
        bodies: vec![body(0, 0, 100 * SCALE, 0)],
        viewport: Viewport { width: 200 * SCALE, height: 200 * SCALE },
        config: SimConfig { count: 1, size: 10 * SCALE, speed: 100 * SCALE },
    };
    sim.tick(SCALE, None);
    assert_eq!(sim.bodies[0].pos.x, 95 * SCALE);
    assert_eq!(sim.bodies[0].pos.y, 0);
    assert_eq!(sim.bodies[0].vel.x, -100 * SCALE);
    assert_eq!(sim.bodies[0].vel.y, 0);
}

// Two bodies at (0,0) and (5,0) moving at (10,0) and (-10,0) with size 12:
// the distance 5 is below 12, so the velocities swap and the offset
// normalize((-5,0)) * 6 = (-6,0) moves them to (-6,0) and (11,0).
#[test]
fn collision_scenario() {
    let mut bodies = vec![
        body(0, 0, 10 * SCALE, 0),
        body(5 * SCALE, 0, -10 * SCALE, 0),
    ];
    resolve_collisions(&mut bodies, 12 * SCALE);
    assert_eq!(bodies[0].pos.x, -6 * SCALE);
    assert_eq!(bodies[0].pos.y, 0);
    assert_eq!(bodies[1].pos.x, 11 * SCALE);
    assert_eq!(bodies[1].pos.y, 0);
    assert_eq!(bodies[0].vel.x, -10 * SCALE);
    assert_eq!(bodies[1].vel.x, 10 * SCALE);
}

// A zero configured count gives a simulation without bodies; every per-tick
// step is a no-op and nothing crashes.
#[test]
fn zero_count_scenario() {
    let vp = Viewport { width: 200 * SCALE, height: 200 * SCALE };
    let mut sim = Sim::new(SimConfig { count: 0, size: 12 * SCALE, speed: 240 * SCALE }, vp);
    assert_eq!(sim.bodies.len(), 0);
    sim.tick(SCALE, None);
    sim.tick(SCALE / 60, Some((100 * SCALE, 100 * SCALE)));
    assert_eq!(sim.bodies.len(), 0);
    assert_eq!(sim.positions().len(), 0);
}

// Integration alone: position advances by velocity * dt, velocity unchanged.
#[test]
fn integration_moves_by_velocity_times_dt() {
    let mut bodies = vec![body(7 * SCALE, -3 * SCALE, 100 * SCALE, -50 * SCALE)];
    integrate(&mut bodies, SCALE / 2);
    assert_eq!(bodies[0].pos.x, 57 * SCALE);
    assert_eq!(bodies[0].pos.y, -28 * SCALE);
    assert_eq!(bodies[0].vel.x, 100 * SCALE);
    assert_eq!(bodies[0].vel.y, -50 * SCALE);
}

// A zero dt leaves every position exactly where it was.
#[test]
fn integration_zero_dt_is_noop() {
    let mut bodies = vec![body(9 * SCALE + 13, -5 * SCALE + 7, 33 * SCALE, 44 * SCALE)];
    integrate(&mut bodies, 0);
    assert_eq!(bodies[0].pos.x, 9 * SCALE + 13);
    assert_eq!(bodies[0].pos.y, -5 * SCALE + 7);
}

// A corner hit reflects on both axes in the same tick.
#[test]
fn corner_hit_reflects_both_axes() {
    let vp = Viewport { width: 100 * SCALE, height: 100 * SCALE };
    let mut bodies = vec![body(70 * SCALE, -80 * SCALE, 20 * SCALE, -30 * SCALE)];
    reflect(&mut bodies, &vp, 10 * SCALE);
    assert_eq!(bodies[0].pos.x, 45 * SCALE);
    assert_eq!(bodies[0].pos.y, -45 * SCALE);
    assert_eq!(bodies[0].vel.x, -20 * SCALE);
    assert_eq!(bodies[0].vel.y, 30 * SCALE);
}

// A body already inside the viewport is left untouched by the reflector.
#[test]
fn interior_body_not_reflected() {
    let vp = Viewport { width: 100 * SCALE, height: 100 * SCALE };
    let mut bodies = vec![body(10 * SCALE, -20 * SCALE, 20 * SCALE, -30 * SCALE)];
    reflect(&mut bodies, &vp, 10 * SCALE);
    assert_eq!(bodies[0].pos.x, 10 * SCALE);
    assert_eq!(bodies[0].pos.y, -20 * SCALE);
    assert_eq!(bodies[0].vel.x, 20 * SCALE);
    assert_eq!(bodies[0].vel.y, -30 * SCALE);
}

// Pair symmetry on concrete values: resolving (a, b) and (b, a) gives the
// same outcome with the roles exchanged.
#[test]
fn pair_resolution_is_symmetric() {
    let a = body(3 * SCALE, 4 * SCALE, 11 * SCALE, -2 * SCALE);
    let b = body(5 * SCALE, SCALE, -7 * SCALE, 9 * SCALE);
    let (a1, b1) = resolve_pair(a, b, 12 * SCALE);
    let (b2, a2) = resolve_pair(b, a, 12 * SCALE);
    assert_eq!(a1, a2);
    assert_eq!(b1, b2);
}

// Separation on concrete values: an overlapping pair ends up at least `size`
// apart (squared distance against squared size).
#[test]
fn overlapping_pair_separates() {
    let size = 12 * SCALE;
    let a = body(3 * SCALE, 4 * SCALE, 11 * SCALE, -2 * SCALE);
    let b = body(5 * SCALE, SCALE, -7 * SCALE, 9 * SCALE);
    let dx = (a.pos.x - b.pos.x) as i128;
    let dy = (a.pos.y - b.pos.y) as i128;
    assert!(dx * dx + dy * dy < (size as i128) * (size as i128));
    let (a1, b1) = resolve_pair(a, b, size);
    let ndx = (a1.pos.x - b1.pos.x) as i128;
    let ndy = (a1.pos.y - b1.pos.y) as i128;
    assert!(ndx * ndx + ndy * ndy >= (size as i128) * (size as i128));
    assert_eq!(a1.vel, b.vel);
    assert_eq!(b1.vel, a.vel);
}

// Exact coincidence: the velocities still swap, the positions stay put.
#[test]
fn coincident_pair_swaps_velocities_only() {
    let a = body(2 * SCALE, 2 * SCALE, 5 * SCALE, 0);
    let b = body(2 * SCALE, 2 * SCALE, 0, -5 * SCALE);
    let (a1, b1) = resolve_pair(a, b, 12 * SCALE);
    assert_eq!(a1.pos, a.pos);
    assert_eq!(b1.pos, b.pos);
    assert_eq!(a1.vel, b.vel);
    assert_eq!(b1.vel, a.vel);
}

// A pair farther apart than `size` is left untouched.
#[test]
fn distant_pair_untouched() {
    let a = body(0, 0, 5 * SCALE, 0);
    let b = body(20 * SCALE, 0, 0, -5 * SCALE);
    let (a1, b1) = resolve_pair(a, b, 12 * SCALE);
    assert_eq!(a1, a);
    assert_eq!(b1, b);
}

// Three bodies in a row: the pair order (0,1), (0,2), (1,2) is fixed, so the
// outcome is reproducible; resolving body 0 against 1 moves 0 before it is
// checked against 2.
#[test]
fn chained_resolution_follows_fixed_order() {
    let size = 12 * SCALE;
    let run = || {
        let mut bodies = vec![
            body(0, 0, SCALE, 0),
            body(5 * SCALE, 0, 2 * SCALE, 0),
            body(-5 * SCALE, 0, 3 * SCALE, 0),
        ];
        resolve_collisions(&mut bodies, size);
        bodies
    };
    let first = run();
    let second = run();
    assert_eq!(first, second);
    // Pair (0,1) moves 0 to (-6,0) and 1 to (11,0); the chained pair (0,2)
    // then sees 0 at distance 1 and pushes it on to (-12,0) and 2 to (1,0);
    // pair (1,2), now 10 apart, separates them to (17,0) and (-5,0).
    assert_eq!(first[0].pos.x, -12 * SCALE);
    assert_eq!(first[1].pos.x, 17 * SCALE);
    assert_eq!(first[2].pos.x, -5 * SCALE);
    assert_eq!(first[0].vel.x, 3 * SCALE);
    assert_eq!(first[1].vel.x, 2 * SCALE);
    assert_eq!(first[2].vel.x, SCALE);
}

// Identical initial state and identical inputs give identical trajectories.
#[test]
fn repeated_runs_are_identical() {
    let start = vec![
        body(0, 0, 100 * SCALE, 37 * SCALE),
        body(5 * SCALE, SCALE, -10 * SCALE, 0),
        body(-40 * SCALE, 22 * SCALE, 3 * SCALE, -90 * SCALE),
    ];
    let vp = Viewport { width: 200 * SCALE, height: 150 * SCALE };
    let config = SimConfig { count: 3, size: 12 * SCALE, speed: 240 * SCALE };
    let inputs = [
        (SCALE / 60, None),
        (SCALE / 30, Some((180 * SCALE, 150 * SCALE))),
        (SCALE / 60, None),
        (SCALE, None),
    ];
    let mut sim1 = Sim { bodies: start.clone(), viewport: vp, config };
    let mut sim2 = Sim { bodies: start, viewport: vp, config };
    for (dt, measured) in inputs {
        sim1.tick(dt, measured);
        sim2.tick(dt, measured);
        assert_eq!(sim1.bodies, sim2.bodies);
        assert_eq!(sim1.viewport, sim2.viewport);
    }
}

// After every tick, every body lies inside the viewport, give or take the
// collision separation of that tick; right after reflection the bound is
// exact, which the reflector test below checks per body.
#[test]
fn reflection_keeps_every_body_in_bounds() {
    let vp = Viewport { width: 100 * SCALE, height: 80 * SCALE };
    let size = 10 * SCALE;
    let mut bodies = vec![
        body(1000 * SCALE, -2000 * SCALE, 5 * SCALE, 5 * SCALE),
        body(-49 * SCALE, 39 * SCALE, -5 * SCALE, 5 * SCALE),
        body(0, 0, SCALE, SCALE),
    ];
    reflect(&mut bodies, &vp, size);
    for b in &bodies {
        assert!(-50 * SCALE + 5 * SCALE <= b.pos.x && b.pos.x <= 50 * SCALE - 5 * SCALE);
        assert!(-40 * SCALE + 5 * SCALE <= b.pos.y && b.pos.y <= 40 * SCALE - 5 * SCALE);
    }
}

// The render list mirrors the body positions in index order.
#[test]
fn positions_lists_bodies_in_order() {
    let sim = Sim {
        bodies: vec![body(SCALE, 2 * SCALE, 0, 0), body(-3 * SCALE, 4 * SCALE, 0, 0)],
        viewport: Viewport { width: 100 * SCALE, height: 100 * SCALE },
        config: SimConfig { count: 2, size: 10 * SCALE, speed: SCALE },
    };
    let out = sim.positions();
    assert_eq!(out, vec![(SCALE, 2 * SCALE), (-3 * SCALE, 4 * SCALE)]);
}

// The viewport tracker overwrites on a measurement and retains without one.
#[test]
fn viewport_tracker_overwrites_or_retains() {
    let mut sim = Sim {
        bodies: vec![],
        viewport: Viewport { width: 100 * SCALE, height: 100 * SCALE },
        config: SimConfig { count: 0, size: 10 * SCALE, speed: SCALE },
    };
    sim.update_viewport(Some((120 * SCALE, 90 * SCALE)));
    assert_eq!(sim.viewport, Viewport { width: 120 * SCALE, height: 90 * SCALE });
    sim.update_viewport(None);
    assert_eq!(sim.viewport, Viewport { width: 120 * SCALE, height: 90 * SCALE });
}
