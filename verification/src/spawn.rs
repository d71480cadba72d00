//! Initial population: each body starts at a position drawn uniformly within
//! the viewport and with a velocity of the configured speed in a random
//! direction.
//!
//! The direction is drawn as an integer vector with both components in
//! `[-SCALE, SCALE)` and scaled to length `speed` by integer division. A draw
//! of the exact zero vector leaves the direction undefined; the spawner then
//! falls back to the positive x direction, a deliberate choice for that
//! degenerate draw.

use vstd::prelude::*;
use rand::Rng;
use crate::num::{
    iabs, div_to_zero, sqrt_floor, lemma_sqrt_floor, lemma_sqrt_pos, lemma_sqrt_dominates,
    lemma_div_nonneg_bounds, div_to_zero_i64, isqrt_u128,
};
use crate::{Body, V2, Viewport, SCALE, DIM_MAX, VEL_MAX};

verus! {

/// Relies on `rand::Rng::gen_range` on a half-open `i64` range, drawing from
/// the thread-local generator: the result lies in `[lo, hi)`, uniformly; the
/// call panics only on an empty range, which the precondition excludes.
#[verifier::external_body]
fn rand_in_range(lo: i64, hi: i64) -> (r: i64)
    requires
        lo < hi,
    ensures
        lo <= r < hi,
{
    rand::thread_rng().gen_range(lo..hi)
}

/// The velocity of a freshly spawned body: the drawn direction vector
/// `(dx, dy)` scaled to length `speed` by integer division, or straight along
/// the positive x axis when the draw was the zero vector.
pub open spec fn spec_velocity(dx: int, dy: int, speed: int) -> (int, int) {
    if dx == 0 && dy == 0 {
        (speed, 0)
    } else {
        let m = sqrt_floor(dx * dx + dy * dy);
        (div_to_zero(dx * speed, m), div_to_zero(dy * speed, m))
    }
}

/// A component of the direction vector scaled to `speed` cannot exceed
/// `speed`: the component's magnitude is at most the vector's length.
proof fn lemma_velocity_component_bound(c: int, speed: int, n2: int)
    requires
        speed >= 1,
        n2 >= 1,
        c * c <= n2,
    ensures
        iabs(div_to_zero(c * speed, sqrt_floor(n2))) <= speed,
{
    lemma_sqrt_pos(n2);
    let m = sqrt_floor(n2);
    lemma_sqrt_dominates(n2, c);
    let ac = iabs(c);
    assert(ac * speed >= 0 && ac * speed <= m * speed) by (nonlinear_arith)
        requires 0 <= ac <= m, speed >= 1;
    lemma_div_nonneg_bounds(ac * speed, m);
    let q = (ac * speed) / m;
    assert(q <= speed) by (nonlinear_arith)
        requires m * q <= ac * speed, ac * speed <= m * speed, m >= 1, q >= 0;
    if c >= 0 {
        assert(ac == c);
    } else {
        assert(c * speed == -(ac * speed) && c * speed < 0) by (nonlinear_arith)
            requires c < 0, ac == -c, speed >= 1;
    }
}

/// The velocity of a freshly spawned body, exactly as [`spec_velocity`]
/// states it, with both components bounded by `speed`.
pub fn make_velocity(dx: i64, dy: i64, speed: i64) -> (v: V2)
    requires
        -SCALE <= dx <= SCALE,
        -SCALE <= dy <= SCALE,
        1 <= speed <= VEL_MAX,
    ensures
        (v.x as int, v.y as int) == spec_velocity(dx as int, dy as int, speed as int),
        iabs(v.x as int) <= speed as int,
        iabs(v.y as int) <= speed as int,
{
    if dx == 0 && dy == 0 {
        V2 { x: speed, y: 0 }
    } else {
        proof {
            assert(0 <= dx * dx <= 0x10_0000i64 && 0 <= dy * dy <= 0x10_0000i64
                && 1 <= dx * dx + dy * dy) by (nonlinear_arith)
                requires
                    -1024 <= dx <= 1024i64,
                    -1024 <= dy <= 1024i64,
                    dx != 0 || dy != 0;
        }
        let n2 = dx * dx + dy * dy;
        let m = isqrt_u128(n2 as u128);
        proof {
            lemma_sqrt_pos(n2 as int);
            lemma_sqrt_floor(n2 as int);
            assert(-0x100_0000_0000i64 <= dx * speed <= 0x100_0000_0000i64) by (nonlinear_arith)
                requires -1024 <= dx <= 1024i64, 1 <= speed <= 0x4000_0000i64;
            assert(-0x100_0000_0000i64 <= dy * speed <= 0x100_0000_0000i64) by (nonlinear_arith)
                requires -1024 <= dy <= 1024i64, 1 <= speed <= 0x4000_0000i64;
            assert(m as int <= 0x800_0000int) by (nonlinear_arith)
                requires m as int * m as int <= 0x800_0000int, m as int >= 0;
            lemma_velocity_component_bound(dx as int, speed as int, n2 as int);
            lemma_velocity_component_bound(dy as int, speed as int, n2 as int);
        }
        let vx = div_to_zero_i64(dx * speed, m as i64);
        let vy = div_to_zero_i64(dy * speed, m as i64);
        V2 { x: vx, y: vy }
    }
}

/// The initial population: `count` bodies, each at an independently drawn
/// position inside the viewport, each moving at `speed` in a drawn direction.
pub fn spawn_bodies(count: usize, vp: &Viewport, speed: i64) -> (bodies: Vec<Body>)
    requires
        2 <= vp.width <= DIM_MAX,
        2 <= vp.height <= DIM_MAX,
        1 <= speed <= VEL_MAX,
    ensures
        bodies@.len() == count as int,
        forall|k: int| 0 <= k < bodies@.len() ==> -(vp.width as int / 2) <= (
        #[trigger] bodies@[k])@.px < vp.width as int / 2 && -(vp.height as int / 2)
            <= bodies@[k]@.py < vp.height as int / 2,
        forall|k: int| 0 <= k < bodies@.len() ==> iabs(bodies@[k]@.vx) <= speed as int && iabs(
            bodies@[k]@.vy) <= speed as int,
{
    let half_w = div_to_zero_i64(vp.width, 2);
    let half_h = div_to_zero_i64(vp.height, 2);
    proof {
        lemma_div_nonneg_bounds(vp.width as int, 2);
        lemma_div_nonneg_bounds(vp.height as int, 2);
    }
    let mut bodies: Vec<Body> = Vec::new();
    let mut k: usize = 0;
    while k < count
        invariant
            0 <= k <= count,
            bodies@.len() == k as int,
            half_w == vp.width as int / 2,
            half_h == vp.height as int / 2,
            1 <= half_w,
            1 <= half_h,
            1 <= speed <= VEL_MAX,
            forall|i: int| 0 <= i < bodies@.len() ==> -(vp.width as int / 2) <= (
            #[trigger] bodies@[i])@.px < vp.width as int / 2 && -(vp.height as int / 2)
                <= bodies@[i]@.py < vp.height as int / 2,
            forall|i: int| 0 <= i < bodies@.len() ==> iabs(bodies@[i]@.vx) <= speed as int && iabs(
                bodies@[i]@.vy) <= speed as int,
        decreases count - k,
    {
        let x = rand_in_range(-half_w, half_w);
        let y = rand_in_range(-half_h, half_h);
        let ddx = rand_in_range(-SCALE, SCALE);
        let ddy = rand_in_range(-SCALE, SCALE);
        let vel = make_velocity(ddx, ddy, speed);
        bodies.push(Body { pos: V2 { x, y }, vel });
        k = k + 1;
    }
    bodies
}

} // verus!
