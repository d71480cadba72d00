//! Per-body motion: the integrator, which advances positions by
//! `velocity * dt`, and the boundary reflector, which bounces bodies off the
//! viewport walls and clamps them back inside.

use vstd::prelude::*;
use crate::num::{iabs, div_to_zero, div_to_zero_i64, lemma_div_nonneg_bounds};
use crate::{Body, BodyM, V2, Viewport, SCALE, DIM_MAX, VEL_MAX, DT_MAX, POS_MAX};

verus! {

/// Bound on a position component right after integration: the inter-tick
/// bound plus the largest distance one tick can cover.
pub const INTEGRATED_MAX: i64 = 0x18_0000_0000_0000;

/// One body advanced by `velocity * dt`, in fixed-point: the product of two
/// fixed-point values carries a factor of `SCALE * SCALE`, so one `SCALE` is
/// divided back out, rounding toward zero.
pub open spec fn step_integrate(b: BodyM, dt: int) -> BodyM {
    BodyM {
        px: b.px + div_to_zero(b.vx * dt, SCALE as int),
        py: b.py + div_to_zero(b.vy * dt, SCALE as int),
        vx: b.vx,
        vy: b.vy,
    }
}

/// `x` forced into `[lo, hi]`.
pub open spec fn clamp_i(x: int, lo: int, hi: int) -> int {
    if x < lo {
        lo
    } else if x > hi {
        hi
    } else {
        x
    }
}

/// Whether a body at coordinate `p` with half-diameter `hs` sticks out of
/// `[-half, half]` on one axis.
pub open spec fn wall_hit(p: int, hs: int, half: int) -> bool {
    p - hs < -half || p + hs > half
}

/// One body reflected at the viewport walls: on each axis independently, if
/// the body sticks out, its velocity component is negated and its position
/// clamped back inside. Based on the post-integration position, not a
/// predicted impact time: a fast body may jump deep past a wall within one
/// tick and is then placed back on the boundary rather than bounced exactly.
pub open spec fn step_reflect(b: BodyM, w: int, h: int, size: int) -> BodyM {
    let half_w = w / 2;
    let half_h = h / 2;
    let hs = size / 2;
    let hit_x = wall_hit(b.px, hs, half_w);
    let hit_y = wall_hit(b.py, hs, half_h);
    BodyM {
        px: if hit_x { clamp_i(b.px, -half_w + hs, half_w - hs) } else { b.px },
        py: if hit_y { clamp_i(b.py, -half_h + hs, half_h - hs) } else { b.py },
        vx: if hit_x { -b.vx } else { b.vx },
        vy: if hit_y { -b.vy } else { b.vy },
    }
}

/// Whether `b` lies inside the viewport interior on both axes, with room for
/// its half-diameter.
pub open spec fn in_bounds(b: BodyM, w: int, h: int, size: int) -> bool {
    &&& -(w / 2) + size / 2 <= b.px <= w / 2 - size / 2
    &&& -(h / 2) + size / 2 <= b.py <= h / 2 - size / 2
}

/// One integration step on a single body.
pub fn integrate_body(b: Body, dt: i64) -> (r: Body)
    requires
        0 <= dt <= DT_MAX,
        iabs(b.vel.x as int) <= VEL_MAX as int,
        iabs(b.vel.y as int) <= VEL_MAX as int,
        iabs(b.pos.x as int) <= POS_MAX as int,
        iabs(b.pos.y as int) <= POS_MAX as int,
    ensures
        r@ == step_integrate(b@, dt as int),
        iabs(r.pos.x as int) <= INTEGRATED_MAX as int,
        iabs(r.pos.y as int) <= INTEGRATED_MAX as int,
        r.vel == b.vel,
{
    proof {
        assert(-0x2000_0000_0000_0000 <= b.vel.x * dt <= 0x2000_0000_0000_0000) by (nonlinear_arith)
            requires -0x4000_0000 <= b.vel.x <= 0x4000_0000, 0 <= dt <= 0x8000_0000i64;
        assert(-0x2000_0000_0000_0000 <= b.vel.y * dt <= 0x2000_0000_0000_0000) by (nonlinear_arith)
            requires -0x4000_0000 <= b.vel.y <= 0x4000_0000, 0 <= dt <= 0x8000_0000i64;
    }
    let mx = b.vel.x * dt;
    let my = b.vel.y * dt;
    let dx = div_to_zero_i64(mx, SCALE);
    let dy = div_to_zero_i64(my, SCALE);
    proof {
        if mx >= 0 {
            lemma_div_nonneg_bounds(mx as int, SCALE as int);
        } else {
            lemma_div_nonneg_bounds(-mx as int, SCALE as int);
        }
        if my >= 0 {
            lemma_div_nonneg_bounds(my as int, SCALE as int);
        } else {
            lemma_div_nonneg_bounds(-my as int, SCALE as int);
        }
    }
    Body { pos: V2 { x: b.pos.x + dx, y: b.pos.y + dy }, vel: b.vel }
}

/// The integrator: every body advanced by its velocity times `dt`. Pure
/// per-body update in index order; no body reads another's state here.
pub fn integrate(bodies: &mut Vec<Body>, dt: i64)
    requires
        0 <= dt <= DT_MAX,
        forall|k: int| 0 <= k < old(bodies)@.len() ==> iabs(old(bodies)@[k]@.vx) <= VEL_MAX as int
            && iabs(old(bodies)@[k]@.vy) <= VEL_MAX as int
            && iabs(old(bodies)@[k]@.px) <= POS_MAX as int
            && iabs(old(bodies)@[k]@.py) <= POS_MAX as int,
    ensures
        final(bodies)@.len() == old(bodies)@.len(),
        forall|k: int| 0 <= k < final(bodies)@.len() ==> final(bodies)@[k]@ == step_integrate(
            old(bodies)@[k]@,
            dt as int,
        ),
        forall|k: int| 0 <= k < final(bodies)@.len() ==> iabs(final(bodies)@[k]@.px) <= INTEGRATED_MAX as int
            && iabs(final(bodies)@[k]@.py) <= INTEGRATED_MAX as int
            && final(bodies)@[k]@.vx == old(bodies)@[k]@.vx && final(bodies)@[k]@.vy == old(bodies)@[k]@.vy,
{
    let n = bodies.len();
    let mut k: usize = 0;
    while k < n
        invariant
            n == bodies@.len() == old(bodies)@.len(),
            0 <= k <= n,
            0 <= dt <= DT_MAX,
            forall|i: int| k <= i < n ==> bodies@[i] == old(bodies)@[i],
            forall|i: int| 0 <= i < n ==> iabs(old(bodies)@[i]@.vx) <= VEL_MAX as int
                && iabs(old(bodies)@[i]@.vy) <= VEL_MAX as int
                && iabs(old(bodies)@[i]@.px) <= POS_MAX as int
                && iabs(old(bodies)@[i]@.py) <= POS_MAX as int,
            forall|i: int| 0 <= i < k ==> bodies@[i]@ == step_integrate(old(bodies)@[i]@, dt as int)
                && iabs(bodies@[i]@.px) <= INTEGRATED_MAX as int
                && iabs(bodies@[i]@.py) <= INTEGRATED_MAX as int
                && bodies@[i]@.vx == old(bodies)@[i]@.vx && bodies@[i]@.vy == old(bodies)@[i]@.vy,
        decreases n - k,
    {
        let b = bodies[k];
        let nb = integrate_body(b, dt);
        bodies.set(k, nb);
        k = k + 1;
    }
}

/// One reflection step on a single body.
pub fn reflect_body(b: Body, w: i64, h: i64, size: i64) -> (r: Body)
    requires
        1 <= size <= w <= DIM_MAX,
        size <= h <= DIM_MAX,
        iabs(b.pos.x as int) <= INTEGRATED_MAX as int,
        iabs(b.pos.y as int) <= INTEGRATED_MAX as int,
        iabs(b.vel.x as int) <= VEL_MAX as int,
        iabs(b.vel.y as int) <= VEL_MAX as int,
    ensures
        r@ == step_reflect(b@, w as int, h as int, size as int),
        in_bounds(r@, w as int, h as int, size as int),
        iabs(r@.vx) == iabs(b@.vx),
        iabs(r@.vy) == iabs(b@.vy),
{
    let half_w = div_to_zero_i64(w, 2);
    let half_h = div_to_zero_i64(h, 2);
    let hs = div_to_zero_i64(size, 2);
    proof {
        lemma_div_nonneg_bounds(w as int, 2);
        lemma_div_nonneg_bounds(h as int, 2);
        lemma_div_nonneg_bounds(size as int, 2);
        assert(size as int / 2 <= w as int / 2 && size as int / 2 <= h as int / 2)
            by (nonlinear_arith)
            requires 1 <= size as int <= w as int, size as int <= h as int;
    }
    let mut px = b.pos.x;
    let mut py = b.pos.y;
    let mut vx = b.vel.x;
    let mut vy = b.vel.y;
    if px - hs < -half_w || px + hs > half_w {
        vx = -vx;
        if px < -half_w + hs {
            px = -half_w + hs;
        } else if px > half_w - hs {
            px = half_w - hs;
        }
    }
    if py - hs < -half_h || py + hs > half_h {
        vy = -vy;
        if py < -half_h + hs {
            py = -half_h + hs;
        } else if py > half_h - hs {
            py = half_h - hs;
        }
    }
    Body { pos: V2 { x: px, y: py }, vel: V2 { x: vx, y: vy } }
}

/// The boundary reflector: every body bounced at the walls and clamped back
/// inside the viewport. After it runs, every body lies in bounds on both
/// axes.
pub fn reflect(bodies: &mut Vec<Body>, vp: &Viewport, size: i64)
    requires
        1 <= size <= vp.width <= DIM_MAX,
        size <= vp.height <= DIM_MAX,
        forall|k: int| 0 <= k < old(bodies)@.len() ==> iabs(old(bodies)@[k]@.px) <= INTEGRATED_MAX as int
            && iabs(old(bodies)@[k]@.py) <= INTEGRATED_MAX as int
            && iabs(old(bodies)@[k]@.vx) <= VEL_MAX as int
            && iabs(old(bodies)@[k]@.vy) <= VEL_MAX as int,
    ensures
        final(bodies)@.len() == old(bodies)@.len(),
        forall|k: int| 0 <= k < final(bodies)@.len() ==> final(bodies)@[k]@ == step_reflect(
            old(bodies)@[k]@,
            vp.width as int,
            vp.height as int,
            size as int,
        ),
        forall|k: int| 0 <= k < final(bodies)@.len() ==> in_bounds(
            final(bodies)@[k]@,
            vp.width as int,
            vp.height as int,
            size as int,
        ),
        forall|k: int| 0 <= k < final(bodies)@.len() ==> iabs(final(bodies)@[k]@.vx) == iabs(old(bodies)@[k]@.vx)
            && iabs(final(bodies)@[k]@.vy) == iabs(old(bodies)@[k]@.vy),
{
    let n = bodies.len();
    let mut k: usize = 0;
    while k < n
        invariant
            n == bodies@.len() == old(bodies)@.len(),
            0 <= k <= n,
            1 <= size <= vp.width <= DIM_MAX,
            size <= vp.height <= DIM_MAX,
            forall|i: int| k <= i < n ==> bodies@[i] == old(bodies)@[i],
            forall|i: int| 0 <= i < n ==> iabs(old(bodies)@[i]@.px) <= INTEGRATED_MAX as int
                && iabs(old(bodies)@[i]@.py) <= INTEGRATED_MAX as int
                && iabs(old(bodies)@[i]@.vx) <= VEL_MAX as int
                && iabs(old(bodies)@[i]@.vy) <= VEL_MAX as int,
            forall|i: int| 0 <= i < k ==> bodies@[i]@ == step_reflect(
                old(bodies)@[i]@,
                vp.width as int,
                vp.height as int,
                size as int,
            ) && in_bounds(bodies@[i]@, vp.width as int, vp.height as int, size as int)
                && iabs(bodies@[i]@.vx) == iabs(old(bodies)@[i]@.vx)
                && iabs(bodies@[i]@.vy) == iabs(old(bodies)@[i]@.vy),
        decreases n - k,
    {
        let b = bodies[k];
        let nb = reflect_body(b, vp.width, vp.height, size);
        bodies.set(k, nb);
        k = k + 1;
    }
}

} // verus!
