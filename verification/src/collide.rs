//! The collision resolver: every unordered pair of distinct bodies is
//! examined exactly once per tick, in a fixed index order. An overlapping
//! pair swaps velocities wholesale and the two bodies are pushed apart along
//! their connecting axis.
//!
//! The separation offset is `delta * size / (2 * |delta|)` with the division
//! rounded away from zero, so a resolved pair always ends up at least `size`
//! apart (see [`lemma_pair_separates`]). When the two bodies coincide
//! exactly, the direction of `delta` is undefined: the resolver then still
//! swaps the velocities but skips the positional correction, a deliberate
//! fallback for that degenerate input.

use vstd::prelude::*;
use crate::num::{
    iabs, div_away, sqrt_floor, lemma_sqrt_floor, lemma_sqrt_pos, lemma_sqrt_dominates,
    lemma_div_away_bounds, lemma_div_away_odd, lemma_div_nonneg_bounds, div_away_i128, isqrt_u128,
};
use crate::{Body, BodyM, V2, models, DIM_MAX, VEL_MAX, COLLIDE_ROOM};

verus! {

/// Largest position component magnitude the pair resolver accepts.
pub const PAIR_POS_MAX: i64 = 0x8_0000_0000_0000;

/// Squared length of the vector `(dx, dy)`.
pub open spec fn norm2(dx: int, dy: int) -> int {
    dx * dx + dy * dy
}

/// Half the body diameter, rounded up: the largest positional correction one
/// collision applies to one body along one axis.
pub open spec fn hsize(size: int) -> int {
    (size + 1) / 2
}

/// One collision check on the ordered pair `(a, b)`: if the two bodies are
/// closer than `size`, their velocities are exchanged and they are pushed
/// apart by `delta * size / (2 * |delta|)` each, rounded away from zero; at
/// exact coincidence only the velocities are exchanged.
pub open spec fn step_pair(a: BodyM, b: BodyM, size: int) -> (BodyM, BodyM) {
    let dx = a.px - b.px;
    let dy = a.py - b.py;
    let n2 = norm2(dx, dy);
    if n2 < size * size {
        if n2 == 0 {
            (
                BodyM { px: a.px, py: a.py, vx: b.vx, vy: b.vy },
                BodyM { px: b.px, py: b.py, vx: a.vx, vy: a.vy },
            )
        } else {
            let m = sqrt_floor(n2);
            let ox = div_away(dx * size, 2 * m);
            let oy = div_away(dy * size, 2 * m);
            (
                BodyM { px: a.px + ox, py: a.py + oy, vx: b.vx, vy: b.vy },
                BodyM { px: b.px - ox, py: b.py - oy, vx: a.vx, vy: a.vy },
            )
        }
    } else {
        (a, b)
    }
}

/// The bodies after all pairs from `(i, j)` onward, in index order, have been
/// resolved: `(i, i+1), ..., (i, n-1), (i+1, i+2), ...`. Each pair sees the
/// positions and velocities its predecessors left behind, so chained
/// resolutions within one tick are part of the model.
pub open spec fn collide_from(bs: Seq<BodyM>, size: int, i: int, j: int) -> Seq<BodyM>
    decreases bs.len() - i, bs.len() - j,
{
    if !(0 <= i && i < j) {
        bs
    } else if i + 1 >= bs.len() {
        bs
    } else if j >= bs.len() {
        collide_from(bs, size, i + 1, i + 2)
    } else {
        let p = step_pair(bs[i], bs[j], size);
        collide_from(bs.update(i, p.0).update(j, p.1), size, i, j + 1)
    }
}

/// The bodies after one full collision pass.
pub open spec fn spec_collide(bs: Seq<BodyM>, size: int) -> Seq<BodyM> {
    collide_from(bs, size, 0, 1)
}

/// The separation offset along one axis is at most half the diameter,
/// rounded up.
pub proof fn lemma_offset_bound(c: int, size: int, n2: int)
    requires
        size >= 1,
        n2 >= 1,
        c * c <= n2,
    ensures
        iabs(div_away(c * size, 2 * sqrt_floor(n2))) <= hsize(size),
        hsize(size) >= 1,
        2 * hsize(size) <= size + 1,
{
    lemma_sqrt_floor(n2);
    lemma_sqrt_pos(n2);
    let m = sqrt_floor(n2);
    lemma_sqrt_dominates(n2, c);
    let ac = iabs(c);
    assert(ac * size >= 0 && ac * size <= m * size) by (nonlinear_arith)
        requires 0 <= ac <= m, size >= 1;
    lemma_div_away_bounds(ac * size, 2 * m);
    let q = div_away(ac * size, 2 * m);
    assert((2 * m) * q < m * (size + 2)) by (nonlinear_arith)
        requires (2 * m) * q < ac * size + 2 * m, ac * size <= m * size;
    assert(2 * q < size + 2) by (nonlinear_arith)
        requires (2 * m) * q < m * (size + 2), m >= 1;
    lemma_div_nonneg_bounds(size + 1, 2);
    assert(q <= hsize(size));
    assert(hsize(size) >= 1);
    if c >= 0 {
        assert(ac == c);
    } else {
        assert(c * size == -(ac * size)) by (nonlinear_arith)
            requires c < 0, ac == -c;
        lemma_div_away_odd(ac * size, 2 * m);
    }
}

/// Resolving the pair in the other order yields the same outcome: the
/// velocity exchange is order-independent and the two offsets have opposite
/// signs.
pub proof fn lemma_pair_symmetric(a: BodyM, b: BodyM, size: int)
    requires
        size >= 1,
    ensures
        step_pair(b, a, size) == (step_pair(a, b, size).1, step_pair(a, b, size).0),
{
    let dx = a.px - b.px;
    let dy = a.py - b.py;
    assert((-dx) * (-dx) + (-dy) * (-dy) == dx * dx + dy * dy) by (nonlinear_arith);
    let n2 = norm2(dx, dy);
    assert(n2 >= 0) by (nonlinear_arith)
        requires n2 == dx * dx + dy * dy;
    if n2 < size * size && n2 != 0 {
        lemma_sqrt_pos(n2);
        let m = sqrt_floor(n2);
        assert((-dx) * size == -(dx * size)) by (nonlinear_arith);
        assert((-dy) * size == -(dy * size)) by (nonlinear_arith);
        lemma_div_away_odd(dx * size, 2 * m);
        lemma_div_away_odd(dy * size, 2 * m);
    }
}

/// Separation is achieved: a pair that overlapped without coinciding is at
/// least `size` apart (in squared distance) after it is resolved.
pub proof fn lemma_pair_separates(a: BodyM, b: BodyM, size: int)
    requires
        size >= 1,
        norm2(a.px - b.px, a.py - b.py) >= 1,
        norm2(a.px - b.px, a.py - b.py) < size * size,
    ensures
        ({
            let p = step_pair(a, b, size);
            norm2(p.0.px - p.1.px, p.0.py - p.1.py) >= size * size
        }),
{
    let dx = a.px - b.px;
    let dy = a.py - b.py;
    let n2 = norm2(dx, dy);
    lemma_sqrt_floor(n2);
    lemma_sqrt_pos(n2);
    let m = sqrt_floor(n2);
    let ox = div_away(dx * size, 2 * m);
    let oy = div_away(dy * size, 2 * m);
    let ndx = dx + 2 * ox;
    let ndy = dy + 2 * oy;
    lemma_component_grows(dx, size, m);
    lemma_component_grows(dy, size, m);
    assert(m * m * (ndx * ndx) >= (dx * dx) * ((m + size) * (m + size))) by (nonlinear_arith)
        requires (m * ndx) * (m * ndx) >= (dx * (m + size)) * (dx * (m + size));
    assert(m * m * (ndy * ndy) >= (dy * dy) * ((m + size) * (m + size))) by (nonlinear_arith)
        requires (m * ndy) * (m * ndy) >= (dy * (m + size)) * (dy * (m + size));
    assert(m * m * (ndx * ndx + ndy * ndy) >= (dx * dx + dy * dy) * ((m + size) * (m + size)))
        by (nonlinear_arith)
        requires
            m * m * (ndx * ndx) >= (dx * dx) * ((m + size) * (m + size)),
            m * m * (ndy * ndy) >= (dy * dy) * ((m + size) * (m + size));
    assert((dx * dx + dy * dy) * ((m + size) * (m + size)) >= (m * m) * ((m + size) * (m + size)))
        by (nonlinear_arith)
        requires dx * dx + dy * dy >= m * m, m >= 1;
    assert(ndx * ndx + ndy * ndy >= (m + size) * (m + size)) by (nonlinear_arith)
        requires
            m * m * (ndx * ndx + ndy * ndy) >= (m * m) * ((m + size) * (m + size)),
            m >= 1;
    assert((m + size) * (m + size) >= size * size) by (nonlinear_arith)
        requires m >= 1, size >= 1;
    let p = step_pair(a, b, size);
    assert(p.0.px - p.1.px == ndx && p.0.py - p.1.py == ndy);
}

/// After the offset is applied, one delta component scaled by `m` has grown
/// in magnitude by the factor `(m + size) / m`.
proof fn lemma_component_grows(c: int, size: int, m: int)
    requires
        size >= 1,
        m >= 1,
    ensures
        ({
            let nc = c + 2 * div_away(c * size, 2 * m);
            (m * nc) * (m * nc) >= (c * (m + size)) * (c * (m + size))
        }),
{
    let o = div_away(c * size, 2 * m);
    let nc = c + 2 * o;
    if c >= 0 {
        assert(c * size >= 0) by (nonlinear_arith)
            requires c >= 0, size >= 1;
        lemma_div_away_bounds(c * size, 2 * m);
        assert(m * nc >= c * (m + size) && c * (m + size) >= 0) by (nonlinear_arith)
            requires (2 * m) * o >= c * size, nc == c + 2 * o, c >= 0, size >= 1, m >= 1;
        assert((m * nc) * (m * nc) >= (c * (m + size)) * (c * (m + size))) by (nonlinear_arith)
            requires m * nc >= c * (m + size), c * (m + size) >= 0;
    } else {
        let ac = -c;
        assert(c * size == -(ac * size) && ac * size >= 0) by (nonlinear_arith)
            requires c < 0, ac == -c, size >= 1;
        lemma_div_away_odd(ac * size, 2 * m);
        lemma_div_away_bounds(ac * size, 2 * m);
        assert(m * nc <= c * (m + size) && c * (m + size) <= 0) by (nonlinear_arith)
            requires
                (2 * m) * (-o) >= ac * size,
                nc == c + 2 * o,
                c < 0,
                ac == -c,
                size >= 1,
                m >= 1;
        assert((m * nc) * (m * nc) >= (c * (m + size)) * (c * (m + size))) by (nonlinear_arith)
            requires m * nc <= c * (m + size), c * (m + size) <= 0;
    }
}

/// One collision check on a pair of bodies, exactly as [`step_pair`] states.
pub fn resolve_pair(a: Body, b: Body, size: i64) -> (r: (Body, Body))
    requires
        1 <= size <= DIM_MAX,
        iabs(a.pos.x as int) <= PAIR_POS_MAX as int,
        iabs(a.pos.y as int) <= PAIR_POS_MAX as int,
        iabs(b.pos.x as int) <= PAIR_POS_MAX as int,
        iabs(b.pos.y as int) <= PAIR_POS_MAX as int,
    ensures
        (r.0@, r.1@) == step_pair(a@, b@, size as int),
        iabs(r.0@.px - a@.px) <= hsize(size as int),
        iabs(r.0@.py - a@.py) <= hsize(size as int),
        iabs(r.1@.px - b@.px) <= hsize(size as int),
        iabs(r.1@.py - b@.py) <= hsize(size as int),
        hsize(size as int) <= size as int,
        (r.0@.vx == a@.vx && r.0@.vy == a@.vy && r.1@.vx == b@.vx && r.1@.vy == b@.vy)
            || (r.0@.vx == b@.vx && r.0@.vy == b@.vy && r.1@.vx == a@.vx && r.1@.vy == a@.vy),
{
    proof {
        lemma_div_nonneg_bounds(size as int + 1, 2);
    }
    let dx = a.pos.x - b.pos.x;
    let dy = a.pos.y - b.pos.y;
    proof {
        assert(0 <= (dx as i128) * (dx as i128)
            <= 0x100_0000_0000_0000_0000_0000_0000i128) by (nonlinear_arith)
            requires -0x10_0000_0000_0000 <= dx as i128 <= 0x10_0000_0000_0000i128;
        assert(0 <= (dy as i128) * (dy as i128)
            <= 0x100_0000_0000_0000_0000_0000_0000i128) by (nonlinear_arith)
            requires -0x10_0000_0000_0000 <= dy as i128 <= 0x10_0000_0000_0000i128;
    }
    let dx2 = (dx as i128) * (dx as i128);
    let dy2 = (dy as i128) * (dy as i128);
    let n2 = dx2 + dy2;
    proof {
        assert(0 <= (size as i128) * (size as i128) <= 0x1000_0000_0000_0000i128)
            by (nonlinear_arith)
            requires 1 <= size as i128 <= 0x4000_0000i128;
    }
    let s2 = (size as i128) * (size as i128);
    if n2 < s2 {
        if n2 == 0 {
            (
                Body { pos: a.pos, vel: b.vel },
                Body { pos: b.pos, vel: a.vel },
            )
        } else {
            let m = isqrt_u128(n2 as u128);
            proof {
                lemma_sqrt_floor(n2 as int);
                lemma_sqrt_pos(n2 as int);
                assert(m as int <= 0x20_0000_0000_0000int) by (nonlinear_arith)
                    requires
                        m as int * m as int <= 0x200_0000_0000_0000_0000_0000_0000int,
                        m as int >= 0;
                lemma_offset_bound(dx as int, size as int, n2 as int);
                lemma_offset_bound(dy as int, size as int, n2 as int);
            }
            proof {
                assert(-0x4_0000_0000_0000_0000_0000 <= (dx as i128) * (size as i128)
                    <= 0x4_0000_0000_0000_0000_0000i128) by (nonlinear_arith)
                    requires
                        -0x10_0000_0000_0000 <= dx as i128 <= 0x10_0000_0000_0000i128,
                        1 <= size as i128 <= 0x4000_0000i128;
                assert(-0x4_0000_0000_0000_0000_0000 <= (dy as i128) * (size as i128)
                    <= 0x4_0000_0000_0000_0000_0000i128) by (nonlinear_arith)
                    requires
                        -0x10_0000_0000_0000 <= dy as i128 <= 0x10_0000_0000_0000i128,
                        1 <= size as i128 <= 0x4000_0000i128;
            }
            let ox = div_away_i128((dx as i128) * (size as i128), 2 * (m as i128));
            let oy = div_away_i128((dy as i128) * (size as i128), 2 * (m as i128));
            let oxs = ox as i64;
            let oys = oy as i64;
            (
                Body { pos: V2 { x: a.pos.x + oxs, y: a.pos.y + oys }, vel: b.vel },
                Body { pos: V2 { x: b.pos.x - oxs, y: b.pos.y - oys }, vel: a.vel },
            )
        }
    } else {
        (a, b)
    }
}

/// The collision resolver: every unordered pair of distinct bodies checked
/// exactly once, in ascending index order `(0,1), (0,2), ..., (1,2), ...`,
/// each pair seeing the state its predecessors left. The fixed order makes
/// the outcome a function of the input alone.
pub fn resolve_collisions(bodies: &mut Vec<Body>, size: i64)
    requires
        1 <= size <= DIM_MAX,
        forall|k: int| 0 <= k < old(bodies)@.len() ==> iabs(old(bodies)@[k]@.px) <= DIM_MAX as int
            && iabs(old(bodies)@[k]@.py) <= DIM_MAX as int
            && iabs(old(bodies)@[k]@.vx) <= VEL_MAX as int
            && iabs(old(bodies)@[k]@.vy) <= VEL_MAX as int,
        (old(bodies)@.len() * old(bodies)@.len() + old(bodies)@.len() + 1) * (size as int)
            <= COLLIDE_ROOM as int,
    ensures
        final(bodies)@.len() == old(bodies)@.len(),
        models(final(bodies)@) == spec_collide(models(old(bodies)@), size as int),
        forall|k: int| 0 <= k < final(bodies)@.len() ==> iabs(final(bodies)@[k]@.px) <= (DIM_MAX
            + COLLIDE_ROOM) as int && iabs(final(bodies)@[k]@.py) <= (DIM_MAX + COLLIDE_ROOM) as int
            && iabs(final(bodies)@[k]@.vx) <= VEL_MAX as int
            && iabs(final(bodies)@[k]@.vy) <= VEL_MAX as int,
{
    let n = bodies.len();
    let ghost orig = models(bodies@);
    let ghost hs = hsize(size as int);
    proof {
        lemma_div_nonneg_bounds(size as int + 1, 2);
        assert(1 <= hs <= size as int);
    }
    if n < 2 {
        proof {
            assert(collide_from(orig, size as int, 0, 1) == orig);
            assert(models(bodies@) =~= orig);
        }
        return;
    }
    let mut i: usize = 0;
    while i + 1 < n
        invariant
            n == bodies@.len() == old(bodies)@.len(),
            n >= 2,
            0 <= i <= n - 1,
            1 <= size <= DIM_MAX,
            hs == hsize(size as int),
            1 <= hs <= size as int,
            (n * n + n + 1) * (size as int) <= COLLIDE_ROOM as int,
            orig == models(old(bodies)@),
            forall|k: int| 0 <= k < n ==> iabs(bodies@[k]@.px) <= DIM_MAX as int + (i * n + i + 1)
                * hs && iabs(bodies@[k]@.py) <= DIM_MAX as int + (i * n + i + 1) * hs,
            forall|k: int| 0 <= k < n ==> iabs(bodies@[k]@.vx) <= VEL_MAX as int && iabs(
                bodies@[k]@.vy) <= VEL_MAX as int,
            collide_from(models(bodies@), size as int, i as int, i as int + 1) == collide_from(
                orig, size as int, 0, 1),
        decreases n - i,
    {
        let mut j: usize = i + 1;
        while j < n
            invariant
                n == bodies@.len() == old(bodies)@.len(),
                n >= 2,
                0 <= i < n - 1,
                i + 1 <= j <= n,
                1 <= size <= DIM_MAX,
                hs == hsize(size as int),
                1 <= hs <= size as int,
                (n * n + n + 1) * (size as int) <= COLLIDE_ROOM as int,
                orig == models(old(bodies)@),
                forall|k: int| 0 <= k < n ==> iabs(bodies@[k]@.px) <= DIM_MAX as int + (i * n + j)
                    * hs && iabs(bodies@[k]@.py) <= DIM_MAX as int + (i * n + j) * hs,
                forall|k: int| 0 <= k < n ==> iabs(bodies@[k]@.vx) <= VEL_MAX as int && iabs(
                    bodies@[k]@.vy) <= VEL_MAX as int,
                collide_from(models(bodies@), size as int, i as int, j as int) == collide_from(
                    orig, size as int, 0, 1),
            decreases n - j,
        {
            proof {
                assert(((i * n + j) as int + 1) * hs <= COLLIDE_ROOM as int) by (nonlinear_arith)
                    requires
                        0 <= i as int,
                        (i as int) < (n as int),
                        i as int + 1 <= j as int,
                        (j as int) < (n as int),
                        1 <= hs <= size as int,
                        ((n * n) as int + n as int + 1) * (size as int) <= COLLIDE_ROOM as int;
                assert(((i * n + j) as int + 1) * hs == (i * n + j) as int * hs + hs)
                    by (nonlinear_arith);
            }
            let a = bodies[i];
            let b = bodies[j];
            let ghost prev = models(bodies@);
            let (na, nb) = resolve_pair(a, b, size);
            bodies.set(i, na);
            bodies.set(j, nb);
            proof {
                let p = step_pair(prev[i as int], prev[j as int], size as int);
                assert(models(bodies@) =~= prev.update(i as int, p.0).update(j as int, p.1));
                assert(collide_from(models(bodies@), size as int, i as int, j as int + 1)
                    == collide_from(prev, size as int, i as int, j as int));
                assert(((i * n + j) as int + 1) * hs == (i * n + j) as int * hs + hs)
                    by (nonlinear_arith);
            }
            j = j + 1;
        }
        proof {
            assert(collide_from(models(bodies@), size as int, i as int, n as int) == collide_from(
                models(bodies@), size as int, i as int + 1, i as int + 2));
            assert((i * n + n) as int * hs <= ((i + 1) * n + (i + 1) + 1) as int * hs)
                by (nonlinear_arith)
                requires hs >= 1, 0 <= i as int, 2 <= n as int;
        }
        i = i + 1;
    }
    proof {
        assert(collide_from(models(bodies@), size as int, i as int, i as int + 1) == models(
            bodies@));
        assert((i * n + i + 1) as int * hs <= COLLIDE_ROOM as int) by (nonlinear_arith)
            requires
                0 <= i as int,
                i as int <= n as int - 1,
                2 <= n as int,
                1 <= hs <= size as int,
                ((n * n) as int + n as int + 1) * (size as int) <= COLLIDE_ROOM as int;
    }
}

} // verus!
