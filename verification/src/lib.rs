//! A 2-D particle simulation: bodies with position and velocity move inside a
//! rectangular viewport, bounce off its walls, and exchange velocities when
//! they overlap.
//!
//! All coordinates, velocities, sizes and time deltas are fixed-point
//! integers: a value of [`SCALE`] units stands for one pixel (or one second,
//! for time deltas). Working on integers keeps every step of the simulation
//! exact and reproducible; fractional results round toward zero, except the
//! collision separation offset, which rounds away from zero so that a resolved
//! pair is guaranteed to end up separated.
//!
//! Each tick runs, in order: viewport refresh, integration
//! (`position += velocity * dt`), boundary reflection (velocity negation and
//! position clamp on wall contact), and pairwise collision resolution
//! (wholesale velocity swap and positional separation along the pair's axis),
//! over every unordered pair of bodies in a fixed index order.

use vstd::prelude::*;

pub mod num;
pub mod motion;
pub mod collide;
pub mod spawn;
pub mod sim;

verus! {

/// Number of fixed-point units per pixel (and per second, for time deltas).
pub const SCALE: i64 = 1024;

/// Largest viewport dimension the simulation accepts, in fixed-point units.
pub const DIM_MAX: i64 = 0x4000_0000;

/// Largest velocity component magnitude, in fixed-point units per second.
pub const VEL_MAX: i64 = 0x4000_0000;

/// Largest time delta for one tick, in fixed-point seconds.
pub const DT_MAX: i64 = 0x8000_0000;

/// Bound on position component magnitudes between ticks, in fixed-point
/// units. Boundary reflection clamps positions back inside the viewport, so
/// this margin only has to absorb one tick of movement and separation.
pub const POS_MAX: i64 = 0x10_0000_0000_0000;

/// Room the collision resolver may need: the total separation offsets of one
/// tick must fit under this, so that no intermediate position overflows.
pub const COLLIDE_ROOM: i64 = 0x4_0000_0000_0000;

/// A two-dimensional vector in fixed-point units.
#[derive(Clone, Copy, PartialEq, Eq, Structural, Debug)]
pub struct V2 {
    pub x: i64,
    pub y: i64,
}

/// One simulated particle: a position and a velocity. The shared diameter
/// `size` lives in [`SimConfig`], not per body.
#[derive(Clone, Copy, PartialEq, Eq, Structural, Debug)]
pub struct Body {
    pub pos: V2,
    pub vel: V2,
}

/// The mathematical model of a [`Body`]: its four coordinates as unbounded
/// integers. All step specifications are stated over this model.
pub struct BodyM {
    pub px: int,
    pub py: int,
    pub vx: int,
    pub vy: int,
}

impl View for Body {
    type V = BodyM;

    open spec fn view(&self) -> BodyM {
        BodyM { px: self.pos.x as int, py: self.pos.y as int, vx: self.vel.x as int, vy: self.vel.y as int }
    }
}

/// The visible simulation bounds, in fixed-point units.
#[derive(Clone, Copy, PartialEq, Eq, Structural, Debug)]
pub struct Viewport {
    pub width: i64,
    pub height: i64,
}

/// Startup configuration: body count, shared body diameter, and initial
/// speed magnitude, the latter two in fixed-point units.
#[derive(Clone, Copy, PartialEq, Eq, Structural, Debug)]
pub struct SimConfig {
    pub count: usize,
    pub size: i64,
    pub speed: i64,
}

/// The models of a sequence of bodies.
pub open spec fn models(bs: Seq<Body>) -> Seq<BodyM> {
    bs.map_values(|b: Body| b.view())
}

} // verus!
