//! The simulation itself: owned state (bodies, viewport, configuration) and
//! the per-tick pipeline, run strictly in sequence each frame: viewport
//! refresh, integration, boundary reflection, collision resolution.

use vstd::prelude::*;
use crate::num::{iabs, lemma_div_nonneg_bounds};
use crate::motion::{step_integrate, step_reflect, integrate, reflect};
use crate::collide::{spec_collide, resolve_collisions};
use crate::spawn::spawn_bodies;
use crate::{
    Body, BodyM, Viewport, SimConfig, models, DIM_MAX, VEL_MAX, DT_MAX, POS_MAX, COLLIDE_ROOM,
};

verus! {

/// The external inputs of one tick: the elapsed time and, if the host surface
/// reported fresh dimensions, the new viewport size.
pub struct TickInput {
    pub dt: int,
    pub resize: Option<(int, int)>,
}

/// The viewport after the tracker ran: overwritten by a fresh measurement,
/// retained unchanged when none was available.
pub open spec fn spec_view_after(vp: (int, int), resize: Option<(int, int)>) -> (int, int) {
    match resize {
        Some(d) => d,
        None => vp,
    }
}

/// The body models after one full tick in viewport `(w, h)`: integration,
/// then reflection, then the collision pass.
pub open spec fn spec_tick(bs: Seq<BodyM>, dt: int, w: int, h: int, size: int) -> Seq<BodyM> {
    spec_collide(bs.map_values(|b: BodyM| step_reflect(step_integrate(b, dt), w, h, size)), size)
}

/// The body models and viewport after a whole run: one tick per input, in
/// order, each tick first applying its input's viewport measurement.
pub open spec fn spec_run(
    bs: Seq<BodyM>,
    vp: (int, int),
    size: int,
    inputs: Seq<TickInput>,
) -> (Seq<BodyM>, (int, int))
    decreases inputs.len(),
{
    if inputs.len() == 0 {
        (bs, vp)
    } else {
        let v = spec_view_after(vp, inputs[0].resize);
        spec_run(spec_tick(bs, inputs[0].dt, v.0, v.1, size), v, size, inputs.drop_first())
    }
}

/// Determinism: a run is a function of the initial bodies, the initial
/// viewport, the configured size, and the per-tick input sequence alone —
/// two runs from equal starting points with equal inputs produce equal
/// trajectories. [`Sim::tick`] pins its result to [`spec_tick`], so this
/// extends to the executable simulation.
pub proof fn lemma_run_deterministic(
    bs1: Seq<BodyM>,
    vp1: (int, int),
    size1: int,
    inputs1: Seq<TickInput>,
    bs2: Seq<BodyM>,
    vp2: (int, int),
    size2: int,
    inputs2: Seq<TickInput>,
)
    requires
        bs1 == bs2,
        vp1 == vp2,
        size1 == size2,
        inputs1 == inputs2,
    ensures
        spec_run(bs1, vp1, size1, inputs1) == spec_run(bs2, vp2, size2, inputs2),
{
}

/// The whole simulation state: the body registry, the current viewport, and
/// the immutable startup configuration.
pub struct Sim {
    pub bodies: Vec<Body>,
    pub viewport: Viewport,
    pub config: SimConfig,
}

impl Sim {
    /// Well-formedness: the configuration is positive and fits the viewport,
    /// and every body's coordinates lie within the fixed-point working range.
    pub open spec fn wf(self) -> bool {
        &&& 1 <= self.config.size
        &&& self.config.size <= self.viewport.width <= DIM_MAX
        &&& self.config.size <= self.viewport.height <= DIM_MAX
        &&& 1 <= self.config.speed <= VEL_MAX
        &&& (self.bodies@.len() * self.bodies@.len() + self.bodies@.len() + 1) * (
        self.config.size as int) <= COLLIDE_ROOM as int
        &&& forall|k: int| 0 <= k < self.bodies@.len() ==> iabs(
            (#[trigger] self.bodies@[k])@.px) <= POS_MAX as int && iabs(self.bodies@[k]@.py)
            <= POS_MAX as int && iabs(self.bodies@[k]@.vx) <= VEL_MAX as int && iabs(
            self.bodies@[k]@.vy) <= VEL_MAX as int
    }

    /// A fresh simulation: `count` bodies spawned at random positions inside
    /// the viewport, moving at the configured speed in random directions.
    pub fn new(config: SimConfig, viewport: Viewport) -> (sim: Sim)
        requires
            1 <= config.size <= viewport.width <= DIM_MAX,
            config.size <= viewport.height <= DIM_MAX,
            2 <= viewport.width,
            2 <= viewport.height,
            1 <= config.speed <= VEL_MAX,
            (config.count * config.count + config.count + 1) * (config.size as int)
                <= COLLIDE_ROOM as int,
        ensures
            sim.wf(),
            sim.config == config,
            sim.viewport == viewport,
            sim.bodies@.len() == config.count as int,
            forall|k: int| 0 <= k < sim.bodies@.len() ==> -(viewport.width as int / 2) <= (
            #[trigger] sim.bodies@[k])@.px < viewport.width as int / 2 && -(viewport.height
                as int / 2) <= sim.bodies@[k]@.py < viewport.height as int / 2,
            forall|k: int| 0 <= k < sim.bodies@.len() ==> iabs((#[trigger] sim.bodies@[k])@.vx)
                <= config.speed as int && iabs(sim.bodies@[k]@.vy) <= config.speed as int,
    {
        let bodies = spawn_bodies(config.count, &viewport, config.speed);
        proof {
            lemma_div_nonneg_bounds(viewport.width as int, 2);
            lemma_div_nonneg_bounds(viewport.height as int, 2);
        }
        Sim { bodies, viewport, config }
    }

    /// The viewport tracker: a fresh measurement overwrites the stored
    /// dimensions; without one the previous values are retained unchanged.
    pub fn update_viewport(&mut self, measured: Option<(i64, i64)>)
        ensures
            final(self).viewport == (match measured {
                Some(d) => Viewport { width: d.0, height: d.1 },
                None => old(self).viewport,
            }),
            final(self).bodies == old(self).bodies,
            final(self).config == old(self).config,
    {
        match measured {
            Some(d) => {
                self.viewport = Viewport { width: d.0, height: d.1 };
            },
            None => {},
        }
    }

    /// One tick: refresh the viewport from the measurement, advance every
    /// body by `dt`, reflect at the walls, then resolve every pair collision
    /// in fixed order. The resulting bodies are exactly [`spec_tick`] of the
    /// old ones; a fresh measurement must still fit the configured body size.
    pub fn tick(&mut self, dt: i64, measured: Option<(i64, i64)>)
        requires
            old(self).wf(),
            0 <= dt <= DT_MAX,
            match measured {
                Some(d) => old(self).config.size <= d.0 <= DIM_MAX && old(self).config.size <= d.1
                    <= DIM_MAX,
                None => true,
            },
        ensures
            final(self).wf(),
            final(self).config == old(self).config,
            final(self).viewport == (match measured {
                Some(d) => Viewport { width: d.0, height: d.1 },
                None => old(self).viewport,
            }),
            models(final(self).bodies@) == spec_tick(
                models(old(self).bodies@),
                dt as int,
                final(self).viewport.width as int,
                final(self).viewport.height as int,
                old(self).config.size as int,
            ),
    {
        self.update_viewport(measured);
        let size = self.config.size;
        let w = self.viewport.width;
        let h = self.viewport.height;
        let ghost bs0 = models(self.bodies@);
        integrate(&mut self.bodies, dt);
        let vp = Viewport { width: w, height: h };
        reflect(&mut self.bodies, &vp, size);
        proof {
            lemma_div_nonneg_bounds(w as int, 2);
            lemma_div_nonneg_bounds(h as int, 2);
            lemma_div_nonneg_bounds(size as int, 2);
            assert(models(self.bodies@) =~= bs0.map_values(
                |b: BodyM| step_reflect(step_integrate(b, dt as int), w as int, h as int,
                size as int),
            ));
            assert(forall|k: int| 0 <= k < self.bodies@.len() ==> iabs(
                (#[trigger] self.bodies@[k])@.px) <= DIM_MAX as int && iabs(self.bodies@[k]@.py)
                <= DIM_MAX as int);
        }
        resolve_collisions(&mut self.bodies, size);
    }

    /// The read-only per-tick render list: every body's position, in index
    /// order, for an external presentation layer.
    pub fn positions(&self) -> (out: Vec<(i64, i64)>)
        ensures
            out@.len() == self.bodies@.len(),
            forall|k: int| 0 <= k < out@.len() ==> (#[trigger] out@[k]).0 == self.bodies@[k]@.px
                && out@[k].1 == self.bodies@[k]@.py,
    {
        let mut out: Vec<(i64, i64)> = Vec::new();
        let n = self.bodies.len();
        let mut k: usize = 0;
        while k < n
            invariant
                n == self.bodies@.len(),
                0 <= k <= n,
                out@.len() == k as int,
                forall|i: int| 0 <= i < k ==> (#[trigger] out@[i]).0 == self.bodies@[i]@.px
                    && out@[i].1 == self.bodies@[i]@.py,
            decreases n - k,
        {
            let b = &self.bodies[k];
            out.push((b.pos.x, b.pos.y));
            k = k + 1;
        }
        out
    }
}

} // verus!
