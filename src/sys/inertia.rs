use vstd::prelude::*;

use crate::fixed::{add_sat, mul_fixed, prod, sum, Vec2, ONE};
use crate::world::{Parts, Spatial, World};

verus! {

/// Coordinate `p` moved for `dt` microseconds at speed `v`.
pub open spec fn advance(p: int, v: int, dt: int) -> int {
    sum(p, prod(v, dt))
}

/// Where an entity with `s` and velocity `i` stands after `dt` microseconds.
pub open spec fn moved(s: Spatial, i: crate::world::Inertial, dt: int) -> Spatial {
    Spatial {
        pos: Vec2 {
            x: advance(s.pos.x as int, i.velocity.x as int, dt) as i64,
            y: advance(s.pos.y as int, i.velocity.y as int, dt) as i64,
        },
        orient: advance(s.orient as int, i.angular_velocity as int, dt) as i64,
        scale: s.scale,
    }
}

/// Coordinate `p` after `n` ticks of `dt` at constant speed `v`.
pub open spec fn drift(p: int, v: int, dt: int, n: nat) -> int
    decreases n,
{
    if n == 0 {
        p
    } else {
        advance(drift(p, v, dt, (n - 1) as nat), v, dt)
    }
}

/// Integrating a constant speed over `n` equal ticks moves a coordinate by
/// `n` times the rounded step, which is within `n` fixed-point steps of the
/// exact `v * n * dt`, as long as the step and the path stay inside the range
/// of `i64`.
pub proof fn lemma_drift(p: int, v: int, dt: int, n: nat)
    requires
        i64::MIN <= p <= i64::MAX,
        i64::MIN <= (v * dt) / (ONE as int) <= i64::MAX,
        i64::MIN <= p + n * prod(v, dt) <= i64::MAX,
    ensures
        drift(p, v, dt, n) == p + n * prod(v, dt),
        n * (v * dt) - n * ONE <= ONE * (drift(p, v, dt, n) - p) <= n * (v * dt),
    decreases n,
{
    let s = prod(v, dt);
    assert(s == (v * dt) / (ONE as int));
    vstd::arithmetic::div_mod::lemma_fundamental_div_mod(v * dt, ONE as int);
    let rem = (v * dt) % (ONE as int);
    assert(v * dt == ONE * s + rem);
    if n > 0 {
        let m = (n - 1) as nat;
        assert(i64::MIN <= p + m * s <= i64::MAX) by (nonlinear_arith)
            requires
                i64::MIN <= p <= i64::MAX,
                i64::MIN <= p + n * s <= i64::MAX,
                m == n - 1,
                n > 0,
        ;
        lemma_drift(p, v, dt, m);
        assert(p + m * s + s == p + n * s) by (nonlinear_arith)
            requires
                m == n - 1,
        ;
        assert(drift(p, v, dt, n) == advance(drift(p, v, dt, m), v, dt));
        assert(drift(p, v, dt, n) == p + n * s);
        assert(n * (v * dt) - n * ONE < ONE * (n * s) <= n * (v * dt)) by (nonlinear_arith)
            requires
                v * dt == ONE * s + rem,
                0 <= rem < ONE,
                n > 0,
        ;
    } else {
        assert(n * s == 0 && n * (v * dt) == 0 && n * ONE == 0) by (nonlinear_arith)
            requires
                n == 0,
        ;
    }
}

/// One inertia step from `old` to `new` over `dt` microseconds: entities
/// with a position and a velocity move, saturating; nothing else changes.
pub open spec fn inertia_step(old: &World, new: &World, dt: int) -> bool {
    &&& new.n() == old.n()
    &&& new.generation == old.generation
    &&& new.alive == old.alive
    &&& new.free == old.free
    &&& new.doomed == old.doomed
    &&& new.inertial == old.inertial
    &&& new.control == old.control
    &&& new.bullet == old.bullet
    &&& new.asteroid == old.asteroid
    &&& new.collision == old.collision
    &&& new.visual == old.visual
    &&& forall|e: int|
                0 <= e < old.n() ==> #[trigger] new.spatial@[e] == if old.spatial@[e].is_some()
                    && old.inertial@[e].is_some() {
                    Some(moved(old.spatial@[e].unwrap(), old.inertial@[e].unwrap(), dt))
                } else {
                    old.spatial@[e]
                }
}

/// The inertia system: moves every entity that has a position and a velocity.
pub struct System;

impl System {
    /// Moves each entity with `Spatial` and `Inertial` by its velocity and
    /// angular velocity over `dt` microseconds, saturating; nothing else changes.
    pub fn run(&self, w: &mut World, dt: u32)
        requires
            old(w).wf(),
        ensures
            final(w).wf(),
            inertia_step(old(w), final(w), dt as int),
    {
        let ghost w0 = *w;
        let n = w.spatial.len();
        let mut e: usize = 0;
        while e < n
            invariant
                w0.wf(),
                n == w0.n(),
                e <= n,
                w.spatial@.len() == n,
                w.generation == w0.generation,
                w.alive == w0.alive,
                w.free == w0.free,
                w.doomed == w0.doomed,
                w.inertial == w0.inertial,
                w.control == w0.control,
                w.bullet == w0.bullet,
                w.asteroid == w0.asteroid,
                w.collision == w0.collision,
                w.visual == w0.visual,
                forall|i: int|
                    0 <= i < n ==> #[trigger] w.spatial@[i] == if i < e && w0.spatial@[i].is_some()
                        && w0.inertial@[i].is_some() {
                        Some(moved(w0.spatial@[i].unwrap(), w0.inertial@[i].unwrap(), dt as int))
                    } else {
                        w0.spatial@[i]
                    },
            decreases n - e,
        {
            if let Some(s) = w.spatial[e] {
                if let Some(i) = w.inertial[e] {
                    let t = dt as i64;
                    let pos = Vec2 {
                        x: add_sat(s.pos.x, mul_fixed(i.velocity.x, t)),
                        y: add_sat(s.pos.y, mul_fixed(i.velocity.y, t)),
                    };
                    let orient = add_sat(s.orient, mul_fixed(i.angular_velocity, t));
                    w.spatial.set(e, Some(Spatial { pos, orient, scale: s.scale }));
                }
            }
            e += 1;
        }
        proof {
            assert forall|i: int| 0 <= i < w.n() && !w.alive@[i] implies #[trigger] w.parts_at(i)
                == Parts::empty() by {
                assert(w0.parts_at(i) == Parts::empty());
            }
        }
    }
}

} // verus!
