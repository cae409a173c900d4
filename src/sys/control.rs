use vstd::prelude::*;

use crate::fixed::{add_sat, mul_fixed, prod, sum, Compass, Vec2};
use crate::world::{Control, Inertial, Parts, Spatial, World};

verus! {

/// Steering input: thrust level in `[0, 1]` and turn direction in
/// `{-1, 0, 1}`, both fixed point.
#[derive(Clone, Copy, PartialEq, Eq, Structural, Debug)]
pub enum Event {
    EvThrust(i64),
    EvTurn(i64),
}

/// Thrust level after the events `evs`, starting from `cur`: the last one given.
pub open spec fn latest_thrust(evs: Seq<Event>, cur: int) -> int
    decreases evs.len(),
{
    if evs.len() == 0 {
        cur
    } else {
        match evs.last() {
            Event::EvThrust(v) => v as int,
            _ => latest_thrust(evs.drop_last(), cur),
        }
    }
}

/// Turn direction after the events `evs`, starting from `cur`: the last one given.
pub open spec fn latest_turn(evs: Seq<Event>, cur: int) -> int
    decreases evs.len(),
{
    if evs.len() == 0 {
        cur
    } else {
        match evs.last() {
            Event::EvTurn(v) => v as int,
            _ => latest_turn(evs.drop_last(), cur),
        }
    }
}

/// Motion of a steered entity after one tick of `dt` microseconds: the turn
/// rate is set, the thrust adds to the velocity along the facing direction.
pub open spec fn steered(
    s: Spatial,
    i: Inertial,
    c: Control,
    thrust: int,
    turn: int,
    dt: int,
    compass: &Compass,
) -> Inertial {
    let dir = compass.facing_spec(s.orient as int);
    let dv = prod(prod(c.thrust_speed as int, thrust), dt);
    Inertial {
        velocity: Vec2 {
            x: sum(i.velocity.x as int, prod(dir.x as int, dv)) as i64,
            y: sum(i.velocity.y as int, prod(dir.y as int, dv)) as i64,
        },
        angular_velocity: prod(c.turn_speed as int, turn) as i64,
    }
}

/// One control step from `old` to `new`: every steered entity gets its turn
/// rate set and its velocity pushed by the thrust; nothing else changes.
pub open spec fn control_step(old: &World, new: &World, thrust: int, turn: int, dt: int, compass: &Compass) -> bool {
    &&& new.n() == old.n()
    &&& new.generation == old.generation
    &&& new.alive == old.alive
    &&& new.free == old.free
    &&& new.doomed == old.doomed
    &&& new.spatial == old.spatial
    &&& new.control == old.control
    &&& new.bullet == old.bullet
    &&& new.asteroid == old.asteroid
    &&& new.collision == old.collision
    &&& new.visual == old.visual
    &&& forall|e: int|
        0 <= e < old.n() ==> #[trigger] new.inertial@[e] == if old.spatial@[e].is_some()
            && old.inertial@[e].is_some() && old.control@[e].is_some() {
            Some(
                steered(
                    old.spatial@[e].unwrap(),
                    old.inertial@[e].unwrap(),
                    old.control@[e].unwrap(),
                    thrust,
                    turn,
                    dt,
                    compass,
                ),
            )
        } else {
            old.inertial@[e]
        }
}

/// The control system: the latest steering input, applied to the ship.
pub struct System {
    pub thrust: i64,
    pub turn: i64,
}

impl System {
    /// No thrust, no turn.
    pub fn new() -> (s: System)
        ensures
            s.thrust == 0,
            s.turn == 0,
    {
        System { thrust: 0, turn: 0 }
    }

    /// Takes in the events drained from the input queue, in order: the last
    /// value of each field wins.
    pub fn check_input(&mut self, events: &Vec<Event>)
        ensures
            final(self).thrust == latest_thrust(events@, old(self).thrust as int),
            final(self).turn == latest_turn(events@, old(self).turn as int),
    {
        let ghost t0 = self.thrust as int;
        let ghost r0 = self.turn as int;
        let mut k: usize = 0;
        while k < events.len()
            invariant
                k <= events@.len(),
                self.thrust == latest_thrust(events@.take(k as int), t0),
                self.turn == latest_turn(events@.take(k as int), r0),
            decreases events.len() - k,
        {
            proof {
                assert(events@.take(k + 1).drop_last() == events@.take(k as int));
                assert(events@.take(k + 1).last() == events@[k as int]);
            }
            match events[k] {
                Event::EvThrust(v) => self.thrust = v,
                Event::EvTurn(v) => self.turn = v,
            }
            k += 1;
        }
        proof {
            assert(events@.take(k as int) == events@);
        }
    }

    /// Steers every entity with `Control`, `Inertial` and `Spatial`: its turn
    /// rate becomes `turn * turn_speed`, and `thrust * thrust_speed * dt` is
    /// added to its velocity along the direction it faces. Nothing else changes.
    pub fn run(&self, w: &mut World, dt: u32, compass: &Compass)
        requires
            old(w).wf(),
            compass.wf(),
        ensures
            final(w).wf(),
            control_step(old(w), final(w), self.thrust as int, self.turn as int, dt as int, compass),
    {
        let ghost w0 = *w;
        let n = w.inertial.len();
        let mut e: usize = 0;
        while e < n
            invariant
                w0.wf(),
                compass.wf(),
                n == w0.n(),
                e <= n,
                w.inertial@.len() == n,
                w.generation == w0.generation,
                w.alive == w0.alive,
                w.free == w0.free,
                w.doomed == w0.doomed,
                w.spatial == w0.spatial,
                w.control == w0.control,
                w.bullet == w0.bullet,
                w.asteroid == w0.asteroid,
                w.collision == w0.collision,
                w.visual == w0.visual,
                forall|i: int|
                    0 <= i < n ==> #[trigger] w.inertial@[i] == if i < e && w0.spatial@[i].is_some()
                        && w0.inertial@[i].is_some() && w0.control@[i].is_some() {
                        Some(
                            steered(
                                w0.spatial@[i].unwrap(),
                                w0.inertial@[i].unwrap(),
                                w0.control@[i].unwrap(),
                                self.thrust as int,
                                self.turn as int,
                                dt as int,
                                compass,
                            ),
                        )
                    } else {
                        w0.inertial@[i]
                    },
            decreases n - e,
        {
            if let (Some(s), Some(i), Some(c)) = (w.spatial[e], w.inertial[e], w.control[e]) {
                let dir = s.get_direction(compass);
                let dv = mul_fixed(mul_fixed(c.thrust_speed, self.thrust), dt as i64);
                let velocity = Vec2 {
                    x: add_sat(i.velocity.x, mul_fixed(dir.x, dv)),
                    y: add_sat(i.velocity.y, mul_fixed(dir.y, dv)),
                };
                let angular_velocity = mul_fixed(c.turn_speed, self.turn);
                w.inertial.set(e, Some(Inertial { velocity, angular_velocity }));
            }
            e += 1;
        }
        proof {
            assert forall|i: int| 0 <= i < w.n() && !w.alive@[i] implies #[trigger] w.parts_at(i)
                == Parts::empty() by {
                assert(w0.parts_at(i) == Parts::empty());
            }
        }
    }
}

} // verus!
