use vstd::prelude::*;

use crate::fixed::{prod, sum, unit, Compass, Vec2, FULL_TURN, ONE};
use crate::world::{
    created, queued, Bullet, Collision, Drawable, Entity, Inertial, Parts, Spatial, World,
};

verus! {

/// Pause between two shots, in microseconds. Holding the trigger fires once
/// per pause.
pub const COOL_TIME: u64 = 100_000;

/// Life of a new bullet, in microseconds.
pub const LIFE_TIME: u64 = 1_000_000;

/// Speed of a bullet relative to the ship, in micro-units per second.
pub const MUZZLE_SPEED: i64 = 5_000_000;

/// Distance ahead of the ship at which a bullet appears, in micro-units.
pub const MUZZLE_OFFSET: i64 = 500_000;

/// Shooting input: whether the trigger is held.
#[derive(Clone, Copy, PartialEq, Eq, Structural, Debug)]
pub enum Event {
    EvShoot(bool),
}

/// Trigger state after the events `evs`, starting from `cur`: the last one given.
pub open spec fn latest_shoot(evs: Seq<Event>, cur: bool) -> bool
    decreases evs.len(),
{
    if evs.len() == 0 {
        cur
    } else {
        match evs.last() {
            Event::EvShoot(v) => v,
        }
    }
}

/// A bullet after `dt` more microseconds: its life shrinks, and is cleared
/// once used up.
pub open spec fn aged(b: Bullet, dt: int) -> Bullet {
    match b.life_time {
        Some(t) => if t > dt {
            Bullet { life_time: Some((t - dt) as u64) }
        } else {
            Bullet { life_time: None }
        },
        None => b,
    }
}

/// The bullet's life runs out within the next `dt` microseconds.
pub open spec fn expires(b: Bullet, dt: int) -> bool {
    match b.life_time {
        Some(t) => t <= dt,
        None => false,
    }
}

/// A collider that has lost all its health.
pub open spec fn spent(c: Option<Collision>) -> bool {
    c.is_some() && c.unwrap().health == 0
}

/// The components of a bullet fired by a ship at `s` moving with `i`.
pub open spec fn bullet_parts(s: Spatial, i: Inertial, compass: &Compass, vis: Drawable) -> Parts {
    let dir = compass.facing_spec(s.orient as int);
    Parts {
        spatial: Some(
            Spatial {
                pos: Vec2 {
                    x: sum(s.pos.x as int, prod(dir.x as int, MUZZLE_OFFSET as int)) as i64,
                    y: sum(s.pos.y as int, prod(dir.y as int, MUZZLE_OFFSET as int)) as i64,
                },
                orient: 0,
                scale: 100_000,
            },
        ),
        inertial: Some(
            Inertial {
                velocity: Vec2 {
                    x: sum(i.velocity.x as int, prod(dir.x as int, MUZZLE_SPEED as int)) as i64,
                    y: sum(i.velocity.y as int, prod(dir.y as int, MUZZLE_SPEED as int)) as i64,
                },
                angular_velocity: 0,
            },
        ),
        control: None,
        bullet: Some(Bullet { life_time: Some(LIFE_TIME) }),
        asteroid: None,
        collision: Some(Collision { radius: 10_000, health: 1, damage: 1 }),
        visual: Some(vis),
    }
}

proof fn lemma_half_square(x: int)
    requires
        -ONE <= x <= ONE,
    ensures
        4 * prod(x, MUZZLE_OFFSET as int) * prod(x, MUZZLE_OFFSET as int) >= x * x - 4 * ONE,
{
    vstd::arithmetic::div_mod::lemma_fundamental_div_mod(x * MUZZLE_OFFSET, ONE as int);
    let q = (x * MUZZLE_OFFSET) / (ONE as int);
    let m = (x * MUZZLE_OFFSET) % (ONE as int);
    assert(2 * q <= x < 2 * q + 2) by (nonlinear_arith)
        requires
            x * 500_000 == 1_000_000 * q + m,
            0 <= m < 1_000_000,
    ;
    assert(-1_000_000 <= q <= 1_000_000) by (nonlinear_arith)
        requires
            2 * q <= x < 2 * q + 2,
            -1_000_000 <= x <= 1_000_000,
    ;
    assert(prod(x, MUZZLE_OFFSET as int) == q);
    let d = 2 * q - x;
    assert(4 * q * q >= x * x - 4 * ONE) by (nonlinear_arith)
        requires
            -2 < d <= 0,
            d == 2 * q - x,
            -1_000_000 <= x <= 1_000_000,
    ;
}

/// A bullet appears clear of the ship that fires it: for every direction of
/// a well-formed table, the muzzle offset is longer than the ship's radius
/// plus the bullet's.
pub proof fn lemma_muzzle_clear(compass: &Compass, orient: int)
    requires
        compass.wf(),
    ensures
        ({
            let d = compass.facing_spec(orient);
            let ox = prod(d.x as int, MUZZLE_OFFSET as int);
            let oy = prod(d.y as int, MUZZLE_OFFSET as int);
            ox * ox + oy * oy > (200_000 + 10_000) * (200_000 + 10_000)
        }),
{
    let n = compass.dirs@.len();
    let t = FULL_TURN as int;
    let r = orient % t;
    assert(0 <= r * n / t < n) by (nonlinear_arith)
        requires
            0 <= r < t,
            t > 0,
            n > 0,
    ;
    let d = compass.facing_spec(orient);
    assert(unit(d));
    lemma_half_square(d.x as int);
    lemma_half_square(d.y as int);
    let x = d.x as int;
    let y = d.y as int;
    let ox = prod(x, MUZZLE_OFFSET as int);
    let oy = prod(y, MUZZLE_OFFSET as int);
    assert(ox * ox + oy * oy > 210_000 * 210_000) by (nonlinear_arith)
        requires
            4 * ox * ox >= x * x - 4_000_000,
            4 * oy * oy >= y * y - 4_000_000,
            x * x + y * y >= 1_000_000 * 1_000_000 - 2_000_000,
    ;
}

/// A bullet after the ticks `dts`, in order.
pub open spec fn aged_over(b: Bullet, dts: Seq<u32>) -> Bullet
    decreases dts.len(),
{
    if dts.len() == 0 {
        b
    } else {
        aged(aged_over(b, dts.drop_last()), dts.last() as int)
    }
}

/// Sum of the ticks `dts`.
pub open spec fn elapsed(dts: Seq<u32>) -> int
    decreases dts.len(),
{
    if dts.len() == 0 {
        0
    } else {
        elapsed(dts.drop_last()) + dts.last()
    }
}

/// A bullet that nothing hits lives on while the time elapsed since it was
/// fired stays below its life, with exactly the difference left, and expires
/// at the first tick that brings the elapsed time to its life or beyond.
pub proof fn lemma_bullet_expiry(life: u64, dts: Seq<u32>)
    requires
        life > 0,
    ensures
        elapsed(dts) >= 0,
        aged_over(Bullet { life_time: Some(life) }, dts).life_time == if elapsed(dts) < life {
            Some((life - elapsed(dts)) as u64)
        } else {
            None::<u64>
        },
        dts.len() > 0 ==> (expires(aged_over(Bullet { life_time: Some(life) }, dts.drop_last()), dts.last() as int)
            <==> (elapsed(dts.drop_last()) < life <= elapsed(dts))),
    decreases dts.len(),
{
    if dts.len() > 0 {
        let pre = dts.drop_last();
        lemma_bullet_expiry(life, pre);
        let b = aged_over(Bullet { life_time: Some(life) }, pre);
        assert(aged_over(Bullet { life_time: Some(life) }, dts) == aged(b, dts.last() as int));
        assert(elapsed(dts) == elapsed(pre) + dts.last());
    }
}

/// Bullet `e` is queued this tick: its life runs out, or a hit left it
/// without health.
pub open spec fn retiring(w: &World, e: int, dt: int) -> bool {
    &&& 0 <= e < w.n()
    &&& w.alive@[e]
    &&& w.bullet@[e].is_some()
    &&& (expires(w.bullet@[e].unwrap(), dt) || spent(w.collision@[e]))
}

/// Pause left after `dt` microseconds, never below zero.
pub open spec fn cooled(t: int, dt: int) -> int {
    if t > dt { t - dt } else { 0 }
}

/// The gun fires this tick.
pub open spec fn fired(s: &System) -> bool {
    s.shoot && s.cool_time == 0
}

spec fn fresh_and_live(w: &World, w0: &World, b: Entity) -> bool {
    &&& w.live(b)
    &&& !(0 <= b.index < w0.n() && w0.alive@[b.index as int])
}

/// The bullet system: fires from the ship while the trigger is held and the
/// gun has cooled, and retires bullets that expire or were hit.
pub struct System {
    pub shoot: bool,
    pub ship_entity: Entity,
    pub drawable: Drawable,
    pub cool_time: u64,
}

/// One bullet step from `s0` and `w0` to `s1` and `w1`: bullets age, those
/// that expire or were hit are queued, and the gun fires when it may.
pub open spec fn bullet_step(s0: &System, s1: &System, w0: &World, w1: &World, dt: int, compass: &Compass) -> bool {
    &&& s1.shoot == s0.shoot
    &&& s1.ship_entity == s0.ship_entity
    &&& s1.drawable == s0.drawable
    &&& s1.cool_time == cooled(
        s0.cool_time as int + if fired(s0) {
            COOL_TIME as int
        } else {
            0
        },
        dt,
    )
    &&& forall|e: int|
        0 <= e < w0.n() && w0.alive@[e] ==> {
            &&& w1.alive@[e]
            &&& w1.generation@[e] == w0.generation@[e]
            &&& #[trigger] w1.parts_at(e) == Parts {
                bullet: match w0.bullet@[e] {
                    Some(b) => Some(aged(b, dt)),
                    None => None,
                },
                ..w0.parts_at(e)
            }
        }
    &&& forall|e: int|
        #[trigger] queued(w1.doomed@, e) <==> (queued(w0.doomed@, e) || retiring(
            w0,
            e,
            dt,
        ))
    &&& w1.n() <= w0.n() + 1
    &&& forall|e: int|
        0 <= e < w1.n() && #[trigger] w1.alive@[e] && !(e < w0.n() && w0.alive@[e]) ==> {
            &&& fired(s0)
            &&& s0.ship_ready(w0)
            &&& w1.parts_at(e) == s0.shot(w0, compass)
            &&& forall|e2: int|
                0 <= e2 < w1.n() && #[trigger] w1.alive@[e2] && !(e2 < w0.n() && w0.alive@[e2]) ==> e2 == e
        }
    &&& fired(s0) && s0.ship_ready(w0) && !w0.clashes(s0.shot(w0, compass)) && (w0.free@.len() > 0
        || w0.n() < usize::MAX) ==> exists|b: Entity|
        w1.live(b) && !(0 <= b.index < w0.n() && w0.alive@[b.index as int])
            && #[trigger] w1.parts_at(b.index as int) == s0.shot(w0, compass)
}

impl System {
    /// A gun on `ship`, drawing its bullets with `drawable`; it is ready after
    /// one second.
    pub fn new(ship: Entity, drawable: Drawable) -> (s: System)
        ensures
            s.shoot == false,
            s.ship_entity == ship,
            s.drawable == drawable,
            s.cool_time == 1_000_000,
    {
        System { shoot: false, ship_entity: ship, drawable, cool_time: 1_000_000 }
    }

    /// Takes in the events drained from the input queue: the last one wins.
    pub fn check_input(&mut self, events: &Vec<Event>)
        ensures
            final(self).shoot == latest_shoot(events@, old(self).shoot),
            final(self).ship_entity == old(self).ship_entity,
            final(self).drawable == old(self).drawable,
            final(self).cool_time == old(self).cool_time,
    {
        if events.len() > 0 {
            let k = events.len() - 1;
            match events[k] {
                Event::EvShoot(v) => self.shoot = v,
            }
        }
    }

    /// Ages every bullet by `dt` and queues for deletion those whose life runs
    /// out and those that a hit left without health.
    fn age_bullets(w: &mut World, dt: u32)
        requires
            old(w).wf(),
        ensures
            final(w).wf(),
            final(w).n() == old(w).n(),
            final(w).generation == old(w).generation,
            final(w).alive == old(w).alive,
            final(w).free == old(w).free,
            final(w).spatial == old(w).spatial,
            final(w).inertial == old(w).inertial,
            final(w).control == old(w).control,
            final(w).asteroid == old(w).asteroid,
            final(w).collision == old(w).collision,
            final(w).visual == old(w).visual,
            forall|e: int|
                0 <= e < old(w).n() ==> #[trigger] final(w).bullet@[e] == match old(w).bullet@[e] {
                    Some(b) => Some(aged(b, dt as int)),
                    None => None,
                },
            forall|e: int|
                #[trigger] queued(final(w).doomed@, e) <==> (queued(old(w).doomed@, e) || retiring(
                    old(w),
                    e,
                    dt as int,
                )),
    {
        let ghost w0 = *w;
        let n = w.bullet.len();
        let mut e: usize = 0;
        while e < n
            invariant
                w0.wf(),
                w.wf(),
                n == w0.n(),
                e <= n,
                w.n() == w0.n(),
                w.generation == w0.generation,
                w.alive == w0.alive,
                w.free == w0.free,
                w.spatial == w0.spatial,
                w.inertial == w0.inertial,
                w.control == w0.control,
                w.asteroid == w0.asteroid,
                w.collision == w0.collision,
                w.visual == w0.visual,
                forall|i: int|
                    0 <= i < n ==> #[trigger] w.bullet@[i] == if i < e {
                        match w0.bullet@[i] {
                            Some(b) => Some(aged(b, dt as int)),
                            None => None,
                        }
                    } else {
                        w0.bullet@[i]
                    },
                forall|i: int|
                    #[trigger] queued(w.doomed@, i) <==> (queued(w0.doomed@, i) || (i < e && retiring(
                        &w0,
                        i,
                        dt as int,
                    ))),
            decreases n - e,
        {
            let ghost w1 = *w;
            if let Some(b) = w.bullet[e] {
                let nb = match b.life_time {
                    Some(t) => if t > dt as u64 {
                        Bullet { life_time: Some(t - dt as u64) }
                    } else {
                        Bullet { life_time: None }
                    },
                    None => b,
                };
                let hit = match w.collision[e] {
                    Some(c) => c.health == 0,
                    None => false,
                };
                let gone = match b.life_time {
                    Some(t) => t <= dt as u64,
                    None => false,
                };
                w.bullet.set(e, Some(nb));
                if gone || hit {
                    w.doomed.push(e);
                }
                proof {
                    if !w0.alive@[e as int] {
                        assert(w0.parts_at(e as int) == Parts::empty());
                    }
                    assert forall|i: int| #[trigger] queued(w.doomed@, i) <==> (queued(w0.doomed@, i) || (i < e + 1
                        && retiring(&w0, i, dt as int))) by {
                        if gone || hit {
                            crate::world::lemma_queued_push(w1.doomed@, e, i);
                        }
                    }
                    assert forall|k: int| 0 <= k < w.doomed@.len() implies 0 <= #[trigger] w.doomed@[k] < w.n() by {
                        if k < w1.doomed@.len() {
                            assert(w.doomed@[k] == w1.doomed@[k]);
                        }
                    }
                }
            } else {
                proof {
                    assert(!retiring(&w0, e as int, dt as int));
                }
            }
            proof {
                assert forall|i: int| 0 <= i < w.n() && !w.alive@[i] implies #[trigger] w.parts_at(i)
                    == Parts::empty() by {
                    assert(w1.parts_at(i) == Parts::empty());
                }
            }
            e += 1;
        }
    }

    /// One tick: ages the bullets and queues those that expire or were hit,
    /// then, if the trigger is held and the gun has cooled, restarts the pause
    /// and fires one bullet, provided the ship is still live with a position and
    /// a velocity; finally lets `dt` of the pause run out.
    pub fn run(&mut self, w: &mut World, dt: u32, compass: &Compass)
        requires
            old(w).wf(),
            compass.wf(),
        ensures
            final(w).wf(),
            bullet_step(old(self), final(self), old(w), final(w), dt as int, compass),
    {
        let ghost w0 = *w;
        let ghost s_start = *self;
        System::age_bullets(w, dt);
        let ghost w1 = *w;
        proof {
            let s = self.ship_entity;
            if w0.live(s) && w0.spatial@[s.index as int].is_some() && w0.inertial@[s.index as int].is_some() {
                let parts = bullet_parts(
                    w0.spatial@[s.index as int].unwrap(),
                    w0.inertial@[s.index as int].unwrap(),
                    compass,
                    self.drawable,
                );
                assert(w1.clashes(parts) == w0.clashes(parts)) by {
                    if w1.clashes(parts) {
                        let j = choose|j: int| w1.clashes_at(parts, j);
                        assert(w0.clashes_at(parts, j));
                    }
                    if w0.clashes(parts) {
                        let j = choose|j: int| w0.clashes_at(parts, j);
                        assert(w1.clashes_at(parts, j));
                    }
                }
            }
        }
        let ghost mut rr: Option<Entity> = None;
        let ghost mut called = false;
        if self.shoot && self.cool_time == 0 {
            if self.ship_is_ready(w) {
                let r = self.spawn(w, compass);
                proof {
                    rr = r;
                    called = true;
                    assert(self.shot(&w1, compass) == self.shot(&w0, compass));
                    if r.is_some() {
                        let b = r.unwrap();
                        assert(fresh_and_live(w, &w0, b));
                    }
                }
            }
            self.cool_time = COOL_TIME;
        }
        self.cool_time = self.cool_time.saturating_sub(dt as u64);
        proof {
            assert(!called ==> *w == w1);
            assert(called ==> fired(&s_start) && s_start.ship_ready(&w0));
            assert(called && rr.is_none() ==> *w == w1);
            assert forall|e: int|
                0 <= e < w.n() && #[trigger] w.alive@[e] && !(e < w0.n() && w0.alive@[e]) implies e
                == rr.unwrap().index && rr.is_some() && called by {
                if rr.is_some() && e != rr.unwrap().index {
                    assert(e < w1.n());
                    assert(w.same_slot(&w1, e));
                }
            }
            assert forall|e: int|
                0 <= e < w.n() && #[trigger] w.alive@[e] && !(e < w0.n() && w0.alive@[e]) implies {
                &&& fired(&s_start)
                &&& s_start.ship_ready(&w0)
                &&& w.parts_at(e) == s_start.shot(&w0, compass)
                &&& forall|e2: int|
                    0 <= e2 < w.n() && #[trigger] w.alive@[e2] && !(e2 < w0.n() && w0.alive@[e2]) ==> e2 == e
            } by {
                assert(e == rr.unwrap().index);
                assert(s_start.shot(&w0, compass) == self.shot(&w1, compass));
            }
            assert forall|e: int| 0 <= e < w0.n() && w0.alive@[e] implies {
                &&& w.alive@[e]
                &&& w.generation@[e] == w0.generation@[e]
                &&& #[trigger] w.parts_at(e) == Parts {
                    bullet: match w0.bullet@[e] {
                        Some(b) => Some(aged(b, dt as int)),
                        None => None,
                    },
                    ..w0.parts_at(e)
                }
            } by {
                assert(w1.alive@[e]);
                if rr.is_some() {
                    assert(e != rr.unwrap().index);
                    assert(w.same_slot(&w1, e));
                }
                assert(w1.parts_at(e) == Parts {
                    bullet: match w0.bullet@[e] {
                        Some(b) => Some(aged(b, dt as int)),
                        None => None,
                    },
                    ..w0.parts_at(e)
                });
            }
        }
    }

    /// The ship is live and has a position and a velocity.
    pub open spec fn ship_ready(&self, w: &World) -> bool {
        &&& w.live(self.ship_entity)
        &&& w.spatial@[self.ship_entity.index as int].is_some()
        &&& w.inertial@[self.ship_entity.index as int].is_some()
    }

    /// The components of the bullet that the ship fires in world `w`.
    pub open spec fn shot(&self, w: &World, compass: &Compass) -> Parts {
        bullet_parts(
            w.spatial@[self.ship_entity.index as int].unwrap(),
            w.inertial@[self.ship_entity.index as int].unwrap(),
            compass,
            self.drawable,
        )
    }

    /// Whether the ship is live and has a position and a velocity.
    pub fn ship_is_ready(&self, w: &World) -> (r: bool)
        requires
            w.wf(),
        ensures
            r == self.ship_ready(w),
    {
        let e = self.ship_entity;
        w.is_alive(e) && w.spatial[e.index].is_some() && w.inertial[e.index].is_some()
    }

    /// Fires one bullet from the ship; refused only where the world refuses
    /// the entity.
    pub fn spawn(&self, w: &mut World, compass: &Compass) -> (r: Option<Entity>)
        requires
            old(w).wf(),
            compass.wf(),
            self.ship_ready(old(w)),
        ensures
            final(w).wf(),
            created(old(w), final(w), self.shot(old(w), compass), r),
    {
        let e = self.ship_entity;
        let s0 = w.spatial[e.index].unwrap();
        let i0 = w.inertial[e.index].unwrap();
        let dir = s0.get_direction(compass);
        let parts = Parts {
            spatial: Some(
                Spatial { pos: s0.pos.plus(dir.times(MUZZLE_OFFSET)), orient: 0, scale: 100_000 },
            ),
            inertial: Some(
                Inertial { velocity: i0.velocity.plus(dir.times(MUZZLE_SPEED)), angular_velocity: 0 },
            ),
            control: None,
            bullet: Some(Bullet { life_time: Some(LIFE_TIME) }),
            asteroid: None,
            collision: Some(Collision { radius: 10_000, health: 1, damage: 1 }),
            visual: Some(self.drawable),
        };
        w.create(parts)
    }
}

} // verus!
