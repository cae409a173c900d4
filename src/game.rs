use rand::rngs::StdRng;
use vstd::prelude::*;

use crate::fixed::{Compass, Vec2, ONE};
use crate::sys::{aster, bullet, control, draw, inertia, physics};
use crate::sys::draw::{draw_list, Transform};
use crate::world::{created, maintained, Collision, Control, Drawable, Entity, Inertial, Parts, Spatial, World};

verus! {

/// Half-extents of the screen, in micro-units.
pub const SCREEN_EXTENT: u32 = 10_000_000;

/// Priority of the draw-sync system: just above the renderer's own (10),
/// so it runs after inertia and before physics.
pub const DRAW_PRIORITY: i32 = 11;

/// The systems that a tick runs.
#[derive(Clone, Copy, PartialEq, Eq, Structural, Debug)]
pub enum SystemKind {
    Control,
    Bullet,
    Asteroid,
    Draw,
    Inertia,
    Physics,
}

/// Where a system of priority `p` goes in the run order `s`: after the last
/// entry of priority `p` or higher.
pub open spec fn slot_for(s: Seq<(i32, SystemKind)>, p: i32) -> int
    decreases s.len(),
{
    if s.len() == 0 {
        0
    } else if s.last().0 >= p {
        s.len() as int
    } else {
        slot_for(s.drop_last(), p)
    }
}

proof fn lemma_slot_for(s: Seq<(i32, SystemKind)>, p: i32, pos: int)
    requires
        0 <= pos <= s.len(),
        forall|a: int| 0 <= a < pos ==> #[trigger] s[a].0 >= p,
        forall|a: int| pos <= a < s.len() ==> #[trigger] s[a].0 < p,
    ensures
        slot_for(s, p) == pos,
    decreases s.len(),
{
    if s.len() > pos {
        lemma_slot_for(s.drop_last(), p, pos);
    }
}

/// Systems tagged with priorities, kept in the order they run: higher
/// priority first, and among equal priorities in the order they were added.
pub struct Scheduler {
    pub entries: Vec<(i32, SystemKind)>,
}

impl Scheduler {
    /// Entries in non-increasing order of priority.
    pub open spec fn ordered(&self) -> bool {
        forall|a: int, b: int| 0 <= a < b < self.entries@.len() ==> #[trigger] self.entries@[a].0 >= #[trigger] self.entries@[b].0
    }

    /// No system yet.
    pub fn new() -> (s: Scheduler)
        ensures
            s.entries@.len() == 0,
            s.ordered(),
    {
        Scheduler { entries: Vec::new() }
    }

    /// Adds a system: it runs after every system of higher or equal priority
    /// and before every system of lower priority.
    pub fn add_system(&mut self, kind: SystemKind, priority: i32)
        requires
            old(self).ordered(),
        ensures
            final(self).ordered(),
            final(self).entries@ == old(self).entries@.insert(
                slot_for(old(self).entries@, priority),
                (priority, kind),
            ),
    {
        let mut pos: usize = 0;
        while pos < self.entries.len() && self.entries[pos].0 >= priority
            invariant
                pos <= self.entries@.len(),
                forall|a: int| 0 <= a < pos ==> #[trigger] self.entries@[a].0 >= priority,
            decreases self.entries.len() - pos,
        {
            pos += 1;
        }
        let ghost e0 = self.entries@;
        proof {
            assert forall|a: int| pos <= a < e0.len() implies #[trigger] e0[a].0 < priority by {
                assert(e0[pos as int].0 < priority);
                if a > pos {
                    assert(e0[pos as int].0 >= e0[a].0);
                }
            }
        }
        proof {
            lemma_slot_for(e0, priority, pos as int);
        }
        self.entries.insert(pos, (priority, kind));
        proof {
            let e1 = self.entries@;
            assert forall|a: int, b: int| 0 <= a < b < e1.len() implies #[trigger] e1[a].0 >= #[trigger] e1[b].0 by {
                if b < pos {
                    assert(e1[a] == e0[a] && e1[b] == e0[b]);
                } else if b == pos {
                    assert(e1[a] == e0[a]);
                } else if a < pos {
                    assert(e1[a] == e0[a] && e1[b] == e0[b - 1]);
                } else if a == pos {
                    assert(e1[b] == e0[b - 1]);
                } else {
                    assert(e1[a] == e0[a - 1] && e1[b] == e0[b - 1]);
                }
            }
        }
    }
}

/// The components of the player's ship, at rest at the origin.
pub open spec fn ship_parts(vis: Drawable) -> Parts {
    Parts {
        spatial: Some(Spatial { pos: Vec2 { x: 0, y: 0 }, orient: 0, scale: ONE }),
        inertial: Some(Inertial { velocity: Vec2 { x: 0, y: 0 }, angular_velocity: 0 }),
        control: Some(Control { thrust_speed: 4_000_000, turn_speed: -90_000_000i64 }),
        bullet: None,
        asteroid: None,
        collision: Some(Collision { radius: 200_000, health: 3, damage: 2 }),
        visual: Some(vis),
    }
}

/// Creates the player's ship in `world`.
pub fn create_ship(drawable: Drawable, world: &mut World) -> (r: Option<Entity>)
    requires
        old(world).wf(),
    ensures
        final(world).wf(),
        created(old(world), final(world), ship_parts(drawable), r),
{
    world.create(
        Parts {
            spatial: Some(Spatial { pos: Vec2 { x: 0, y: 0 }, orient: 0, scale: ONE }),
            inertial: Some(Inertial { velocity: Vec2 { x: 0, y: 0 }, angular_velocity: 0 }),
            control: Some(Control { thrust_speed: 4_000_000, turn_speed: -90_000_000 }),
            bullet: None,
            asteroid: None,
            collision: Some(Collision { radius: 200_000, health: 3, damage: 2 }),
            visual: Some(drawable),
        },
    )
}

/// The visuals of the three kinds of entity.
#[derive(Clone, Copy, PartialEq, Eq, Structural, Debug)]
pub struct Init {
    pub vis_ship: Drawable,
    pub vis_bullet: Drawable,
    pub vis_aster: Drawable,
}

/// A running game: the world, its systems, and the player's ship.
pub struct Game {
    pub world: World,
    pub compass: Compass,
    pub scheduler: Scheduler,
    pub control: control::System,
    pub bullet: bullet::System,
    pub aster: aster::System,
    pub draw: draw::System,
    pub inertia: inertia::System,
    pub physics: physics::System,
    pub frame: Vec<(Drawable, Transform)>,
    pub player: Entity,
}

/// System `k` ran in game `g0`, leaving the world `mid` (its deletions still
/// queued) and the systems' states of `g1`.
pub open spec fn system_ran(k: SystemKind, g0: &Game, g1: &Game, mid: &World, dt: int) -> bool {
    match k {
        SystemKind::Control => {
            &&& control::control_step(
                &g0.world,
                mid,
                g0.control.thrust as int,
                g0.control.turn as int,
                dt,
                &g0.compass,
            )
            &&& g1.control == g0.control
            &&& g1.bullet == g0.bullet
            &&& g1.aster == g0.aster
            &&& g1.frame == g0.frame
        },
        SystemKind::Bullet => {
            &&& bullet::bullet_step(&g0.bullet, &g1.bullet, &g0.world, mid, dt, &g0.compass)
            &&& g1.control == g0.control
            &&& g1.aster == g0.aster
            &&& g1.frame == g0.frame
        },
        SystemKind::Asteroid => {
            &&& aster::aster_step(&g0.aster, &g1.aster, &g0.world, mid, dt, &g0.compass)
            &&& g1.control == g0.control
            &&& g1.bullet == g0.bullet
            &&& g1.frame == g0.frame
        },
        SystemKind::Draw => {
            &&& *mid == g0.world
            &&& g1.frame@ == draw_list(&g0.world, g0.world.n())
            &&& g1.control == g0.control
            &&& g1.bullet == g0.bullet
            &&& g1.aster == g0.aster
        },
        SystemKind::Inertia => {
            &&& inertia::inertia_step(&g0.world, mid, dt)
            &&& g1.control == g0.control
            &&& g1.bullet == g0.bullet
            &&& g1.aster == g0.aster
            &&& g1.frame == g0.frame
        },
        SystemKind::Physics => {
            &&& physics::physics_step(&g0.world, mid)
            &&& g1.control == g0.control
            &&& g1.bullet == g0.bullet
            &&& g1.aster == g0.aster
            &&& g1.frame == g0.frame
        },
    }
}

/// One step of a tick: system `k` runs on `g0`, then the deletions it queued
/// are applied, giving `g1`.
pub open spec fn step(k: SystemKind, g0: &Game, g1: &Game, dt: int) -> bool {
    &&& g1.compass == g0.compass
    &&& g1.scheduler == g0.scheduler
    &&& g1.player == g0.player
    &&& g1.draw == g0.draw
    &&& exists|mid: World| system_ran(k, g0, g1, &mid, dt) && maintained(&mid, &g1.world)
}

impl Game {
    /// Everything a tick needs holds.
    pub open spec fn wf(&self) -> bool {
        &&& self.world.wf()
        &&& self.compass.wf()
        &&& self.aster.wf()
        &&& self.scheduler.ordered()
    }

    /// The ship is live and has health left.
    pub open spec fn ship_alive(&self) -> bool {
        &&& self.world.live(self.player)
        &&& self.world.collision@[self.player.index as int].is_some()
        &&& self.world.collision@[self.player.index as int].unwrap().health > 0
    }

    /// Takes in the events drained from the two input queues: for each field
    /// the last value wins.
    pub fn check_input(&mut self, steer: &Vec<control::Event>, shoot: &Vec<bullet::Event>)
        requires
            old(self).wf(),
        ensures
            final(self).wf(),
            final(self).control.thrust == control::latest_thrust(steer@, old(self).control.thrust as int),
            final(self).control.turn == control::latest_turn(steer@, old(self).control.turn as int),
            final(self).bullet.shoot == bullet::latest_shoot(shoot@, old(self).bullet.shoot),
            final(self).world == old(self).world,
            final(self).player == old(self).player,
    {
        self.control.check_input(steer);
        self.bullet.check_input(shoot);
    }

    /// Advances the game by `dt` microseconds: runs each system in the
    /// scheduler's order, and applies the deletions it queued before the next
    /// one runs.
    pub fn dispatch(&mut self, dt: u32)
        requires
            old(self).wf(),
        ensures
            final(self).wf(),
            exists|t: Seq<Game>|
                {
                    &&& t.len() == old(self).scheduler.entries@.len() + 1
                    &&& t[0] == *old(self)
                    &&& t.last() == *final(self)
                    &&& forall|i: int|
                        0 <= i < old(self).scheduler.entries@.len() ==> step(
                            old(self).scheduler.entries@[i].1,
                            #[trigger] &t[i],
                            &t[i + 1],
                            dt as int,
                        )
                },
    {
        let n = self.scheduler.entries.len();
        let ghost g_start = *self;
        let ghost mut t: Seq<Game> = seq![*self];
        let mut k: usize = 0;
        while k < n
            invariant
                self.wf(),
                n == self.scheduler.entries@.len(),
                k <= n,
                self.scheduler == g_start.scheduler,
                t.len() == k + 1,
                t[0] == g_start,
                t.last() == *self,
                forall|i: int|
                    0 <= i < k ==> step(g_start.scheduler.entries@[i].1, #[trigger] &t[i], &t[i + 1], dt as int),
            decreases n - k,
        {
            let ghost g0 = *self;
            let kind = self.scheduler.entries[k].1;
            match kind {
                SystemKind::Control => self.control.run(&mut self.world, dt, &self.compass),
                SystemKind::Bullet => self.bullet.run(&mut self.world, dt, &self.compass),
                SystemKind::Asteroid => self.aster.run(&mut self.world, dt, &self.compass),
                SystemKind::Draw => {
                    self.frame = self.draw.run(&self.world);
                },
                SystemKind::Inertia => self.inertia.run(&mut self.world, dt),
                SystemKind::Physics => self.physics.run(&mut self.world),
            }
            let ghost mid = self.world;
            self.world.maintain();
            proof {
                assert(system_ran(kind, &g0, self, &mid, dt as int));
                assert(maintained(&mid, &self.world));
                assert(self.compass == g0.compass && self.scheduler == g0.scheduler && self.player == g0.player
                    && self.draw == g0.draw);
                assert(step(kind, &g0, self, dt as int));
                let t0 = t;
                t = t.push(*self);
                assert forall|i: int| 0 <= i < k + 1 implies step(
                    g_start.scheduler.entries@[i].1,
                    #[trigger] &t[i],
                    &t[i + 1],
                    dt as int,
                ) by {
                    if i < k {
                        assert(t[i] == t0[i] && t[i + 1] == t0[i + 1]);
                    } else {
                        assert(t[i] == g0);
                    }
                }
            }
            k += 1;
        }
    }

    /// Whether the game goes on: the ship is live and has health left.
    pub fn proceed(&self) -> (r: bool)
        requires
            self.wf(),
        ensures
            r == self.ship_alive(),
    {
        if !self.world.is_alive(self.player) {
            return false;
        }
        match self.world.collision[self.player.index] {
            Some(c) => c.health > 0,
            None => false,
        }
    }

    /// Starts a game: the ship at the origin, and the six systems at their
    /// priorities (control 30, bullet 25, asteroid 24, inertia 15,
    /// draw-sync 11, physics 5).
    pub fn start(init: Init, compass: Compass, rng: StdRng) -> (g: Game)
        requires
            compass.wf(),
        ensures
            g.wf(),
            g.ship_alive(),
            g.world.n() == 1,
            g.player.index == 0,
            g.world.doomed@.len() == 0,
            g.world.parts_at(g.player.index as int) == ship_parts(init.vis_ship),
            g.scheduler.entries@ == seq![
                (30i32, SystemKind::Control),
                (25i32, SystemKind::Bullet),
                (24i32, SystemKind::Asteroid),
                (15i32, SystemKind::Inertia),
                (DRAW_PRIORITY, SystemKind::Draw),
                (5i32, SystemKind::Physics),
            ],
            g.control.thrust == 0,
            g.control.turn == 0,
            g.bullet.ship_entity == g.player,
            g.bullet.drawable == init.vis_bullet,
            !g.bullet.shoot,
            g.bullet.cool_time == 1_000_000,
            g.aster.ext_x == SCREEN_EXTENT,
            g.aster.ext_y == SCREEN_EXTENT,
            g.aster.visual == init.vis_aster,
            g.aster.elapsed@ == 0,
            g.aster.spawned@ == 0,
            g.draw.ext_x == SCREEN_EXTENT,
            g.draw.ext_y == SCREEN_EXTENT,
            g.frame@.len() == 0,
    {
        let mut world = World::new();
        proof {
            assert(!world.clashes(ship_parts(init.vis_ship)));
        }
        let player = create_ship(init.vis_ship, &mut world).unwrap();
        let mut scheduler = Scheduler::new();
        scheduler.add_system(SystemKind::Control, 30);
        scheduler.add_system(SystemKind::Draw, DRAW_PRIORITY);
        scheduler.add_system(SystemKind::Inertia, 15);
        scheduler.add_system(SystemKind::Bullet, 25);
        scheduler.add_system(SystemKind::Asteroid, 24);
        scheduler.add_system(SystemKind::Physics, 5);
        reveal_with_fuel(slot_for, 7);
        assert(scheduler.entries@ =~= seq![
            (30i32, SystemKind::Control),
            (25i32, SystemKind::Bullet),
            (24i32, SystemKind::Asteroid),
            (15i32, SystemKind::Inertia),
            (DRAW_PRIORITY, SystemKind::Draw),
            (5i32, SystemKind::Physics),
        ]);
        Game {
            world,
            compass,
            scheduler,
            control: control::System::new(),
            bullet: bullet::System::new(player, init.vis_bullet),
            aster: aster::System::new(SCREEN_EXTENT, SCREEN_EXTENT, init.vis_aster, rng),
            draw: draw::System::new(SCREEN_EXTENT, SCREEN_EXTENT),
            inertia: inertia::System,
            physics: physics::System::new(),
            frame: Vec::new(),
            player,
        }
    }
}

} // verus!
