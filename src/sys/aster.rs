use rand::rngs::StdRng;
use vstd::prelude::*;

use crate::fixed::{mul_fixed, prod, unit, Compass, Vec2, ONE};
use crate::random::{gen_between, gen_index};
use crate::world::{created, queued, Asteroid, Collision, Drawable, Entity, Inertial, Parts, Spatial, World};

verus! {

/// Time between two asteroids, in microseconds.
pub const RATE: i64 = 1_000_000;

/// Time before the first asteroid, in microseconds.
pub const GRACE: i64 = 3_000_000;

/// Largest spin of a new asteroid, in microradians per second.
pub const MAX_SPIN: i64 = 2_000_000;

/// Fraction of the way to its target that an asteroid covers per second.
pub const HEADING: i64 = 100_000;

/// Speed, along one axis, of an asteroid whose target lies `d` away on it:
/// `HEADING` of `d` per second, rounded away from zero so that it never
/// vanishes while the target is elsewhere.
pub open spec fn heading(d: int) -> int {
    if d >= 0 {
        (d * HEADING + (ONE - 1)) / (ONE as int)
    } else {
        -((-d * HEADING + (ONE - 1)) / (ONE as int))
    }
}

/// Speed toward a target `d` away, as `heading` says.
pub fn head_for(d: i64) -> (v: i64)
    requires
        -0x100_0000_0000 < d < 0x100_0000_0000,
    ensures
        v == heading(d as int),
        d > 0 ==> v > 0,
        d < 0 ==> v < 0,
{
    let m: i64 = if d >= 0 { d } else { -d };
    proof {
        assert(0 <= m * HEADING <= 0x100_0000_0000 * 100_000) by (nonlinear_arith)
            requires
                0 <= m < 0x100_0000_0000,
        ;
        assert(m > 0 ==> (m * HEADING + (ONE - 1)) / (ONE as int) > 0) by (nonlinear_arith)
            requires
                m >= 0,
        ;
        assert((m * HEADING + (ONE - 1)) / (ONE as int) <= m) by (nonlinear_arith)
            requires
                m >= 0,
        ;
    }
    let q: i64 = (m * HEADING + (ONE - 1)) / ONE;
    if d >= 0 { q } else { -q }
}

/// A fixed-point product of a unit coordinate and a positive radius stays
/// within the radius.
proof fn lemma_scaled_within(c: int, r: int)
    requires
        -ONE <= c <= ONE,
        0 < r <= 0x2_0000_0000,
    ensures
        -r <= prod(c, r) <= r,
{
    vstd::arithmetic::div_mod::lemma_fundamental_div_mod(c * r, ONE as int);
    let q = (c * r) / (ONE as int);
    let m = (c * r) % (ONE as int);
    assert(-r <= q <= r) by (nonlinear_arith)
        requires
            c * r == ONE * q + m,
            0 <= m < ONE,
            -ONE <= c <= ONE,
            0 < r,
    ;
}

proof fn lemma_scaled_square(x: int, r: int)
    requires
        -ONE <= x <= ONE,
        0 < r <= 0x2_0000_0000,
    ensures
        ONE * ONE * prod(x, r) * prod(x, r) >= x * x * r * r - 2 * r * ONE * ONE,
        ONE * ONE * prod(x, r) * prod(x, r) <= x * x * r * r + 2 * r * ONE * ONE + ONE * ONE,
        -r <= prod(x, r) <= r,
{
    vstd::arithmetic::div_mod::lemma_fundamental_div_mod(x * r, ONE as int);
    let q = (x * r) / (ONE as int);
    let m = (x * r) % (ONE as int);
    assert(-r <= q <= r) by (nonlinear_arith)
        requires
            x * r == ONE * q + m,
            0 <= m < ONE,
            -ONE <= x <= ONE,
            0 < r,
    ;
    assert(q == prod(x, r));
    let e = ONE * q - x * r;
    assert(ONE * ONE * q * q >= x * x * r * r - 2 * r * ONE * ONE && ONE * ONE * q * q <= x * x * r * r + 2 * r
        * ONE * ONE + ONE * ONE) by (nonlinear_arith)
        requires
            e == ONE * q - x * r,
            -ONE < e <= 0,
            -ONE <= x <= ONE,
            0 < r,
    ;
}

/// Every spawn point lies on the spawn circle, up to rounding: its squared
/// distance from the origin is the squared radius `R * R` within
/// `2 * R * R / ONE + 4 * R + 2`.
pub proof fn lemma_spawn_on_circle(s: &System, compass: &Compass, idx: int)
    requires
        s.shaped(),
        compass.wf(),
        0 <= idx < compass.dirs@.len(),
    ensures
        ({
            let o = s.origin_at(compass, idx);
            let r = s.spawn_radius as int;
            &&& ONE * (o.x * o.x + o.y * o.y) >= ONE * r * r - 2 * r * r - 4 * ONE * r
            &&& ONE * (o.x * o.x + o.y * o.y) <= ONE * r * r + 2 * r * r + 4 * ONE * r + 2 * ONE
        }),
{
    let d = compass.dirs@[idx];
    assert(unit(d));
    let r = s.spawn_radius as int;
    let x = d.x as int;
    let y = d.y as int;
    lemma_scaled_square(x, r);
    lemma_scaled_square(y, r);
    let ox = prod(x, r);
    let oy = prod(y, r);
    let o = s.origin_at(compass, idx);
    assert(o.x == ox && o.y == oy);
    let x2 = x * x;
    let y2 = y * y;
    let r2 = r * r;
    let ox2 = ox * ox;
    let oy2 = oy * oy;
    assert(ONE * ONE * ox * ox == 1_000_000_000_000 * ox2 && x * x * r * r == x2 * r2) by (nonlinear_arith)
        requires
            ox2 == ox * ox,
            x2 == x * x,
            r2 == r * r,
    ;
    assert(ONE * ONE * oy * oy == 1_000_000_000_000 * oy2 && y * y * r * r == y2 * r2) by (nonlinear_arith)
        requires
            oy2 == oy * oy,
            y2 == y * y,
            r2 == r * r,
    ;
    assert(x2 * r2 + y2 * r2 >= (1_000_000_000_000 - 2_000_000) * r2 && x2 * r2 + y2 * r2 <= (
    1_000_000_000_000 + 2_000_000) * r2) by (nonlinear_arith)
        requires
            1_000_000_000_000 - 2_000_000 <= x2 + y2 <= 1_000_000_000_000 + 2_000_000,
            r2 >= 0,
    ;
    assert(1_000_000_000_000 * (ox2 + oy2) >= 1_000_000_000_000 * r2 - 2_000_000 * r2 - 4 * r
        * 1_000_000_000_000);
    assert(1_000_000_000_000 * (ox2 + oy2) <= 1_000_000_000_000 * r2 + 2_000_000 * r2 + 4 * r
        * 1_000_000_000_000 + 2_000_000_000_000);
    assert(r * r == r2 && o.x * o.x == ox2 && o.y * o.y == oy2);
    assert(1_000_000 * (ox2 + oy2) >= 1_000_000 * r2 - 2 * r2 - 4 * 1_000_000 * r);
    assert(1_000_000 * (ox2 + oy2) <= 1_000_000 * r2 + 2 * r2 + 4 * 1_000_000 * r + 2_000_000);
    assert(ONE * r * r == 1_000_000 * r2 && 2 * r * r == 2 * r2) by (nonlinear_arith)
        requires
            r2 == r * r,
    ;
}

/// The components of an asteroid that starts at `origin`, heads for
/// `target`, and spins at `spin`.
pub open spec fn asteroid_parts(origin: Vec2, target: Vec2, spin: int, vis: Drawable) -> Parts {
    Parts {
        spatial: Some(Spatial { pos: origin, orient: 0, scale: ONE }),
        inertial: Some(
            Inertial {
                velocity: Vec2 {
                    x: heading(target.x - origin.x) as i64,
                    y: heading(target.y - origin.y) as i64,
                },
                angular_velocity: spin as i64,
            },
        ),
        control: None,
        bullet: None,
        asteroid: Some(Asteroid { kind: 0 }),
        collision: Some(Collision { radius: 500_000, health: 1, damage: 2 }),
        visual: Some(vis),
    }
}

/// Outside the screen on one axis and moving further out on it; standing
/// still out there counts as moving out.
pub open spec fn leaving(pos: int, vel: int, ext: int) -> bool {
    (pos > ext && vel >= 0) || (pos < -ext && vel <= 0)
}

/// Asteroid `e` is queued by the cull pass: it leaves the screen, or a hit
/// left it without health.
pub open spec fn culled(w: &World, e: int, ext_x: int, ext_y: int) -> bool {
    &&& 0 <= e < w.n()
    &&& w.alive@[e]
    &&& w.asteroid@[e].is_some()
    &&& {
        ||| (w.collision@[e].is_some() && w.collision@[e].unwrap().health == 0)
        ||| (w.spatial@[e].is_some() && w.inertial@[e].is_some() && (leaving(
            w.spatial@[e].unwrap().pos.x as int,
            w.inertial@[e].unwrap().velocity.x as int,
            ext_x,
        ) || leaving(w.spatial@[e].unwrap().pos.y as int, w.inertial@[e].unwrap().velocity.y as int, ext_y)))
    }
}

/// Number of asteroids due after `t` microseconds: none before the grace
/// time, then one at its end and one more every `rate`.
pub open spec fn due(rate: int, grace: int, t: int) -> int {
    if t >= grace { (t - grace) / rate + 1 } else { 0 }
}

/// The spawn clock: with the accumulator started at `rate - grace` and moved
/// on by the elapsed time `t` and back by `rate` for each of the `n` spawns,
/// and spawning while it reaches `rate`, exactly `due(rate, grace, t)`
/// asteroids have come by time `t`.
pub proof fn lemma_cadence(rate: int, grace: int, t: int, n: int, acc: int)
    requires
        rate > 0,
        t >= 0,
        n >= 0,
        acc == rate - grace + t - n * rate,
        acc < rate,
        n > 0 ==> acc >= 0,
    ensures
        n == due(rate, grace, t),
{
    if n > 0 {
        assert((n - 1) * rate <= t - grace < n * rate) by (nonlinear_arith)
            requires
                acc == rate - grace + t - n * rate,
                0 <= acc < rate,
        ;
        assert(t - grace >= 0) by (nonlinear_arith)
            requires
                (n - 1) * rate <= t - grace,
                n > 0,
                rate > 0,
        ;
        vstd::arithmetic::div_mod::lemma_fundamental_div_mod(t - grace, rate);
        let q = (t - grace) / rate;
        let r = (t - grace) % rate;
        assert(q == n - 1) by (nonlinear_arith)
            requires
                t - grace == rate * q + r,
                0 <= r < rate,
                (n - 1) * rate <= t - grace < n * rate,
                rate > 0,
        ;
    }
}

/// The asteroid system: spawns asteroids on a circle around the screen at a
/// steady rate after a grace time, and culls those that fly off or were hit.
pub struct System {
    pub ext_x: u32,
    pub ext_y: u32,
    pub spawn_radius: i64,
    pub rate: i64,
    pub time_left: i64,
    pub visual: Drawable,
    pub rng: StdRng,
    pub elapsed: Ghost<int>,
    pub spawned: Ghost<int>,
}

/// `es` records the outcome of each spawn that took `w0` to `w1`: each
/// entity created is live in `w1`, new, distinct from the others and an
/// asteroid `s0` may spawn; each refusal came from a clash or a full table;
/// and every entity new in `w1` is recorded.
pub open spec fn spawn_record(s0: &System, w0: &World, w1: &World, compass: &Compass, es: Seq<Option<Entity>>) -> bool {
    &&& forall|i: int|
        0 <= i < es.len() && (#[trigger] es[i]).is_some() ==> {
            let e = es[i].unwrap();
            &&& w1.live(e)
            &&& !(e.index < w0.n() && w0.alive@[e.index as int])
            &&& s0.spawnable(compass, w1.parts_at(e.index as int))
        }
    &&& forall|i: int, j: int|
        0 <= i < j < es.len() && (#[trigger] es[i]).is_some() && (#[trigger] es[j]).is_some() ==> es[i].unwrap().index
            != es[j].unwrap().index
    &&& forall|i: int|
        0 <= i < es.len() && (#[trigger] es[i]).is_none() ==> (w1.n() >= usize::MAX || exists|p: Parts|
            s0.spawnable(compass, p) && w1.clashes(p))
    &&& forall|e: int|
        0 <= e < w1.n() && #[trigger] w1.alive@[e] && !(e < w0.n() && w0.alive@[e]) ==> exists|i: int|
            0 <= i < es.len() && es[i].is_some() && es[i].unwrap().index == e
}

/// The record still holds once only the deletion queue has changed.
proof fn lemma_record_frame(
    s0: &System,
    w0: &World,
    wa: &World,
    wb: &World,
    compass: &Compass,
    es: Seq<Option<Entity>>,
)
    requires
        spawn_record(s0, w0, wa, compass, es),
        wb.same_but_queue(wa),
    ensures
        spawn_record(s0, w0, wb, compass, es),
{
    assert forall|i: int| 0 <= i < es.len() && (#[trigger] es[i]).is_some() implies s0.spawnable(
        compass,
        wb.parts_at(es[i].unwrap().index as int),
    ) by {
        assert(wb.parts_at(es[i].unwrap().index as int) == wa.parts_at(es[i].unwrap().index as int));
    }
    assert forall|i: int| 0 <= i < es.len() && (#[trigger] es[i]).is_none() implies (wb.n() >= usize::MAX
        || exists|p: Parts| s0.spawnable(compass, p) && wb.clashes(p)) by {
        assert(wa.n() >= usize::MAX || exists|p: Parts| s0.spawnable(compass, p) && wa.clashes(p));
        assert(wb.n() == wa.n());
        if wa.n() < usize::MAX {
            let p = choose|p: Parts| s0.spawnable(compass, p) && wa.clashes(p);
            let j = choose|j: int| wa.clashes_at(p, j);
            assert(wb.clashes_at(p, j));
            assert(s0.spawnable(compass, p) && wb.clashes(p));
        }
    }
}

/// Two systems with the same screen, spawn circle and visual may spawn the
/// same asteroids.
proof fn lemma_spawnable_same(a: &System, b: &System, compass: &Compass, p: Parts)
    requires
        a.ext_x == b.ext_x,
        a.ext_y == b.ext_y,
        a.spawn_radius == b.spawn_radius,
        a.visual == b.visual,
    ensures
        a.spawnable(compass, p) == b.spawnable(compass, p),
{
    if a.spawnable(compass, p) {
        let (idx, tx, ty, spin) = choose|idx: int, tx: int, ty: int, spin: int|
            0 <= idx < compass.dirs@.len() && -a.ext_x <= tx < a.ext_x && -a.ext_y <= ty < a.ext_y && -MAX_SPIN
                <= spin < MAX_SPIN && p == #[trigger] asteroid_parts(
                a.origin_at(compass, idx),
                Vec2 { x: tx as i64, y: ty as i64 },
                spin,
                a.visual,
            );
        assert(a.origin_at(compass, idx) == b.origin_at(compass, idx));
    }
    if b.spawnable(compass, p) {
        let (idx, tx, ty, spin) = choose|idx: int, tx: int, ty: int, spin: int|
            0 <= idx < compass.dirs@.len() && -b.ext_x <= tx < b.ext_x && -b.ext_y <= ty < b.ext_y && -MAX_SPIN
                <= spin < MAX_SPIN && p == #[trigger] asteroid_parts(
                b.origin_at(compass, idx),
                Vec2 { x: tx as i64, y: ty as i64 },
                spin,
                b.visual,
            );
        assert(a.origin_at(compass, idx) == b.origin_at(compass, idx));
    }
}

/// One asteroid step from `s0` and `w0` to `s1` and `w1`: the spawn clock
/// moves on, due asteroids appear, and those leaving or hit are queued.
pub open spec fn aster_step(s0: &System, s1: &System, w0: &World, w1: &World, dt: int, compass: &Compass) -> bool {
    &&& s1.ext_x == s0.ext_x
    &&& s1.ext_y == s0.ext_y
    &&& s1.spawn_radius == s0.spawn_radius
    &&& s1.visual == s0.visual
    &&& s1.elapsed@ == s0.elapsed@ + dt
    &&& s1.spawned@ == due(RATE as int, GRACE as int, s1.elapsed@)
    &&& exists|es: Seq<Option<Entity>>|
        es.len() == s1.spawned@ - s0.spawned@ && #[trigger] spawn_record(s0, w0, w1, compass, es)
    &&& w1.n() >= w0.n()
    &&& forall|e: int|
        0 <= e < w0.n() && w0.alive@[e] ==> #[trigger] w1.same_slot(w0, e)
    &&& forall|e: int|
        0 <= e < w1.n() && w1.alive@[e] && !(e < w0.n() && w0.alive@[e])
            ==> s0.spawnable(compass, #[trigger] w1.parts_at(e))
    &&& forall|e: int|
        #[trigger] queued(w1.doomed@, e) <==> (queued(w0.doomed@, e) || culled(
            w1,
            e,
            s0.ext_x as int,
            s0.ext_y as int,
        ))
}

impl System {
    /// Well-formed: positive extents, radius their sum, and the spawn clock
    /// in step with the time elapsed and the asteroids spawned.
    pub open spec fn wf(&self) -> bool {
        &&& self.shaped()
        &&& self.elapsed@ >= 0
        &&& self.spawned@ >= 0
        &&& self.time_left == RATE - GRACE + self.elapsed@ - self.spawned@ * RATE
        &&& self.time_left < RATE
        &&& self.spawned@ > 0 ==> self.time_left >= 0
        &&& self.time_left >= RATE - GRACE
    }

    /// Positive extents, and a spawn circle whose radius is their sum.
    pub open spec fn shaped(&self) -> bool {
        &&& self.ext_x > 0
        &&& self.ext_y > 0
        &&& self.spawn_radius == self.ext_x + self.ext_y
        &&& self.rate == RATE
    }

    /// Where an asteroid drawn at table entry `idx` starts: on the spawn circle.
    pub open spec fn origin_at(&self, compass: &Compass, idx: int) -> Vec2 {
        Vec2 {
            x: prod(compass.dirs@[idx].x as int, self.spawn_radius as int) as i64,
            y: prod(compass.dirs@[idx].y as int, self.spawn_radius as int) as i64,
        }
    }

    /// `p` are the components of an asteroid that this system may spawn: it
    /// starts on the spawn circle, heads for a point of the screen, and spins
    /// at most `MAX_SPIN` either way.
    pub open spec fn spawnable(&self, compass: &Compass, p: Parts) -> bool {
        exists|idx: int, tx: int, ty: int, spin: int|
            0 <= idx < compass.dirs@.len() && -self.ext_x <= tx < self.ext_x && -self.ext_y <= ty
                < self.ext_y && -MAX_SPIN <= spin < MAX_SPIN && p == #[trigger] asteroid_parts(
                self.origin_at(compass, idx),
                Vec2 { x: tx as i64, y: ty as i64 },
                spin,
                self.visual,
            )
    }

    /// The asteroid drawn at table entry `idx`, heading for `(tx, ty)` with
    /// spin `spin`. Where the target lies on the screen, the asteroid moves
    /// back toward the screen on each axis on which it starts outside it, so
    /// the cull keeps it.
    pub fn build_asteroid(&self, compass: &Compass, idx: usize, tx: i64, ty: i64, spin: i64) -> (p: Parts)
        requires
            self.shaped(),
            compass.wf(),
            idx < compass.dirs@.len(),
            -self.ext_x <= tx < self.ext_x,
            -self.ext_y <= ty < self.ext_y,
        ensures
            p == asteroid_parts(self.origin_at(compass, idx as int), Vec2 { x: tx, y: ty }, spin as int, self.visual),
            !leaving(
                self.origin_at(compass, idx as int).x as int,
                p.inertial.unwrap().velocity.x as int,
                self.ext_x as int,
            ),
            !leaving(
                self.origin_at(compass, idx as int).y as int,
                p.inertial.unwrap().velocity.y as int,
                self.ext_y as int,
            ),
    {
        let dir = compass.dirs[idx];
        proof {
            assert(unit(compass.dirs@[idx as int]));
            lemma_scaled_within(dir.x as int, self.spawn_radius as int);
            lemma_scaled_within(dir.y as int, self.spawn_radius as int);
        }
        let origin = Vec2 {
            x: mul_fixed(dir.x, self.spawn_radius),
            y: mul_fixed(dir.y, self.spawn_radius),
        };
        Parts {
            spatial: Some(Spatial { pos: origin, orient: 0, scale: ONE }),
            inertial: Some(
                Inertial {
                    velocity: Vec2 { x: head_for(tx - origin.x), y: head_for(ty - origin.y) },
                    angular_velocity: spin,
                },
            ),
            control: None,
            bullet: None,
            asteroid: Some(Asteroid { kind: 0 }),
            collision: Some(Collision { radius: 500_000, health: 1, damage: 2 }),
            visual: Some(self.visual),
        }
    }

    /// Spawns one asteroid at a random point of the spawn circle, heading
    /// for a random point of the screen with a random spin. It is refused
    /// only where the world refuses the entity.
    pub fn spawn(&mut self, w: &mut World, compass: &Compass) -> (r: Option<crate::world::Entity>)
        requires
            old(self).shaped(),
            old(w).wf(),
            compass.wf(),
        ensures
            final(self).shaped(),
            final(self).ext_x == old(self).ext_x,
            final(self).ext_y == old(self).ext_y,
            final(self).spawn_radius == old(self).spawn_radius,
            final(self).time_left == old(self).time_left,
            final(self).visual == old(self).visual,
            final(self).elapsed == old(self).elapsed,
            final(self).spawned == old(self).spawned,
            final(w).wf(),
            exists|p: Parts| old(self).spawnable(compass, p) && created(old(w), final(w), p, r),
    {
        let ghost s0 = *self;
        let idx = gen_index(&mut self.rng, compass.dirs.len());
        let tx = gen_between(&mut self.rng, -(self.ext_x as i64), self.ext_x as i64);
        let ty = gen_between(&mut self.rng, -(self.ext_y as i64), self.ext_y as i64);
        let spin = gen_between(&mut self.rng, -MAX_SPIN, MAX_SPIN);
        let parts = self.build_asteroid(compass, idx, tx, ty, spin);
        proof {
            let tv = Vec2 { x: (tx as int) as i64, y: (ty as int) as i64 };
            assert(parts == asteroid_parts(s0.origin_at(compass, idx as int), tv, spin as int, s0.visual));
            assert(s0.spawnable(compass, parts));
        }
        w.create(parts)
    }

    /// The asteroids spawned so far are exactly those due by the time elapsed.
    pub proof fn lemma_spawned_on_time(&self)
        requires
            self.wf(),
        ensures
            self.spawned@ == due(RATE as int, GRACE as int, self.elapsed@),
    {
        lemma_cadence(RATE as int, GRACE as int, self.elapsed@, self.spawned@, self.time_left as int);
    }

    /// One tick: lets `dt` microseconds pass on the spawn clock, spawns each
    /// asteroid that has come due, then culls those that leave the screen or
    /// were hit. Live entities are left as they were; new ones are asteroids.
    pub fn run(&mut self, w: &mut World, dt: u32, compass: &Compass)
        requires
            old(self).wf(),
            old(w).wf(),
            compass.wf(),
        ensures
            final(self).wf(),
            final(w).wf(),
            aster_step(old(self), final(self), old(w), final(w), dt as int, compass),
    {
        let ghost w0 = *w;
        let ghost s0 = *self;
        let ghost mut es: Seq<Option<Entity>> = Seq::empty();
        self.time_left = self.time_left + dt as i64;
        self.elapsed = Ghost(self.elapsed@ + dt);
        while self.time_left >= self.rate
            invariant
                self.shaped(),
                self.ext_x == s0.ext_x,
                self.ext_y == s0.ext_y,
                self.spawn_radius == s0.spawn_radius,
                self.visual == s0.visual,
                self.elapsed@ == s0.elapsed@ + dt,
                self.spawned@ >= s0.spawned@,
                self.time_left == RATE - GRACE + self.elapsed@ - self.spawned@ * RATE,
                self.time_left <= s0.time_left + dt,
                self.time_left >= RATE - GRACE,
                self.spawned@ > 0 ==> self.time_left >= 0,
                compass.wf(),
                w0.wf(),
                w.wf(),
                w.doomed == w0.doomed,
                w.n() >= w0.n(),
                forall|e: int| 0 <= e < w0.n() && w0.alive@[e] ==> #[trigger] w.same_slot(&w0, e),
                forall|e: int|
                    0 <= e < w.n() && w.alive@[e] && !(e < w0.n() && w0.alive@[e]) ==> s0.spawnable(
                        compass,
                        #[trigger] w.parts_at(e),
                    ),
                es.len() == self.spawned@ - s0.spawned@,
                spawn_record(&s0, &w0, w, compass, es),
            decreases self.time_left,
        {
            self.time_left = self.time_left - self.rate;
            self.spawned = Ghost(self.spawned@ + 1);
            let ghost w1 = *w;
            let ghost s1 = *self;
            let r = self.spawn(w, compass);
            proof {
                let p = choose|p: Parts| s1.spawnable(compass, p) && created(&w1, w, p, r);
                lemma_spawnable_same(&s0, &s1, compass, p);
                let es0 = es;
                es = es.push(r);
                assert forall|i: int| 0 <= i < es.len() && (#[trigger] es[i]).is_some() implies {
                    let e = es[i].unwrap();
                    &&& w.live(e)
                    &&& !(e.index < w0.n() && w0.alive@[e.index as int])
                    &&& s0.spawnable(compass, w.parts_at(e.index as int))
                } by {
                    if i < es0.len() {
                        assert(es[i] == es0[i]);
                        let e = es0[i].unwrap();
                        if r.is_some() {
                            assert(w1.live(e));
                            assert(e.index != r.unwrap().index);
                            assert(w.same_slot(&w1, e.index as int));
                            assert(w.parts_at(e.index as int) == w1.parts_at(e.index as int));
                        }
                    } else {
                        let e = r.unwrap();
                        if e.index < w0.n() && w0.alive@[e.index as int] {
                            assert(w1.same_slot(&w0, e.index as int));
                        }
                    }
                }
                assert forall|i: int, j: int|
                    0 <= i < j < es.len() && (#[trigger] es[i]).is_some() && (#[trigger] es[j]).is_some() implies es[i].unwrap().index
                        != es[j].unwrap().index by {
                    assert(es[i] == es0[i]);
                    if j < es0.len() {
                        assert(es[j] == es0[j]);
                    } else {
                        assert(w1.live(es0[i].unwrap()));
                    }
                }
                assert forall|i: int| 0 <= i < es.len() && (#[trigger] es[i]).is_none() implies (w.n()
                    >= usize::MAX || exists|q: Parts| s0.spawnable(compass, q) && w.clashes(q)) by {
                    if i < es0.len() {
                        assert(es[i] == es0[i]);
                        if r.is_some() && w1.n() < usize::MAX {
                            let q = choose|q: Parts| s0.spawnable(compass, q) && w1.clashes(q);
                            let j = choose|j: int| w1.clashes_at(q, j);
                            assert(w1.parts_at(j) != Parts::empty());
                            assert(w1.alive@[j]);
                            assert(j != r.unwrap().index);
                            assert(w.same_slot(&w1, j));
                            assert(w.parts_at(j) == w1.parts_at(j));
                            assert(w.clashes_at(q, j));
                        }
                    } else {
                        if w1.clashes(p) {
                            assert(s0.spawnable(compass, p) && w.clashes(p));
                        }
                    }
                }
                assert forall|e: int|
                    0 <= e < w.n() && #[trigger] w.alive@[e] && !(e < w0.n() && w0.alive@[e]) implies exists|i: int|
                    0 <= i < es.len() && es[i].is_some() && es[i].unwrap().index == e by {
                    if r.is_some() && e == r.unwrap().index {
                        assert(es[es0.len() as int] == r);
                    } else {
                        if r.is_some() {
                            assert(e < w1.n());
                            assert(w.same_slot(&w1, e));
                        }
                        assert(w1.alive@[e]);
                        let i = choose|i: int| 0 <= i < es0.len() && es0[i].is_some() && es0[i].unwrap().index == e;
                        assert(es[i] == es0[i]);
                    }
                }
                if r.is_some() {
                    let b = r.unwrap();
                    assert forall|e: int| 0 <= e < w0.n() && w0.alive@[e] implies #[trigger] w.same_slot(&w0, e) by {
                        assert(w1.same_slot(&w0, e));
                        assert(e != b.index);
                        assert(w.same_slot(&w1, e));
                        assert(w.parts_at(e) == w1.parts_at(e));
                    }
                    assert forall|e: int|
                        0 <= e < w.n() && w.alive@[e] && !(e < w0.n() && w0.alive@[e]) implies s0.spawnable(
                        compass,
                        #[trigger] w.parts_at(e),
                    ) by {
                        if e == b.index {
                            let p = w.parts_at(e);
                            assert(s1.spawnable(compass, p));
                            let (idx, tx, ty, spin) = choose|idx: int, tx: int, ty: int, spin: int|
                                0 <= idx < compass.dirs@.len() && -s1.ext_x <= tx < s1.ext_x && -s1.ext_y <= ty
                                    < s1.ext_y && -MAX_SPIN <= spin < MAX_SPIN && p == #[trigger] asteroid_parts(
                                    s1.origin_at(compass, idx),
                                    Vec2 { x: tx as i64, y: ty as i64 },
                                    spin,
                                    s1.visual,
                                );
                            assert(s0.origin_at(compass, idx) == s1.origin_at(compass, idx));
                        } else {
                            assert(w.same_slot(&w1, e) || e >= w1.n());
                            if e < w1.n() {
                                assert(w.parts_at(e) == w1.parts_at(e));
                                assert(w1.alive@[e]);
                            }
                        }
                    }
                }
            }
        }
        let ghost w2 = *w;
        self.cull(w);
        proof {
            assert forall|e: int| #[trigger] queued(w.doomed@, e) <==> (queued(w0.doomed@, e) || culled(
                w,
                e,
                s0.ext_x as int,
                s0.ext_y as int,
            )) by {
                assert(culled(&w2, e, s0.ext_x as int, s0.ext_y as int) == culled(
                    w,
                    e,
                    s0.ext_x as int,
                    s0.ext_y as int,
                ));
            }
            assert forall|e: int| 0 <= e < w0.n() && w0.alive@[e] implies #[trigger] w.same_slot(&w0, e) by {
                assert(w2.same_slot(&w0, e));
                assert(w.parts_at(e) == w2.parts_at(e));
            }
            assert forall|e: int|
                0 <= e < w.n() && w.alive@[e] && !(e < w0.n() && w0.alive@[e]) implies s0.spawnable(
                compass,
                #[trigger] w.parts_at(e),
            ) by {
                assert(w.parts_at(e) == w2.parts_at(e));
            }
            self.lemma_spawned_on_time();
            lemma_record_frame(&s0, &w0, &w2, w, compass, es);
        }
    }

    /// Queues every asteroid that leaves the screen or was left without health.
    fn cull(&self, w: &mut World)
        requires
            old(w).wf(),
        ensures
            final(w).wf(),
            final(w).same_but_queue(old(w)),
            forall|e: int|
                #[trigger] queued(final(w).doomed@, e) <==> (queued(old(w).doomed@, e) || culled(
                    old(w),
                    e,
                    self.ext_x as int,
                    self.ext_y as int,
                )),
    {
        let ghost w0 = *w;
        let n = w.asteroid.len();
        let ex = self.ext_x as i64;
        let ey = self.ext_y as i64;
        let mut e: usize = 0;
        while e < n
            invariant
                w0.wf(),
                w.wf(),
                n == w0.n(),
                e <= n,
                w.same_but_queue(&w0),
                ex == self.ext_x,
                ey == self.ext_y,
                forall|i: int|
                    #[trigger] queued(w.doomed@, i) <==> (queued(w0.doomed@, i) || (i < e && culled(
                        &w0,
                        i,
                        self.ext_x as int,
                        self.ext_y as int,
                    ))),
            decreases n - e,
        {
            let ghost w1 = *w;
            let mut hit = false;
            if w.alive[e] && w.asteroid[e].is_some() {
                if let Some(c) = w.collision[e] {
                    if c.health == 0 {
                        hit = true;
                    }
                }
                if let (Some(s), Some(i)) = (w.spatial[e], w.inertial[e]) {
                    let p = s.pos;
                    let v = i.velocity;
                    if (p.x > ex && v.x >= 0) || (p.x < -ex && v.x <= 0) || (p.y > ey && v.y >= 0) || (p.y
                        < -ey && v.y <= 0) {
                        hit = true;
                    }
                }
            }
            proof {
                assert(hit == culled(&w0, e as int, self.ext_x as int, self.ext_y as int));
            }
            if hit {
                w.doomed.push(e);
                proof {
                    assert forall|k: int| 0 <= k < w.doomed@.len() implies 0 <= #[trigger] w.doomed@[k] < w.n() by {
                        if k < w1.doomed@.len() {
                            assert(w.doomed@[k] == w1.doomed@[k]);
                        }
                    }
                    assert forall|i: int| 0 <= i < w.n() && !w.alive@[i] implies #[trigger] w.parts_at(i)
                        == Parts::empty() by {
                        assert(w1.parts_at(i) == Parts::empty());
                    }
                }
            }
            proof {
                assert forall|i: int| #[trigger] queued(w.doomed@, i) <==> (queued(w0.doomed@, i) || (i < e + 1
                    && culled(&w0, i, self.ext_x as int, self.ext_y as int))) by {
                    if hit {
                        crate::world::lemma_queued_push(w1.doomed@, e, i);
                    }
                }
            }
            e += 1;
        }
    }

    /// A system for a screen with half-extents `ext_x` and `ext_y`
    /// (micro-units), drawing asteroids with `visual` and placing them with `rng`.
    pub fn new(ext_x: u32, ext_y: u32, visual: Drawable, rng: StdRng) -> (s: System)
        requires
            ext_x > 0,
            ext_y > 0,
        ensures
            s.wf(),
            s.ext_x == ext_x,
            s.ext_y == ext_y,
            s.visual == visual,
            s.elapsed@ == 0,
            s.spawned@ == 0,
    {
        System {
            ext_x,
            ext_y,
            spawn_radius: ext_x as i64 + ext_y as i64,
            rate: RATE,
            time_left: RATE - GRACE,
            visual,
            rng,
            elapsed: Ghost(0),
            spawned: Ghost(0),
        }
    }
}

} // verus!
