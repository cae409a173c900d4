use vstd::prelude::*;

use crate::fixed::{Compass, Vec2};

verus! {

/// Side of a cell of the collision grid, in micro-units. Two colliders may not
/// have radii that sum to more than this.
pub const CELL_SIZE: u32 = 1_000_000;

/// Opaque handle of an entity: a slot index and the generation of that slot.
#[derive(Clone, Copy, PartialEq, Eq, Structural, Debug)]
pub struct Entity {
    pub index: usize,
    pub generation: u64,
}

/// Position, orientation (microradians) and drawing scale (fixed point).
#[derive(Clone, Copy, PartialEq, Eq, Structural, Debug)]
pub struct Spatial {
    pub pos: Vec2,
    pub orient: i64,
    pub scale: i64,
}

impl Spatial {
    /// The direction this entity faces, looked up in the table of directions.
    pub fn get_direction(&self, compass: &Compass) -> (d: Vec2)
        requires
            compass.wf(),
        ensures
            d == compass.facing_spec(self.orient as int),
    {
        compass.facing(self.orient)
    }
}

/// Velocity (micro-units per second) and angular velocity (microradians per second).
#[derive(Clone, Copy, PartialEq, Eq, Structural, Debug)]
pub struct Inertial {
    pub velocity: Vec2,
    pub angular_velocity: i64,
}

/// Steering parameters of the ship: thrust acceleration and turn rate, fixed point.
#[derive(Clone, Copy, PartialEq, Eq, Structural, Debug)]
pub struct Control {
    pub thrust_speed: i64,
    pub turn_speed: i64,
}

/// Remaining life of a bullet in microseconds; `None` once it has expired.
#[derive(Clone, Copy, PartialEq, Eq, Structural, Debug)]
pub struct Bullet {
    pub life_time: Option<u64>,
}

/// Marks an asteroid.
#[derive(Clone, Copy, PartialEq, Eq, Structural, Debug)]
pub struct Asteroid {
    pub kind: u8,
}

/// Collision radius (micro-units), remaining health and damage dealt on contact.
#[derive(Clone, Copy, PartialEq, Eq, Structural, Debug)]
pub struct Collision {
    pub radius: u32,
    pub health: u16,
    pub damage: u16,
}

/// Opaque index into the renderer's table of visuals.
#[derive(Clone, Copy, PartialEq, Eq, Structural, Debug)]
pub struct Drawable(pub usize);

/// The components of one entity, each one present or not.
#[derive(Clone, Copy, PartialEq, Eq, Structural, Debug)]
pub struct Parts {
    pub spatial: Option<Spatial>,
    pub inertial: Option<Inertial>,
    pub control: Option<Control>,
    pub bullet: Option<Bullet>,
    pub asteroid: Option<Asteroid>,
    pub collision: Option<Collision>,
    pub visual: Option<Drawable>,
}

impl Parts {
    /// No component at all.
    pub fn none() -> (r: Parts)
        ensures
            r == Parts::empty(),
    {
        Parts {
            spatial: None,
            inertial: None,
            control: None,
            bullet: None,
            asteroid: None,
            collision: None,
            visual: None,
        }
    }

    pub open spec fn empty() -> Parts {
        Parts {
            spatial: None,
            inertial: None,
            control: None,
            bullet: None,
            asteroid: None,
            collision: None,
            visual: None,
        }
    }
}

/// Entity table and one sparse store per component kind, all indexed by slot.
/// Deletions are queued in `doomed` and applied by `maintain`.
pub struct World {
    pub generation: Vec<u64>,
    pub alive: Vec<bool>,
    pub free: Vec<usize>,
    pub doomed: Vec<usize>,
    pub spatial: Vec<Option<Spatial>>,
    pub inertial: Vec<Option<Inertial>>,
    pub control: Vec<Option<Control>>,
    pub bullet: Vec<Option<Bullet>>,
    pub asteroid: Vec<Option<Asteroid>>,
    pub collision: Vec<Option<Collision>>,
    pub visual: Vec<Option<Drawable>>,
}

/// Two colliders whose radii the grid can handle together.
pub open spec fn radii_fit(a: Collision, b: Collision) -> bool {
    a.radius + b.radius <= CELL_SIZE
}

/// Slot `i` is named in the queue `q`.
pub open spec fn queued(q: Seq<usize>, i: int) -> bool {
    exists|m: int| 0 <= m < q.len() && q[m] as int == i
}

pub proof fn lemma_queued_push(q: Seq<usize>, x: usize, i: int)
    ensures
        queued(q.push(x), i) <==> (queued(q, i) || i == x),
{
    if queued(q, i) {
        let m = choose|m: int| 0 <= m < q.len() && q[m] as int == i;
        assert(q.push(x)[m] as int == i);
    }
    if i == x {
        assert(q.push(x)[q.len() as int] as int == i);
    }
    if queued(q.push(x), i) {
        let m = choose|m: int| 0 <= m < q.len() + 1 && q.push(x)[m] as int == i;
        if m < q.len() {
            assert(q[m] as int == i);
        }
    }
}

/// `new` is `old` after a request to create an entity with parts `p` was
/// answered with `r`: refused, with nothing changed, exactly where the collider
/// would clash or no slot is left; else one fresh live entity holding `p` in a
/// dead or new slot, every other slot and the deletion queue as they were.
pub open spec fn created(old: &World, new: &World, p: Parts, r: Option<Entity>) -> bool {
    &&& r.is_none() <==> (old.clashes(p) || (old.free@.len() == 0 && old.n() == usize::MAX))
    &&& r.is_none() ==> *new == *old
    &&& r.is_some() ==> {
        let e = r.unwrap();
        &&& new.live(e)
        &&& new.parts_at(e.index as int) == p
        &&& e.index < old.n() ==> !old.alive@[e.index as int]
        &&& new.n() == if e.index < old.n() {
            old.n()
        } else {
            old.n() + 1
        }
        &&& forall|i: int| 0 <= i < old.n() && i != e.index ==> #[trigger] new.same_slot(old, i)
        &&& new.doomed == old.doomed
    }
}

/// `new` is `old` with all its queued deletions applied and its queue emptied.
pub open spec fn maintained(old: &World, new: &World) -> bool {
    &&& new.doomed@.len() == 0
    &&& new.n() == old.n()
    &&& forall|i: int| 0 <= i < old.n() ==> #[trigger] new.after_deletes(old, old.doomed@, i)
}

/// In a well-formed world no two colliders have radii that sum to more than
/// the grid's cell: `create` refuses any entity that would break this.
pub proof fn lemma_colliders_fit_grid(w: &World, i: int, j: int)
    requires
        w.wf(),
        0 <= i < w.n(),
        0 <= j < w.n(),
        i != j,
        w.collision@[i].is_some(),
        w.collision@[j].is_some(),
    ensures
        w.collision@[i].unwrap().radius + w.collision@[j].unwrap().radius <= CELL_SIZE,
{
    assert(radii_fit(w.collision@[i].unwrap(), w.collision@[j].unwrap()));
}

impl World {
    /// Number of slots.
    pub open spec fn n(&self) -> int {
        self.generation@.len() as int
    }

    /// The components stored at slot `i`.
    pub open spec fn parts_at(&self, i: int) -> Parts {
        Parts {
            spatial: self.spatial@[i],
            inertial: self.inertial@[i],
            control: self.control@[i],
            bullet: self.bullet@[i],
            asteroid: self.asteroid@[i],
            collision: self.collision@[i],
            visual: self.visual@[i],
        }
    }

    pub open spec fn sizes_agree(&self) -> bool {
        &&& self.alive@.len() == self.n()
        &&& self.spatial@.len() == self.n()
        &&& self.inertial@.len() == self.n()
        &&& self.control@.len() == self.n()
        &&& self.bullet@.len() == self.n()
        &&& self.asteroid@.len() == self.n()
        &&& self.collision@.len() == self.n()
        &&& self.visual@.len() == self.n()
    }

    /// Every pair of distinct colliders fits the collision grid.
    pub open spec fn colliders_fit(&self) -> bool {
        forall|i: int, j: int|
            0 <= i < self.n() && 0 <= j < self.n() && i != j && (#[trigger] self.collision@[i]).is_some()
                && (#[trigger] self.collision@[j]).is_some() ==> radii_fit(
                self.collision@[i].unwrap(),
                self.collision@[j].unwrap(),
            )
    }

    /// Well-formedness: stores as long as the entity table, dead slots hold no
    /// component, the free list holds distinct dead slots, queued deletions name
    /// slots, and colliders fit the grid.
    pub open spec fn wf(&self) -> bool {
        &&& self.sizes_agree()
        &&& forall|i: int| 0 <= i < self.n() && !self.alive@[i] ==> #[trigger] self.parts_at(i) == Parts::empty()
        &&& forall|k: int| 0 <= k < self.free@.len() ==> {
            &&& 0 <= #[trigger] self.free@[k] < self.n()
            &&& !self.alive@[self.free@[k] as int]
        }
        &&& forall|a: int, b: int| 0 <= a < b < self.free@.len() ==> #[trigger] self.free@[a] != #[trigger] self.free@[b]
        &&& forall|k: int| 0 <= k < self.doomed@.len() ==> 0 <= #[trigger] self.doomed@[k] < self.n()
        &&& self.colliders_fit()
    }

    /// Whether the handle names a live entity.
    pub open spec fn live(&self, e: Entity) -> bool {
        &&& 0 <= e.index < self.n()
        &&& self.alive@[e.index as int]
        &&& self.generation@[e.index as int] == e.generation
    }

    /// Slot `i` holds the same entity and components in both worlds.
    pub open spec fn same_slot(&self, other: &World, i: int) -> bool {
        &&& self.alive@[i] == other.alive@[i]
        &&& self.generation@[i] == other.generation@[i]
        &&& self.parts_at(i) == other.parts_at(i)
    }

    /// A collider of these parts would clash with the live collider at slot `j`.
    pub open spec fn clashes_at(&self, p: Parts, j: int) -> bool {
        &&& 0 <= j < self.n()
        &&& p.collision.is_some()
        &&& self.collision@[j].is_some()
        &&& !radii_fit(p.collision.unwrap(), self.collision@[j].unwrap())
    }

    /// An entity with these parts would break the grid's radius rule.
    pub open spec fn clashes(&self, p: Parts) -> bool {
        exists|j: int| self.clashes_at(p, j)
    }

    /// All fields but the deletion queue agree.
    pub open spec fn same_but_queue(&self, other: &World) -> bool {
        &&& self.generation == other.generation
        &&& self.alive == other.alive
        &&& self.free == other.free
        &&& self.spatial == other.spatial
        &&& self.inertial == other.inertial
        &&& self.control == other.control
        &&& self.bullet == other.bullet
        &&& self.asteroid == other.asteroid
        &&& self.collision == other.collision
        &&& self.visual == other.visual
    }

    /// Whether an entity with these parts would break the grid's radius rule.
    pub fn check_clash(&self, p: &Parts) -> (r: bool)
        requires
            self.wf(),
        ensures
            r == self.clashes(*p),
    {
        match p.collision {
            None => false,
            Some(c) => {
                let mut j: usize = 0;
                while j < self.collision.len()
                    invariant
                        self.wf(),
                        p.collision == Some(c),
                        j <= self.n(),
                        forall|k: int| 0 <= k < j ==> !#[trigger] self.clashes_at(*p, k),
                    decreases self.collision.len() - j,
                {
                    if let Some(d) = self.collision[j] {
                        if c.radius as u64 + d.radius as u64 > CELL_SIZE as u64 {
                            assert(self.clashes_at(*p, j as int));
                            return true;
                        }
                    }
                    j += 1;
                }
                assert forall|k: int| !#[trigger] self.clashes_at(*p, k) by {
                    if 0 <= k < self.n() {
                    }
                }
                false
            },
        }
    }

    /// A collider of these parts would clash with one held by a slot other than `i`.
    pub open spec fn clashes_other(&self, p: Parts, i: int) -> bool {
        exists|j: int| j != i && self.clashes_at(p, j)
    }

    /// Whether a collider of these parts would clash with one held by a slot
    /// other than `skip`.
    pub fn check_clash_other(&self, p: &Parts, skip: usize) -> (r: bool)
        requires
            self.wf(),
        ensures
            r == self.clashes_other(*p, skip as int),
    {
        match p.collision {
            None => false,
            Some(c) => {
                let mut j: usize = 0;
                while j < self.collision.len()
                    invariant
                        self.wf(),
                        p.collision == Some(c),
                        j <= self.n(),
                        forall|k: int| 0 <= k < j && k != skip ==> !#[trigger] self.clashes_at(*p, k),
                    decreases self.collision.len() - j,
                {
                    if j != skip {
                        if let Some(d) = self.collision[j] {
                            if c.radius as u64 + d.radius as u64 > CELL_SIZE as u64 {
                                assert(self.clashes_at(*p, j as int));
                                return true;
                            }
                        }
                    }
                    j += 1;
                }
                assert forall|k: int| k != skip implies !#[trigger] self.clashes_at(*p, k) by {
                    if 0 <= k < self.n() {
                    }
                }
                false
            },
        }
    }

    /// Attaches and detaches components: the live entity `e` gets exactly the
    /// components of `p`. Refused, with the world unchanged, where `e` is dead
    /// or the collider of `p` would clash with another entity's.
    pub fn set_parts(&mut self, e: Entity, p: Parts) -> (r: bool)
        requires
            old(self).wf(),
        ensures
            final(self).wf(),
            r == (old(self).live(e) && !old(self).clashes_other(p, e.index as int)),
            !r ==> *final(self) == *old(self),
            r ==> {
                &&& final(self).live(e)
                &&& final(self).parts_at(e.index as int) == p
                &&& final(self).n() == old(self).n()
                &&& final(self).free == old(self).free
                &&& final(self).doomed == old(self).doomed
                &&& forall|i: int| 0 <= i < old(self).n() ==> #[trigger] final(self).alive@[i] == old(self).alive@[i]
                &&& forall|i: int|
                    0 <= i < old(self).n() && i != e.index ==> #[trigger] final(self).same_slot(old(self), i)
            },
    {
        if !self.is_alive(e) {
            return false;
        }
        if self.check_clash_other(&p, e.index) {
            return false;
        }
        let ghost w0 = *self;
        let i = e.index;
        self.spatial.set(i, p.spatial);
        self.inertial.set(i, p.inertial);
        self.control.set(i, p.control);
        self.bullet.set(i, p.bullet);
        self.asteroid.set(i, p.asteroid);
        self.collision.set(i, p.collision);
        self.visual.set(i, p.visual);
        proof {
            assert forall|a: int, b: int|
                0 <= a < self.n() && 0 <= b < self.n() && a != b && (#[trigger] self.collision@[a]).is_some()
                    && (#[trigger] self.collision@[b]).is_some() implies radii_fit(
                self.collision@[a].unwrap(),
                self.collision@[b].unwrap(),
            ) by {
                if a == i {
                    assert(!w0.clashes_at(p, b));
                } else if b == i {
                    assert(!w0.clashes_at(p, a));
                }
            }
            assert forall|k: int| 0 <= k < self.n() && !self.alive@[k] implies #[trigger] self.parts_at(k)
                == Parts::empty() by {
                assert(w0.parts_at(k) == Parts::empty());
            }
            assert forall|k: int| 0 <= k < w0.n() && k != i implies #[trigger] self.same_slot(&w0, k) by {
                assert(self.parts_at(k) == w0.parts_at(k));
            }
        }
        true
    }

    /// Creates an entity with the given components, reusing a free slot where
    /// there is one. Refused, with the world unchanged, where its collider would
    /// clash with a live one, or where no slot is left.
    pub fn create(&mut self, p: Parts) -> (r: Option<Entity>)
        requires
            old(self).wf(),
        ensures
            final(self).wf(),
            created(old(self), final(self), p, r),
    {
        if self.check_clash(&p) {
            return None;
        }
        if self.free.len() == 0 && self.generation.len() == usize::MAX {
            return None;
        }
        let ghost w0 = *self;
        if let Some(i) = self.free.pop() {
            proof {
                assert(w0.free@[w0.free@.len() - 1] == i);
                assert(self.free@ == w0.free@.drop_last());
            }
            self.alive.set(i, true);
            self.spatial.set(i, p.spatial);
            self.inertial.set(i, p.inertial);
            self.control.set(i, p.control);
            self.bullet.set(i, p.bullet);
            self.asteroid.set(i, p.asteroid);
            self.collision.set(i, p.collision);
            self.visual.set(i, p.visual);
            proof {
                assert(w0.parts_at(i as int) == Parts::empty());
                assert forall|k: int| 0 <= k < self.free@.len() implies #[trigger] self.free@[k] != i by {
                    assert(w0.free@[k] != w0.free@[w0.free@.len() - 1]);
                }
                assert forall|a: int, b: int|
                    0 <= a < self.n() && 0 <= b < self.n() && a != b && (#[trigger] self.collision@[a]).is_some()
                        && (#[trigger] self.collision@[b]).is_some() implies radii_fit(
                    self.collision@[a].unwrap(),
                    self.collision@[b].unwrap(),
                ) by {
                    if a == i {
                        assert(!w0.clashes_at(p, b));
                    } else if b == i {
                        assert(!w0.clashes_at(p, a));
                        assert(radii_fit(self.collision@[b].unwrap(), self.collision@[a].unwrap()));
                    }
                }
                assert forall|k: int| 0 <= k < self.n() && !self.alive@[k] implies #[trigger] self.parts_at(k)
                    == Parts::empty() by {
                    assert(w0.parts_at(k) == Parts::empty());
                }
                assert forall|k: int| 0 <= k < self.n() && k != i implies #[trigger] self.same_slot(&w0, k) by {
                    assert(self.parts_at(k) == w0.parts_at(k));
                }
            }
            let g = self.generation[i];
            Some(Entity { index: i, generation: g })
        } else {
            let i = self.generation.len();
            self.generation.push(0);
            self.alive.push(true);
            self.spatial.push(p.spatial);
            self.inertial.push(p.inertial);
            self.control.push(p.control);
            self.bullet.push(p.bullet);
            self.asteroid.push(p.asteroid);
            self.collision.push(p.collision);
            self.visual.push(p.visual);
            proof {
                assert forall|a: int, b: int|
                    0 <= a < self.n() && 0 <= b < self.n() && a != b && (#[trigger] self.collision@[a]).is_some()
                        && (#[trigger] self.collision@[b]).is_some() implies radii_fit(
                    self.collision@[a].unwrap(),
                    self.collision@[b].unwrap(),
                ) by {
                    if a == i {
                        assert(!w0.clashes_at(p, b));
                    } else if b == i {
                        assert(!w0.clashes_at(p, a));
                    }
                }
                assert forall|k: int| 0 <= k < self.n() && !self.alive@[k] implies #[trigger] self.parts_at(k)
                    == Parts::empty() by {
                    assert(w0.parts_at(k) == Parts::empty());
                }
                assert forall|k: int| 0 <= k < w0.n() && k != i implies #[trigger] self.same_slot(&w0, k) by {
                    assert(self.parts_at(k) == w0.parts_at(k));
                }
            }
            Some(Entity { index: i, generation: 0 })
        }
    }

    /// Queues the entity for deletion at the next `maintain`; a dead handle is
    /// ignored. Nothing else changes, so the entity stays live until then.
    pub fn delete(&mut self, e: Entity)
        requires
            old(self).wf(),
        ensures
            final(self).wf(),
            final(self).same_but_queue(old(self)),
            final(self).doomed@ == if old(self).live(e) {
                old(self).doomed@.push(e.index)
            } else {
                old(self).doomed@
            },
    {
        let ghost w0 = *self;
        if self.is_alive(e) {
            self.doomed.push(e.index);
            assert forall|k: int| 0 <= k < self.doomed@.len() implies 0 <= #[trigger] self.doomed@[k]
                < self.n() by {
                if k < w0.doomed@.len() {
                    assert(self.doomed@[k] == w0.doomed@[k]);
                }
            }
        }
        assert forall|i: int| 0 <= i < self.n() && !self.alive@[i] implies #[trigger] self.parts_at(i)
            == Parts::empty() by {
            assert(w0.parts_at(i) == Parts::empty());
        }
    }

    /// Slot `i` after its entity was deleted: dead, empty, and with its
    /// generation moved on, unless the generation is spent (then the slot is
    /// never handed out again).
    pub open spec fn retired(&self, old: &World, i: int) -> bool {
        &&& !self.alive@[i]
        &&& self.parts_at(i) == Parts::empty()
        &&& self.generation@[i] == if old.generation@[i] < u64::MAX {
            old.generation@[i] + 1
        } else {
            old.generation@[i] as int
        }
    }

    /// Slot `i` after the deletions queued in `q` were applied to `old`.
    pub open spec fn after_deletes(&self, old: &World, q: Seq<usize>, i: int) -> bool {
        if old.alive@[i] && queued(q, i) {
            self.retired(old, i)
        } else {
            self.same_slot(old, i)
        }
    }

    fn kill(&mut self, i: usize)
        requires
            old(self).wf(),
            i < old(self).n(),
            old(self).alive@[i as int],
        ensures
            final(self).wf(),
            final(self).n() == old(self).n(),
            final(self).doomed == old(self).doomed,
            final(self).retired(old(self), i as int),
            forall|j: int| 0 <= j < old(self).n() && j != i ==> #[trigger] final(self).same_slot(old(self), j),
    {
        let ghost w0 = *self;
        self.alive.set(i, false);
        self.spatial.set(i, None);
        self.inertial.set(i, None);
        self.control.set(i, None);
        self.bullet.set(i, None);
        self.asteroid.set(i, None);
        self.collision.set(i, None);
        self.visual.set(i, None);
        let g = self.generation[i];
        if g < u64::MAX {
            self.generation.set(i, g + 1);
            self.free.push(i);
        }
        proof {
            assert forall|k: int| 0 <= k < self.free@.len() implies {
                &&& 0 <= #[trigger] self.free@[k] < self.n()
                &&& !self.alive@[self.free@[k] as int]
            } by {
                if k < w0.free@.len() {
                    assert(self.free@[k] == w0.free@[k]);
                }
            }
            assert forall|a: int, b: int| 0 <= a < b < self.free@.len() implies #[trigger] self.free@[a]
                != #[trigger] self.free@[b] by {
                if b == w0.free@.len() {
                    assert(!w0.alive@[w0.free@[a] as int]);
                } else {
                    assert(self.free@[b] == w0.free@[b]);
                }
            }
            assert forall|k: int| 0 <= k < self.n() && !self.alive@[k] implies #[trigger] self.parts_at(k)
                == Parts::empty() by {
                if k != i {
                    assert(w0.parts_at(k) == Parts::empty());
                }
            }
            assert forall|a: int, b: int|
                0 <= a < self.n() && 0 <= b < self.n() && a != b && (#[trigger] self.collision@[a]).is_some()
                    && (#[trigger] self.collision@[b]).is_some() implies radii_fit(
                self.collision@[a].unwrap(),
                self.collision@[b].unwrap(),
            ) by {
                assert(w0.collision@[a] == self.collision@[a]);
                assert(w0.collision@[b] == self.collision@[b]);
            }
            assert forall|j: int| 0 <= j < w0.n() && j != i implies #[trigger] self.same_slot(&w0, j) by {
                assert(self.parts_at(j) == w0.parts_at(j));
            }
        }
    }

    /// Applies the queued deletions, in one step, and empties the queue. A slot
    /// queued more than once, or whose entity is already dead, is deleted once.
    pub fn maintain(&mut self)
        requires
            old(self).wf(),
        ensures
            final(self).wf(),
            maintained(old(self), final(self)),
    {
        let ghost w0 = *self;
        let mut k: usize = 0;
        while k < self.doomed.len()
            invariant
                self.wf(),
                w0.wf(),
                self.n() == w0.n(),
                self.doomed == w0.doomed,
                k <= self.doomed@.len(),
                forall|i: int|
                    0 <= i < w0.n() ==> #[trigger] self.after_deletes(&w0, w0.doomed@.take(k as int), i),
            decreases self.doomed.len() - k,
        {
            let i = self.doomed[k];
            let ghost w1 = *self;
            proof {
                assert(w0.doomed@.take(k + 1) == w0.doomed@.take(k as int).push(i));
            }
            if self.alive[i] {
                self.kill(i);
            }
            proof {
                assert forall|j: int| 0 <= j < w0.n() implies #[trigger] self.after_deletes(
                    &w0,
                    w0.doomed@.take(k + 1),
                    j,
                ) by {
                    assert(w1.after_deletes(&w0, w0.doomed@.take(k as int), j));
                    lemma_queued_push(w0.doomed@.take(k as int), i, j);
                    if j != i {
                        assert(self.same_slot(&w1, j));
                        assert(self.parts_at(j) == w1.parts_at(j));
                    } else if w1.alive@[j] {
                        assert(w1.same_slot(&w0, j));
                        assert(self.retired(&w1, j));
                    } else {
                        assert(self.parts_at(j) == w1.parts_at(j));
                    }
                }
            }
            k += 1;
        }
        proof {
            assert(w0.doomed@.take(k as int) == w0.doomed@);
        }
        let ghost w2 = *self;
        self.doomed = Vec::new();
        assert forall|i: int| 0 <= i < w0.n() implies #[trigger] self.after_deletes(&w0, w0.doomed@, i) by {
            assert(w2.after_deletes(&w0, w0.doomed@, i));
            assert(self.parts_at(i) == w2.parts_at(i));
        }
        assert forall|i: int| 0 <= i < self.n() && !self.alive@[i] implies #[trigger] self.parts_at(i)
            == Parts::empty() by {
            assert(self.parts_at(i) == w2.parts_at(i));
        }
    }

    /// An empty world.
    pub fn new() -> (w: World)
        ensures
            w.wf(),
            w.n() == 0,
            w.free@.len() == 0,
            w.doomed@.len() == 0,
    {
        World {
            generation: Vec::new(),
            alive: Vec::new(),
            free: Vec::new(),
            doomed: Vec::new(),
            spatial: Vec::new(),
            inertial: Vec::new(),
            control: Vec::new(),
            bullet: Vec::new(),
            asteroid: Vec::new(),
            collision: Vec::new(),
            visual: Vec::new(),
        }
    }

    /// The `Spatial` of a live entity, if it has one.
    pub fn get_spatial(&self, e: Entity) -> (r: Option<Spatial>)
        requires
            self.wf(),
        ensures
            r == if self.live(e) {
                self.spatial@[e.index as int]
            } else {
                None
            },
    {
        if self.is_alive(e) {
            self.spatial[e.index]
        } else {
            None
        }
    }

    /// The `Inertial` of a live entity, if it has one.
    pub fn get_inertial(&self, e: Entity) -> (r: Option<Inertial>)
        requires
            self.wf(),
        ensures
            r == if self.live(e) {
                self.inertial@[e.index as int]
            } else {
                None
            },
    {
        if self.is_alive(e) {
            self.inertial[e.index]
        } else {
            None
        }
    }

    /// The `Control` of a live entity, if it has one.
    pub fn get_control(&self, e: Entity) -> (r: Option<Control>)
        requires
            self.wf(),
        ensures
            r == if self.live(e) {
                self.control@[e.index as int]
            } else {
                None
            },
    {
        if self.is_alive(e) {
            self.control[e.index]
        } else {
            None
        }
    }

    /// The `Bullet` of a live entity, if it has one.
    pub fn get_bullet(&self, e: Entity) -> (r: Option<Bullet>)
        requires
            self.wf(),
        ensures
            r == if self.live(e) {
                self.bullet@[e.index as int]
            } else {
                None
            },
    {
        if self.is_alive(e) {
            self.bullet[e.index]
        } else {
            None
        }
    }

    /// The `Asteroid` of a live entity, if it has one.
    pub fn get_asteroid(&self, e: Entity) -> (r: Option<Asteroid>)
        requires
            self.wf(),
        ensures
            r == if self.live(e) {
                self.asteroid@[e.index as int]
            } else {
                None
            },
    {
        if self.is_alive(e) {
            self.asteroid[e.index]
        } else {
            None
        }
    }

    /// The `Collision` of a live entity, if it has one.
    pub fn get_collision(&self, e: Entity) -> (r: Option<Collision>)
        requires
            self.wf(),
        ensures
            r == if self.live(e) {
                self.collision@[e.index as int]
            } else {
                None
            },
    {
        if self.is_alive(e) {
            self.collision[e.index]
        } else {
            None
        }
    }

    /// The `Drawable` of a live entity, if it has one.
    pub fn get_visual(&self, e: Entity) -> (r: Option<Drawable>)
        requires
            self.wf(),
        ensures
            r == if self.live(e) {
                self.visual@[e.index as int]
            } else {
                None
            },
    {
        if self.is_alive(e) {
            self.visual[e.index]
        } else {
            None
        }
    }

    /// Whether the handle names a live entity.
    pub fn is_alive(&self, e: Entity) -> (r: bool)
        requires
            self.wf(),
        ensures
            r == self.live(e),
    {
        e.index < self.generation.len() && self.alive[e.index] && self.generation[e.index]
            == e.generation
    }
}

} // verus!
