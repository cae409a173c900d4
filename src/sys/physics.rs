use std::collections::HashMap;
use vstd::prelude::*;

use crate::fixed::Vec2;
use crate::world::{radii_fit, queued, Collision, World, CELL_SIZE};

verus! {

broadcast use vstd::std_specs::hash::group_hash_axioms;

/// Distance between the packed keys of two cells that differ by one in `x`.
pub const KEY_STRIDE: i128 = 0x4000_0000_0000;

/// Largest health value; damage received beyond it changes nothing.
pub const HEALTH_CAP: u32 = 0xFFFF;

/// Health left after a hit of `v` on `h`, saturating at zero: `max(h, v) - v`.
pub open spec fn damaged(h: int, v: int) -> int {
    (if h >= v { h } else { v }) - v
}

/// Health left after a hit, saturating at zero.
pub fn apply_damage(health: u16, incoming: u32) -> (r: u16)
    ensures
        r == damaged(health as int, incoming as int),
{
    if (health as u32) > incoming {
        (health as u32 - incoming) as u16
    } else {
        0
    }
}

/// A hit never leaves negative health, and leaves none exactly when it is at
/// least the health.
pub proof fn lemma_damage_saturates(h: int, v: int)
    requires
        0 <= h,
        0 <= v,
    ensures
        damaged(h, v) >= 0,
        damaged(h, v) == 0 <==> v >= h,
        damaged(h, v) <= h,
{
}

/// Grid coordinate, along one axis, of the cell holding coordinate `c`.
pub open spec fn cell_coord(c: int) -> int {
    c / (CELL_SIZE as int)
}

/// Packed key of cell `(cx, cy)`.
pub open spec fn cell_key(cx: int, cy: int) -> int {
    cx * (KEY_STRIDE as int) + cy
}

/// Entity `i` takes part in collisions: it is live, has a position and a
/// collider, and has health left.
pub open spec fn eligible(w: &World, i: int) -> bool {
    &&& 0 <= i < w.n()
    &&& w.alive@[i]
    &&& w.spatial@[i].is_some()
    &&& w.collision@[i].is_some()
    &&& w.collision@[i].unwrap().health > 0
}

pub open spec fn pos_of(w: &World, i: int) -> Vec2 {
    w.spatial@[i].unwrap().pos
}

pub open spec fn collider_of(w: &World, i: int) -> Collision {
    w.collision@[i].unwrap()
}

/// Squared distance below squared sum of radii.
pub open spec fn overlapping(a: Vec2, ra: int, b: Vec2, rb: int) -> bool {
    let dx = a.x - b.x;
    let dy = a.y - b.y;
    dx * dx + dy * dy < (ra + rb) * (ra + rb)
}

/// Entities `i` and `j` are distinct, both eligible, and overlap.
pub open spec fn in_contact(w: &World, i: int, j: int) -> bool {
    &&& i != j
    &&& eligible(w, i)
    &&& eligible(w, j)
    &&& overlapping(
        pos_of(w, i),
        collider_of(w, i).radius as int,
        pos_of(w, j),
        collider_of(w, j).radius as int,
    )
}

/// `p` lists, each once and as `(lower, higher)`, exactly the pairs in contact
/// among the first `k` slots.
pub open spec fn pairs_exact(w: &World, p: Seq<(int, int)>, k: int) -> bool {
    &&& forall|m: int|
        0 <= m < p.len() ==> {
            &&& 0 <= (#[trigger] p[m]).0 < p[m].1 < k
            &&& in_contact(w, p[m].0, p[m].1)
        }
    &&& forall|a: int, b: int|
        0 <= a < b < k && #[trigger] in_contact(w, a, b) ==> exists|m: int|
            0 <= m < p.len() && #[trigger] p[m] == (a, b)
    &&& forall|m1: int, m2: int| 0 <= m1 < m2 < p.len() ==> #[trigger] p[m1] != #[trigger] p[m2]
}

/// Damage that pair `q` deals to entity `e`: the other side's damage value.
pub open spec fn share(w: &World, q: (int, int), e: int) -> int {
    if q.0 == e {
        collider_of(w, q.1).damage as int
    } else if q.1 == e {
        collider_of(w, q.0).damage as int
    } else {
        0
    }
}

/// Total damage that the pairs of `p` deal to entity `e`.
pub open spec fn received(w: &World, p: Seq<(int, int)>, e: int) -> int
    decreases p.len(),
{
    if p.len() == 0 {
        0
    } else {
        received(w, p.drop_last(), e) + share(w, p.last(), e)
    }
}

/// Health of eligible entity `e` after the pairs of `p` have been resolved.
pub open spec fn health_after(w: &World, p: Seq<(int, int)>, e: int) -> int {
    damaged(collider_of(w, e).health as int, received(w, p, e))
}

/// The world after one physics pass over `before` that found the contact
/// pairs `p`: each eligible entity loses, saturating, the damage of every
/// partner; the ones left without health are queued for deletion; nothing
/// else changes.
pub open spec fn resolved(before: &World, after: &World, p: Seq<(int, int)>) -> bool {
    &&& pairs_exact(before, p, before.n())
    &&& after.n() == before.n()
    &&& after.generation == before.generation
    &&& after.alive == before.alive
    &&& after.free == before.free
    &&& after.spatial == before.spatial
    &&& after.inertial == before.inertial
    &&& after.control == before.control
    &&& after.bullet == before.bullet
    &&& after.asteroid == before.asteroid
    &&& after.visual == before.visual
    &&& forall|e: int|
        0 <= e < before.n() ==> #[trigger] after.collision@[e] == if eligible(before, e) {
            Some(
                Collision {
                    health: health_after(before, p, e) as u16,
                    ..collider_of(before, e)
                },
            )
        } else {
            before.collision@[e]
        }
    &&& forall|e: int|
        #[trigger] queued(after.doomed@, e) <==> (queued(before.doomed@, e) || (eligible(before, e)
            && health_after(before, p, e) == 0))
}

/// Damage received, held to the largest health value.
pub open spec fn capped(x: int) -> int {
    if x > HEALTH_CAP { HEALTH_CAP as int } else { x }
}

/// Packed key of the cell holding entity `i`.
pub open spec fn key_of(w: &World, i: int) -> int {
    cell_key(cell_coord(pos_of(w, i).x as int), cell_coord(pos_of(w, i).y as int))
}

/// Entity `j` is listed under its cell's key in grid `g`.
pub open spec fn listed(w: &World, g: Map<i128, Vec<usize>>, j: int) -> bool {
    &&& g.contains_key(key_of(w, j) as i128)
    &&& exists|t: int|
        0 <= t < g[key_of(w, j) as i128]@.len() && #[trigger] g[key_of(w, j) as i128]@[t] as int == j
}

/// The grid holds, under the key of its cell and once, each eligible slot
/// below `k`, and nothing else.
pub open spec fn grid_holds(w: &World, g: Map<i128, Vec<usize>>, k: int) -> bool {
    &&& forall|key: i128, t: int|
        g.contains_key(key) && 0 <= t < g[key]@.len() ==> {
            &&& 0 <= #[trigger] g[key]@[t] < k
            &&& eligible(w, g[key]@[t] as int)
            &&& key_of(w, g[key]@[t] as int) == key
        }
    &&& forall|key: i128, t1: int, t2: int|
        g.contains_key(key) && 0 <= t1 < t2 < g[key]@.len() ==> #[trigger] g[key]@[t1]
            != #[trigger] g[key]@[t2]
    &&& forall|j: int| 0 <= j < k && #[trigger] eligible(w, j) ==> listed(w, g, j)
}

/// The collision system: a spatial hash grid from packed cell keys to the
/// slots registered in each cell during the current pass.
pub struct System {
    grid: HashMap<i128, Vec<usize>>,
}

/// Grid coordinates of a cell.
#[derive(Clone, Copy, PartialEq, Eq, Structural, Debug)]
pub struct Cell(pub i64, pub i64);

impl Cell {
    /// The cell holding point `p`.
    pub fn of(p: Vec2) -> (c: Cell)
        ensures
            c.0 == cell_coord(p.x as int),
            c.1 == cell_coord(p.y as int),
            -0x1000_0000_0000 < c.0 < 0x1000_0000_0000,
            -0x1000_0000_0000 < c.1 < 0x1000_0000_0000,
    {
        proof {
            lemma_cell_bounds(p.x as int);
            lemma_cell_bounds(p.y as int);
        }
        let cx = match p.x.checked_div_euclid(CELL_SIZE as i64) {
            Some(q) => q,
            None => 0,
        };
        let cy = match p.y.checked_div_euclid(CELL_SIZE as i64) {
            Some(q) => q,
            None => 0,
        };
        Cell(cx, cy)
    }

    /// Packed key of the cell at offset `(ox, oy)` from this one.
    pub fn key(self, ox: i64, oy: i64) -> (k: i128)
        requires
            -0x1000_0000_0000 < self.0 < 0x1000_0000_0000,
            -0x1000_0000_0000 < self.1 < 0x1000_0000_0000,
            -1 <= ox <= 1,
            -1 <= oy <= 1,
        ensures
            k == cell_key(self.0 + ox, self.1 + oy),
    {
        (self.0 + ox) as i128 * KEY_STRIDE + (self.1 + oy) as i128
    }
}

/// Whether two colliders overlap.
fn touching(a: Vec2, ra: u32, b: Vec2, rb: u32) -> (r: bool)
    ensures
        r == overlapping(a, ra as int, b, rb as int),
{
    let r: i128 = ra as i128 + rb as i128;
    let dx: i128 = a.x as i128 - b.x as i128;
    let dy: i128 = a.y as i128 - b.y as i128;
    if dx >= r || dx <= -r || dy >= r || dy <= -r {
        proof {
            assert(dx * dx + dy * dy >= r * r) by (nonlinear_arith)
                requires
                    r >= 0,
                    dx >= r || dx <= -r || dy >= r || dy <= -r,
            ;
        }
        false
    } else {
        proof {
            assert(0 <= dx * dx <= 0x10_0000_0000_0000_0000) by (nonlinear_arith)
                requires
                    -r < dx < r,
                    0 <= r <= 0x4_0000_0000,
            ;
            assert(0 <= dy * dy <= 0x10_0000_0000_0000_0000) by (nonlinear_arith)
                requires
                    -r < dy < r,
                    0 <= r <= 0x4_0000_0000,
            ;
            assert(0 <= r * r <= 0x10_0000_0000_0000_0000) by (nonlinear_arith)
                requires
                    0 <= r <= 0x4_0000_0000,
            ;
        }
        let dx2: i128 = dx * dx;
        let dy2: i128 = dy * dy;
        dx2 + dy2 < r * r
    }
}

/// Whether slot `i` takes part in collisions.
fn eligible_at(w: &World, i: usize) -> (r: bool)
    requires
        w.wf(),
        i < w.n(),
    ensures
        r == eligible(w, i as int),
{
    if !w.alive[i] || w.spatial[i].is_none() {
        return false;
    }
    match w.collision[i] {
        Some(c) => c.health > 0,
        None => false,
    }
}

proof fn lemma_received_push(w: &World, p: Seq<(int, int)>, q: (int, int), e: int)
    ensures
        received(w, p.push(q), e) == received(w, p, e) + share(w, q, e),
{
    assert(p.push(q).drop_last() == p);
}

#[verifier::rlimit(60)]
/// Tests entity `k` against every slot in `list`, recording each pair in
/// contact and adding each side's damage to the other's total.
fn scan_list(
    w: &World,
    list: &Vec<usize>,
    k: usize,
    key: Ghost<int>,
    acc: &mut Vec<u32>,
    p0: Ghost<Seq<(int, int)>>,
) -> (p: Ghost<Seq<(int, int)>>)
    requires
        w.wf(),
        eligible(w, k as int),
        old(acc)@.len() == w.n(),
        forall|t: int|
            0 <= t < list@.len() ==> {
                &&& 0 <= #[trigger] list@[t] < k
                &&& eligible(w, list@[t] as int)
                &&& key_of(w, list@[t] as int) == key@
            },
        forall|t1: int, t2: int| 0 <= t1 < t2 < list@.len() ==> #[trigger] list@[t1] != #[trigger] list@[t2],
        forall|e: int| 0 <= e < w.n() ==> #[trigger] old(acc)@[e] == capped(received(w, p0@, e)),
    ensures
        final(acc)@.len() == w.n(),
        forall|e: int| 0 <= e < w.n() ==> #[trigger] final(acc)@[e] == capped(received(w, p@, e)),
        p0@.len() <= p@.len(),
        p@.take(p0@.len() as int) == p0@,
        forall|m: int|
            p0@.len() <= m < p@.len() ==> {
                &&& (#[trigger] p@[m]).1 == k
                &&& 0 <= p@[m].0 < k
                &&& in_contact(w, p@[m].0, k as int)
                &&& key_of(w, p@[m].0) == key@
            },
        forall|m1: int, m2: int|
            p0@.len() <= m1 < m2 < p@.len() ==> #[trigger] p@[m1] != #[trigger] p@[m2],
        forall|t: int|
            0 <= t < list@.len() && in_contact(w, #[trigger] list@[t] as int, k as int) ==> exists|m: int|
                p0@.len() <= m < p@.len() && p@[m] == (list@[t] as int, k as int),
{
    let sk = w.spatial[k].unwrap();
    let ck = w.collision[k].unwrap();
    let ghost mut p = p0@;
    assert(p.take(p0@.len() as int) =~= p0@);
    let mut t: usize = 0;
    while t < list.len()
        invariant
            w.wf(),
            eligible(w, k as int),
            sk == w.spatial@[k as int].unwrap(),
            ck == w.collision@[k as int].unwrap(),
            t <= list@.len(),
            acc@.len() == w.n(),
            forall|t: int|
                0 <= t < list@.len() ==> {
                    &&& 0 <= #[trigger] list@[t] < k
                    &&& eligible(w, list@[t] as int)
                    &&& key_of(w, list@[t] as int) == key@
                },
            forall|t1: int, t2: int| 0 <= t1 < t2 < list@.len() ==> #[trigger] list@[t1] != #[trigger] list@[t2],
            forall|e: int| 0 <= e < w.n() ==> #[trigger] acc@[e] == capped(received(w, p, e)),
            p0@.len() <= p.len(),
            p.take(p0@.len() as int) == p0@,
            forall|m: int|
                p0@.len() <= m < p.len() ==> {
                    &&& (#[trigger] p[m]).1 == k
                    &&& 0 <= p[m].0 < k
                    &&& in_contact(w, p[m].0, k as int)
                    &&& key_of(w, p[m].0) == key@
                    &&& exists|t2: int| 0 <= t2 < t && list@[t2] as int == p[m].0
                },
            forall|m1: int, m2: int| p0@.len() <= m1 < m2 < p.len() ==> #[trigger] p[m1] != #[trigger] p[m2],
            forall|t1: int|
                0 <= t1 < t && in_contact(w, #[trigger] list@[t1] as int, k as int) ==> exists|m: int|
                    p0@.len() <= m < p.len() && p[m] == (list@[t1] as int, k as int),
        decreases list.len() - t,
    {
        let j = list[t];
        let sj = w.spatial[j].unwrap();
        let cj = w.collision[j].unwrap();
        if touching(sj.pos, cj.radius, sk.pos, ck.radius) {
            let ghost q = (j as int, k as int);
            let ghost p_old = p;
            let aj = acc[j];
            let ak = acc[k];
            let nj: u32 = if aj + ck.damage as u32 > HEALTH_CAP {
                HEALTH_CAP
            } else {
                aj + ck.damage as u32
            };
            let nk: u32 = if ak + cj.damage as u32 > HEALTH_CAP {
                HEALTH_CAP
            } else {
                ak + cj.damage as u32
            };
            acc.set(j, nj);
            acc.set(k, nk);
            proof {
                p = p.push(q);
                assert forall|e: int| 0 <= e < w.n() implies #[trigger] acc@[e] == capped(
                    received(w, p, e),
                ) by {
                    lemma_received_push(w, p_old, q, e);
                }
                assert(p.take(p0@.len() as int) == p_old.take(p0@.len() as int));
                assert forall|m: int| p0@.len() <= m < p.len() implies {
                    &&& (#[trigger] p[m]).1 == k
                    &&& 0 <= p[m].0 < k
                    &&& in_contact(w, p[m].0, k as int)
                    &&& key_of(w, p[m].0) == key@
                    &&& exists|t2: int| 0 <= t2 < t + 1 && list@[t2] as int == p[m].0
                } by {
                    if m < p_old.len() {
                        assert(p[m] == p_old[m]);
                        let t2 = choose|t2: int| 0 <= t2 < t && list@[t2] as int == p_old[m].0;
                        assert(0 <= t2 < t + 1 && list@[t2] as int == p[m].0);
                    } else {
                        assert(list@[t as int] as int == p[m].0);
                    }
                }
                assert forall|m1: int, m2: int| p0@.len() <= m1 < m2 < p.len() implies #[trigger] p[m1]
                    != #[trigger] p[m2] by {
                    if m2 == p_old.len() {
                        assert(p[m1] == p_old[m1]);
                        let t2 = choose|t2: int| 0 <= t2 < t && list@[t2] as int == p_old[m1].0;
                        assert(list@[t2] != list@[t as int]);
                    } else {
                        assert(p[m1] == p_old[m1]);
                        assert(p[m2] == p_old[m2]);
                    }
                }
                assert forall|t1: int|
                    0 <= t1 < t + 1 && in_contact(w, #[trigger] list@[t1] as int, k as int) implies exists|m: int|
                    p0@.len() <= m < p.len() && p[m] == (list@[t1] as int, k as int) by {
                    if t1 == t {
                        assert(p[p_old.len() as int] == q);
                    } else {
                        let m = choose|m: int|
                            p0@.len() <= m < p_old.len() && p_old[m] == (list@[t1] as int, k as int);
                        assert(p[m] == p_old[m]);
                    }
                }
            }
        } else {
            proof {
                assert forall|m: int| p0@.len() <= m < p.len() implies exists|t2: int|
                    0 <= t2 < t + 1 && list@[t2] as int == (#[trigger] p[m]).0 by {
                    let t2 = choose|t2: int| 0 <= t2 < t && list@[t2] as int == p[m].0;
                }
                assert(!in_contact(w, list@[t as int] as int, k as int));
            }
        }
        t += 1;
    }
    Ghost(p)
}

pub open spec fn cx_of(w: &World, i: int) -> int {
    cell_coord(pos_of(w, i).x as int)
}

pub open spec fn cy_of(w: &World, i: int) -> int {
    cell_coord(pos_of(w, i).y as int)
}

/// Entity `j` lies in the cell of entity `k` or in one of its eight neighbours.
pub open spec fn near(w: &World, j: int, k: int) -> bool {
    &&& -1 <= cx_of(w, j) - cx_of(w, k) <= 1
    &&& -1 <= cy_of(w, j) - cy_of(w, k) <= 1
}

/// Rank, from 0 to 8, of the neighbour cell of `k` that holds `j`.
pub open spec fn rank(w: &World, j: int, k: int) -> int {
    (cx_of(w, j) - cx_of(w, k) + 1) * 3 + (cy_of(w, j) - cy_of(w, k) + 1)
}

proof fn lemma_cell_of_bounded(w: &World, i: int)
    requires
        w.wf(),
        eligible(w, i),
    ensures
        -0x1000_0000_0000 < cx_of(w, i) < 0x1000_0000_0000,
        -0x1000_0000_0000 < cy_of(w, i) < 0x1000_0000_0000,
{
    lemma_cell_bounds(pos_of(w, i).x as int);
    lemma_cell_bounds(pos_of(w, i).y as int);
}

/// Entity `j` under key `key` of the neighbour of rank `r` of `k`'s cell has rank `r`.
proof fn lemma_key_rank(w: &World, j: int, k: int, r: int, key: int)
    requires
        w.wf(),
        eligible(w, j),
        eligible(w, k),
        0 <= r < 9,
        key == cell_key(cx_of(w, k) + (r / 3 - 1), cy_of(w, k) + (r % 3 - 1)),
    ensures
        key_of(w, j) == key <==> (near(w, j, k) && rank(w, j, k) == r),
{
    lemma_cell_of_bounded(w, j);
    lemma_cell_of_bounded(w, k);
    if key_of(w, j) == key {
        lemma_key_injective(cx_of(w, j), cy_of(w, j), cx_of(w, k) + (r / 3 - 1), cy_of(w, k) + (r % 3 - 1));
    }
    if near(w, j, k) && rank(w, j, k) == r {
        let dx = cx_of(w, j) - cx_of(w, k);
        let dy = cy_of(w, j) - cy_of(w, k);
        assert(dx == r / 3 - 1 && dy == r % 3 - 1) by (nonlinear_arith)
            requires
                -1 <= dx <= 1,
                -1 <= dy <= 1,
                (dx + 1) * 3 + (dy + 1) == r,
        ;
    }
}

impl System {
    /// Registers eligible entity `k` under its cell's key.
    fn register(&mut self, w: &World, k: usize)
        requires
            w.wf(),
            eligible(w, k as int),
            grid_holds(w, old(self).grid@, k as int),
        ensures
            grid_holds(w, final(self).grid@, k + 1),
    {
        let cell = Cell::of(w.spatial[k].unwrap().pos);
        let key = cell.key(0, 0);
        let ghost g = self.grid@;
        let mut list = match self.grid.remove(&key) {
            Some(l) => l,
            None => Vec::new(),
        };
        let ghost l0 = list@;
        proof {
            if g.contains_key(key) {
                assert(l0 == g[key]@);
            } else {
                assert(l0.len() == 0);
            }
        }
        list.push(k);
        self.grid.insert(key, list);
        proof {
            let g2 = self.grid@;
            assert(g2 == g.insert(key, list));
            assert(key_of(w, k as int) == key);
            assert forall|kk: i128, t: int| g2.contains_key(kk) && 0 <= t < g2[kk]@.len() implies {
                &&& 0 <= #[trigger] g2[kk]@[t] < k + 1
                &&& eligible(w, g2[kk]@[t] as int)
                &&& key_of(w, g2[kk]@[t] as int) == kk
            } by {
                if kk == key {
                    if t < l0.len() {
                        assert(g2[kk]@[t] == g[kk]@[t]);
                    }
                } else {
                    assert(g2[kk] == g[kk]);
                }
            }
            assert forall|kk: i128, t1: int, t2: int| g2.contains_key(kk) && 0 <= t1 < t2 < g2[kk]@.len() implies #[trigger] g2[kk]@[t1]
                != #[trigger] g2[kk]@[t2] by {
                if kk == key {
                    if t2 < l0.len() {
                        assert(g2[kk]@[t1] == g[kk]@[t1]);
                        assert(g2[kk]@[t2] == g[kk]@[t2]);
                    } else {
                        assert(g2[kk]@[t1] == g[kk]@[t1]);
                    }
                } else {
                    assert(g2[kk] == g[kk]);
                }
            }
            assert forall|j: int| 0 <= j < k + 1 && #[trigger] eligible(w, j) implies listed(w, g2, j) by {
                if j == k {
                    assert(g2[key]@[l0.len() as int] as int == j);
                } else if key_of(w, j) as i128 == key {
                    assert(listed(w, g, j));
                    let t = choose|t: int|
                        0 <= t < g[key_of(w, j) as i128]@.len() && #[trigger] g[key_of(w, j) as i128]@[t] as int == j;
                    assert(g2[key]@[t] as int == j);
                } else {
                    assert(listed(w, g, j));
                    assert(g2[key_of(w, j) as i128] == g[key_of(w, j) as i128]);
                }
            }
        }
    }

    /// Finds every pair in contact and totals, capped, the damage each entity
    /// receives.
    fn contacts(&mut self, w: &World) -> (r: (Vec<u32>, Ghost<Seq<(int, int)>>))
        requires
            w.wf(),
        ensures
            r.0@.len() == w.n(),
            pairs_exact(w, r.1@, w.n()),
            forall|e: int| 0 <= e < w.n() ==> #[trigger] r.0@[e] == capped(received(w, r.1@, e)),
    {
        self.grid = HashMap::new();
        let n = w.generation.len();
        let mut acc: Vec<u32> = Vec::new();
        while acc.len() < n
            invariant
                acc@.len() <= n,
                forall|e: int| 0 <= e < acc@.len() ==> #[trigger] acc@[e] == 0,
            decreases n - acc.len(),
        {
            acc.push(0);
        }
        let ghost mut p: Seq<(int, int)> = Seq::empty();
        let mut k: usize = 0;
        while k < n
            invariant
                w.wf(),
                n == w.n(),
                k <= n,
                grid_holds(w, self.grid@, k as int),
                acc@.len() == n,
                forall|e: int| 0 <= e < w.n() ==> #[trigger] acc@[e] == capped(received(w, p, e)),
                pairs_exact(w, p, k as int),
            decreases n - k,
        {
            if eligible_at(w, k) {
                let ghost pk = p;
                let Ghost(p2) = self.scan_neighbours(w, k, &mut acc, Ghost(p));
                proof {
                    p = p2;
                    assert forall|m: int| 0 <= m < p.len() implies {
                        &&& 0 <= (#[trigger] p[m]).0 < p[m].1 < k + 1
                        &&& in_contact(w, p[m].0, p[m].1)
                    } by {
                        if m < pk.len() {
                            assert(p[m] == p.take(pk.len() as int)[m]);
                        }
                    }
                    assert forall|a: int, b: int| 0 <= a < b < k + 1 && #[trigger] in_contact(w, a, b) implies exists|m: int|
                        0 <= m < p.len() && #[trigger] p[m] == (a, b) by {
                        if b < k {
                            let m = choose|m: int| 0 <= m < pk.len() && #[trigger] pk[m] == (a, b);
                            assert(p[m] == p.take(pk.len() as int)[m]);
                        }
                    }
                    assert forall|m1: int, m2: int| 0 <= m1 < m2 < p.len() implies #[trigger] p[m1]
                        != #[trigger] p[m2] by {
                        if m1 < pk.len() {
                            assert(p[m1] == p.take(pk.len() as int)[m1]);
                            if m2 < pk.len() {
                                assert(p[m2] == p.take(pk.len() as int)[m2]);
                            }
                        }
                    }
                }
                self.register(w, k);
            } else {
                proof {
                    assert forall|j: int| 0 <= j < k + 1 && #[trigger] eligible(w, j) implies listed(w, self.grid@, j) by {
                    }
                    assert forall|a: int, b: int| 0 <= a < b < k + 1 && #[trigger] in_contact(w, a, b) implies exists|m: int|
                        0 <= m < p.len() && #[trigger] p[m] == (a, b) by {
                    }
                }
            }
            k += 1;
        }
        (acc, Ghost(p))
    }

    /// A collision system with an empty grid.
    pub fn new() -> System {
        System { grid: HashMap::new() }
    }

    /// One physics pass: every pair of eligible entities in contact deals each
    /// side the other's damage, once, whatever the order of the scan; entities
    /// left without health are queued for deletion.
    pub fn run(&mut self, w: &mut World)
        requires
            old(w).wf(),
        ensures
            final(w).wf(),
            physics_step(old(w), final(w)),
    {
        let (acc, Ghost(p)) = self.contacts(w);
        let ghost w0 = *w;
        let n = w.generation.len();
        let mut e: usize = 0;
        while e < n
            invariant
                w0.wf(),
                w.wf(),
                n == w0.n(),
                e <= n,
                acc@.len() == n,
                forall|i: int| 0 <= i < n ==> #[trigger] acc@[i] == capped(received(&w0, p, i)),
                w.n() == w0.n(),
                w.generation == w0.generation,
                w.alive == w0.alive,
                w.free == w0.free,
                w.spatial == w0.spatial,
                w.inertial == w0.inertial,
                w.control == w0.control,
                w.bullet == w0.bullet,
                w.asteroid == w0.asteroid,
                w.visual == w0.visual,
                forall|i: int|
                    0 <= i < n ==> #[trigger] w.collision@[i] == if i < e && eligible(&w0, i) {
                        Some(
                            Collision {
                                health: health_after(&w0, p, i) as u16,
                                ..collider_of(&w0, i)
                            },
                        )
                    } else {
                        w0.collision@[i]
                    },
                forall|i: int|
                    #[trigger] queued(w.doomed@, i) <==> (queued(w0.doomed@, i) || (0 <= i < e && eligible(&w0, i)
                        && health_after(&w0, p, i) == 0)),
            decreases n - e,
        {
            let ghost w1 = *w;
            if eligible_at(w, e) {
                let c = w.collision[e].unwrap();
                let h = apply_damage(c.health, acc[e]);
                proof {
                    assert(h == health_after(&w0, p, e as int));
                }
                w.collision.set(e, Some(Collision { health: h, ..c }));
                if h == 0 {
                    w.doomed.push(e);
                }
                proof {
                    assert forall|i: int| #[trigger] queued(w.doomed@, i) <==> (queued(w0.doomed@, i) || (0 <= i
                        < e + 1 && eligible(&w0, i) && health_after(&w0, p, i) == 0)) by {
                        if h == 0 {
                            crate::world::lemma_queued_push(w1.doomed@, e, i);
                        }
                    }
                    assert forall|k: int| 0 <= k < w.doomed@.len() implies 0 <= #[trigger] w.doomed@[k] < w.n() by {
                        if k < w1.doomed@.len() {
                            assert(w.doomed@[k] == w1.doomed@[k]);
                        }
                    }
                    assert forall|i: int| 0 <= i < w.n() && !w.alive@[i] implies #[trigger] w.parts_at(i)
                        == crate::world::Parts::empty() by {
                        assert(w1.parts_at(i) == crate::world::Parts::empty());
                    }
                    assert forall|a: int, b: int|
                        0 <= a < w.n() && 0 <= b < w.n() && a != b && (#[trigger] w.collision@[a]).is_some()
                            && (#[trigger] w.collision@[b]).is_some() implies radii_fit(
                        w.collision@[a].unwrap(),
                        w.collision@[b].unwrap(),
                    ) by {
                        assert(w1.collision@[a].is_some() && w1.collision@[b].is_some());
                    }
                }
            }
            e += 1;
        }
        proof {
            assert(resolved(&w0, w, p));
        }
    }

    /// Tests entity `k` against every eligible slot below it in the nine cells
    /// around its own.
    #[verifier::rlimit(80)]
    fn scan_neighbours(&self, w: &World, k: usize, acc: &mut Vec<u32>, pk: Ghost<Seq<(int, int)>>) -> (p: Ghost<
        Seq<(int, int)>,
    >)
        requires
            w.wf(),
            eligible(w, k as int),
            grid_holds(w, self.grid@, k as int),
            old(acc)@.len() == w.n(),
            forall|e: int| 0 <= e < w.n() ==> #[trigger] old(acc)@[e] == capped(received(w, pk@, e)),
        ensures
            final(acc)@.len() == w.n(),
            forall|e: int| 0 <= e < w.n() ==> #[trigger] final(acc)@[e] == capped(received(w, p@, e)),
            pk@.len() <= p@.len(),
            p@.take(pk@.len() as int) == pk@,
            forall|m: int|
                pk@.len() <= m < p@.len() ==> {
                    &&& (#[trigger] p@[m]).1 == k
                    &&& 0 <= p@[m].0 < k
                    &&& in_contact(w, p@[m].0, k as int)
                },
            forall|m1: int, m2: int|
                pk@.len() <= m1 < m2 < p@.len() ==> #[trigger] p@[m1] != #[trigger] p@[m2],
            forall|j: int|
                0 <= j < k && #[trigger] in_contact(w, j, k as int) ==> exists|m: int|
                    pk@.len() <= m < p@.len() && p@[m] == (j, k as int),
    {
        let cell = Cell::of(w.spatial[k].unwrap().pos);
        let ghost g = self.grid@;
        let ghost mut p = pk@;
        assert(p.take(pk@.len() as int) =~= pk@);
        let mut r: i64 = 0;
        while r < 9
            invariant
                w.wf(),
                eligible(w, k as int),
                grid_holds(w, g, k as int),
                g == self.grid@,
                cell.0 == cx_of(w, k as int),
                cell.1 == cy_of(w, k as int),
                -0x1000_0000_0000 < cell.0 < 0x1000_0000_0000,
                -0x1000_0000_0000 < cell.1 < 0x1000_0000_0000,
                0 <= r <= 9,
                acc@.len() == w.n(),
                forall|e: int| 0 <= e < w.n() ==> #[trigger] acc@[e] == capped(received(w, p, e)),
                pk@.len() <= p.len(),
                p.take(pk@.len() as int) == pk@,
                forall|m: int|
                    pk@.len() <= m < p.len() ==> {
                        &&& (#[trigger] p[m]).1 == k
                        &&& 0 <= p[m].0 < k
                        &&& in_contact(w, p[m].0, k as int)
                        &&& near(w, p[m].0, k as int)
                        &&& rank(w, p[m].0, k as int) < r
                    },
                forall|m1: int, m2: int| pk@.len() <= m1 < m2 < p.len() ==> #[trigger] p[m1] != #[trigger] p[m2],
                forall|j: int|
                    0 <= j < k && #[trigger] in_contact(w, j, k as int) && near(w, j, k as int) && rank(
                        w,
                        j,
                        k as int,
                    ) < r ==> exists|m: int| pk@.len() <= m < p.len() && p[m] == (j, k as int),
            decreases 9 - r,
        {
            let key = cell.key(r / 3 - 1, r % 3 - 1);
            let ghost p_old = p;
            match self.grid.get(&key) {
                Some(list) => {
                    proof {
                        assert(*list == g[key]);
                        assert forall|t: int| 0 <= t < list@.len() implies {
                            &&& 0 <= #[trigger] list@[t] < k
                            &&& eligible(w, list@[t] as int)
                            &&& key_of(w, list@[t] as int) == key as int
                        } by {
                            assert(g[key]@[t] == list@[t]);
                        }
                        assert forall|t1: int, t2: int| 0 <= t1 < t2 < list@.len() implies #[trigger] list@[t1]
                            != #[trigger] list@[t2] by {
                            assert(g[key]@[t1] == list@[t1]);
                            assert(g[key]@[t2] == list@[t2]);
                        }
                    }
                    let Ghost(p_new) = scan_list(w, list, k, Ghost(key as int), acc, Ghost(p));
                    proof {
                        p = p_new;
                        assert(p.take(pk@.len() as int) =~= p.take(p_old.len() as int).take(pk@.len() as int));
                        assert forall|m: int| pk@.len() <= m < p.len() implies {
                            &&& (#[trigger] p[m]).1 == k
                            &&& 0 <= p[m].0 < k
                            &&& in_contact(w, p[m].0, k as int)
                            &&& near(w, p[m].0, k as int)
                            &&& rank(w, p[m].0, k as int) < r + 1
                        } by {
                            if m < p_old.len() {
                                assert(p[m] == p.take(p_old.len() as int)[m]);
                            } else {
                                lemma_key_rank(w, p[m].0, k as int, r as int, key as int);
                            }
                        }
                        assert forall|m1: int, m2: int| pk@.len() <= m1 < m2 < p.len() implies #[trigger] p[m1]
                            != #[trigger] p[m2] by {
                            if m2 < p_old.len() {
                                assert(p[m1] == p.take(p_old.len() as int)[m1]);
                                assert(p[m2] == p.take(p_old.len() as int)[m2]);
                            } else if m1 < p_old.len() {
                                assert(p[m1] == p.take(p_old.len() as int)[m1]);
                                lemma_key_rank(w, p[m2].0, k as int, r as int, key as int);
                            }
                        }
                        assert forall|j: int|
                            0 <= j < k && #[trigger] in_contact(w, j, k as int) && near(w, j, k as int) && rank(
                                w,
                                j,
                                k as int,
                            ) < r + 1 implies exists|m: int| pk@.len() <= m < p.len() && p[m] == (j, k as int) by {
                            if rank(w, j, k as int) < r {
                                let m = choose|m: int| pk@.len() <= m < p_old.len() && p_old[m] == (j, k as int);
                                assert(p[m] == p.take(p_old.len() as int)[m]);
                            } else {
                                lemma_key_rank(w, j, k as int, r as int, key as int);
                                assert(listed(w, g, j));
                                let t = choose|t: int|
                                    0 <= t < g[key_of(w, j) as i128]@.len() && #[trigger] g[key_of(
                                        w,
                                        j,
                                    ) as i128]@[t] as int == j;
                                assert(list@[t] as int == j);
                                assert(in_contact(w, list@[t] as int, k as int));
                            }
                        }
                    }
                },
                None => {
                    proof {
                        assert(!g.contains_key(key));
                        assert forall|j: int|
                            0 <= j < k && #[trigger] in_contact(w, j, k as int) && near(w, j, k as int) && rank(
                                w,
                                j,
                                k as int,
                            ) < r + 1 implies exists|m: int| pk@.len() <= m < p.len() && p[m] == (j, k as int) by {
                            if rank(w, j, k as int) == r {
                                lemma_key_rank(w, j, k as int, r as int, key as int);
                                assert(listed(w, g, j));
                            }
                        }
                    }
                },
            }
            r += 1;
        }
        proof {
            assert forall|j: int| 0 <= j < k && #[trigger] in_contact(w, j, k as int) implies exists|m: int|
                pk@.len() <= m < p.len() && p[m] == (j, k as int) by {
                lemma_contact_is_near(
                    pos_of(w, j),
                    collider_of(w, j).radius as int,
                    pos_of(w, k as int),
                    collider_of(w, k as int).radius as int,
                );
                assert(w.colliders_fit());
                assert(w.collision@[j].is_some() && w.collision@[k as int].is_some());
            }
        }
        Ghost(p)
    }
}

/// In a physics pass, every pair of entities in contact at the start of the
/// tick is resolved exactly once, whatever the scan order, and each side takes
/// the other's damage value from before the pass.
pub proof fn lemma_contact_symmetric(before: &World, after: &World, p: Seq<(int, int)>, a: int, b: int)
    requires
        resolved(before, after, p),
        0 <= a < b < before.n(),
        in_contact(before, a, b),
    ensures
        exists|m: int| 0 <= m < p.len() && p[m] == (a, b),
        forall|m1: int, m2: int| 0 <= m1 < m2 < p.len() && p[m1] == (a, b) ==> p[m2] != (a, b),
        forall|m: int| 0 <= m < p.len() && p[m] == (a, b) ==> share(before, p[m], a) == collider_of(before, b).damage
            && share(before, p[m], b) == collider_of(before, a).damage,
{
    assert(pairs_exact(before, p, before.n()));
}

/// One physics step from `before` to `after`: some list of contact pairs,
/// each pair once, was resolved.
pub open spec fn physics_step(before: &World, after: &World) -> bool {
    exists|p: Seq<(int, int)>| resolved(before, after, p)
}

/// Two overlapping colliders that fit the grid lie in the same or in
/// neighbouring cells, on each axis.
pub proof fn lemma_contact_is_near(a: Vec2, ra: int, b: Vec2, rb: int)
    requires
        0 <= ra,
        0 <= rb,
        ra + rb <= CELL_SIZE,
        overlapping(a, ra, b, rb),
    ensures
        -1 <= cell_coord(a.x as int) - cell_coord(b.x as int) <= 1,
        -1 <= cell_coord(a.y as int) - cell_coord(b.y as int) <= 1,
{
    let r = ra + rb;
    let dx = a.x - b.x;
    let dy = a.y - b.y;
    assert(-r < dx < r && -r < dy < r) by (nonlinear_arith)
        requires
            dx * dx + dy * dy < r * r,
            r >= 0,
    ;
    lemma_near_cells(a.x as int, b.x as int);
    lemma_near_cells(a.y as int, b.y as int);
}

proof fn lemma_near_cells(a: int, b: int)
    requires
        -(CELL_SIZE as int) < a - b < CELL_SIZE,
    ensures
        -1 <= cell_coord(a) - cell_coord(b) <= 1,
{
    let c = CELL_SIZE as int;
    vstd::arithmetic::div_mod::lemma_fundamental_div_mod(a, c);
    vstd::arithmetic::div_mod::lemma_fundamental_div_mod(b, c);
    let qa = a / c;
    let qb = b / c;
    let ra = a % c;
    let rb = b % c;
    assert(-1 <= qa - qb <= 1) by (nonlinear_arith)
        requires
            a == c * qa + ra,
            b == c * qb + rb,
            0 <= ra < c,
            0 <= rb < c,
            -c < a - b < c,
            c > 0,
    ;
}

/// Cells of coordinates that an `i64` holds stay far inside the key stride.
proof fn lemma_cell_bounds(c: int)
    requires
        i64::MIN <= c <= i64::MAX,
    ensures
        -0x1000_0000_0000 < cell_coord(c) < 0x1000_0000_0000,
{
    let q = cell_coord(c);
    vstd::arithmetic::div_mod::lemma_fundamental_div_mod(c, CELL_SIZE as int);
    let r = c % (CELL_SIZE as int);
    assert(-0x1000_0000_0000 < q < 0x1000_0000_0000) by (nonlinear_arith)
        requires
            c == 1_000_000 * q + r,
            0 <= r < 1_000_000,
            -0x8000_0000_0000_0000 <= c <= 0x7fff_ffff_ffff_ffff,
    ;
}

/// Cell keys tell cells apart.
proof fn lemma_key_injective(a: int, b: int, c: int, d: int)
    requires
        -0x2000_0000_0000 < b < 0x2000_0000_0000,
        -0x2000_0000_0000 < d < 0x2000_0000_0000,
        cell_key(a, b) == cell_key(c, d),
    ensures
        a == c,
        b == d,
{
    assert(a == c) by (nonlinear_arith)
        requires
            a * 0x4000_0000_0000 + b == c * 0x4000_0000_0000 + d,
            -0x2000_0000_0000 < b < 0x2000_0000_0000,
            -0x2000_0000_0000 < d < 0x2000_0000_0000,
    ;
}

} // verus!
