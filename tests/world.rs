use asteroids::fixed::{Vec2, ONE};
use asteroids::world::{Asteroid, Collision, Drawable, Entity, Parts, Spatial, World};

fn at(x: i64) -> Parts {
    let mut p = Parts::none();
    p.spatial = Some(Spatial { pos: Vec2 { x, y: 0 }, orient: 0, scale: ONE });
    p
}

#[test]
fn deletion_waits_for_maintain() {
    let mut w = World::new();
    let a = w.create(at(1)).unwrap();
    let b = w.create(at(2)).unwrap();
    w.delete(a);
    assert!(w.is_alive(a));
    assert_eq!(w.get_spatial(a).unwrap().pos.x, 1);
    w.maintain();
    assert!(!w.is_alive(a));
    assert!(w.get_spatial(a).is_none());
    assert!(w.is_alive(b));
    assert!(w.doomed.is_empty());
}

#[test]
fn recycled_slot_gets_new_generation() {
    let mut w = World::new();
    let a = w.create(at(1)).unwrap();
    w.delete(a);
    w.delete(a);
    w.maintain();
    let c = w.create(at(3)).unwrap();
    assert_eq!(c.index, a.index);
    assert_eq!(c.generation, a.generation + 1);
    assert!(!w.is_alive(a));
    assert!(w.is_alive(c));
    assert!(w.get_spatial(a).is_none());
    assert_eq!(w.get_spatial(c).unwrap().pos.x, 3);
    // a stale handle is ignored by delete
    w.delete(a);
    assert!(w.doomed.is_empty());
}

#[test]
fn recycled_slot_starts_empty() {
    let mut w = World::new();
    let mut p = at(1);
    p.asteroid = Some(Asteroid { kind: 0 });
    p.visual = Some(Drawable(4));
    let a = w.create(p).unwrap();
    w.delete(a);
    w.maintain();
    let c = w.create(at(2)).unwrap();
    assert!(w.get_asteroid(c).is_none());
    assert!(w.get_visual(c).is_none());
    assert!(w.get_inertial(c).is_none());
    assert!(w.get_control(c).is_none());
    assert!(w.get_bullet(c).is_none());
    assert!(w.get_collision(c).is_none());
}

#[test]
fn spent_generation_retires_slot() {
    let mut w = World::new();
    let a = w.create(at(1)).unwrap();
    w.generation[a.index] = u64::MAX;
    let a = Entity { index: a.index, generation: u64::MAX };
    w.delete(a);
    w.maintain();
    assert!(w.free.is_empty());
    let c = w.create(at(2)).unwrap();
    assert_ne!(c.index, a.index);
}

#[test]
fn components_attach_and_detach() {
    let mut w = World::new();
    let a = w.create(at(1)).unwrap();
    let b = w.create(at(2)).unwrap();
    let mut p = at(5);
    p.asteroid = Some(Asteroid { kind: 0 });
    p.collision = Some(Collision { radius: 600_000, health: 1, damage: 1 });
    assert!(w.set_parts(a, p));
    assert_eq!(w.get_asteroid(a), Some(Asteroid { kind: 0 }));
    assert_eq!(w.get_spatial(a).unwrap().pos.x, 5);
    assert_eq!(w.get_spatial(b).unwrap().pos.x, 2);
    // a second large collider does not fit the grid
    let mut q = at(2);
    q.collision = Some(Collision { radius: 500_000, health: 1, damage: 1 });
    assert!(!w.set_parts(b, q));
    assert!(w.get_collision(b).is_none());
    // the entity's own collider does not count against it
    p.collision = Some(Collision { radius: 900_000, health: 1, damage: 1 });
    assert!(w.set_parts(a, p));
    // detach everything
    assert!(w.set_parts(a, Parts::none()));
    assert!(w.get_spatial(a).is_none());
    assert!(w.is_alive(a));
    w.delete(a);
    w.maintain();
    assert!(!w.set_parts(a, at(1)));
}
