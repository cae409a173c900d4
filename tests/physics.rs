use asteroids::fixed::{Vec2, ONE};
use asteroids::sys::physics::{apply_damage, Cell, System};
use asteroids::world::{Asteroid, Bullet, Collision, Parts, Spatial, World, CELL_SIZE};

fn body(x: i64, y: i64, radius: u32, health: u16, damage: u16) -> Parts {
    let mut p = Parts::none();
    p.spatial = Some(Spatial { pos: Vec2 { x, y }, orient: 0, scale: ONE });
    p.collision = Some(Collision { radius, health, damage });
    p
}

#[test]
fn damage_saturates_at_zero() {
    assert_eq!(apply_damage(3, 2), 1);
    assert_eq!(apply_damage(1, 2), 0);
    assert_eq!(apply_damage(5, 5), 0);
    assert_eq!(apply_damage(0, 3), 0);
    assert_eq!(apply_damage(7, 0), 7);
    assert_eq!(apply_damage(u16::MAX, 1), u16::MAX - 1);
    assert_eq!(apply_damage(10, 70_000), 0);
}

#[test]
fn two_bodies_trade_damage_and_survive() {
    let mut w = World::new();
    let a = w.create(body(0, 0, 300_000, 3, 2)).unwrap();
    let b = w.create(body(500_000, 0, 300_000, 3, 2)).unwrap();
    let mut phys = System::new();
    phys.run(&mut w);
    assert_eq!(w.get_collision(a).unwrap().health, 1);
    assert_eq!(w.get_collision(b).unwrap().health, 1);
    assert!(w.doomed.is_empty());
    w.maintain();
    assert!(w.is_alive(a));
    assert!(w.is_alive(b));
}

#[test]
fn bullet_and_asteroid_destroy_each_other() {
    let mut w = World::new();
    let mut bp = body(0, 0, 10_000, 1, 1);
    bp.bullet = Some(Bullet { life_time: Some(ONE as u64) });
    let mut ap = body(200_000, 100_000, 500_000, 1, 2);
    ap.asteroid = Some(Asteroid { kind: 0 });
    let bullet = w.create(bp).unwrap();
    let aster = w.create(ap).unwrap();
    let mut phys = System::new();
    phys.run(&mut w);
    assert_eq!(w.get_collision(bullet).unwrap().health, 0);
    assert_eq!(w.get_collision(aster).unwrap().health, 0);
    assert!(w.is_alive(bullet));
    assert!(w.is_alive(aster));
    w.maintain();
    assert!(!w.is_alive(bullet));
    assert!(!w.is_alive(aster));
}

#[test]
fn apart_bodies_do_not_collide() {
    let mut w = World::new();
    let a = w.create(body(0, 0, 300_000, 3, 2)).unwrap();
    let b = w.create(body(600_000, 0, 300_000, 3, 2)).unwrap();
    let c = w.create(body(-3_000_000, 5_000_000, 300_000, 3, 2)).unwrap();
    let mut phys = System::new();
    phys.run(&mut w);
    assert_eq!(w.get_collision(a).unwrap().health, 3);
    assert_eq!(w.get_collision(b).unwrap().health, 3);
    assert_eq!(w.get_collision(c).unwrap().health, 3);
}

#[test]
fn contact_across_cell_border_is_found() {
    let mut w = World::new();
    let a = w.create(body(-100_000, -100_000, 400_000, 5, 1)).unwrap();
    let b = w.create(body(100_000, 100_000, 400_000, 5, 3)).unwrap();
    let mut phys = System::new();
    phys.run(&mut w);
    assert_eq!(w.get_collision(a).unwrap().health, 2);
    assert_eq!(w.get_collision(b).unwrap().health, 4);
}

#[test]
fn each_partner_hits_once_even_when_one_dies() {
    let mut w = World::new();
    // the middle body touches both outer ones; the outer ones do not touch
    let mid = w.create(body(0, 0, 400_000, 1, 1)).unwrap();
    let left = w.create(body(-700_000, 0, 400_000, 5, 2)).unwrap();
    let right = w.create(body(700_000, 0, 400_000, 5, 2)).unwrap();
    let mut phys = System::new();
    phys.run(&mut w);
    assert_eq!(w.get_collision(mid).unwrap().health, 0);
    assert_eq!(w.get_collision(left).unwrap().health, 4);
    assert_eq!(w.get_collision(right).unwrap().health, 4);
    w.maintain();
    assert!(!w.is_alive(mid));
    assert!(w.is_alive(left) && w.is_alive(right));
}

#[test]
fn spent_entities_take_no_part() {
    let mut w = World::new();
    let a = w.create(body(0, 0, 300_000, 0, 9)).unwrap();
    let b = w.create(body(100_000, 0, 300_000, 2, 1)).unwrap();
    let mut phys = System::new();
    phys.run(&mut w);
    assert_eq!(w.get_collision(a).unwrap().health, 0);
    assert_eq!(w.get_collision(b).unwrap().health, 2);
    assert!(w.doomed.is_empty());
}

#[test]
fn radius_sum_above_cell_is_rejected() {
    let mut w = World::new();
    let a = w.create(body(0, 0, 600_000, 1, 1));
    assert!(a.is_some());
    let b = w.create(body(5_000_000, 0, 500_000, 1, 1));
    assert!(b.is_none());
    assert_eq!(w.generation.len(), 1);
    let c = w.create(body(5_000_000, 0, CELL_SIZE - 600_000, 1, 1));
    assert!(c.is_some());
    // without a collider nothing is checked
    let mut p = Parts::none();
    p.spatial = Some(Spatial { pos: Vec2 { x: 0, y: 0 }, orient: 0, scale: ONE });
    assert!(w.create(p).is_some());
}

#[test]
fn cells_round_down() {
    assert_eq!(Cell::of(Vec2 { x: 0, y: 999_999 }), Cell(0, 0));
    assert_eq!(Cell::of(Vec2 { x: -1, y: 1_000_000 }), Cell(-1, 1));
    assert_eq!(Cell::of(Vec2 { x: -1_000_000, y: -1_000_001 }), Cell(-1, -2));
    let c = Cell(3, -4);
    assert_eq!(c.key(0, 0), 3 * 0x4000_0000_0000i128 - 4);
    assert_eq!(c.key(-1, 1), 2 * 0x4000_0000_0000i128 - 3);
}
