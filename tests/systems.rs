use asteroids::fixed::{Compass, Vec2, ONE};
use asteroids::sys::aster::{self, head_for};
use asteroids::sys::bullet::{self, Event as ShootEvent};
use asteroids::sys::control::{self, Event as SteerEvent};
use asteroids::sys::draw::{self, Transform};
use asteroids::sys::inertia;
use asteroids::world::{
    Asteroid, Bullet, Collision, Control, Drawable, Inertial, Parts, Spatial, World,
};
use rand::rngs::StdRng;
use rand::SeedableRng;

fn compass(n: usize) -> Compass {
    let mut dirs = Vec::new();
    for k in 0..n {
        let a = (k as f64) * std::f64::consts::TAU / (n as f64);
        dirs.push(Vec2 {
            x: (-a.sin() * ONE as f64).round() as i64,
            y: (a.cos() * ONE as f64).round() as i64,
        });
    }
    Compass::new(dirs).unwrap()
}

fn mover(x: i64, y: i64, vx: i64, vy: i64, spin: i64) -> Parts {
    let mut p = Parts::none();
    p.spatial = Some(Spatial { pos: Vec2 { x, y }, orient: 0, scale: ONE });
    p.inertial = Some(Inertial { velocity: Vec2 { x: vx, y: vy }, angular_velocity: spin });
    p
}

#[test]
fn inertia_integrates_constant_velocity() {
    let mut w = World::new();
    let e = w.create(mover(2 * ONE, -ONE, ONE, -2 * ONE, ONE / 2)).unwrap();
    let still = w.create({
        let mut p = Parts::none();
        p.spatial = Some(Spatial { pos: Vec2 { x: 5, y: 5 }, orient: 0, scale: ONE });
        p
    }).unwrap();
    let sys = inertia::System;
    let dt: u32 = 16_667;
    for _ in 0..60 {
        sys.run(&mut w, dt);
    }
    let s = w.get_spatial(e).unwrap();
    // one rounded step is 16_667 on x, -33_334 on y, 8_333 on the angle
    assert_eq!(s.pos.x, 2 * ONE + 60 * 16_667);
    assert_eq!(s.pos.y, -ONE - 60 * 33_334);
    assert_eq!(s.orient, 60 * 8_333);
    let exact_x = 2.0 + 1.0 * 60.0 * 0.016667;
    assert!(((s.pos.x as f64) / 1e6 - exact_x).abs() < 1e-3);
    assert_eq!(w.get_spatial(still).unwrap().pos, Vec2 { x: 5, y: 5 });
}

#[test]
fn inertia_saturates_at_the_edge() {
    let mut w = World::new();
    let e = w.create(mover(i64::MAX - 10, i64::MIN + 10, ONE, -ONE, 0)).unwrap();
    inertia::System.run(&mut w, 1_000_000);
    let s = w.get_spatial(e).unwrap();
    assert_eq!(s.pos.x, i64::MAX);
    assert_eq!(s.pos.y, i64::MIN);
}

#[test]
fn control_keeps_the_latest_input() {
    let mut c = control::System::new();
    c.check_input(&vec![
        SteerEvent::EvThrust(ONE),
        SteerEvent::EvTurn(-ONE),
        SteerEvent::EvThrust(ONE / 2),
    ]);
    assert_eq!(c.thrust, ONE / 2);
    assert_eq!(c.turn, -ONE);
    c.check_input(&vec![]);
    assert_eq!(c.thrust, ONE / 2);
    assert_eq!(c.turn, -ONE);
    c.check_input(&vec![SteerEvent::EvTurn(0)]);
    assert_eq!(c.turn, 0);
}

fn ship_world() -> (World, asteroids::world::Entity) {
    let mut w = World::new();
    let mut p = mover(0, 0, 0, 0, 0);
    p.control = Some(Control { thrust_speed: 4 * ONE, turn_speed: -90 * ONE });
    p.collision = Some(Collision { radius: 200_000, health: 3, damage: 2 });
    let s = w.create(p).unwrap();
    (w, s)
}

#[test]
fn thrust_for_one_second_reaches_thrust_speed() {
    let (mut w, ship) = ship_world();
    let cmp = compass(360);
    let mut c = control::System::new();
    c.check_input(&vec![SteerEvent::EvThrust(ONE)]);
    for _ in 0..60 {
        c.run(&mut w, 16_667, &cmp);
        inertia::System.run(&mut w, 16_667);
    }
    let v = w.get_inertial(ship).unwrap().velocity;
    assert_eq!(v.x, 0);
    assert!(((v.y as f64) / 1e6 - 4.0).abs() < 1e-3);
    assert!(w.get_spatial(ship).unwrap().pos.y > 0);
}

#[test]
fn turn_sets_rate_and_does_not_accumulate() {
    let (mut w, ship) = ship_world();
    let cmp = compass(360);
    let mut c = control::System::new();
    c.check_input(&vec![SteerEvent::EvTurn(ONE)]);
    c.run(&mut w, 16_667, &cmp);
    c.run(&mut w, 16_667, &cmp);
    assert_eq!(w.get_inertial(ship).unwrap().angular_velocity, -90 * ONE);
    c.check_input(&vec![SteerEvent::EvTurn(0)]);
    c.run(&mut w, 16_667, &cmp);
    assert_eq!(w.get_inertial(ship).unwrap().angular_velocity, 0);
}

#[test]
fn facing_follows_orientation() {
    let cmp = compass(4);
    assert_eq!(cmp.facing(0), Vec2 { x: 0, y: ONE });
    // a quarter turn counter-clockwise faces -x
    assert_eq!(cmp.facing(1_570_797), Vec2 { x: -ONE, y: 0 });
    assert_eq!(cmp.facing(-1), Vec2 { x: ONE, y: 0 });
    assert_eq!(cmp.facing(6_283_185), Vec2 { x: 0, y: ONE });
    assert!(Compass::new(vec![]).is_none());
    assert!(Compass::new(vec![Vec2 { x: ONE + 1, y: 0 }]).is_none());
}

fn bullet_at(w: &mut World, life: u64) -> asteroids::world::Entity {
    let mut p = mover(0, 0, 0, 0, 0);
    p.bullet = Some(Bullet { life_time: Some(life) });
    p.collision = Some(Collision { radius: 10_000, health: 1, damage: 1 });
    w.create(p).unwrap()
}

#[test]
fn bullet_expires_when_its_life_is_used_up() {
    let (mut w, ship) = ship_world();
    let b = bullet_at(&mut w, 1_000_000);
    let cmp = compass(360);
    let mut gun = bullet::System::new(ship, Drawable(1));
    for _ in 0..3 {
        gun.run(&mut w, 300_000, &cmp);
        w.maintain();
        assert!(w.is_alive(b));
    }
    assert_eq!(w.get_bullet(b).unwrap().life_time, Some(100_000));
    gun.run(&mut w, 300_000, &cmp);
    assert_eq!(w.get_bullet(b).unwrap().life_time, None);
    assert!(w.is_alive(b));
    w.maintain();
    assert!(!w.is_alive(b));
}

#[test]
fn bullet_expires_exactly_at_its_life() {
    let (mut w, ship) = ship_world();
    let b = bullet_at(&mut w, 1_000_000);
    let cmp = compass(360);
    let mut gun = bullet::System::new(ship, Drawable(1));
    for _ in 0..3 {
        gun.run(&mut w, 250_000, &cmp);
        w.maintain();
        assert!(w.is_alive(b));
    }
    gun.run(&mut w, 250_000, &cmp);
    w.maintain();
    assert!(!w.is_alive(b));
}

#[test]
fn hit_bullet_is_removed() {
    let (mut w, ship) = ship_world();
    let b = bullet_at(&mut w, 1_000_000);
    w.collision[b.index] = Some(Collision { radius: 10_000, health: 0, damage: 1 });
    let mut gun = bullet::System::new(ship, Drawable(1));
    gun.run(&mut w, 1_000, &compass(360));
    w.maintain();
    assert!(!w.is_alive(b));
}

#[test]
fn gun_fires_after_cooling_and_then_pauses() {
    let (mut w, ship) = ship_world();
    w.inertial[ship.index] = Some(Inertial { velocity: Vec2 { x: ONE, y: 0 }, angular_velocity: 0 });
    let cmp = compass(360);
    let mut gun = bullet::System::new(ship, Drawable(7));
    gun.check_input(&vec![ShootEvent::EvShoot(false), ShootEvent::EvShoot(true)]);
    assert!(gun.shoot);
    // one second of cooling first
    gun.run(&mut w, 1_000_000, &cmp);
    assert_eq!(gun.cool_time, 0);
    assert_eq!(count(&w, |p| p.bullet.is_some()), 0);
    gun.run(&mut w, 40_000, &cmp);
    assert_eq!(count(&w, |p| p.bullet.is_some()), 1);
    assert_eq!(gun.cool_time, 60_000);
    let i = (0..w.generation.len()).find(|&i| w.bullet[i].is_some()).unwrap();
    let s = w.spatial[i].unwrap();
    assert_eq!(s.pos, Vec2 { x: 0, y: 500_000 });
    assert_eq!(s.scale, 100_000);
    assert_eq!(w.inertial[i].unwrap().velocity, Vec2 { x: ONE, y: 5 * ONE });
    assert_eq!(w.bullet[i].unwrap().life_time, Some(1_000_000));
    assert_eq!(w.collision[i].unwrap(), Collision { radius: 10_000, health: 1, damage: 1 });
    assert_eq!(w.visual[i], Some(Drawable(7)));
    gun.run(&mut w, 40_000, &cmp);
    assert_eq!(count(&w, |p| p.bullet.is_some()), 1);
    gun.run(&mut w, 40_000, &cmp);
    gun.run(&mut w, 40_000, &cmp);
    assert_eq!(count(&w, |p| p.bullet.is_some()), 2);
}

fn count(w: &World, f: impl Fn(&Parts) -> bool) -> usize {
    (0..w.generation.len())
        .filter(|&i| {
            w.alive[i]
                && f(&Parts {
                    spatial: w.spatial[i],
                    inertial: w.inertial[i],
                    control: w.control[i],
                    bullet: w.bullet[i],
                    asteroid: w.asteroid[i],
                    collision: w.collision[i],
                    visual: w.visual[i],
                })
        })
        .count()
}

#[test]
fn asteroids_come_after_grace_then_every_second() {
    let mut w = World::new();
    let cmp = compass(360);
    let mut a = aster::System::new(10 * ONE as u32, 10 * ONE as u32, Drawable(2), StdRng::seed_from_u64(7));
    let mut seen = Vec::new();
    for _ in 0..12 {
        a.run(&mut w, 500_000, &cmp);
        w.maintain();
        seen.push(count(&w, |p| p.asteroid.is_some()));
    }
    // t = 0.5, 1.0, ..., 6.0
    assert_eq!(seen, vec![0, 0, 0, 0, 0, 1, 1, 2, 2, 3, 3, 4]);
}

#[test]
fn asteroids_catch_up_within_one_tick() {
    let mut w = World::new();
    let cmp = compass(360);
    let mut a = aster::System::new(10 * ONE as u32, 10 * ONE as u32, Drawable(2), StdRng::seed_from_u64(3));
    a.run(&mut w, 2_999_999, &cmp);
    assert_eq!(count(&w, |p| p.asteroid.is_some()), 0);
    a.run(&mut w, 2_500_001, &cmp);
    assert_eq!(count(&w, |p| p.asteroid.is_some()), 3);
}

#[test]
fn new_asteroid_starts_on_the_circle_and_heads_inward() {
    let mut w = World::new();
    let cmp = compass(360);
    let ext = 10 * ONE;
    let mut a = aster::System::new(ext as u32, ext as u32, Drawable(2), StdRng::seed_from_u64(11));
    a.run(&mut w, 3_000_000, &cmp);
    for i in 0..w.generation.len() {
        let s = w.spatial[i].unwrap();
        let v = w.inertial[i].unwrap();
        let r = ((s.pos.x as f64).powi(2) + (s.pos.y as f64).powi(2)).sqrt() / 1e6;
        assert!((r - 20.0).abs() < 0.01);
        assert!(v.angular_velocity >= -2 * ONE && v.angular_velocity < 2 * ONE);
        let tx = s.pos.x as f64 + (v.velocity.x as f64) * 10.0;
        let ty = s.pos.y as f64 + (v.velocity.y as f64) * 10.0;
        assert!(tx.abs() <= ext as f64 + 10.0 && ty.abs() <= ext as f64 + 10.0);
        assert_eq!(w.asteroid[i], Some(Asteroid { kind: 0 }));
        assert_eq!(w.collision[i], Some(Collision { radius: 500_000, health: 1, damage: 2 }));
        assert_eq!(w.visual[i], Some(Drawable(2)));
    }
    assert_eq!(w.generation.len(), 1);
}

#[test]
fn asteroids_leaving_the_screen_are_culled() {
    let mut w = World::new();
    let ext = 10 * ONE;
    let mut mk = |x: i64, y: i64, vx: i64, vy: i64| {
        let mut p = mover(x, y, vx, vy, 0);
        p.asteroid = Some(Asteroid { kind: 0 });
        w.create(p).unwrap()
    };
    let away = mk(ext + 1, 0, 1, 0);
    let back = mk(ext + 1, 0, -1, 0);
    let inside = mk(0, 0, ONE, ONE);
    let below = mk(0, -ext - 1, 0, -5);
    let resting = mk(-ext - 1, 0, 0, 0);
    let mut a = aster::System::new(ext as u32, ext as u32, Drawable(2), StdRng::seed_from_u64(1));
    a.run(&mut w, 1, &compass(8));
    w.maintain();
    assert!(!w.is_alive(away));
    assert!(w.is_alive(back));
    assert!(w.is_alive(inside));
    assert!(!w.is_alive(below));
    assert!(!w.is_alive(resting));
}

#[test]
fn hit_asteroid_is_removed() {
    let mut w = World::new();
    let mut p = mover(0, 0, 0, 0, 0);
    p.asteroid = Some(Asteroid { kind: 0 });
    p.collision = Some(Collision { radius: 500_000, health: 0, damage: 2 });
    let e = w.create(p).unwrap();
    let mut a = aster::System::new(10 * ONE as u32, 10 * ONE as u32, Drawable(2), StdRng::seed_from_u64(1));
    a.run(&mut w, 1, &compass(8));
    w.maintain();
    assert!(!w.is_alive(e));
}

#[test]
fn draw_list_covers_visible_entities_in_order() {
    let mut w = World::new();
    let mut p = mover(ONE, 2 * ONE, 0, 0, 0);
    p.visual = Some(Drawable(3));
    let a = w.create(p).unwrap();
    w.create(mover(0, 0, 0, 0, 0)).unwrap();
    let mut q = Parts::none();
    q.spatial = Some(Spatial { pos: Vec2 { x: -5, y: 6 }, orient: 7, scale: 8 });
    q.visual = Some(Drawable(0));
    w.create(q).unwrap();
    let list = draw::System::new(1, 1).run(&w);
    assert_eq!(
        list,
        vec![
            (Drawable(3), Transform { x: ONE, y: 2 * ONE, orient: 0, scale: ONE }),
            (Drawable(0), Transform { x: -5, y: 6, orient: 7, scale: 8 }),
        ]
    );
    w.delete(a);
    w.maintain();
    assert_eq!(draw::System::new(1, 1).run(&w).len(), 1);
}

#[test]
fn heading_rounds_away_from_zero() {
    assert_eq!(head_for(0), 0);
    assert_eq!(head_for(1), 1);
    assert_eq!(head_for(-1), -1);
    assert_eq!(head_for(10), 1);
    assert_eq!(head_for(11), 2);
    assert_eq!(head_for(-20_000_000), -2_000_000);
    assert_eq!(head_for(-20_000_001), -2_000_001);
}

#[test]
fn built_asteroid_heads_back_to_the_screen() {
    let cmp = compass(4);
    let a = aster::System::new(999_999, 1, Drawable(2), StdRng::seed_from_u64(1));
    // entry 1 faces -x: the asteroid starts at (-1_000_000, 0)
    let p = a.build_asteroid(&cmp, 1, -999_999, 0, 1_500_000);
    let s = p.spatial.unwrap();
    let v = p.inertial.unwrap();
    assert_eq!(s.pos, Vec2 { x: -1_000_000, y: 0 });
    assert_eq!(v.velocity, Vec2 { x: 1, y: 0 });
    assert_eq!(v.angular_velocity, 1_500_000);
    assert_eq!(p.asteroid, Some(Asteroid { kind: 0 }));
    assert_eq!(p.collision, Some(Collision { radius: 500_000, health: 1, damage: 2 }));
    assert_eq!(p.visual, Some(Drawable(2)));
    let q = a.build_asteroid(&cmp, 0, 5, -1, 0);
    assert_eq!(q.spatial.unwrap().pos, Vec2 { x: 0, y: 1_000_000 });
    assert_eq!(q.inertial.unwrap().velocity, Vec2 { x: 1, y: -100_001 });
}

#[test]
fn gun_with_dead_ship_does_not_fire() {
    let (mut w, ship) = ship_world();
    let mut gun = bullet::System::new(ship, Drawable(1));
    gun.cool_time = 0;
    gun.check_input(&vec![ShootEvent::EvShoot(true)]);
    w.delete(ship);
    w.maintain();
    assert!(!gun.ship_is_ready(&w));
    gun.run(&mut w, 1_000, &compass(360));
    assert_eq!(count(&w, |_| true), 0);
}

#[test]
fn bullet_spawn_adds_one_entity() {
    let (mut w, ship) = ship_world();
    let gun = bullet::System::new(ship, Drawable(1));
    assert!(gun.ship_is_ready(&w));
    let b = gun.spawn(&mut w, &compass(360)).unwrap();
    assert_eq!(w.generation.len(), 2);
    assert_ne!(b.index, ship.index);
    assert_eq!(w.get_spatial(ship).unwrap().pos, Vec2 { x: 0, y: 0 });
    assert_eq!(w.get_spatial(b).unwrap().pos, Vec2 { x: 0, y: 500_000 });
}

#[test]
fn compass_rejects_tables_that_are_not_unit() {
    assert!(Compass::new(vec![Vec2 { x: 0, y: ONE }]).is_some());
    assert!(Compass::new(vec![Vec2 { x: ONE, y: 0 }]).is_none());
    assert!(Compass::new(vec![Vec2 { x: 0, y: ONE }, Vec2 { x: 0, y: 0 }]).is_none());
    assert!(Compass::new(vec![Vec2 { x: 0, y: ONE }, Vec2 { x: 600_000, y: 600_000 }]).is_none());
    assert!(Compass::new(vec![Vec2 { x: 0, y: ONE }, Vec2 { x: 707_107, y: 707_107 }]).is_some());
}
