use asteroids::event::SenderHub;
use asteroids::fixed::{Compass, Vec2, ONE};
use asteroids::game::{Game, Init, Scheduler, SystemKind, DRAW_PRIORITY};
use asteroids::sys::bullet::Event as ShootEvent;
use asteroids::sys::control::Event as SteerEvent;
use asteroids::world::{Collision, Drawable};
use rand::rngs::StdRng;
use rand::SeedableRng;

fn compass(n: usize) -> Compass {
    let mut dirs = Vec::new();
    for k in 0..n {
        let a = (k as f64) * std::f64::consts::TAU / (n as f64);
        dirs.push(Vec2 {
            x: (-a.sin() * ONE as f64).round() as i64,
            y: (a.cos() * ONE as f64).round() as i64,
        });
    }
    Compass::new(dirs).unwrap()
}

fn game() -> Game {
    let init = Init { vis_ship: Drawable(0), vis_bullet: Drawable(1), vis_aster: Drawable(2) };
    Game::start(init, compass(360), StdRng::seed_from_u64(5))
}

#[test]
fn scheduler_orders_by_priority_then_insertion() {
    let mut s = Scheduler::new();
    s.add_system(SystemKind::Physics, 5);
    s.add_system(SystemKind::Control, 30);
    s.add_system(SystemKind::Draw, 15);
    s.add_system(SystemKind::Inertia, 15);
    s.add_system(SystemKind::Bullet, 25);
    let order: Vec<SystemKind> = s.entries.iter().map(|e| e.1).collect();
    assert_eq!(
        order,
        vec![SystemKind::Control, SystemKind::Bullet, SystemKind::Draw, SystemKind::Inertia, SystemKind::Physics]
    );
}

#[test]
fn game_starts_with_ship_and_six_systems() {
    let g = game();
    assert!(g.proceed());
    let order: Vec<(i32, SystemKind)> = g.scheduler.entries.clone();
    assert_eq!(
        order,
        vec![
            (30, SystemKind::Control),
            (25, SystemKind::Bullet),
            (24, SystemKind::Asteroid),
            (15, SystemKind::Inertia),
            (DRAW_PRIORITY, SystemKind::Draw),
            (5, SystemKind::Physics),
        ]
    );
    assert_eq!(DRAW_PRIORITY, 11);
    assert_eq!(g.world.generation.len(), 1);
    assert_eq!(g.bullet.ship_entity, g.player);
    assert_eq!(g.aster.time_left, -2_000_000);
    let c = g.world.get_control(g.player).unwrap();
    assert_eq!(c.thrust_speed, 4 * ONE);
    assert_eq!(g.world.get_collision(g.player).unwrap(), Collision { radius: 200_000, health: 3, damage: 2 });
}

#[test]
fn held_thrust_for_a_second_gives_thrust_speed() {
    let mut g = game();
    g.check_input(&vec![SteerEvent::EvThrust(ONE)], &vec![]);
    for _ in 0..60 {
        g.dispatch(16_667);
    }
    let v = g.world.get_inertial(g.player).unwrap().velocity;
    assert_eq!(v.x, 0);
    assert!(((v.y as f64) / 1e6 - 4.0).abs() < 1e-3);
    assert!(g.proceed());
    assert_eq!(g.frame.len(), 1);
    assert_eq!(g.frame[0].0, Drawable(0));
}

#[test]
fn game_fires_and_draws_bullets() {
    let mut g = game();
    g.check_input(&vec![], &vec![ShootEvent::EvShoot(true)]);
    g.dispatch(1_000_000);
    g.dispatch(10_000);
    assert_eq!(g.frame.len(), 2);
    assert!(g.frame.iter().any(|f| f.0 == Drawable(1)));
}

#[test]
fn game_ends_when_ship_is_destroyed() {
    let mut g = game();
    let i = g.player.index;
    g.world.collision[i] = Some(Collision { radius: 200_000, health: 0, damage: 2 });
    assert!(!g.proceed());
    g.world.collision[i] = Some(Collision { radius: 200_000, health: 3, damage: 2 });
    g.world.delete(g.player);
    g.dispatch(1_000);
    assert!(!g.proceed());
}

#[test]
fn input_queues_carry_events() {
    let (send, recv) = SenderHub::new();
    send.control.send(SteerEvent::EvThrust(ONE)).unwrap();
    send.control.send(SteerEvent::EvTurn(-ONE)).unwrap();
    send.bullet.send(ShootEvent::EvShoot(true)).unwrap();
    let steer: Vec<SteerEvent> = recv.0.try_iter().collect();
    let shoot: Vec<ShootEvent> = recv.1.try_iter().collect();
    assert_eq!(steer, vec![SteerEvent::EvThrust(ONE), SteerEvent::EvTurn(-ONE)]);
    assert_eq!(shoot, vec![ShootEvent::EvShoot(true)]);
    let mut g = game();
    g.check_input(&steer, &shoot);
    assert_eq!(g.control.thrust, ONE);
    assert_eq!(g.control.turn, -ONE);
    assert!(g.bullet.shoot);
}
