use swarm::boids::{Behaviours, Boid, BoidShot, Shoot, Steering};
use swarm::bullets::{collision_system, shoot_system, Body, Bullet, CollisionStarted};
use swarm::vector::Vec2;

fn moving_boid(x: i64, y: i64, vx: i64, vy: i64) -> Boid {
    Boid {
        position: Vec2::new(x, y),
        velocity: Vec2::new(vx, vy),
        steering: Steering { x: 0, y: 0 },
        facing: Vec2::new(0, 1000),
        behaviours: Behaviours { seek: true, flee: false, wander: true, avoid: true },
    }
}

#[test]
fn shoot_fires_ahead_of_each_agent() {
    let boids = vec![moving_boid(0, 0, 3_000, 4_000), moving_boid(1_000, 0, -7, 0)];
    let bullets = shoot_system(&vec![Shoot], &boids);
    assert_eq!(
        bullets,
        vec![
            Bullet { position: Vec2::new(12_000, 16_000), velocity: Vec2::new(300_000, 400_000) },
            Bullet { position: Vec2::new(-19_000, 0), velocity: Vec2::new(-500_000, 0) },
        ]
    );
}

#[test]
fn shoot_twice_fires_two_volleys() {
    let boids = vec![moving_boid(0, 0, 0, 9)];
    let bullets = shoot_system(&vec![Shoot, Shoot], &boids);
    assert_eq!(bullets.len(), 2);
    assert_eq!(bullets[0], bullets[1]);
    assert_eq!(bullets[0].position, Vec2::new(0, 20_000));
}

#[test]
fn shoot_without_request_fires_nothing() {
    let boids = vec![moving_boid(0, 0, 1, 1)];
    assert!(shoot_system(&vec![], &boids).is_empty());
}

#[test]
fn agent_at_rest_fires_in_place() {
    let boids = vec![moving_boid(5, 6, 0, 0)];
    let bullets = shoot_system(&vec![Shoot], &boids);
    assert_eq!(bullets, vec![Bullet { position: Vec2::new(5, 6), velocity: Vec2::new(0, 0) }]);
}

#[test]
fn collisions_report_hits_in_either_order() {
    let events = vec![
        CollisionStarted(Body::Boid(1), Body::Bullet(2)),
        CollisionStarted(Body::Boid(3), Body::Boid(4)),
        CollisionStarted(Body::Bullet(5), Body::Boid(6)),
        CollisionStarted(Body::Bullet(7), Body::Bullet(8)),
        CollisionStarted(Body::Other(9), Body::Boid(10)),
    ];
    assert_eq!(
        collision_system(&events),
        vec![BoidShot { boid: 1, bullet: 2 }, BoidShot { boid: 6, bullet: 5 }]
    );
}
