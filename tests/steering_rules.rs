use swarm::steering::{facing, flee, flee_desired, integrate, push, seek, seek_desired, wander, MAX_SPEED};
use swarm::vector::Vec2;

fn origin() -> Vec2 {
    Vec2::new(0, 0)
}

#[test]
fn seek_far_target_full_magnitude() {
    // agent at (0,0) at rest, target (200,0), slowing radius 100
    let c = seek(origin(), origin(), Vec2::new(200_000, 0));
    assert_eq!(c, Vec2::new(1000, 0));
}

#[test]
fn seek_near_target_half_magnitude() {
    // target (50,0): distance 50 of a radius of 100
    let c = seek(origin(), origin(), Vec2::new(50_000, 0));
    assert_eq!(c, Vec2::new(500, 0));
}

#[test]
fn seek_points_at_target_beyond_radius() {
    let d = seek_desired(Vec2::new(1_000, 1_000), Vec2::new(301_000, 401_000));
    assert_eq!(d, Vec2::new(600, 800));
}

#[test]
fn seek_arrival_is_linear_in_distance() {
    assert_eq!(seek_desired(origin(), Vec2::new(0, 30_000)), Vec2::new(0, 300));
    assert_eq!(seek_desired(origin(), Vec2::new(0, -10_000)), Vec2::new(0, -100));
    assert_eq!(seek_desired(origin(), Vec2::new(0, 100_000)), Vec2::new(0, 1000));
    assert_eq!(seek_desired(origin(), origin()), origin());
}

#[test]
fn seek_subtracts_current_velocity() {
    // moving at full speed (250) along y, target straight ahead on x
    let c = seek(origin(), Vec2::new(0, 250_000), Vec2::new(200_000, 0));
    assert_eq!(c, Vec2::new(1000, -1000));
}

#[test]
fn flee_full_strength_inside_radius() {
    let c = flee(Vec2::new(10_000, 0), origin(), origin());
    assert_eq!(c, Vec2::new(1000, 0));
}

#[test]
fn flee_falls_off_beyond_radius() {
    assert_eq!(flee_desired(Vec2::new(400_000, 0), origin()), Vec2::new(250, 0));
    assert_eq!(flee_desired(Vec2::new(-100_000, 0), origin()), Vec2::new(-1000, 0));
    assert_eq!(flee_desired(Vec2::new(0, 1_000_000_000), origin()), Vec2::new(0, 0));
}

#[test]
fn wander_straight_and_turned() {
    assert_eq!(wander(Vec2::new(1000, 0), 0), Vec2::new(1000, 0));
    assert_eq!(wander(Vec2::new(60, 0), 16), Vec2::new(966, 257));
    assert_eq!(wander(Vec2::new(60, 0), -16), Vec2::new(966, -257));
    assert_eq!(wander(origin(), 5), origin());
}

#[test]
fn push_between_two_agents() {
    // agents at (0,0) and (10,0), gain 100
    assert_eq!(push(origin(), Vec2::new(10_000, 0), 100_000), Vec2::new(-1000, 0));
    assert_eq!(push(Vec2::new(10_000, 0), origin(), 100_000), Vec2::new(1000, 0));
}

#[test]
fn push_is_antisymmetric() {
    let a = Vec2::new(0, 0);
    let b = Vec2::new(3_000, 4_000);
    let ab = push(a, b, 100_000);
    let ba = push(b, a, 100_000);
    assert_eq!(ab, Vec2::new(-2400, -3200));
    assert_eq!(ba, Vec2::new(-ab.x, -ab.y));
}

#[test]
fn push_of_coincident_agents_is_zero() {
    assert_eq!(push(Vec2::new(7, 7), Vec2::new(7, 7), 100_000), origin());
}

#[test]
fn integrate_scales_steering() {
    assert_eq!(integrate(origin(), 1000, 0), Vec2::new(187_500, 0));
    assert_eq!(integrate(Vec2::new(100_000, 0), 0, 0), Vec2::new(100_000, 0));
}

#[test]
fn integrate_caps_speed() {
    assert_eq!(integrate(origin(), 2000, 0), Vec2::new(250_000, 0));
    assert_eq!(integrate(origin(), 1_000_000, 1_000_000), Vec2::new(176_776, 176_776));
    let v = integrate(origin(), -(1i128 << 100), 1i128 << 99);
    assert_eq!(v, Vec2::new(-223_606, 111_803));
    let (x, y) = (v.x as i128, v.y as i128);
    let m = MAX_SPEED as i128;
    assert!(x * x + y * y <= m * m);
}

#[test]
fn facing_follows_velocity() {
    assert_eq!(facing(origin()), Vec2::new(0, 1000));
    assert_eq!(facing(Vec2::new(-5_000, 0)), Vec2::new(-1000, 0));
}
