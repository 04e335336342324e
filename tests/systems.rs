use swarm::boids::{
    avoidance_system, behaviour_system, flee_system, movement_system, seek_system, spawn_system,
    wander_system, wander_with, AvoidanceFactor, Behaviours, Boid, BoidSpawned, PlayerStance,
    Stance, StanceChanged, Steering,
};
use swarm::steering::MAX_AVOIDANCE;
use swarm::vector::Vec2;

fn boid_at(x: i64, y: i64) -> Boid {
    Boid {
        position: Vec2::new(x, y),
        velocity: Vec2::new(0, 0),
        steering: Steering { x: 0, y: 0 },
        facing: Vec2::new(0, 1000),
        behaviours: Behaviours { seek: true, flee: false, wander: false, avoid: true },
    }
}

#[test]
fn seek_system_adds_to_seekers_only() {
    let mut other = boid_at(0, 0);
    other.behaviours.seek = false;
    let mut boids = vec![boid_at(0, 0), other];
    seek_system(Vec2::new(200_000, 0), &mut boids);
    assert_eq!(boids[0].steering, Steering { x: 1000, y: 0 });
    assert_eq!(boids[1].steering, Steering { x: 0, y: 0 });
}

#[test]
fn seek_system_accumulates() {
    let mut boids = vec![boid_at(0, 0)];
    seek_system(Vec2::new(50_000, 0), &mut boids);
    seek_system(Vec2::new(50_000, 0), &mut boids);
    assert_eq!(boids[0].steering, Steering { x: 1000, y: 0 });
}

#[test]
fn flee_system_pushes_away() {
    let mut b = boid_at(10_000, 0);
    b.behaviours.seek = false;
    b.behaviours.flee = true;
    let mut boids = vec![b];
    flee_system(Vec2::new(0, 0), &mut boids);
    assert_eq!(boids[0].steering, Steering { x: 1000, y: 0 });
}

#[test]
fn avoidance_pair_scenario() {
    // agents at (0,0) and (10,0), gain 100
    let mut boids = vec![boid_at(0, 0), boid_at(10_000, 0)];
    avoidance_system(&mut boids, &AvoidanceFactor(100_000));
    assert_eq!(boids[0].steering, Steering { x: -1000, y: 0 });
    assert_eq!(boids[1].steering, Steering { x: 1000, y: 0 });
}

#[test]
fn avoidance_sums_over_all_partners() {
    let mut boids = vec![boid_at(0, 0), boid_at(10_000, 0), boid_at(-10_000, 0), boid_at(0, 0)];
    boids[3].behaviours.avoid = false;
    avoidance_system(&mut boids, &AvoidanceFactor(100_000));
    // the middle agent is pushed equally from both sides
    assert_eq!(boids[0].steering, Steering { x: 0, y: 0 });
    // (10,0) is pushed by (0,0) with 1 and by (-10,0) with 1/4
    assert_eq!(boids[1].steering, Steering { x: 1250, y: 0 });
    assert_eq!(boids[2].steering, Steering { x: -1250, y: 0 });
    // an agent without Avoid neither pushes nor is pushed
    assert_eq!(boids[3].steering, Steering { x: 0, y: 0 });
}

#[test]
fn avoidance_forces_cancel_in_total() {
    let mut boids = vec![boid_at(0, 0), boid_at(3_000, 4_000), boid_at(-2_000, 7_000)];
    avoidance_system(&mut boids, &AvoidanceFactor(100_000));
    let sx: i128 = boids.iter().map(|b| b.steering.x).sum();
    let sy: i128 = boids.iter().map(|b| b.steering.y).sum();
    assert_eq!((sx, sy), (0, 0));
}

#[test]
fn wander_with_given_turns() {
    let mut b = boid_at(0, 0);
    b.velocity = Vec2::new(60, 0);
    b.behaviours.wander = true;
    let mut still = b;
    still.behaviours.wander = false;
    let mut boids = vec![b, still];
    wander_with(&vec![16, -16], &mut boids);
    assert_eq!(boids[0].steering, Steering { x: 966, y: 257 });
    assert_eq!(boids[1].steering, Steering { x: 0, y: 0 });
}

#[test]
fn wander_system_turns_by_a_small_angle() {
    let mut b = boid_at(0, 0);
    b.velocity = Vec2::new(250_000, 0);
    b.behaviours.wander = true;
    let mut boids = vec![b; 50];
    wander_system(&mut boids);
    let mut turned = false;
    for b in &boids {
        // within atan(16/60) of the heading: cos >= 0.96
        assert!(b.steering.x >= 960 && b.steering.x <= 1000);
        assert!(b.steering.y.abs() <= 259);
        if b.steering.y != 0 {
            turned = true;
        }
    }
    assert!(turned);
}

#[test]
fn movement_integrates_and_clears() {
    let mut b = boid_at(0, 0);
    b.steering = Steering { x: 2000, y: 0 };
    let mut boids = vec![b];
    movement_system(&mut boids);
    assert_eq!(boids[0].velocity, Vec2::new(250_000, 0));
    assert_eq!(boids[0].facing, Vec2::new(1000, 0));
    assert_eq!(boids[0].steering, Steering { x: 0, y: 0 });
}

#[test]
fn movement_never_exceeds_max_speed() {
    let mut boids = vec![boid_at(0, 0); 3];
    boids[0].steering = Steering { x: 1 << 100, y: -(1 << 101) };
    boids[1].steering = Steering { x: -5000, y: 5000 };
    boids[2].velocity = Vec2::new(249_000, 0);
    boids[2].steering = Steering { x: 0, y: 1000 };
    movement_system(&mut boids);
    for b in &boids {
        let (x, y) = (b.velocity.x as i128, b.velocity.y as i128);
        assert!(x * x + y * y <= 250_000 * 250_000);
    }
}

#[test]
fn stance_toggle_round_trip() {
    let before = vec![boid_at(0, 0), boid_at(5, 5)];
    let mut boids = before.clone();
    let mut stance = PlayerStance(Stance::Follow);
    behaviour_system(&vec![StanceChanged(stance.0.opposite())], &mut boids, &mut stance);
    assert_eq!(stance, PlayerStance(Stance::Evade));
    for b in &boids {
        assert!(b.behaviours.flee && !b.behaviours.seek);
    }
    behaviour_system(&vec![StanceChanged(stance.0.opposite())], &mut boids, &mut stance);
    assert_eq!(stance, PlayerStance(Stance::Follow));
    assert_eq!(boids, before);
}

#[test]
fn behaviour_without_events_changes_nothing() {
    let before = vec![boid_at(0, 0)];
    let mut boids = before.clone();
    let mut stance = PlayerStance(Stance::Evade);
    behaviour_system(&vec![], &mut boids, &mut stance);
    assert_eq!(boids, before);
    assert_eq!(stance, PlayerStance(Stance::Evade));
}

#[test]
fn last_stance_event_wins() {
    let mut boids = vec![boid_at(0, 0)];
    let mut stance = PlayerStance(Stance::Follow);
    let events = vec![StanceChanged(Stance::Evade), StanceChanged(Stance::Follow), StanceChanged(Stance::Evade)];
    behaviour_system(&events, &mut boids, &mut stance);
    assert_eq!(stance, PlayerStance(Stance::Evade));
    assert!(boids[0].behaviours.flee && !boids[0].behaviours.seek);
}

#[test]
fn spawn_creates_one_agent_at_rest() {
    let spawned = spawn_system(&vec![BoidSpawned(Vec2::new(5_000, 5_000))], &PlayerStance(Stance::Follow));
    assert_eq!(spawned.len(), 1);
    let b = spawned[0];
    assert_eq!(b.position, Vec2::new(5_000, 5_000));
    assert_eq!(b.velocity, Vec2::new(0, 0));
    assert_eq!(b.steering, Steering { x: 0, y: 0 });
    assert!(b.behaviours.seek && !b.behaviours.flee && b.behaviours.wander && b.behaviours.avoid);
}

#[test]
fn spawn_under_evade_flees() {
    let spawned = spawn_system(
        &vec![BoidSpawned(Vec2::new(1, 2)), BoidSpawned(Vec2::new(3, 4))],
        &PlayerStance(Stance::Evade),
    );
    assert_eq!(spawned.len(), 2);
    assert_eq!(spawned[1].position, Vec2::new(3, 4));
    assert!(spawned[0].behaviours.flee && !spawned[0].behaviours.seek);
}

#[test]
fn avoidance_factor_stays_in_range() {
    let mut f = AvoidanceFactor(100_000);
    f.adjust(50_000);
    assert_eq!(f, AvoidanceFactor(150_000));
    f.adjust(i64::MAX);
    assert_eq!(f, AvoidanceFactor(MAX_AVOIDANCE));
    f.adjust(-1);
    assert_eq!(f, AvoidanceFactor(MAX_AVOIDANCE - 1));
    f.adjust(i64::MIN);
    assert_eq!(f, AvoidanceFactor(0));
    for d in [7, -3, 1 << 40, -(1 << 50), 12] {
        f.adjust(d);
        assert!(f.0 >= 0 && f.0 <= MAX_AVOIDANCE);
    }
}

#[test]
fn stance_opposites() {
    assert_eq!(Stance::Follow.opposite(), Stance::Evade);
    assert_eq!(Stance::Evade.opposite(), Stance::Follow);
}

#[test]
fn random_turns_stay_small_and_vary() {
    let turns = swarm::boids::random_turns(200);
    assert_eq!(turns.len(), 200);
    assert!(turns.iter().all(|t| (-16..=16).contains(t)));
    assert!(turns.iter().any(|t| *t != turns[0]));
}
