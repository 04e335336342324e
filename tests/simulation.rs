use swarm::boids::{BoidSpawned, PlayerStance, Shoot, Stance, StanceChanged, Steering, DEFAULT_AVOIDANCE};
use swarm::flock::{BoidPlugin, MousePosition};
use swarm::pausing::{pause_button, PauseState};
use swarm::vector::Vec2;

#[test]
fn plugin_builds_empty_flock() {
    let flock = BoidPlugin.build();
    assert!(flock.boids.is_empty());
    assert_eq!(flock.stance, PlayerStance(Stance::Follow));
    assert_eq!(flock.avoidance.0, DEFAULT_AVOIDANCE);
    assert_eq!(flock.target, MousePosition(Vec2::new(0, 0)));
}

#[test]
fn flock_spawn_appends_agents() {
    let mut flock = BoidPlugin.build();
    flock.spawn(&vec![BoidSpawned(Vec2::new(5_000, 5_000))]);
    flock.spawn(&vec![BoidSpawned(Vec2::new(1, 1)), BoidSpawned(Vec2::new(2, 2))]);
    assert_eq!(flock.boids.len(), 3);
    assert_eq!(flock.boids[0].position, Vec2::new(5_000, 5_000));
    assert_eq!(flock.boids[0].velocity, Vec2::new(0, 0));
    assert_eq!(flock.boids[2].position, Vec2::new(2, 2));
}

#[test]
fn tick_runs_contributors_then_integrator() {
    let mut flock = BoidPlugin.build();
    flock.target = MousePosition(Vec2::new(200_000, 0));
    flock.spawn(&vec![BoidSpawned(Vec2::new(0, 0))]);
    flock.tick_with(&vec![7]);
    let b = flock.boids[0];
    // Seek asks for (1,0); the integrator scales it by 0.75 * 250
    assert_eq!(b.velocity, Vec2::new(187_500, 0));
    assert_eq!(b.facing, Vec2::new(1000, 0));
    assert_eq!(b.steering, Steering { x: 0, y: 0 });
    assert_eq!(b.position, Vec2::new(0, 0));
}

#[test]
fn random_ticks_keep_speed_capped() {
    let mut flock = BoidPlugin.build();
    flock.target = MousePosition(Vec2::new(300_000, -200_000));
    let spawns: Vec<BoidSpawned> = (0..6).map(|i| BoidSpawned(Vec2::new(i * 3_000, 0))).collect();
    flock.spawn(&spawns);
    for _ in 0..20 {
        flock.tick();
        for b in &flock.boids {
            let (x, y) = (b.velocity.x as i128, b.velocity.y as i128);
            assert!(x * x + y * y <= 250_000 * 250_000);
            assert_eq!(b.steering, Steering { x: 0, y: 0 });
        }
    }
}

#[test]
fn flock_stance_change_and_shoot() {
    let mut flock = BoidPlugin.build();
    flock.spawn(&vec![BoidSpawned(Vec2::new(0, 0)), BoidSpawned(Vec2::new(50_000, 0))]);
    flock.change_stance(&vec![StanceChanged(Stance::Evade)]);
    assert_eq!(flock.stance, PlayerStance(Stance::Evade));
    assert!(flock.boids.iter().all(|b| b.behaviours.flee && !b.behaviours.seek));
    assert_eq!(flock.shoot(&vec![Shoot, Shoot, Shoot]).len(), 6);
}

#[test]
fn pause_button_toggles_on_press_only() {
    assert_eq!(PauseState::default(), PauseState::Running);
    assert_eq!(pause_button(PauseState::Running, true), Some(PauseState::Paused));
    assert_eq!(pause_button(PauseState::Paused, true), Some(PauseState::Running));
    assert_eq!(pause_button(PauseState::Paused, false), None);
}
