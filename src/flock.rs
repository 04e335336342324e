//! The simulation context: the agents and the process-wide resources, and
//! the tick that runs every contributor and then the integrator.
use vstd::prelude::*;
use crate::boids::{
    after_flee, after_move, after_seek, after_wander, all_with_stance, avoidance_system, avoided,
    behaviour_system, flee_system, lemma_push_total_bound, movement_system, random_turns,
    seek_system, spawn_system, spawned, turn_ok, wander_with, AvoidanceFactor, Boid, BoidSpawned,
    PlayerStance, Shoot, Stance, StanceChanged, Steering, DEFAULT_AVOIDANCE,
};
use crate::bullets::{shoot_system, volleys, Bullet};
use crate::steering::{lemma_seek_flee_bound, lemma_wander_bound, push_bound, MAX_SPEED};
use crate::vector::{Vec2, COORD_LIMIT};

verus! {

/// The pointer's world position: the target of Seek and Flee.
#[derive(Clone, Copy, PartialEq, Eq, Structural, Debug)]
pub struct MousePosition(pub Vec2);

/// Sets up the simulation context.
pub struct BoidPlugin;

/// The agents together with the stance, the avoidance gain and the target.
pub struct Flock {
    pub boids: Vec<Boid>,
    pub stance: PlayerStance,
    pub avoidance: AvoidanceFactor,
    pub target: MousePosition,
}

/// An agent between ticks: within bounds, with nothing accumulated.
pub open spec fn settled(b: Boid) -> bool {
    b.wf() && b.steering == Steering { x: 0, y: 0 }
}

/// The agent holds the behaviour of `stance` and not the other one: Seek
/// under Follow, Flee under Evade.
pub open spec fn holds_stance(b: Boid, stance: Stance) -> bool {
    b.behaviours.seek == (stance == Stance::Follow) && b.behaviours.flee == (stance
        == Stance::Evade)
}

/// The agents after every contributor has run: Seek, Flee, then Wander with
/// the given turns.
pub open spec fn contributed(boids: Seq<Boid>, target: Vec2, turns: Seq<i64>) -> Seq<Boid> {
    Seq::new(
        boids.len(),
        |i: int| after_wander(after_flee(after_seek(boids[i], target), target), turns[i] as int),
    )
}

/// The agents after one tick: the contributors, pairwise avoidance, then the
/// integrator.
pub open spec fn ticked(boids: Seq<Boid>, target: Vec2, factor: int, turns: Seq<i64>) -> Seq<Boid> {
    let c = contributed(boids, target, turns);
    Seq::new(boids.len(), |k: int| after_move(avoided(c, k, boids.len() as int, factor)))
}

pub open spec fn turns_ok(turns: Seq<i64>, n: int) -> bool {
    turns.len() == n && forall|i: int| 0 <= i < turns.len() ==> turn_ok(#[trigger] turns[i] as int)
}

impl Flock {
    pub open spec fn wf(&self) -> bool {
        &&& self.avoidance.wf()
        &&& self.target.0.in_range(COORD_LIMIT as int)
        &&& forall|i: int| 0 <= i < self.boids@.len() ==> settled(#[trigger] self.boids@[i])
        &&& forall|i: int|
            0 <= i < self.boids@.len() ==> holds_stance(#[trigger] self.boids@[i], self.stance.0)
    }

    /// One tick with the given wander turns, one per agent.
    pub fn tick_with(&mut self, turns: &Vec<i64>)
        requires
            old(self).wf(),
            turns_ok(turns@, old(self).boids@.len() as int),
        ensures
            final(self).wf(),
            final(self).boids@ == ticked(
                old(self).boids@,
                old(self).target.0,
                old(self).avoidance.0 as int,
                turns@,
            ),
            final(self).stance == old(self).stance,
            final(self).avoidance == old(self).avoidance,
            final(self).target == old(self).target,
    {
        let len = self.boids.len();
        let ghost s0 = self.boids@;
        let ghost t = self.target.0;
        let ghost f = self.avoidance.0 as int;
        let ghost n = s0.len();
        let ghost c = 0x100_0000_0000int;
        seek_system(self.target.0, &mut self.boids);
        let ghost s1 = self.boids@;
        assert forall|i: int| 0 <= i < n implies (#[trigger] s1[i]).wf() && -c <= s1[i].steering.x
            <= c && -c <= s1[i].steering.y <= c by {
            assert(settled(s0[i]));
            lemma_seek_flee_bound(s0[i].position, s0[i].velocity, t);
        }
        flee_system(self.target.0, &mut self.boids);
        let ghost s2 = self.boids@;
        assert forall|i: int| 0 <= i < n implies (#[trigger] s2[i]).wf() && -2 * c
            <= s2[i].steering.x <= 2 * c && -2 * c <= s2[i].steering.y <= 2 * c by {
            assert(s1[i].wf());
            lemma_seek_flee_bound(s1[i].position, s1[i].velocity, t);
        }
        wander_with(turns, &mut self.boids);
        let ghost s3 = self.boids@;
        assert(s3 =~= contributed(s0, t, turns@));
        assert forall|i: int| 0 <= i < n implies (#[trigger] s3[i]).wf() && -3 * c
            <= s3[i].steering.x <= 3 * c && -3 * c <= s3[i].steering.y <= 3 * c by {
            assert(s2[i].wf());
            lemma_wander_bound(s2[i].velocity, turns@[i] as int);
        }
        avoidance_system(&mut self.boids, &self.avoidance);
        let ghost s4 = self.boids@;
        assert forall|k: int| 0 <= k < n implies (#[trigger] s4[k]).wf() by {
            lemma_push_total_bound(s3, k, n as int, f);
            let pb = push_bound();
            assert(n * pb <= 0x1_0000_0000_0000_0000 * pb) by (nonlinear_arith)
                requires
                    n < 0x1_0000_0000_0000_0000,
                    pb >= 0,
            ;
        }
        movement_system(&mut self.boids);
        proof {
            assert(self.boids@ =~= ticked(s0, t, f, turns@));
            assert forall|k: int| 0 <= k < n implies holds_stance(
                #[trigger] self.boids@[k],
                self.stance.0,
            ) by {
                assert(holds_stance(s0[k], self.stance.0));
                assert(self.boids@[k].behaviours == s0[k].behaviours);
            }
            assert forall|k: int| 0 <= k < n implies settled(#[trigger] self.boids@[k]) by {
                let v = self.boids@[k].velocity;
                let m = MAX_SPEED as int;
                assert(-m <= v.x <= m && -m <= v.y <= m) by (nonlinear_arith)
                    requires
                        v.x * v.x + v.y * v.y <= m * m,
                        m > 0,
                ;
            }
        }
    }

    /// One tick, each wandering agent turning by a random number of steps
    /// within `WANDER_STEPS` either way.
    pub fn tick(&mut self)
        requires
            old(self).wf(),
        ensures
            final(self).wf(),
            exists|turns: Seq<i64>|
                turns_ok(turns, old(self).boids@.len() as int) && final(self).boids@ == #[trigger] ticked(
                    old(self).boids@,
                    old(self).target.0,
                    old(self).avoidance.0 as int,
                    turns,
                ),
            final(self).stance == old(self).stance,
            final(self).avoidance == old(self).avoidance,
            final(self).target == old(self).target,
    {
        let turns = random_turns(self.boids.len());
        self.tick_with(&turns);
    }

    /// Applies stance changes to every agent and to the stance itself.
    pub fn change_stance(&mut self, events: &Vec<StanceChanged>)
        requires
            old(self).wf(),
        ensures
            final(self).wf(),
            events@.len() == 0 ==> final(self).boids@ == old(self).boids@ && final(self).stance
                == old(self).stance,
            events@.len() > 0 ==> final(self).stance == PlayerStance(events@.last().0),
            events@.len() > 0 ==> final(self).boids@ == all_with_stance(
                old(self).boids@,
                events@.last().0,
            ),
            final(self).avoidance == old(self).avoidance,
            final(self).target == old(self).target,
    {
        let ghost s0 = self.boids@;
        behaviour_system(events, &mut self.boids, &mut self.stance);
        assert forall|i: int| 0 <= i < self.boids@.len() implies settled(
            #[trigger] self.boids@[i],
        ) && holds_stance(self.boids@[i], self.stance.0) by {
            assert(settled(s0[i]));
            assert(holds_stance(s0[i], old(self).stance.0));
        }
    }

    /// Adds one agent at rest for each spawn request, after the existing ones.
    pub fn spawn(&mut self, events: &Vec<BoidSpawned>)
        requires
            old(self).wf(),
            forall|i: int|
                0 <= i < events@.len() ==> (#[trigger] events@[i]).0.in_range(COORD_LIMIT as int),
        ensures
            final(self).wf(),
            final(self).boids@.len() == old(self).boids@.len() + events@.len(),
            final(self).boids@.take(old(self).boids@.len() as int) == old(self).boids@,
            forall|i: int|
                0 <= i < events@.len() ==> final(self).boids@[old(self).boids@.len() + i]
                    == spawned(#[trigger] events@[i].0, old(self).stance.0),
            final(self).stance == old(self).stance,
            final(self).avoidance == old(self).avoidance,
            final(self).target == old(self).target,
    {
        let ghost s0 = self.boids@;
        let mut fresh = spawn_system(events, &self.stance);
        let ghost added = fresh@;
        self.boids.append(&mut fresh);
        proof {
            assert(self.boids@.take(s0.len() as int) =~= s0);
            assert forall|i: int| 0 <= i < self.boids@.len() implies settled(
                #[trigger] self.boids@[i],
            ) && holds_stance(self.boids@[i], self.stance.0) by {
                if i >= s0.len() {
                    assert(self.boids@[i] == added[i - s0.len()]);
                } else {
                    assert(settled(s0[i]));
                    assert(holds_stance(s0[i], self.stance.0));
                }
            }
            assert forall|i: int| 0 <= i < events@.len() implies self.boids@[s0.len() + i]
                == spawned(#[trigger] events@[i].0, self.stance.0) by {
                assert(self.boids@[s0.len() + i] == added[i]);
            }
        }
    }

    /// The bullets that the shoot requests fire: one volley per request.
    pub fn shoot(&self, events: &Vec<Shoot>) -> (r: Vec<Bullet>)
        requires
            self.wf(),
        ensures
            r@ == volleys(self.boids@, events@.len()),
    {
        assert forall|i: int| 0 <= i < self.boids@.len() implies (#[trigger] self.boids@[i]).wf() by {
            assert(settled(self.boids@[i]));
        }
        shoot_system(events, &self.boids)
    }
}

impl BoidPlugin {
    /// A fresh context: no agents, Follow stance, the default avoidance gain,
    /// and the target at the origin.
    pub fn build(&self) -> (r: Flock)
        ensures
            r.wf(),
            r.boids@.len() == 0,
            r.stance == PlayerStance(Stance::Follow),
            r.avoidance == AvoidanceFactor(DEFAULT_AVOIDANCE),
            r.target == MousePosition(Vec2 { x: 0, y: 0 }),
    {
        Flock {
            boids: Vec::new(),
            stance: PlayerStance(Stance::Follow),
            avoidance: AvoidanceFactor(DEFAULT_AVOIDANCE),
            target: MousePosition(Vec2 { x: 0, y: 0 }),
        }
    }
}

} // verus!
