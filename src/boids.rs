//! Agents, the process-wide simulation state, and the per-tick systems that
//! steer the agents.
use vstd::prelude::*;
use crate::steering::{
    facing, facing_spec, flee, flee_spec, integrate, integrate_spec, lemma_push_antisymmetric,
    lemma_push_bound, push, push_bound, push_spec, seek, seek_spec, wander, wander_spec,
    MAX_AVOIDANCE, MAX_SPEED, STEER_LIMIT, WANDER_STEPS,
};
use crate::random::random_between;
use crate::vector::{norm_sq, Vec2, COORD_LIMIT, SCALE};

verus! {

/// The radius of an agent (10 world units).
pub const BOID_SIZE: i64 = 10_000;

/// The avoidance gain at start-up (100 world units).
pub const DEFAULT_AVOIDANCE: i64 = 100_000;

/// Whether the agents pursue the target or evade it.
#[derive(Clone, Copy, PartialEq, Eq, Structural, Debug)]
pub enum Stance {
    Follow,
    Evade,
}

/// A request to spawn an agent at a world position.
#[derive(Clone, Copy, PartialEq, Eq, Structural, Debug)]
pub struct BoidSpawned(pub Vec2);

/// A request to switch every agent to the given stance.
#[derive(Clone, Copy, PartialEq, Eq, Structural, Debug)]
pub struct StanceChanged(pub Stance);

/// A request that every agent fires one bullet.
#[derive(Clone, Copy, PartialEq, Eq, Structural, Debug)]
pub struct Shoot;

/// An agent was struck by a bullet; both are entity identifiers.
#[derive(Clone, Copy, PartialEq, Eq, Structural, Debug)]
pub struct BoidShot {
    pub boid: u64,
    pub bullet: u64,
}

/// The stance that the agents currently hold.
#[derive(Clone, Copy, PartialEq, Eq, Structural, Debug)]
pub struct PlayerStance(pub Stance);

/// The gain of the repulsion between agents, kept within `0..=MAX_AVOIDANCE`.
#[derive(Clone, Copy, PartialEq, Eq, Structural, Debug)]
pub struct AvoidanceFactor(pub i64);

/// The steering accumulator of an agent: the sum of this tick's contributions.
#[derive(Clone, Copy, PartialEq, Eq, Structural, Debug)]
pub struct Steering {
    pub x: i128,
    pub y: i128,
}

/// The behaviours attached to an agent.  Seek and Flee exclude each other.
#[derive(Clone, Copy, PartialEq, Eq, Structural, Debug)]
pub struct Behaviours {
    pub seek: bool,
    pub flee: bool,
    pub wander: bool,
    pub avoid: bool,
}

/// An agent of the swarm.
#[derive(Clone, Copy, PartialEq, Eq, Structural, Debug)]
pub struct Boid {
    pub position: Vec2,
    pub velocity: Vec2,
    pub steering: Steering,
    /// The unit vector the agent faces; its angle is `atan2(-x, y)`.
    pub facing: Vec2,
    pub behaviours: Behaviours,
}

impl Stance {
    pub open spec fn opposite_spec(self) -> Stance {
        match self {
            Stance::Follow => Stance::Evade,
            Stance::Evade => Stance::Follow,
        }
    }

    /// The stance that a toggle switches to.
    pub fn opposite(&self) -> (r: Stance)
        ensures
            r == self.opposite_spec(),
    {
        match self {
            Stance::Follow => Stance::Evade,
            Stance::Evade => Stance::Follow,
        }
    }
}

impl Boid {
    /// The bounds within which the steering arithmetic is exact.
    pub open spec fn wf(self) -> bool {
        &&& self.position.in_range(COORD_LIMIT as int)
        &&& self.velocity.in_range(COORD_LIMIT as int)
        &&& -STEER_LIMIT <= self.steering.x <= STEER_LIMIT
        &&& -STEER_LIMIT <= self.steering.y <= STEER_LIMIT
    }

    /// The agent with `c` added to its steering.
    pub open spec fn steered(self, c: Vec2) -> Boid {
        Boid {
            steering: Steering {
                x: (self.steering.x + c.x) as i128,
                y: (self.steering.y + c.y) as i128,
            },
            ..self
        }
    }

    fn add_steering(&mut self, c: Vec2)
        requires
            old(self).wf(),
            c.in_range(push_bound()),
        ensures
            *final(self) == old(self).steered(c),
    {
        self.steering.x = self.steering.x + c.x as i128;
        self.steering.y = self.steering.y + c.y as i128;
    }
}

pub open spec fn all_wf(boids: Seq<Boid>) -> bool {
    forall|i: int| 0 <= i < boids.len() ==> #[trigger] boids[i].wf()
}

/// An agent after Seek, when it seeks.
pub open spec fn after_seek(b: Boid, target: Vec2) -> Boid {
    if b.behaviours.seek {
        b.steered(seek_spec(b.position, b.velocity, target))
    } else {
        b
    }
}

/// An agent after Flee, when it flees.
pub open spec fn after_flee(b: Boid, target: Vec2) -> Boid {
    if b.behaviours.flee {
        b.steered(flee_spec(b.position, b.velocity, target))
    } else {
        b
    }
}

/// Adds Seek's contribution toward `target` to every agent that seeks.
pub fn seek_system(target: Vec2, boids: &mut Vec<Boid>)
    requires
        target.in_range(COORD_LIMIT as int),
        all_wf(old(boids)@),
    ensures
        final(boids)@.len() == old(boids)@.len(),
        forall|i: int|
            0 <= i < old(boids)@.len() ==> #[trigger] final(boids)@[i] == after_seek(
                old(boids)@[i],
                target,
            ),
{
    let n = boids.len();
    let mut i: usize = 0;
    while i < n
        invariant
            n == boids@.len(),
            n == old(boids)@.len(),
            0 <= i <= n,
            target.in_range(COORD_LIMIT as int),
            all_wf(old(boids)@),
            forall|j: int| 0 <= j < i ==> #[trigger] boids@[j] == after_seek(old(boids)@[j], target),
            forall|j: int| i <= j < n ==> #[trigger] boids@[j] == old(boids)@[j],
        decreases n - i,
    {
        let mut b = boids[i];
        assert(b.wf());
        if b.behaviours.seek {
            let c = seek(b.position, b.velocity, target);
            b.add_steering(c);
            boids.set(i, b);
        }
        i += 1;
    }
}

/// Adds Flee's contribution away from `target` to every agent that flees.
pub fn flee_system(target: Vec2, boids: &mut Vec<Boid>)
    requires
        target.in_range(COORD_LIMIT as int),
        all_wf(old(boids)@),
    ensures
        final(boids)@.len() == old(boids)@.len(),
        forall|i: int|
            0 <= i < old(boids)@.len() ==> #[trigger] final(boids)@[i] == after_flee(
                old(boids)@[i],
                target,
            ),
{
    let n = boids.len();
    let mut i: usize = 0;
    while i < n
        invariant
            n == boids@.len(),
            n == old(boids)@.len(),
            0 <= i <= n,
            target.in_range(COORD_LIMIT as int),
            all_wf(old(boids)@),
            forall|j: int| 0 <= j < i ==> #[trigger] boids@[j] == after_flee(old(boids)@[j], target),
            forall|j: int| i <= j < n ==> #[trigger] boids@[j] == old(boids)@[j],
        decreases n - i,
    {
        let mut b = boids[i];
        assert(b.wf());
        if b.behaviours.flee {
            let c = flee(b.position, b.velocity, target);
            b.add_steering(c);
            boids.set(i, b);
        }
        i += 1;
    }
}

/// An agent after Wander with the given turn, when it wanders.
pub open spec fn after_wander(b: Boid, turn: int) -> Boid {
    if b.behaviours.wander {
        b.steered(wander_spec(b.velocity, turn))
    } else {
        b
    }
}

pub open spec fn turn_ok(turn: int) -> bool {
    -WANDER_STEPS <= turn <= WANDER_STEPS
}

/// `after` is `before` after Wander with some turn within `WANDER_STEPS`.
pub open spec fn wandered(before: Boid, after: Boid) -> bool {
    exists|t: int| turn_ok(t) && after == #[trigger] after_wander(before, t)
}

/// Adds Wander's contribution to every agent that wanders, the agent at
/// index `i` turning by `turns[i]` steps.
pub fn wander_with(turns: &Vec<i64>, boids: &mut Vec<Boid>)
    requires
        turns@.len() == old(boids)@.len(),
        forall|i: int| 0 <= i < turns@.len() ==> turn_ok(#[trigger] turns@[i] as int),
        all_wf(old(boids)@),
    ensures
        final(boids)@.len() == old(boids)@.len(),
        forall|i: int|
            0 <= i < old(boids)@.len() ==> #[trigger] final(boids)@[i] == after_wander(
                old(boids)@[i],
                turns@[i] as int,
            ),
{
    let n = boids.len();
    let mut i: usize = 0;
    while i < n
        invariant
            n == boids@.len(),
            n == old(boids)@.len(),
            n == turns@.len(),
            0 <= i <= n,
            forall|j: int| 0 <= j < turns@.len() ==> turn_ok(#[trigger] turns@[j] as int),
            all_wf(old(boids)@),
            forall|j: int|
                0 <= j < i ==> #[trigger] boids@[j] == after_wander(old(boids)@[j], turns@[j] as int),
            forall|j: int| i <= j < n ==> #[trigger] boids@[j] == old(boids)@[j],
        decreases n - i,
    {
        let mut b = boids[i];
        assert(b.wf());
        if b.behaviours.wander {
            assert(turn_ok(turns@[i as int] as int));
            let c = wander(b.velocity, turns[i]);
            b.add_steering(c);
            boids.set(i, b);
        }
        i += 1;
    }
}

/// `n` wander turns drawn at random, each within `WANDER_STEPS` either way.
pub fn random_turns(n: usize) -> (r: Vec<i64>)
    ensures
        r@.len() == n,
        forall|i: int| 0 <= i < n ==> turn_ok(#[trigger] r@[i] as int),
{
    let mut turns: Vec<i64> = Vec::new();
    let mut i: usize = 0;
    while i < n
        invariant
            0 <= i <= n,
            turns@.len() == i,
            forall|j: int| 0 <= j < i ==> turn_ok(#[trigger] turns@[j] as int),
        decreases n - i,
    {
        let t = random_between(-WANDER_STEPS, WANDER_STEPS);
        turns.push(t);
        i += 1;
    }
    turns
}

/// Adds Wander's contribution to every agent that wanders, each turning by
/// a random number of steps within `WANDER_STEPS` either way.
pub fn wander_system(boids: &mut Vec<Boid>)
    requires
        all_wf(old(boids)@),
    ensures
        final(boids)@.len() == old(boids)@.len(),
        forall|i: int|
            0 <= i < old(boids)@.len() ==> #[trigger] wandered(old(boids)@[i], final(boids)@[i]),
{
    let turns = random_turns(boids.len());
    wander_with(&turns, boids);
    assert forall|i: int| 0 <= i < old(boids)@.len() implies #[trigger] wandered(
        old(boids)@[i],
        boids@[i],
    ) by {
        assert(turn_ok(turns@[i] as int));
        assert(boids@[i] == after_wander(old(boids)@[i], turns@[i] as int));
    }
}

/// Agents `k` and `j` repel each other: they are distinct and both avoid.
pub open spec fn repels(boids: Seq<Boid>, k: int, j: int) -> bool {
    j != k && boids[k].behaviours.avoid && boids[j].behaviours.avoid
}

/// The total repulsion on agent `k` from the agents before index `m`.
pub open spec fn push_total(boids: Seq<Boid>, k: int, m: int, factor: int) -> (int, int)
    decreases m,
{
    if m <= 0 {
        (0, 0)
    } else {
        let before = push_total(boids, k, m - 1, factor);
        if repels(boids, k, m - 1) {
            let p = push_spec(boids[k].position, boids[m - 1].position, factor);
            (before.0 + p.x, before.1 + p.y)
        } else {
            before
        }
    }
}

/// Agent `k` with the repulsion of the agents before index `m` added to its
/// steering.
pub open spec fn avoided(boids: Seq<Boid>, k: int, m: int, factor: int) -> Boid {
    let t = push_total(boids, k, m, factor);
    Boid {
        steering: Steering {
            x: (boids[k].steering.x + t.0) as i128,
            y: (boids[k].steering.y + t.1) as i128,
        },
        ..boids[k]
    }
}

/// An agent that does not avoid is pushed by nobody.
pub proof fn lemma_push_total_idle(boids: Seq<Boid>, k: int, m: int, factor: int)
    requires
        0 <= k < boids.len(),
        !boids[k].behaviours.avoid,
    ensures
        push_total(boids, k, m, factor) == (0int, 0int),
    decreases m,
{
    if m > 0 {
        lemma_push_total_idle(boids, k, m - 1, factor);
    }
}

/// Each agent adds at most `push_bound()` per axis to the total.
pub proof fn lemma_push_total_bound(boids: Seq<Boid>, k: int, m: int, factor: int)
    requires
        all_wf(boids),
        0 <= k < boids.len(),
        0 <= m <= boids.len(),
        0 <= factor <= MAX_AVOIDANCE,
    ensures
        -(m * push_bound()) <= push_total(boids, k, m, factor).0 <= m * push_bound(),
        -(m * push_bound()) <= push_total(boids, k, m, factor).1 <= m * push_bound(),
    decreases m,
{
    if m > 0 {
        lemma_push_total_bound(boids, k, m - 1, factor);
        assert(boids[k].wf() && boids[m - 1].wf());
        lemma_push_bound(boids[k].position, boids[m - 1].position, factor);
        assert((m - 1) * push_bound() + push_bound() == m * push_bound()) by (nonlinear_arith);
    }
}

/// Adds to every agent that avoids the repulsion of every other agent that
/// avoids.  Each pair is visited once, and its push is added to one agent
/// and subtracted from the other.
pub fn avoidance_system(boids: &mut Vec<Boid>, factor: &AvoidanceFactor)
    requires
        all_wf(old(boids)@),
        factor.wf(),
    ensures
        final(boids)@.len() == old(boids)@.len(),
        forall|k: int|
            0 <= k < old(boids)@.len() ==> #[trigger] final(boids)@[k] == avoided(
                old(boids)@,
                k,
                old(boids)@.len() as int,
                factor.0 as int,
            ),
{
    let n = boids.len();
    let f = factor.0;
    let ghost start = boids@;
    let ghost fi = f as int;
    let ghost pb = push_bound();
    let mut i: usize = 0;
    while i < n
        invariant
            n == boids@.len(),
            start == old(boids)@,
            n == start.len(),
            fi == f,
            pb == push_bound(),
            0 <= f <= MAX_AVOIDANCE,
            all_wf(start),
            0 <= i <= n,
            forall|k: int| 0 <= k < i ==> #[trigger] boids@[k] == avoided(start, k, n as int, fi),
            forall|k: int| i <= k < n ==> #[trigger] boids@[k] == avoided(start, k, i as int, fi),
        decreases n - i,
    {
        if !boids[i].behaviours.avoid {
            proof {
                lemma_push_total_idle(start, i as int, n as int, fi);
                lemma_push_total_idle(start, i as int, i as int, fi);
                assert forall|k: int| i < k < n implies #[trigger] avoided(start, k, i + 1, fi)
                    == avoided(start, k, i as int, fi) by {
                    assert(!repels(start, k, i as int));
                }
            }
        } else {
            assert(avoided(start, i as int, i + 1, fi) == avoided(start, i as int, i as int, fi));
            let mut j: usize = i + 1;
            while j < n
                invariant
                    n == boids@.len(),
                    n == start.len(),
                    fi == f,
                    pb == push_bound(),
                    0 <= f <= MAX_AVOIDANCE,
                    all_wf(start),
                    0 <= i < n,
                    i < j <= n,
                    start[i as int].behaviours.avoid,
                    forall|k: int|
                        0 <= k < i ==> #[trigger] boids@[k] == avoided(start, k, n as int, fi),
                    boids@[i as int] == avoided(start, i as int, j as int, fi),
                    forall|k: int|
                        i < k < j ==> #[trigger] boids@[k] == avoided(start, k, i + 1, fi),
                    forall|k: int|
                        j <= k < n ==> #[trigger] boids@[k] == avoided(start, k, i as int, fi),
                decreases n - j,
            {
                if boids[j].behaviours.avoid {
                    let mut bi = boids[i];
                    let mut bj = boids[j];
                    assert(start[i as int].wf() && start[j as int].wf());
                    let p = push(bi.position, bj.position, f);
                    proof {
                        lemma_push_total_bound(start, i as int, j as int, fi);
                        lemma_push_total_bound(start, j as int, i as int, fi);
                        lemma_push_antisymmetric(
                            start[i as int].position,
                            start[j as int].position,
                            fi,
                        );
                        assert(j * pb <= 0x1_0000_0000_0000_0000 * pb) by (nonlinear_arith)
                            requires
                                j < 0x1_0000_0000_0000_0000,
                                pb >= 0,
                        ;
                        assert(i * pb <= 0x1_0000_0000_0000_0000 * pb) by (nonlinear_arith)
                            requires
                                i < 0x1_0000_0000_0000_0000,
                                pb >= 0,
                        ;
                        assert(repels(start, i as int, j as int));
                        assert(repels(start, j as int, i as int));
                    }
                    bi.steering.x = bi.steering.x + p.x as i128;
                    bi.steering.y = bi.steering.y + p.y as i128;
                    bj.steering.x = bj.steering.x - p.x as i128;
                    bj.steering.y = bj.steering.y - p.y as i128;
                    boids.set(i, bi);
                    boids.set(j, bj);
                } else {
                    proof {
                        assert(!repels(start, i as int, j as int));
                        assert(!repels(start, j as int, i as int));
                    }
                }
                j += 1;
            }
        }
        i += 1;
    }
}

/// An agent after the integrator: new velocity and facing, steering cleared.
pub open spec fn after_move(b: Boid) -> Boid {
    let v = integrate_spec(b.velocity, b.steering.x as int, b.steering.y as int);
    Boid { velocity: v, facing: facing_spec(v), steering: Steering { x: 0, y: 0 }, ..b }
}

/// Turns each agent's steering into its new velocity and facing, and clears
/// the steering for the next tick.
pub fn movement_system(boids: &mut Vec<Boid>)
    requires
        all_wf(old(boids)@),
    ensures
        final(boids)@.len() == old(boids)@.len(),
        forall|i: int|
            0 <= i < old(boids)@.len() ==> #[trigger] final(boids)@[i] == after_move(
                old(boids)@[i],
            ),
        forall|i: int|
            0 <= i < old(boids)@.len() ==> norm_sq(
                #[trigger] final(boids)@[i].velocity.x as int,
                final(boids)@[i].velocity.y as int,
            ) <= MAX_SPEED * MAX_SPEED,
{
    let n = boids.len();
    let mut i: usize = 0;
    while i < n
        invariant
            n == boids@.len(),
            n == old(boids)@.len(),
            0 <= i <= n,
            all_wf(old(boids)@),
            forall|j: int| 0 <= j < i ==> #[trigger] boids@[j] == after_move(old(boids)@[j]),
            forall|j: int|
                0 <= j < i ==> norm_sq(
                    #[trigger] boids@[j].velocity.x as int,
                    boids@[j].velocity.y as int,
                ) <= MAX_SPEED * MAX_SPEED,
            forall|j: int| i <= j < n ==> #[trigger] boids@[j] == old(boids)@[j],
        decreases n - i,
    {
        let mut b = boids[i];
        assert(b.wf());
        let v = integrate(b.velocity, b.steering.x, b.steering.y);
        b.velocity = v;
        b.facing = facing(v);
        b.steering = Steering { x: 0, y: 0 };
        boids.set(i, b);
        i += 1;
    }
}

/// An agent holding the behaviours of `stance`: Seek under Follow, Flee
/// under Evade, never both.
pub open spec fn with_stance(b: Boid, stance: Stance) -> Boid {
    Boid {
        behaviours: Behaviours {
            seek: stance == Stance::Follow,
            flee: stance == Stance::Evade,
            ..b.behaviours
        },
        ..b
    }
}

/// The agents, each holding the behaviours of `stance`.
pub open spec fn all_with_stance(boids: Seq<Boid>, stance: Stance) -> Seq<Boid> {
    boids.map_values(|b: Boid| with_stance(b, stance))
}

/// Applies each stance change in turn: every agent takes the new stance's
/// behaviours, and the process-wide stance follows.
pub fn behaviour_system(
    events: &Vec<StanceChanged>,
    boids: &mut Vec<Boid>,
    stance: &mut PlayerStance,
)
    ensures
        final(boids)@.len() == old(boids)@.len(),
        events@.len() == 0 ==> *final(boids) == *old(boids) && *final(stance) == *old(stance),
        events@.len() > 0 ==> *final(stance) == PlayerStance(events@.last().0),
        events@.len() > 0 ==> final(boids)@ == all_with_stance(old(boids)@, events@.last().0),
{
    let n = boids.len();
    let mut e: usize = 0;
    while e < events.len()
        invariant
            n == boids@.len(),
            n == old(boids)@.len(),
            0 <= e <= events@.len(),
            e == 0 ==> *boids == *old(boids) && *stance == *old(stance),
            e > 0 ==> *stance == PlayerStance(events@[e - 1].0),
            e > 0 ==> forall|i: int|
                0 <= i < n ==> #[trigger] boids@[i] == with_stance(old(boids)@[i], events@[e - 1].0),
        decreases events@.len() - e,
    {
        let s = events[e].0;
        let mut i: usize = 0;
        while i < n
            invariant
                n == boids@.len(),
                n == old(boids)@.len(),
                0 <= i <= n,
                0 <= e < events@.len(),
                s == events@[e as int].0,
                forall|j: int| 0 <= j < i ==> #[trigger] boids@[j] == with_stance(old(boids)@[j], s),
                e == 0 ==> forall|j: int| i <= j < n ==> #[trigger] boids@[j] == old(boids)@[j],
                e > 0 ==> forall|j: int|
                    i <= j < n ==> #[trigger] boids@[j] == with_stance(
                        old(boids)@[j],
                        events@[e - 1].0,
                    ),
            decreases n - i,
        {
            let mut b = boids[i];
            b.behaviours.seek = match s {
                Stance::Follow => true,
                Stance::Evade => false,
            };
            b.behaviours.flee = match s {
                Stance::Follow => false,
                Stance::Evade => true,
            };
            boids.set(i, b);
            i += 1;
        }
        *stance = PlayerStance(s);
        e += 1;
    }
    proof {
        if events@.len() > 0 {
            assert(boids@ =~= all_with_stance(old(boids)@, events@.last().0));
        }
    }
}

/// Toggling twice is a round trip: agents that all seek (and none flees)
/// all flee and none seeks after one toggle, and after a second toggle they
/// are exactly what they were.
pub proof fn lemma_toggle_round_trip(boids: Seq<Boid>)
    requires
        forall|i: int|
            0 <= i < boids.len() ==> (#[trigger] boids[i]).behaviours.seek
                && !boids[i].behaviours.flee,
    ensures
        ({
            let once = all_with_stance(boids, Stance::Follow.opposite_spec());
            let twice = all_with_stance(once, Stance::Evade.opposite_spec());
            &&& forall|i: int|
                0 <= i < once.len() ==> (#[trigger] once[i]).behaviours.flee
                    && !once[i].behaviours.seek
            &&& twice == boids
        }),
{
    let once = all_with_stance(boids, Stance::Evade);
    let twice = all_with_stance(once, Stance::Follow);
    assert(twice =~= boids);
}

/// The gain after a run of adjustments, starting from `start`.
pub open spec fn adjusted(start: int, deltas: Seq<int>) -> int
    decreases deltas.len(),
{
    if deltas.len() == 0 {
        start
    } else {
        clamp_gain(adjusted(start, deltas.drop_last()) + deltas.last())
    }
}

/// However many adjustments come, of whatever sign or size, the gain stays
/// within `0..=MAX_AVOIDANCE`.
pub proof fn lemma_adjustments_stay_in_range(start: int, deltas: Seq<int>)
    requires
        0 <= start <= MAX_AVOIDANCE,
    ensures
        0 <= adjusted(start, deltas) <= MAX_AVOIDANCE,
    decreases deltas.len(),
{
    if deltas.len() > 0 {
        lemma_adjustments_stay_in_range(start, deltas.drop_last());
    }
}

/// A freshly spawned agent: at rest at `position`, facing up, with Wander,
/// Avoid and the behaviour of `stance`.
pub open spec fn spawned(position: Vec2, stance: Stance) -> Boid {
    Boid {
        position,
        velocity: Vec2 { x: 0, y: 0 },
        steering: Steering { x: 0, y: 0 },
        facing: Vec2 { x: 0, y: SCALE },
        behaviours: Behaviours {
            seek: stance == Stance::Follow,
            flee: stance == Stance::Evade,
            wander: true,
            avoid: true,
        },
    }
}

/// One new agent for each spawn request, in order.
pub fn spawn_system(events: &Vec<BoidSpawned>, stance: &PlayerStance) -> (r: Vec<Boid>)
    ensures
        r@.len() == events@.len(),
        forall|i: int| 0 <= i < events@.len() ==> #[trigger] r@[i] == spawned(events@[i].0, stance.0),
{
    let mut r: Vec<Boid> = Vec::new();
    let mut i: usize = 0;
    while i < events.len()
        invariant
            0 <= i <= events@.len(),
            r@.len() == i,
            forall|j: int| 0 <= j < i ==> #[trigger] r@[j] == spawned(events@[j].0, stance.0),
        decreases events@.len() - i,
    {
        let following = match stance.0 {
            Stance::Follow => true,
            Stance::Evade => false,
        };
        let b = Boid {
            position: events[i].0,
            velocity: Vec2 { x: 0, y: 0 },
            steering: Steering { x: 0, y: 0 },
            facing: Vec2 { x: 0, y: 1000 },
            behaviours: Behaviours { seek: following, flee: !following, wander: true, avoid: true },
        };
        r.push(b);
        i += 1;
    }
    r
}

/// `v` held within `0..=MAX_AVOIDANCE`.
pub open spec fn clamp_gain(v: int) -> int {
    if v < 0 {
        0
    } else if v > MAX_AVOIDANCE {
        MAX_AVOIDANCE as int
    } else {
        v
    }
}

impl AvoidanceFactor {
    pub open spec fn wf(self) -> bool {
        0 <= self.0 <= MAX_AVOIDANCE
    }

    /// Changes the gain by `delta`, held within `0..=MAX_AVOIDANCE` whatever
    /// the sign or size of `delta`.
    pub fn adjust(&mut self, delta: i64)
        ensures
            final(self).0 == clamp_gain(old(self).0 + delta),
            final(self).wf(),
    {
        let v: i128 = self.0 as i128 + delta as i128;
        self.0 = if v < 0 {
            0
        } else if v > MAX_AVOIDANCE as i128 {
            MAX_AVOIDANCE
        } else {
            v as i64
        };
    }
}

} // verus!
