//! Bullets fired by the agents, and the collisions that report a hit.
use vstd::prelude::*;
use crate::boids::{all_wf, Boid, BoidShot, Shoot};
use crate::vector::Vec2;

verus! {

/// The speed of a bullet in world units per second.
pub const BULLET_SPEED: i64 = 500;

/// How far ahead of an agent, in world units, its bullet appears: twice the
/// agent's radius.
pub const MUZZLE_OFFSET: i64 = 20;

/// The bullet systems: firing on request, and telling which collisions are hits.
pub struct BulletsPlugin;

/// A bullet to be created: where it starts and how it moves.
#[derive(Clone, Copy, PartialEq, Eq, Structural, Debug)]
pub struct Bullet {
    pub position: Vec2,
    pub velocity: Vec2,
}

/// An entity that took part in a collision, by role.
#[derive(Clone, Copy, PartialEq, Eq, Structural, Debug)]
pub enum Body {
    Boid(u64),
    Bullet(u64),
    Other(u64),
}

/// Two entities started touching.
#[derive(Clone, Copy, PartialEq, Eq, Structural, Debug)]
pub struct CollisionStarted(pub Body, pub Body);

/// The bullet that an agent fires: just ahead of it along its heading, and
/// moving that way at `BULLET_SPEED`.  An agent at rest fires a bullet that
/// stays where the agent is.
pub open spec fn bullet_for(b: Boid) -> Bullet {
    let u = b.velocity.unit_spec();
    Bullet {
        position: Vec2 {
            x: (b.position.x + u.x * MUZZLE_OFFSET) as i64,
            y: (b.position.y + u.y * MUZZLE_OFFSET) as i64,
        },
        velocity: Vec2 { x: (u.x * BULLET_SPEED) as i64, y: (u.y * BULLET_SPEED) as i64 },
    }
}

/// One bullet per agent, in the agents' order.
pub open spec fn volley(boids: Seq<Boid>) -> Seq<Bullet> {
    boids.map_values(|b: Boid| bullet_for(b))
}

/// `count` volleys, one after another.
pub open spec fn volleys(boids: Seq<Boid>, count: nat) -> Seq<Bullet>
    decreases count,
{
    if count == 0 {
        Seq::empty()
    } else {
        volleys(boids, (count - 1) as nat) + volley(boids)
    }
}

/// The hit that a collision reports, if any: only an agent meeting a
/// bullet, in either order, is one.
pub open spec fn hit_of(e: CollisionStarted) -> Option<BoidShot> {
    match e.0 {
        Body::Boid(a) => match e.1 {
            Body::Bullet(b) => Some(BoidShot { boid: a, bullet: b }),
            _ => None,
        },
        Body::Bullet(a) => match e.1 {
            Body::Boid(b) => Some(BoidShot { boid: b, bullet: a }),
            _ => None,
        },
        Body::Other(_) => None,
    }
}

/// The hits that a sequence of collisions reports, in order.
pub open spec fn hits(events: Seq<CollisionStarted>) -> Seq<BoidShot>
    decreases events.len(),
{
    if events.len() == 0 {
        Seq::empty()
    } else {
        let before = hits(events.drop_last());
        match hit_of(events.last()) {
            Some(s) => before.push(s),
            None => before,
        }
    }
}

/// The bullet that one agent fires.
fn fire(b: &Boid) -> (r: Bullet)
    requires
        b.wf(),
    ensures
        r == bullet_for(*b),
{
    let u = b.velocity.unit();
    Bullet {
        position: Vec2 {
            x: b.position.x + u.x * MUZZLE_OFFSET,
            y: b.position.y + u.y * MUZZLE_OFFSET,
        },
        velocity: Vec2 { x: u.x * BULLET_SPEED, y: u.y * BULLET_SPEED },
    }
}

/// For each shoot request, one bullet from every agent.
pub fn shoot_system(events: &Vec<Shoot>, boids: &Vec<Boid>) -> (r: Vec<Bullet>)
    requires
        all_wf(boids@),
    ensures
        r@ == volleys(boids@, events@.len()),
{
    let mut r: Vec<Bullet> = Vec::new();
    let n = boids.len();
    let mut e: usize = 0;
    while e < events.len()
        invariant
            n == boids@.len(),
            all_wf(boids@),
            0 <= e <= events@.len(),
            r@ == volleys(boids@, e as nat),
        decreases events@.len() - e,
    {
        let mut i: usize = 0;
        while i < n
            invariant
                n == boids@.len(),
                all_wf(boids@),
                0 <= i <= n,
                r@ == volleys(boids@, e as nat) + volley(boids@.take(i as int)),
            decreases n - i,
        {
            assert(boids@[i as int].wf());
            let bullet = fire(&boids[i]);
            proof {
                assert(volley(boids@.take(i + 1)) =~= volley(boids@.take(i as int)).push(bullet));
            }
            r.push(bullet);
            i += 1;
        }
        proof {
            assert(boids@.take(n as int) =~= boids@);
        }
        e += 1;
    }
    r
}

/// The hits among the collisions that started: an agent and a bullet, in
/// either order.  Agent-agent and bullet-bullet collisions are no hits.
pub fn collision_system(events: &Vec<CollisionStarted>) -> (r: Vec<BoidShot>)
    ensures
        r@ == hits(events@),
{
    let mut r: Vec<BoidShot> = Vec::new();
    let mut i: usize = 0;
    while i < events.len()
        invariant
            0 <= i <= events@.len(),
            r@ == hits(events@.take(i as int)),
        decreases events@.len() - i,
    {
        let e = events[i];
        proof {
            assert(events@.take(i + 1).drop_last() =~= events@.take(i as int));
            assert(events@.take(i + 1).last() == e);
        }
        match e.0 {
            Body::Boid(a) => match e.1 {
                Body::Bullet(b) => r.push(BoidShot { boid: a, bullet: b }),
                _ => {},
            },
            Body::Bullet(a) => match e.1 {
                Body::Boid(b) => r.push(BoidShot { boid: b, bullet: a }),
                _ => {},
            },
            Body::Other(_) => {},
        }
        i += 1;
    }
    proof {
        assert(events@.take(events@.len() as int) =~= events@);
    }
    r
}

} // verus!
