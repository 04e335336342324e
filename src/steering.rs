//! The behaviour contributors and the motion integrator.
//!
//! Steering is measured as a fraction of the top speed: `SCALE` in a
//! steering vector asks for full speed.  Seek and Flee work in velocity
//! space: each contributes its desired velocity minus the agent's current
//! velocity, both expressed in that unit.
use vstd::prelude::*;
use crate::vector::{
    abs, clamp_comp, clamp_length, div_toward_zero, lemma_product_bound, lemma_quot_neg, magnitude,
    norm_sq, quot, unit_comp, unit_of, Vec2, COORD_LIMIT,
    DIRECTION_LIMIT, SCALE,
};

verus! {

/// Inside this distance of the target, Seek slows down; outside it, Flee does.
pub const SLOWING_RADIUS: i64 = 100_000;

/// The top speed of an agent (250 world units per second).
pub const MAX_SPEED: i64 = 250_000;

/// A velocity divided by this is expressed as a fraction of the top speed.
pub const SPEED_UNITS: i64 = 250;

/// The integrator turns steering into a change of velocity by the steering
/// gain (0.75) times the top speed (250): `375 / 2` per unit.
pub const GAIN_NUMERATOR: i128 = 375;

pub const GAIN_DENOMINATOR: i128 = 2;

/// A wander turn of `k` steps rotates the heading by `atan(k / WANDER_BASE)`.
pub const WANDER_BASE: i64 = 60;

/// The largest wander turn in steps: `atan(16 / 60)` is just under 15 degrees.
pub const WANDER_STEPS: i64 = 16;

/// The largest avoidance gain (10000 world units).
pub const MAX_AVOIDANCE: i64 = 10_000_000;

/// Bound on the steering accumulator that the integrator accepts.
pub const STEER_LIMIT: i128 = 0x1_0000_0000_0000_0000_0000_0000_0000;

/// Before clamping, a velocity longer than this per axis is first shrunk
/// along its own direction, so that its square fits the arithmetic.
pub const FIT_LIMIT: i128 = 0x1000_0000_0000_0000;

/// The agent's current velocity as a fraction of the top speed.
pub open spec fn relative_comp(v: int) -> int {
    quot(v, SPEED_UNITS as int)
}

/// `u` scaled by `num / den`, rounded toward zero.
pub open spec fn scaled(u: int, num: int, den: int) -> int {
    quot(u * num, den)
}

/// What Seek asks for: full speed toward the target, slowed in proportion
/// to the distance once within the slowing radius.
pub open spec fn seek_desired_comp(c: int, px: int, py: int) -> int {
    let d = crate::vector::length(px, py);
    if d <= SLOWING_RADIUS {
        scaled(unit_comp(c, px, py), d, SLOWING_RADIUS as int)
    } else {
        unit_comp(c, px, py)
    }
}

/// What Flee asks for: full speed away from the target while within the
/// slowing radius, falling off as `radius / distance` beyond it.
pub open spec fn flee_desired_comp(c: int, px: int, py: int) -> int {
    let d = crate::vector::length(px, py);
    if d >= SLOWING_RADIUS {
        scaled(unit_comp(c, px, py), SLOWING_RADIUS as int, d)
    } else {
        unit_comp(c, px, py)
    }
}

pub open spec fn seek_desired_spec(position: Vec2, target: Vec2) -> Vec2 {
    let px = target.x - position.x;
    let py = target.y - position.y;
    Vec2 { x: seek_desired_comp(px, px, py) as i64, y: seek_desired_comp(py, px, py) as i64 }
}

pub open spec fn flee_desired_spec(position: Vec2, target: Vec2) -> Vec2 {
    let px = position.x - target.x;
    let py = position.y - target.y;
    Vec2 { x: flee_desired_comp(px, px, py) as i64, y: flee_desired_comp(py, px, py) as i64 }
}

/// Desired velocity minus current velocity, in steering units.
pub open spec fn correction(desired: Vec2, velocity: Vec2) -> Vec2 {
    Vec2 {
        x: (desired.x - relative_comp(velocity.x as int)) as i64,
        y: (desired.y - relative_comp(velocity.y as int)) as i64,
    }
}

pub open spec fn seek_spec(position: Vec2, velocity: Vec2, target: Vec2) -> Vec2 {
    correction(seek_desired_spec(position, target), velocity)
}

pub open spec fn flee_spec(position: Vec2, velocity: Vec2, target: Vec2) -> Vec2 {
    correction(flee_desired_spec(position, target), velocity)
}

/// The heading turned by `atan(turn / WANDER_BASE)`, before normalising.
pub open spec fn turned_x(velocity: Vec2, turn: int) -> int {
    WANDER_BASE * velocity.x - turn * velocity.y
}

pub open spec fn turned_y(velocity: Vec2, turn: int) -> int {
    WANDER_BASE * velocity.y + turn * velocity.x
}

/// Wander: the unit heading turned by a small angle.
pub open spec fn wander_spec(velocity: Vec2, turn: int) -> Vec2 {
    let tx = turned_x(velocity, turn);
    let ty = turned_y(velocity, turn);
    Vec2 { x: unit_comp(tx, tx, ty) as i64, y: unit_comp(ty, tx, ty) as i64 }
}

/// One component of the repulsion that `other` exerts on the agent at
/// `position`: away from `other`, inversely proportional to the squared
/// distance, times `factor`.  Coincident agents exert none.
pub open spec fn push_comp(c: int, vx: int, vy: int, factor: int) -> int {
    let d2 = norm_sq(vx, vy);
    if d2 == 0 {
        0
    } else {
        quot(-unit_comp(c, vx, vy) * factor * SCALE, d2)
    }
}

pub open spec fn push_spec(position: Vec2, other: Vec2, factor: int) -> Vec2 {
    let vx = other.x - position.x;
    let vy = other.y - position.y;
    Vec2 { x: push_comp(vx, vx, vy, factor) as i64, y: push_comp(vy, vx, vy, factor) as i64 }
}

pub open spec fn push_bound() -> int {
    SCALE * MAX_AVOIDANCE * SCALE
}

/// The velocity before clamping: the old velocity plus the scaled steering.
pub open spec fn raw_comp(v: int, s: int) -> int {
    v + quot(s * GAIN_NUMERATOR, GAIN_DENOMINATOR as int)
}

pub open spec fn max_abs(x: int, y: int) -> int {
    if abs(x) >= abs(y) {
        abs(x)
    } else {
        abs(y)
    }
}

/// A raw velocity shrunk, along its direction, to fit `FIT_LIMIT` per axis;
/// unchanged when it fits already.
pub open spec fn fit_comp(c: int, x: int, y: int) -> int {
    quot(c, max_abs(x, y) / (FIT_LIMIT as int) + 1)
}

/// The integrated velocity: raw velocity, fitted, then capped at the top speed.
pub open spec fn integrate_comp(c: int, x: int, y: int) -> int {
    let fx = fit_comp(x, x, y);
    let fy = fit_comp(y, x, y);
    clamp_comp(fit_comp(c, x, y), fx, fy, MAX_SPEED as int)
}

pub open spec fn integrate_spec(velocity: Vec2, sx: int, sy: int) -> Vec2 {
    let x = raw_comp(velocity.x as int, sx);
    let y = raw_comp(velocity.y as int, sy);
    Vec2 { x: integrate_comp(x, x, y) as i64, y: integrate_comp(y, x, y) as i64 }
}

/// The facing of an agent: the direction of its velocity, or straight up
/// (angle zero) when it stands still.
pub open spec fn facing_spec(velocity: Vec2) -> Vec2 {
    if velocity.is_zero() {
        Vec2 { x: 0, y: SCALE }
    } else {
        velocity.unit_spec()
    }
}

/// Scaling by a ratio of at most one never lengthens a component.
pub proof fn lemma_scaled_le(u: int, a: int, b: int)
    requires
        0 <= a <= b,
        b > 0,
    ensures
        abs(scaled(u, a, b)) <= abs(u),
{
    let au = abs(u);
    if u >= 0 {
        assert(u * a >= 0) by (nonlinear_arith)
            requires
                u >= 0,
                a >= 0,
        ;
    } else {
        assert(u * a == -((-u) * a)) by (nonlinear_arith);
        assert((-u) * a >= 0) by (nonlinear_arith)
            requires
                u < 0,
                a >= 0,
        ;
    }
    assert(abs(scaled(u, a, b)) == (au * a) / b);
    assert(au * a <= au * b) by (nonlinear_arith)
        requires
            0 <= a <= b,
            au >= 0,
    ;
    assert((au * a) / b <= au) by (nonlinear_arith)
        requires
            au * a <= au * b,
            au * a >= 0,
            b > 0,
    ;
}

/// A single push lies within `push_bound()` on each axis.
pub proof fn lemma_push_comp_bound(c: int, vx: int, vy: int, factor: int)
    requires
        c == vx || c == vy,
        0 <= factor <= MAX_AVOIDANCE,
    ensures
        abs(push_comp(c, vx, vy, factor)) <= push_bound(),
{
    let d2 = norm_sq(vx, vy);
    if d2 != 0 {
        crate::vector::lemma_norm_sq_nonneg(vx, vy);
        crate::vector::lemma_unit_comp_bound(vx, vy);
        let u = unit_comp(c, vx, vy);
        lemma_product_bound(-u, factor, SCALE as int, MAX_AVOIDANCE as int);
        lemma_product_bound(-u * factor, SCALE as int, SCALE * MAX_AVOIDANCE, SCALE as int);
        let a = -u * factor * SCALE;
        assert(abs(a) / d2 <= abs(a)) by (nonlinear_arith)
            requires
                d2 > 0,
        ;
    }
}

pub proof fn lemma_push_bound(position: Vec2, other: Vec2, factor: int)
    requires
        0 <= factor <= MAX_AVOIDANCE,
        position.in_range(COORD_LIMIT as int),
        other.in_range(COORD_LIMIT as int),
    ensures
        push_spec(position, other, factor).in_range(push_bound()),
{
    let vx = other.x - position.x;
    let vy = other.y - position.y;
    lemma_push_comp_bound(vx, vx, vy, factor);
    lemma_push_comp_bound(vy, vx, vy, factor);
}

/// The repulsion between two agents acts on each with equal strength and
/// opposite direction: what `b` exerts on `a` is the negation of what `a`
/// exerts on `b`.
pub proof fn lemma_push_antisymmetric(a: Vec2, b: Vec2, factor: int)
    requires
        0 <= factor <= MAX_AVOIDANCE,
        a.in_range(COORD_LIMIT as int),
        b.in_range(COORD_LIMIT as int),
    ensures
        push_spec(b, a, factor) == push_spec(a, b, factor).neg_spec(),
{
    let vx = b.x - a.x;
    let vy = b.y - a.y;
    lemma_push_comp_bound(vx, vx, vy, factor);
    lemma_push_comp_bound(vy, vx, vy, factor);
    lemma_push_comp_bound(-vx, -vx, -vy, factor);
    lemma_push_comp_bound(-vy, -vx, -vy, factor);
    assert((-vx) * (-vx) + (-vy) * (-vy) == vx * vx + vy * vy) by (nonlinear_arith);
    let d2 = norm_sq(vx, vy);
    if d2 != 0 {
        crate::vector::lemma_norm_sq_nonneg(vx, vy);
        assert(vx != 0 || vy != 0);
        crate::vector::lemma_unit_comp_neg(vx, vx, vy);
        crate::vector::lemma_unit_comp_neg(vy, vx, vy);
        let ux = unit_comp(vx, vx, vy);
        let uy = unit_comp(vy, vx, vy);
        assert(-(-ux) * factor * SCALE == -(-ux * factor * SCALE)) by (nonlinear_arith);
        assert(-(-uy) * factor * SCALE == -(-uy * factor * SCALE)) by (nonlinear_arith);
        lemma_quot_neg(-ux * factor * SCALE, d2);
        lemma_quot_neg(-uy * factor * SCALE, d2);
        assert(unit_comp(-vx, -vx, -vy) == -ux);
        assert(push_comp(-vx, -vx, -vy, factor) == -push_comp(vx, vx, vy, factor));
        assert(push_comp(-vy, -vx, -vy, factor) == -push_comp(vy, vx, vy, factor));
    }
    assert(a.x - b.x == -vx && a.y - b.y == -vy);
}

/// Beyond the slowing radius, Seek asks for full speed straight at the
/// target: each component of its desired velocity is the matching component
/// of `(target - position) * SCALE / distance`, rounded toward zero, where
/// `e = length((target - position) * SCALE)` gives the distance to a
/// thousandth of a fixed-point unit.
pub proof fn lemma_seek_points_at_target(position: Vec2, target: Vec2)
    requires
        position.in_range(COORD_LIMIT as int),
        target.in_range(COORD_LIMIT as int),
        crate::vector::length(target.x - position.x, target.y - position.y) > SLOWING_RADIUS,
    ensures
        ({
            let px = target.x - position.x;
            let py = target.y - position.y;
            let e = crate::vector::length(px * SCALE, py * SCALE);
            let v = seek_desired_spec(position, target);
            &&& abs(v.x as int) * e <= abs(px) * SCALE * SCALE < (abs(v.x as int) + 1) * e
            &&& abs(v.y as int) * e <= abs(py) * SCALE * SCALE < (abs(v.y as int) + 1) * e
            &&& (px >= 0 ==> v.x >= 0) && (px <= 0 ==> v.x <= 0)
            &&& (py >= 0 ==> v.y >= 0) && (py <= 0 ==> v.y <= 0)
        }),
{
    let px = target.x - position.x;
    let py = target.y - position.y;
    let e = crate::vector::length(px * SCALE, py * SCALE);
    crate::vector::lemma_length(px, py);
    crate::vector::lemma_length(px * SCALE, py * SCALE);
    crate::vector::lemma_unit_comp_bound(px, py);
    if px == 0 && py == 0 {
        assert(crate::vector::is_root(0, 0));
        crate::vector::lemma_root_unique(0, 0);
        assert(norm_sq(px, py) == 0);
    }
    assert(px != 0 || py != 0);
    assert(px * SCALE != 0 || py * SCALE != 0);
    crate::vector::lemma_quot_rounding(px * SCALE * SCALE, e);
    crate::vector::lemma_quot_rounding(py * SCALE * SCALE, e);
    assert(abs(px * SCALE * SCALE) == abs(px) * SCALE * SCALE);
    assert(abs(py * SCALE * SCALE) == abs(py) * SCALE * SCALE);
}

/// Within the slowing radius, an agent at rest gets from Seek its desired
/// velocity, scaled by `distance / SLOWING_RADIUS`: linear in the distance,
/// and no more than `SCALE * distance / SLOWING_RADIUS`, so it vanishes as
/// the agent reaches the target.
pub proof fn lemma_seek_arrival(position: Vec2, target: Vec2)
    requires
        position.in_range(COORD_LIMIT as int),
        target.in_range(COORD_LIMIT as int),
        0 < crate::vector::length(target.x - position.x, target.y - position.y) <= SLOWING_RADIUS,
    ensures
        ({
            let px = target.x - position.x;
            let py = target.y - position.y;
            let d = crate::vector::length(px, py);
            let ux = unit_comp(px, px, py);
            let uy = unit_comp(py, px, py);
            let c = seek_spec(position, Vec2 { x: 0, y: 0 }, target);
            &&& abs(c.x as int) * SLOWING_RADIUS <= abs(ux) * d
            &&& abs(ux) * d < (abs(c.x as int) + 1) * SLOWING_RADIUS
            &&& abs(c.y as int) * SLOWING_RADIUS <= abs(uy) * d
            &&& abs(uy) * d < (abs(c.y as int) + 1) * SLOWING_RADIUS
            &&& abs(c.x as int) * SLOWING_RADIUS <= SCALE * d
            &&& abs(c.y as int) * SLOWING_RADIUS <= SCALE * d
        }),
{
    let px = target.x - position.x;
    let py = target.y - position.y;
    let d = crate::vector::length(px, py);
    let ux = unit_comp(px, px, py);
    let uy = unit_comp(py, px, py);
    let r = SLOWING_RADIUS as int;
    crate::vector::lemma_length(px, py);
    crate::vector::lemma_unit_comp_bound(px, py);
    lemma_scaled_le(ux, d, r);
    lemma_scaled_le(uy, d, r);
    crate::vector::lemma_quot_rounding(ux * d, r);
    crate::vector::lemma_quot_rounding(uy * d, r);
    assert(abs(ux * d) == abs(ux) * d) by (nonlinear_arith)
        requires
            d > 0,
    ;
    assert(abs(uy * d) == abs(uy) * d) by (nonlinear_arith)
        requires
            d > 0,
    ;
    assert(abs(ux) * d <= SCALE * d) by (nonlinear_arith)
        requires
            abs(ux) <= SCALE,
            d > 0,
    ;
    assert(abs(uy) * d <= SCALE * d) by (nonlinear_arith)
        requires
            abs(uy) <= SCALE,
            d > 0,
    ;
    assert(quot(0, SPEED_UNITS as int) == 0);
}

/// An agent at rest within the slowing radius of the target gets from Flee
/// the full unit vector away from it; beyond the radius the contribution
/// falls off as `SCALE * SLOWING_RADIUS / distance`, vanishing far away.
pub proof fn lemma_flee_strength(position: Vec2, target: Vec2)
    requires
        position.in_range(COORD_LIMIT as int),
        target.in_range(COORD_LIMIT as int),
    ensures
        ({
            let px = position.x - target.x;
            let py = position.y - target.y;
            let d = crate::vector::length(px, py);
            let c = flee_spec(position, Vec2 { x: 0, y: 0 }, target);
            &&& d < SLOWING_RADIUS ==> c == (Vec2 { x: px as i64, y: py as i64 }).unit_spec()
            &&& d >= SLOWING_RADIUS ==> abs(c.x as int) * d <= SCALE * SLOWING_RADIUS
            &&& d >= SLOWING_RADIUS ==> abs(c.y as int) * d <= SCALE * SLOWING_RADIUS
        }),
{
    let px = position.x - target.x;
    let py = position.y - target.y;
    let d = crate::vector::length(px, py);
    let r = SLOWING_RADIUS as int;
    crate::vector::lemma_length(px, py);
    crate::vector::lemma_unit_comp_bound(px, py);
    assert(quot(0, SPEED_UNITS as int) == 0);
    if d >= r {
        let ux = unit_comp(px, px, py);
        let uy = unit_comp(py, px, py);
        crate::vector::lemma_quot_rounding(ux * r, d);
        crate::vector::lemma_quot_rounding(uy * r, d);
        assert(abs(ux * r) <= SCALE * r) by (nonlinear_arith)
            requires
                abs(ux) <= SCALE,
                r > 0,
        ;
        assert(abs(uy * r) <= SCALE * r) by (nonlinear_arith)
            requires
                abs(uy) <= SCALE,
                r > 0,
        ;
        lemma_scaled_le(ux, r, d);
        lemma_scaled_le(uy, r, d);
    }
}

/// Seek and Flee never ask for more than full speed, and what they add lies
/// within `COORD_LIMIT` for an agent within bounds.
pub proof fn lemma_seek_flee_bound(position: Vec2, velocity: Vec2, target: Vec2)
    requires
        position.in_range(COORD_LIMIT as int),
        velocity.in_range(COORD_LIMIT as int),
        target.in_range(COORD_LIMIT as int),
    ensures
        seek_desired_spec(position, target).in_range(SCALE as int),
        flee_desired_spec(position, target).in_range(SCALE as int),
        seek_spec(position, velocity, target).in_range(COORD_LIMIT as int),
        flee_spec(position, velocity, target).in_range(COORD_LIMIT as int),
{
    let sx = target.x - position.x;
    let sy = target.y - position.y;
    crate::vector::lemma_length(sx, sy);
    crate::vector::lemma_unit_comp_bound(sx, sy);
    let ds = crate::vector::length(sx, sy);
    if ds <= SLOWING_RADIUS {
        lemma_scaled_le(unit_comp(sx, sx, sy), ds, SLOWING_RADIUS as int);
        lemma_scaled_le(unit_comp(sy, sx, sy), ds, SLOWING_RADIUS as int);
    }
    let fx = position.x - target.x;
    let fy = position.y - target.y;
    crate::vector::lemma_length(fx, fy);
    crate::vector::lemma_unit_comp_bound(fx, fy);
    let df = crate::vector::length(fx, fy);
    if df >= SLOWING_RADIUS {
        lemma_scaled_le(unit_comp(fx, fx, fy), SLOWING_RADIUS as int, df);
        lemma_scaled_le(unit_comp(fy, fx, fy), SLOWING_RADIUS as int, df);
    }
    lemma_correction_bound(velocity.x as int);
    lemma_correction_bound(velocity.y as int);
}

proof fn lemma_correction_bound(v: int)
    requires
        -COORD_LIMIT <= v <= COORD_LIMIT,
    ensures
        abs(relative_comp(v)) <= COORD_LIMIT / 250,
{
    assert(abs(relative_comp(v)) <= COORD_LIMIT / 250) by (nonlinear_arith)
        requires
            relative_comp(v) == quot(v, 250),
            -COORD_LIMIT <= v <= COORD_LIMIT,
    ;
}

/// Wander adds a unit vector at most.
pub proof fn lemma_wander_bound(velocity: Vec2, turn: int)
    ensures
        wander_spec(velocity, turn).in_range(SCALE as int),
{
    crate::vector::lemma_unit_comp_bound(turned_x(velocity, turn), turned_y(velocity, turn));
}

/// The desired velocity of Seek, in steering units.
pub fn seek_desired(position: Vec2, target: Vec2) -> (r: Vec2)
    requires
        position.in_range(COORD_LIMIT as int),
        target.in_range(COORD_LIMIT as int),
    ensures
        r == seek_desired_spec(position, target),
        r.in_range(SCALE as int),
{
    let px: i128 = target.x as i128 - position.x as i128;
    let py: i128 = target.y as i128 - position.y as i128;
    let u = unit_of(px, py);
    let d = magnitude(px, py);
    if d <= SLOWING_RADIUS as i128 {
        proof {
            lemma_scaled_le(u.x as int, d as int, SLOWING_RADIUS as int);
            lemma_scaled_le(u.y as int, d as int, SLOWING_RADIUS as int);
            lemma_product_bound(u.x as int, d as int, SCALE as int, SLOWING_RADIUS as int);
            lemma_product_bound(u.y as int, d as int, SCALE as int, SLOWING_RADIUS as int);
        }
        let x = div_toward_zero(u.x as i128 * d, SLOWING_RADIUS as i128);
        let y = div_toward_zero(u.y as i128 * d, SLOWING_RADIUS as i128);
        Vec2 { x: x as i64, y: y as i64 }
    } else {
        u
    }
}

/// The desired velocity of Flee, in steering units.
pub fn flee_desired(position: Vec2, target: Vec2) -> (r: Vec2)
    requires
        position.in_range(COORD_LIMIT as int),
        target.in_range(COORD_LIMIT as int),
    ensures
        r == flee_desired_spec(position, target),
        r.in_range(SCALE as int),
{
    let px: i128 = position.x as i128 - target.x as i128;
    let py: i128 = position.y as i128 - target.y as i128;
    let u = unit_of(px, py);
    let d = magnitude(px, py);
    if d >= SLOWING_RADIUS as i128 {
        proof {
            lemma_scaled_le(u.x as int, SLOWING_RADIUS as int, d as int);
            lemma_scaled_le(u.y as int, SLOWING_RADIUS as int, d as int);
            lemma_product_bound(u.x as int, SLOWING_RADIUS as int, SCALE as int, SLOWING_RADIUS as int);
            lemma_product_bound(u.y as int, SLOWING_RADIUS as int, SCALE as int, SLOWING_RADIUS as int);
        }
        let x = div_toward_zero(u.x as i128 * SLOWING_RADIUS as i128, d);
        let y = div_toward_zero(u.y as i128 * SLOWING_RADIUS as i128, d);
        Vec2 { x: x as i64, y: y as i64 }
    } else {
        u
    }
}

/// A desired velocity minus the current one, in steering units.
fn correct(desired: Vec2, velocity: Vec2) -> (r: Vec2)
    requires
        desired.in_range(SCALE as int),
        velocity.in_range(COORD_LIMIT as int),
    ensures
        r == correction(desired, velocity),
        r.in_range(COORD_LIMIT as int),
{
    let vx = div_toward_zero(velocity.x as i128, SPEED_UNITS as i128);
    let vy = div_toward_zero(velocity.y as i128, SPEED_UNITS as i128);
    proof {
        assert(abs(vx as int) <= COORD_LIMIT / 250) by (nonlinear_arith)
            requires
                vx == quot(velocity.x as int, 250),
                -COORD_LIMIT <= velocity.x <= COORD_LIMIT,
        ;
        assert(abs(vy as int) <= COORD_LIMIT / 250) by (nonlinear_arith)
            requires
                vy == quot(velocity.y as int, 250),
                -COORD_LIMIT <= velocity.y <= COORD_LIMIT,
        ;
    }
    Vec2 { x: (desired.x as i128 - vx) as i64, y: (desired.y as i128 - vy) as i64 }
}

/// What Seek adds to an agent's steering.
pub fn seek(position: Vec2, velocity: Vec2, target: Vec2) -> (r: Vec2)
    requires
        position.in_range(COORD_LIMIT as int),
        velocity.in_range(COORD_LIMIT as int),
        target.in_range(COORD_LIMIT as int),
    ensures
        r == seek_spec(position, velocity, target),
        r.in_range(COORD_LIMIT as int),
{
    let desired = seek_desired(position, target);
    correct(desired, velocity)
}

/// What Flee adds to an agent's steering.
pub fn flee(position: Vec2, velocity: Vec2, target: Vec2) -> (r: Vec2)
    requires
        position.in_range(COORD_LIMIT as int),
        velocity.in_range(COORD_LIMIT as int),
        target.in_range(COORD_LIMIT as int),
    ensures
        r == flee_spec(position, velocity, target),
        r.in_range(COORD_LIMIT as int),
{
    let desired = flee_desired(position, target);
    correct(desired, velocity)
}

/// What Wander adds to an agent's steering: its heading turned by
/// `atan(turn / WANDER_BASE)`, as a unit vector.
pub fn wander(velocity: Vec2, turn: i64) -> (r: Vec2)
    requires
        velocity.in_range(COORD_LIMIT as int),
        -WANDER_STEPS <= turn <= WANDER_STEPS,
    ensures
        r == wander_spec(velocity, turn as int),
        r.in_range(SCALE as int),
        velocity.is_zero() ==> r.is_zero(),
{
    proof {
        lemma_product_bound(turn as int, velocity.x as int, WANDER_STEPS as int, COORD_LIMIT as int);
        lemma_product_bound(turn as int, velocity.y as int, WANDER_STEPS as int, COORD_LIMIT as int);
    }
    proof {
        if velocity.is_zero() {
            assert(turn * velocity.y == 0 && turn * velocity.x == 0) by (nonlinear_arith)
                requires
                    velocity.x == 0,
                    velocity.y == 0,
            ;
        }
    }
    let tx: i128 = 60 * velocity.x as i128 - turn as i128 * velocity.y as i128;
    let ty: i128 = 60 * velocity.y as i128 + turn as i128 * velocity.x as i128;
    unit_of(tx, ty)
}

/// The repulsion that an agent at `other` exerts on the agent at `position`.
pub fn push(position: Vec2, other: Vec2, factor: i64) -> (r: Vec2)
    requires
        position.in_range(COORD_LIMIT as int),
        other.in_range(COORD_LIMIT as int),
        0 <= factor <= MAX_AVOIDANCE,
    ensures
        r == push_spec(position, other, factor as int),
        r.in_range(push_bound()),
{
    let vx: i128 = other.x as i128 - position.x as i128;
    let vy: i128 = other.y as i128 - position.y as i128;
    proof {
        crate::vector::lemma_square_bound(vx as int);
        crate::vector::lemma_square_bound(vy as int);
    }
    let d2: i128 = vx * vx + vy * vy;
    if d2 == 0 {
        return Vec2 { x: 0, y: 0 };
    }
    let u = unit_of(vx, vy);
    proof {
        lemma_product_bound(-u.x, factor as int, SCALE as int, MAX_AVOIDANCE as int);
        lemma_product_bound(-u.y, factor as int, SCALE as int, MAX_AVOIDANCE as int);
        lemma_product_bound(-u.x * factor, SCALE as int, SCALE * MAX_AVOIDANCE, SCALE as int);
        lemma_product_bound(-u.y * factor, SCALE as int, SCALE * MAX_AVOIDANCE, SCALE as int);
    }
    let nx: i128 = -(u.x as i128) * factor as i128 * 1000;
    let ny: i128 = -(u.y as i128) * factor as i128 * 1000;
    let x = div_toward_zero(nx, d2);
    let y = div_toward_zero(ny, d2);
    Vec2 { x: x as i64, y: y as i64 }
}

/// The velocity that the integrator derives from the old velocity and the
/// accumulated steering `(sx, sy)`.  Its length never exceeds `MAX_SPEED`.
pub fn integrate(velocity: Vec2, sx: i128, sy: i128) -> (r: Vec2)
    requires
        velocity.in_range(COORD_LIMIT as int),
        -STEER_LIMIT <= sx <= STEER_LIMIT,
        -STEER_LIMIT <= sy <= STEER_LIMIT,
    ensures
        r == integrate_spec(velocity, sx as int, sy as int),
        norm_sq(r.x as int, r.y as int) <= MAX_SPEED * MAX_SPEED,
        r.in_range(MAX_SPEED as int),
{
    proof {
        lemma_product_bound(sx as int, GAIN_NUMERATOR as int, STEER_LIMIT as int, GAIN_NUMERATOR as int);
        lemma_product_bound(sy as int, GAIN_NUMERATOR as int, STEER_LIMIT as int, GAIN_NUMERATOR as int);
    }
    let ax = div_toward_zero(sx * GAIN_NUMERATOR, GAIN_DENOMINATOR);
    let ay = div_toward_zero(sy * GAIN_NUMERATOR, GAIN_DENOMINATOR);
    let x: i128 = velocity.x as i128 + ax;
    let y: i128 = velocity.y as i128 + ay;
    let abs_x: i128 = if x >= 0 {
        x
    } else {
        -x
    };
    let abs_y: i128 = if y >= 0 {
        y
    } else {
        -y
    };
    let m: i128 = if abs_x >= abs_y {
        abs_x
    } else {
        abs_y
    };
    let d: i128 = m / FIT_LIMIT + 1;
    let fx = div_toward_zero(x, d);
    let fy = div_toward_zero(y, d);
    proof {
        let fl = FIT_LIMIT as int;
        assert(m < fl * d) by (nonlinear_arith)
            requires
                m >= 0,
                fl > 0,
                d == (m as int) / fl + 1,
        ;
        assert((abs_x as int) / (d as int) < fl && (abs_y as int) / (d as int) < fl) by (nonlinear_arith)
            requires
                0 <= abs_x <= m,
                0 <= abs_y <= m,
                m < fl * d,
                d > 0,
        ;
        assert(abs(fx as int) == (abs_x as int) / (d as int));
        assert(abs(fy as int) == (abs_y as int) / (d as int));
    }
    let r = clamp_length(fx, fy, MAX_SPEED as i128);
    proof {
        let rx = r.x as int;
        let ry = r.y as int;
        let ms = MAX_SPEED as int;
        assert(-ms <= rx <= ms && -ms <= ry <= ms) by (nonlinear_arith)
            requires
                rx * rx + ry * ry <= ms * ms,
                ms > 0,
        ;
    }
    r
}

/// The facing of an agent with the given velocity.
pub fn facing(velocity: Vec2) -> (r: Vec2)
    requires
        velocity.in_range(DIRECTION_LIMIT as int),
    ensures
        r == facing_spec(velocity),
{
    if velocity.x == 0 && velocity.y == 0 {
        Vec2 { x: 0, y: 1000 }
    } else {
        velocity.unit()
    }
}

} // verus!
