//! Fixed-point 2D vectors.
//!
//! Every length in the simulation is an integer count of thousandths of a
//! world unit, so `SCALE` stands for `1.0`.  Divisions round toward zero, and
//! square roots are the integer (floor) root.
use vstd::prelude::*;

verus! {

/// The fixed-point value of one world unit.
pub const SCALE: i64 = 1000;

/// Bound on the components of positions and velocities that the steering
/// arithmetic accepts (about a billion world units).
pub const COORD_LIMIT: i64 = 0x100_0000_0000;

/// Bound on the components of a vector whose length is taken.
pub const UNIT_LIMIT: i128 = 0x2000_0000_0000_0000;

/// Bound on the components of a vector whose direction is taken.
pub const DIRECTION_LIMIT: i128 = 0x8_0000_0000_0000;

/// A 2D vector whose components are fixed-point numbers.
#[derive(Clone, Copy, PartialEq, Eq, Structural, Debug)]
pub struct Vec2 {
    pub x: i64,
    pub y: i64,
}

/// Division that rounds toward zero, as Rust's integer `/` does.
pub open spec fn quot(a: int, b: int) -> int {
    if a >= 0 {
        a / b
    } else {
        -((-a) / b)
    }
}

pub open spec fn abs(a: int) -> int {
    if a >= 0 {
        a
    } else {
        -a
    }
}

pub open spec fn norm_sq(x: int, y: int) -> int {
    x * x + y * y
}

/// `r` is the integer square root of `n`.
pub open spec fn is_root(n: int, r: int) -> bool {
    0 <= r && r * r <= n && n < (r + 1) * (r + 1)
}

/// The integer square root: the largest `r` with `r * r <= n`.
pub open spec fn root(n: int) -> int {
    choose|r: int| is_root(n, r)
}

/// The smallest `r` with `n <= r * r`.
pub open spec fn ceil_root(n: int) -> int {
    if root(n) * root(n) == n {
        root(n)
    } else {
        root(n) + 1
    }
}

/// The length of `(x, y)`, rounded down.
pub open spec fn length(x: int, y: int) -> int {
    root(norm_sq(x, y))
}

/// One component of the unit vector along `(x, y)`; zero for the zero vector.
/// The length is taken at `SCALE` times the resolution, so that the
/// direction of a short vector is as accurate as that of a long one.
pub open spec fn unit_comp(c: int, x: int, y: int) -> int {
    if x == 0 && y == 0 {
        0
    } else {
        quot(c * SCALE * SCALE, length(x * SCALE, y * SCALE))
    }
}

impl Vec2 {
    pub open spec fn in_range(self, limit: int) -> bool {
        -limit <= self.x <= limit && -limit <= self.y <= limit
    }

    pub open spec fn is_zero(self) -> bool {
        self.x == 0 && self.y == 0
    }

    /// The direction of `self` as a unit vector, or zero for the zero vector.
    pub open spec fn unit_spec(self) -> Vec2 {
        Vec2 {
            x: unit_comp(self.x as int, self.x as int, self.y as int) as i64,
            y: unit_comp(self.y as int, self.x as int, self.y as int) as i64,
        }
    }

    pub open spec fn neg_spec(self) -> Vec2 {
        Vec2 { x: -self.x as i64, y: -self.y as i64 }
    }

    /// The unit vector along `self` (length `SCALE`), or zero for zero.
    pub fn unit(&self) -> (r: Vec2)
        requires
            self.in_range(DIRECTION_LIMIT as int),
        ensures
            r == self.unit_spec(),
            r.in_range(SCALE as int),
            self.is_zero() <==> r.is_zero(),
    {
        unit_of(self.x as i128, self.y as i128)
    }

    pub fn zero() -> (r: Vec2)
        ensures
            r.is_zero(),
    {
        Vec2 { x: 0, y: 0 }
    }

    pub fn new(x: i64, y: i64) -> (r: Vec2)
        ensures
            r.x == x,
            r.y == y,
    {
        Vec2 { x, y }
    }
}

/// Component of `(x, y)` after its length is capped at `max`, direction kept.
pub open spec fn clamp_comp(c: int, x: int, y: int, max: int) -> int {
    if norm_sq(x, y) <= max * max {
        c
    } else {
        quot(c * max, ceil_root(norm_sq(x, y)))
    }
}

pub proof fn lemma_root_unique(n: int, r: int)
    requires
        is_root(n, r),
    ensures
        root(n) == r,
{
    let s = root(n);
    assert(is_root(n, s));
    if s < r {
        assert((s + 1) * (s + 1) <= r * r) by (nonlinear_arith)
            requires
                0 <= s < r,
        ;
    } else if r < s {
        assert((r + 1) * (r + 1) <= s * s) by (nonlinear_arith)
            requires
                0 <= r < s,
        ;
    }
}

pub proof fn lemma_root_exists(n: int)
    requires
        n >= 0,
    ensures
        is_root(n, root(n)),
    decreases n,
{
    if n == 0 {
        assert(is_root(0, 0));
        lemma_root_unique(0, 0);
    } else {
        lemma_root_exists(n - 1);
        let r = root(n - 1);
        if (r + 1) * (r + 1) <= n {
            assert(n < (r + 2) * (r + 2)) by (nonlinear_arith)
                requires
                    n - 1 < (r + 1) * (r + 1),
                    r >= 0,
            ;
            assert(is_root(n, r + 1));
            lemma_root_unique(n, r + 1);
        } else {
            assert(is_root(n, r));
            lemma_root_unique(n, r);
        }
    }
}

pub proof fn lemma_norm_sq_nonneg(x: int, y: int)
    ensures
        norm_sq(x, y) >= 0,
        x * x <= norm_sq(x, y),
        y * y <= norm_sq(x, y),
        (x != 0 || y != 0) ==> norm_sq(x, y) > 0,
{
    assert(x * x >= 0 && y * y >= 0) by (nonlinear_arith);
    if x != 0 {
        assert(x * x > 0) by (nonlinear_arith)
            requires
                x != 0,
        ;
    }
    if y != 0 {
        assert(y * y > 0) by (nonlinear_arith)
            requires
                y != 0,
        ;
    }
}

/// The length of a vector is a root of its squared length, positive unless
/// the vector is zero, and no shorter than either component.
pub proof fn lemma_length(x: int, y: int)
    ensures
        is_root(norm_sq(x, y), length(x, y)),
        abs(x) <= length(x, y),
        abs(y) <= length(x, y),
        (x != 0 || y != 0) ==> length(x, y) > 0,
        length(-x, -y) == length(x, y),
{
    lemma_norm_sq_nonneg(x, y);
    let n = norm_sq(x, y);
    lemma_root_exists(n);
    lemma_comp_le_length(x, n, root(n));
    lemma_comp_le_length(y, n, root(n));
    assert((-x) * (-x) + (-y) * (-y) == x * x + y * y) by (nonlinear_arith);
}

/// Each component of a unit vector lies within `SCALE` either way.
pub proof fn lemma_unit_comp_bound(x: int, y: int)
    ensures
        abs(unit_comp(x, x, y)) <= SCALE,
        abs(unit_comp(y, x, y)) <= SCALE,
{
    if x != 0 || y != 0 {
        let l = length(x * SCALE, y * SCALE);
        lemma_length(x * SCALE, y * SCALE);
        lemma_quot_scaled_le(x * SCALE, SCALE as int, l);
        lemma_quot_scaled_le(y * SCALE, SCALE as int, l);
    }
}

/// Reversing a vector reverses its unit vector.
pub proof fn lemma_unit_comp_neg(c: int, x: int, y: int)
    requires
        x != 0 || y != 0,
    ensures
        unit_comp(-c, -x, -y) == -unit_comp(c, x, y),
{
    lemma_length(x * SCALE, y * SCALE);
    assert((-x) * SCALE == -(x * SCALE) && (-y) * SCALE == -(y * SCALE));
    lemma_quot_neg(c * SCALE * SCALE, length(x * SCALE, y * SCALE));
    assert((-c) * SCALE * SCALE == -(c * SCALE * SCALE));
}

/// A component is never longer than the whole vector.
pub proof fn lemma_comp_le_length(c: int, n: int, r: int)
    requires
        c * c <= n,
        is_root(n, r),
    ensures
        abs(c) <= r,
{
    if abs(c) > r {
        assert((r + 1) * (r + 1) <= abs(c) * abs(c)) by (nonlinear_arith)
            requires
                0 <= r < abs(c),
        ;
        assert(abs(c) * abs(c) == c * c) by (nonlinear_arith);
    }
}

/// The integer square root of `n`, by bisection.
pub fn isqrt(n: u128) -> (r: u128)
    requires
        n < 0x1000_0000_0000_0000_0000_0000_0000_0000,
    ensures
        is_root(n as int, r as int),
        r == root(n as int),
        r < 0x4000_0000_0000_0000,
{
    let mut lo: u128 = 0;
    let mut hi: u128 = 0x4000_0000_0000_0000;
    assert(hi * hi == 0x1000_0000_0000_0000_0000_0000_0000_0000);
    while lo + 1 < hi
        invariant
            lo < hi <= 0x4000_0000_0000_0000,
            lo * lo <= n,
            n < hi * hi,
        decreases hi - lo,
    {
        let mid: u128 = lo + (hi - lo) / 2;
        assert(mid * mid <= 0x4000_0000_0000_0000 * 0x4000_0000_0000_0000) by (nonlinear_arith)
            requires
                mid < 0x4000_0000_0000_0000,
        ;
        if mid * mid <= n {
            lo = mid;
        } else {
            hi = mid;
        }
    }
    proof {
        lemma_root_unique(n as int, lo as int);
    }
    lo
}

pub proof fn lemma_quot_neg(a: int, b: int)
    requires
        b > 0,
    ensures
        quot(-a, b) == -quot(a, b),
{
}

/// `quot(a, b)` is `a / b` rounded toward zero: it has the sign of `a` and
/// misses it by less than one step of `b`.
pub proof fn lemma_quot_rounding(a: int, b: int)
    requires
        b > 0,
    ensures
        abs(quot(a, b)) * b <= abs(a) < (abs(quot(a, b)) + 1) * b,
        a >= 0 ==> quot(a, b) >= 0,
        a <= 0 ==> quot(a, b) <= 0,
{
    let m = abs(a);
    assert(m / b * b <= m < (m / b + 1) * b) by (nonlinear_arith)
        requires
            m >= 0,
            b > 0,
    ;
    assert(m / b >= 0) by (nonlinear_arith)
        requires
            m >= 0,
            b > 0,
    ;
}

/// Rounding toward zero never lengthens: `|quot(c * m, l)| <= m` when `|c| <= l`.
pub proof fn lemma_quot_scaled_le(c: int, m: int, l: int)
    requires
        abs(c) <= l,
        l > 0,
        m >= 0,
    ensures
        abs(quot(c * m, l)) <= m,
        abs(quot(c * m, l)) * l <= abs(c) * m,
{
    let a = abs(c) * m;
    if c >= 0 {
        assert(c * m >= 0) by (nonlinear_arith)
            requires
                c >= 0,
                m >= 0,
        ;
    } else {
        assert(c * m == -((-c) * m)) by (nonlinear_arith);
        assert((-c) * m >= 0) by (nonlinear_arith)
            requires
                c < 0,
                m >= 0,
        ;
    }
    assert(abs(c * m) == a);
    assert(abs(quot(c * m, l)) == a / l);
    assert(a / l * l <= a) by (nonlinear_arith)
        requires
            a >= 0,
            l > 0,
    ;
    assert(a <= l * m) by (nonlinear_arith)
        requires
            a == abs(c) * m,
            abs(c) <= l,
            m >= 0,
    ;
    assert(a / l <= m) by (nonlinear_arith)
        requires
            a <= l * m,
            l > 0,
            a >= 0,
    ;
}

pub proof fn lemma_square_bound(x: int)
    requires
        -UNIT_LIMIT <= x <= UNIT_LIMIT,
    ensures
        0 <= x * x <= UNIT_LIMIT * UNIT_LIMIT,
{
    assert(0 <= x * x <= UNIT_LIMIT * UNIT_LIMIT) by (nonlinear_arith)
        requires
            -UNIT_LIMIT <= x <= UNIT_LIMIT,
    ;
}

pub proof fn lemma_product_bound(a: int, b: int, ba: int, bb: int)
    requires
        -ba <= a <= ba,
        -bb <= b <= bb,
    ensures
        -(ba * bb) <= a * b <= ba * bb,
{
    assert(-(ba * bb) <= a * b <= ba * bb) by (nonlinear_arith)
        requires
            -ba <= a <= ba,
            -bb <= b <= bb,
    ;
}

/// The length of `(x, y)`, rounded down.
pub fn magnitude(x: i128, y: i128) -> (r: i128)
    requires
        -UNIT_LIMIT <= x <= UNIT_LIMIT,
        -UNIT_LIMIT <= y <= UNIT_LIMIT,
    ensures
        r == length(x as int, y as int),
        is_root(norm_sq(x as int, y as int), r as int),
        abs(x as int) <= r,
        abs(y as int) <= r,
        (x == 0 && y == 0) <==> r == 0,
        r < 0x4000_0000_0000_0000,
{
    proof {
        lemma_square_bound(x as int);
        lemma_square_bound(y as int);
    }
    let n: i128 = x * x + y * y;
    let r = isqrt(n as u128);
    proof {
        assert(n == norm_sq(x as int, y as int));
        lemma_comp_le_length(x as int, n as int, r as int);
        assert(y * y <= n);
        lemma_comp_le_length(y as int, n as int, r as int);
        if x != 0 {
            assert(x * x > 0) by (nonlinear_arith)
                requires
                    x != 0,
            ;
        }
        if y != 0 {
            assert(y * y > 0) by (nonlinear_arith)
                requires
                    y != 0,
            ;
        }
        let ri = r as int;
        if ri == 0 {
            assert((ri + 1) * (ri + 1) == 1) by (nonlinear_arith)
                requires
                    ri == 0,
            ;
        }
        if x == 0 && y == 0 {
            assert(ri == 0) by (nonlinear_arith)
                requires
                    ri * ri <= 0,
                    ri >= 0,
            ;
        }
    }
    r as i128
}

/// The unit vector along `(x, y)`, or zero for zero.
pub fn unit_of(x: i128, y: i128) -> (r: Vec2)
    requires
        -DIRECTION_LIMIT <= x <= DIRECTION_LIMIT,
        -DIRECTION_LIMIT <= y <= DIRECTION_LIMIT,
    ensures
        r.x == unit_comp(x as int, x as int, y as int),
        r.y == unit_comp(y as int, x as int, y as int),
        r.in_range(SCALE as int),
        (x == 0 && y == 0) <==> r.is_zero(),
{
    if x == 0 && y == 0 {
        return Vec2 { x: 0, y: 0 };
    }
    let sx: i128 = x * 1000;
    let sy: i128 = y * 1000;
    let l = magnitude(sx, sy);
    let ux = div_toward_zero(sx * 1000, l);
    let uy = div_toward_zero(sy * 1000, l);
    proof {
        lemma_quot_scaled_le(sx as int, SCALE as int, l as int);
        lemma_quot_scaled_le(sy as int, SCALE as int, l as int);
        // the longer component keeps a nonzero direction
        let n = norm_sq(sx as int, sy as int);
        let li = l as int;
        if abs(x as int) >= abs(y as int) {
            let m = abs(sx as int);
            assert(li * li <= 4 * (m * m)) by (nonlinear_arith)
                requires
                    li * li <= n,
                    n == sx * sx + sy * sy,
                    m >= abs(sy as int),
                    m == abs(sx as int),
            ;
            assert(li <= 2 * m) by (nonlinear_arith)
                requires
                    li * li <= 4 * (m * m),
                    li >= 0,
                    m >= 0,
            ;
            assert(abs(sx * 1000) / li >= 1) by (nonlinear_arith)
                requires
                    abs(sx * 1000) == 1000 * m,
                    li <= 2 * m,
                    li > 0,
            ;
        } else {
            let m = abs(sy as int);
            assert(li * li <= 4 * (m * m)) by (nonlinear_arith)
                requires
                    li * li <= n,
                    n == sx * sx + sy * sy,
                    m >= abs(sx as int),
                    m == abs(sy as int),
            ;
            assert(li <= 2 * m) by (nonlinear_arith)
                requires
                    li * li <= 4 * (m * m),
                    li >= 0,
                    m >= 0,
            ;
            assert(abs(sy * 1000) / li >= 1) by (nonlinear_arith)
                requires
                    abs(sy * 1000) == 1000 * m,
                    li <= 2 * m,
                    li > 0,
            ;
        }
    }
    Vec2 { x: ux as i64, y: uy as i64 }
}

/// `(x, y)` with its length capped at `max`; a longer vector is scaled down
/// along its own direction, never clamped axis by axis.
pub fn clamp_length(x: i128, y: i128, max: i128) -> (r: Vec2)
    requires
        -UNIT_LIMIT <= x <= UNIT_LIMIT,
        -UNIT_LIMIT <= y <= UNIT_LIMIT,
        0 < max <= COORD_LIMIT,
    ensures
        r.x == clamp_comp(x as int, x as int, y as int, max as int),
        r.y == clamp_comp(y as int, x as int, y as int, max as int),
        norm_sq(r.x as int, r.y as int) <= max * max,
{
    proof {
        lemma_square_bound(x as int);
        lemma_square_bound(y as int);
        assert(max * max <= COORD_LIMIT * COORD_LIMIT) by (nonlinear_arith)
            requires
                0 < max <= COORD_LIMIT,
        ;
    }
    let n: i128 = x * x + y * y;
    if n <= max * max {
        return Vec2 { x: x as i64, y: y as i64 };
    }
    let l = magnitude(x, y);
    let lc: i128 = if l * l == n {
        l
    } else {
        l + 1
    };
    proof {
        lemma_product_bound(x as int, max as int, UNIT_LIMIT as int, COORD_LIMIT as int);
        lemma_product_bound(y as int, max as int, UNIT_LIMIT as int, COORD_LIMIT as int);
    }
    let rx = div_toward_zero(x * max, lc);
    let ry = div_toward_zero(y * max, lc);
    proof {
        let li = l as int;
        let ci = lc as int;
        let m = max as int;
        lemma_root_unique(n as int, li);
        assert(ci == ceil_root(norm_sq(x as int, y as int)));
        assert(li > 0);
        assert(n <= ci * ci);
        lemma_quot_scaled_le(x as int, m, ci);
        lemma_quot_scaled_le(y as int, m, ci);
        let ax = abs(rx as int);
        let ay = abs(ry as int);
        assert(ax * ax * (ci * ci) <= x * x * (m * m)) by (nonlinear_arith)
            requires
                ax * ci <= abs(x as int) * m,
                ax >= 0,
                ci > 0,
                m > 0,
        ;
        assert(ay * ay * (ci * ci) <= y * y * (m * m)) by (nonlinear_arith)
            requires
                ay * ci <= abs(y as int) * m,
                ay >= 0,
                ci > 0,
                m > 0,
        ;
        assert((ax * ax + ay * ay) * (ci * ci) <= (ci * ci) * (m * m)) by (nonlinear_arith)
            requires
                ax * ax * (ci * ci) <= x * x * (m * m),
                ay * ay * (ci * ci) <= y * y * (m * m),
                x * x + y * y <= ci * ci,
                m > 0,
        ;
        assert(ax * ax + ay * ay <= m * m) by (nonlinear_arith)
            requires
                (ax * ax + ay * ay) * (ci * ci) <= (ci * ci) * (m * m),
                ci > 0,
        ;
        assert(ax * ax == rx * rx && ay * ay == ry * ry) by (nonlinear_arith)
            requires
                ax == abs(rx as int),
                ay == abs(ry as int),
        ;
    }
    Vec2 { x: rx as i64, y: ry as i64 }
}

/// `a / b` rounded toward zero.
pub fn div_toward_zero(a: i128, b: i128) -> (r: i128)
    requires
        b > 0,
        a > i128::MIN,
    ensures
        r == quot(a as int, b as int),
        abs(r as int) <= abs(a as int),
{
    if a >= 0 {
        a / b
    } else {
        let m: i128 = -a;
        assert(m / b <= m) by (nonlinear_arith)
            requires
                m >= 0,
                b > 0,
        ;
        -(m / b)
    }
}

} // verus!
