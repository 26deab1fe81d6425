//! Fixed-point scalars and 2D vectors.
use vstd::prelude::*;

verus! {

/// One whole unit in fixed point (lengths, health, fractions); also the
/// number of milliseconds in a second.
pub const ONE: i64 = 1000;

/// Largest magnitude of a coordinate or velocity component.
pub const COORD_LIMIT: i64 = 1_000_000_000_000_000;

/// Division rounding toward zero, as the host's float-to-integer casts do.
pub open spec fn trunc_div(a: int, b: int) -> int {
    if a >= 0 {
        a / b
    } else {
        -((-a) / b)
    }
}

/// `v` forced into `[-COORD_LIMIT, COORD_LIMIT]`.
pub open spec fn clamp_coord(v: int) -> int {
    if v > COORD_LIMIT {
        COORD_LIMIT as int
    } else if v < -COORD_LIMIT {
        -COORD_LIMIT
    } else {
        v
    }
}

pub open spec fn coord_ok(v: i64) -> bool {
    -COORD_LIMIT <= v <= COORD_LIMIT
}

/// Truncating division of a wide integer by a positive divisor.
pub fn div_toward_zero(a: i128, b: i128) -> (r: i128)
    requires
        b > 0,
        a > i128::MIN,
    ensures
        r == trunc_div(a as int, b as int),
{
    if a >= 0 {
        let n: u128 = a as u128;
        let q: u128 = n / (b as u128);
        assert(q <= n) by (nonlinear_arith)
            requires
                q == n / (b as u128),
                b >= 1,
        ;
        q as i128
    } else {
        let n: u128 = (-a) as u128;
        let q: u128 = n / (b as u128);
        assert(q <= n) by (nonlinear_arith)
            requires
                q == n / (b as u128),
                b >= 1,
        ;
        -(q as i128)
    }
}

/// Point or displacement in thousandths of a world unit.
#[derive(Clone, Copy, Debug, PartialEq, Eq, Structural)]
pub struct Vec2 {
    pub x: i64,
    pub y: i64,
}

impl Vec2 {
    pub open spec fn ok(self) -> bool {
        coord_ok(self.x) && coord_ok(self.y)
    }

    pub open spec fn dist_sq(self, o: Vec2) -> int {
        (self.x - o.x) * (self.x - o.x) + (self.y - o.y) * (self.y - o.y)
    }
}

/// Whether the distance from `a` to `b` is below `r` (`r` not negative):
/// compared through squares, which is exact on integers.
pub open spec fn closer_than(a: Vec2, b: Vec2, r: int) -> bool {
    a.dist_sq(b) < r * r
}

/// The point `p` moved by velocity `v` (per second) over `dt` milliseconds.
pub open spec fn advance_spec(p: Vec2, v: Vec2, dt: int) -> Vec2 {
    Vec2 {
        x: clamp_coord(p.x + trunc_div(v.x * dt, ONE as int)) as i64,
        y: clamp_coord(p.y + trunc_div(v.y * dt, ONE as int)) as i64,
    }
}

pub const DT_LIMIT: u64 = 1_000_000_000;

fn advance_axis(p: i64, v: i64, dt: u64) -> (r: i64)
    requires
        coord_ok(p),
        coord_ok(v),
        dt <= DT_LIMIT,
    ensures
        r == clamp_coord(p + trunc_div(v * dt, ONE as int)),
        coord_ok(r),
{
    assert(-1_000_000_000_000_000_000_000_000i128 <= v as i128 * dt as i128
        <= 1_000_000_000_000_000_000_000_000i128) by (nonlinear_arith)
        requires
            -COORD_LIMIT <= v <= COORD_LIMIT,
            0 <= dt <= DT_LIMIT,
    ;
    let d = div_toward_zero(v as i128 * dt as i128, ONE as i128);
    let s: i128 = p as i128 + d;
    if s > COORD_LIMIT as i128 {
        COORD_LIMIT
    } else if s < -(COORD_LIMIT as i128) {
        -COORD_LIMIT
    } else {
        s as i64
    }
}

/// Moves `p` along `v` for `dt` milliseconds, staying in the coordinate range.
pub fn advance(p: Vec2, v: Vec2, dt: u64) -> (r: Vec2)
    requires
        p.ok(),
        v.ok(),
        dt <= DT_LIMIT,
    ensures
        r == advance_spec(p, v, dt as int),
        r.ok(),
{
    Vec2 { x: advance_axis(p.x, v.x, dt), y: advance_axis(p.y, v.y, dt) }
}

/// Exact test of `|a - b| < r`.
pub fn closer(a: Vec2, b: Vec2, r: i64) -> (res: bool)
    requires
        a.ok(),
        b.ok(),
        coord_ok(r),
    ensures
        res == closer_than(a, b, r as int),
{
    let dx: i128 = a.x as i128 - b.x as i128;
    let dy: i128 = a.y as i128 - b.y as i128;
    assert(dx * dx <= 4_000_000_000_000_000_000_000_000_000_000i128) by (nonlinear_arith)
        requires
            -2_000_000_000_000_000 <= dx <= 2_000_000_000_000_000,
    ;
    assert(dy * dy <= 4_000_000_000_000_000_000_000_000_000_000i128) by (nonlinear_arith)
        requires
            -2_000_000_000_000_000 <= dy <= 2_000_000_000_000_000,
    ;
    assert(0 <= dx * dx && 0 <= dy * dy) by (nonlinear_arith);
    assert(0 <= r as i128 * r as i128 <= 1_000_000_000_000_000_000_000_000_000_000i128)
        by (nonlinear_arith)
        requires
            -COORD_LIMIT <= r <= COORD_LIMIT,
    ;
    dx * dx + dy * dy < r as i128 * r as i128
}


/// A facing or rotation: a unit vector with components in thousandths.
pub open spec fn dir_ok(d: Vec2) -> bool {
    -ONE <= d.x <= ONE && -ONE <= d.y <= ONE
}

/// `v` rotated by the rotation whose cosine and sine (in thousandths) are
/// `rot.x` and `rot.y`.
pub open spec fn rotate_spec(v: Vec2, rot: Vec2) -> Vec2 {
    Vec2 {
        x: clamp_coord(trunc_div(v.x * rot.x - v.y * rot.y, ONE as int)) as i64,
        y: clamp_coord(trunc_div(v.x * rot.y + v.y * rot.x, ONE as int)) as i64,
    }
}

fn clamp_wide(v: i128) -> (r: i64)
    ensures
        r == clamp_coord(v as int),
        coord_ok(r),
{
    if v > COORD_LIMIT as i128 {
        COORD_LIMIT
    } else if v < -(COORD_LIMIT as i128) {
        -COORD_LIMIT
    } else {
        v as i64
    }
}

proof fn lemma_product_bound(a: int, b: int)
    requires
        -COORD_LIMIT <= a <= COORD_LIMIT,
        -ONE <= b <= ONE,
    ensures
        -1_000_000_000_000_000_000 <= a * b <= 1_000_000_000_000_000_000,
{
    assert(-1_000_000_000_000_000_000 <= a * b <= 1_000_000_000_000_000_000) by (nonlinear_arith)
        requires
            -COORD_LIMIT <= a <= COORD_LIMIT,
            -ONE <= b <= ONE,
    ;
}

/// Rotates `vector` by `rot`, the rotation's unit vector.
pub fn rotatevector(vector: Vec2, rot: Vec2) -> (r: Vec2)
    requires
        vector.ok(),
        dir_ok(rot),
    ensures
        r == rotate_spec(vector, rot),
        r.ok(),
{
    proof {
        lemma_product_bound(vector.x as int, rot.x as int);
        lemma_product_bound(vector.y as int, rot.y as int);
        lemma_product_bound(vector.x as int, rot.y as int);
        lemma_product_bound(vector.y as int, rot.x as int);
    }
    let xx: i128 = vector.x as i128 * rot.x as i128 - vector.y as i128 * rot.y as i128;
    let yy: i128 = vector.x as i128 * rot.y as i128 + vector.y as i128 * rot.x as i128;
    Vec2 {
        x: clamp_wide(div_toward_zero(xx, ONE as i128)),
        y: clamp_wide(div_toward_zero(yy, ONE as i128)),
    }
}

/// World position of a point fixed at offset `location` on a carrier at
/// `pos` facing `dir`.
pub open spec fn world_pose_spec(pos: Vec2, dir: Vec2, location: Vec2) -> Vec2 {
    let r = rotate_spec(location, dir);
    Vec2 { x: clamp_coord(pos.x + r.x) as i64, y: clamp_coord(pos.y + r.y) as i64 }
}

pub fn world_pose(pos: Vec2, dir: Vec2, location: Vec2) -> (r: Vec2)
    requires
        pos.ok(),
        dir_ok(dir),
        location.ok(),
    ensures
        r == world_pose_spec(pos, dir, location),
        r.ok(),
{
    let o = rotatevector(location, dir);
    Vec2 { x: clamp_wide(pos.x as i128 + o.x as i128), y: clamp_wide(pos.y as i128 + o.y as i128) }
}

/// Position `p` relative to the viewer at `view`, centred on a screen of
/// `width` by `height` pixels (pixels in thousandths, like world units).
pub open spec fn to_screen_spec(p: Vec2, view: Vec2, width: i64, height: i64) -> Vec2 {
    Vec2 {
        x: clamp_coord(p.x - view.x + width * ONE / 2) as i64,
        y: clamp_coord(p.y - view.y + height * ONE / 2) as i64,
    }
}

pub fn to_screen(p: Vec2, view: Vec2, width: i32, height: i32) -> (r: Vec2)
    requires
        p.ok(),
        view.ok(),
        width >= 0,
        height >= 0,
    ensures
        r == to_screen_spec(p, view, width as i64, height as i64),
        r.ok(),
{
    let w: i128 = width as i128 * 1000 / 2;
    let h: i128 = height as i128 * 1000 / 2;
    Vec2 { x: clamp_wide(p.x as i128 - view.x as i128 + w), y: clamp_wide(p.y as i128 - view.y as i128 + h) }
}

} // verus!
