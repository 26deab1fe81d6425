//! Ship kinematics: turning, thrust with drag, lateral damping and motion.
//! The host supplies each tick's rotation as a unit vector, since its angle
//! comes from trigonometry.
use vstd::prelude::*;
use crate::fixed::{
    advance, advance_spec, clamp_coord, coord_ok, dir_ok, div_toward_zero, rotate_spec, rotatevector,
    trunc_div, Vec2, COORD_LIMIT, DT_LIMIT,
};
use crate::enemies::Enemy;
use crate::fixed::{world_pose, world_pose_spec};
use crate::player::{parts_ok, Part, Player};
use crate::targeting::{dist, length_spec};

verus! {

/// Largest lateral friction factor, in thousandths.
pub const FRICTION_LIMIT: i64 = 1_000_000;

/// `d` scaled to length one (components in thousandths); `fallback` when
/// `d` is zero.
pub open spec fn normalized(d: Vec2, fallback: Vec2) -> Vec2 {
    let n = length_spec(d);
    if n == 0 {
        fallback
    } else {
        Vec2 { x: trunc_div(d.x * 1000, n) as i64, y: trunc_div(d.y * 1000, n) as i64 }
    }
}

proof fn lemma_component_le_length(x: int, y: int, r: int)
    requires
        crate::targeting::is_isqrt(x * x + y * y, r),
    ensures
        -r <= x <= r,
{
    if x > r {
        assert(x * x >= (r + 1) * (r + 1)) by (nonlinear_arith)
            requires
                x >= r + 1,
                r >= 0,
        ;
        assert(y * y >= 0) by (nonlinear_arith);
    } else if x < -r {
        assert(x * x >= (r + 1) * (r + 1)) by (nonlinear_arith)
            requires
                -x >= r + 1,
                r >= 0,
        ;
        assert(y * y >= 0) by (nonlinear_arith);
    }
}

fn scaled_component(c: i64, n: u64) -> (r: i64)
    requires
        n > 0,
        -(n as int) <= c <= n,
        n <= 3 * COORD_LIMIT,
    ensures
        r == trunc_div(c * 1000, n as int),
        -1000 <= r <= 1000,
{
    let q = div_toward_zero(c as i128 * 1000, n as i128);
    proof {
        let ci = c as int;
        let ni = n as int;
        if ci >= 0 {
            assert((ci * 1000) / ni <= 1000) by (nonlinear_arith)
                requires
                    0 <= ci <= ni,
                    ni > 0,
            ;
        } else {
            assert((-(ci * 1000)) / ni <= 1000) by (nonlinear_arith)
                requires
                    0 < -ci <= ni,
                    ni > 0,
            ;
        }
    }
    q as i64
}

/// Scales `d` to length one, or returns `fallback` for a zero vector.
pub fn normalize(d: Vec2, fallback: Vec2) -> (r: Vec2)
    requires
        d.ok(),
        dir_ok(fallback),
    ensures
        r == normalized(d, fallback),
        dir_ok(r),
{
    let zero = Vec2 { x: 0, y: 0 };
    let n = dist(d, zero);
    assert(d.dist_sq(zero) == d.x * d.x + d.y * d.y);
    if n == 0 {
        return fallback;
    }
    proof {
        crate::targeting::lemma_isqrt_witness(d.x * d.x + d.y * d.y, n as int);
        lemma_component_le_length(d.x as int, d.y as int, n as int);
        assert(d.y * d.y + d.x * d.x == d.x * d.x + d.y * d.y);
        lemma_component_le_length(d.y as int, d.x as int, n as int);
    }
    Vec2 { x: scaled_component(d.x, n), y: scaled_component(d.y, n) }
}


/// Largest magnitude of a thrust speed.
pub const SPEED_LIMIT: i64 = 1_000_000_000_000_000;

/// The thrust along the facing `dir`: `speed - (|vel| + vel . dir) / 2`,
/// full when still, none at `speed` straight ahead, braking when the ship
/// moves against its facing.
pub open spec fn thrust(vel: Vec2, dir: Vec2, speed: int) -> int {
    speed - trunc_div(length_spec(vel) + trunc_div(vel.x * dir.x + vel.y * dir.y, 1000), 2)
}

/// `vel` after `dt` milliseconds of thrust.
pub open spec fn accelerated(vel: Vec2, dir: Vec2, speed: int, dt: int) -> Vec2 {
    let t = thrust(vel, dir, speed);
    Vec2 {
        x: clamp_coord(vel.x + trunc_div(dir.x * t * dt, 1_000_000)) as i64,
        y: clamp_coord(vel.y + trunc_div(dir.y * t * dt, 1_000_000)) as i64,
    }
}

/// The sideways component of `vel`: along `dir` turned a quarter right.
pub open spec fn sideways(vel: Vec2, dir: Vec2) -> int {
    trunc_div(-dir.y * vel.x + dir.x * vel.y, 1000)
}

/// `vel` after `dt` milliseconds of lateral damping, scaled by `friction`
/// (thousandths).
pub open spec fn damped(vel: Vec2, dir: Vec2, friction: int, dt: int) -> Vec2 {
    let s = sideways(vel, dir);
    Vec2 {
        x: clamp_coord(vel.x - trunc_div(-dir.y * s * friction * dt, 1_000_000_000)) as i64,
        y: clamp_coord(vel.y - trunc_div(dir.x * s * friction * dt, 1_000_000_000)) as i64,
    }
}

/// Pose after one tick: the facing turned by `rot` and renormalised, thrust,
/// lateral damping, then motion.
pub open spec fn integrated(
    pos: Vec2,
    vel: Vec2,
    dir: Vec2,
    rot: Vec2,
    speed: int,
    friction: int,
    dt: int,
) -> (Vec2, Vec2, Vec2) {
    let d = normalized(rotate_spec(dir, rot), dir);
    let v = damped(accelerated(vel, d, speed, dt), d, friction, dt);
    (advance_spec(pos, v, dt), v, d)
}

fn clamp_wide(v: i128) -> (r: i64)
    ensures
        r == clamp_coord(v as int),
        coord_ok(r),
{
    if v > COORD_LIMIT as i128 {
        COORD_LIMIT
    } else if v < -(COORD_LIMIT as i128) {
        -COORD_LIMIT
    } else {
        v as i64
    }
}

fn accelerate(vel: Vec2, dir: Vec2, speed: i64, dt: u64) -> (r: Vec2)
    requires
        vel.ok(),
        dir_ok(dir),
        -SPEED_LIMIT <= speed <= SPEED_LIMIT,
        dt <= DT_LIMIT,
    ensures
        r == accelerated(vel, dir, speed as int, dt as int),
        r.ok(),
{
    let zero = Vec2 { x: 0, y: 0 };
    let n = dist(vel, zero);
    assert(vel.dist_sq(zero) == vel.x * vel.x + vel.y * vel.y);
    proof {
        crate::targeting::lemma_isqrt_witness(vel.x * vel.x + vel.y * vel.y, n as int);
    }
    assert(-1_000_000_000_000_000_000 <= vel.x * dir.x <= 1_000_000_000_000_000_000) by (nonlinear_arith)
        requires
            coord_ok(vel.x),
            -1000 <= dir.x <= 1000,
    ;
    assert(-1_000_000_000_000_000_000 <= vel.y * dir.y <= 1_000_000_000_000_000_000) by (nonlinear_arith)
        requires
            coord_ok(vel.y),
            -1000 <= dir.y <= 1000,
    ;
    let along = div_toward_zero(vel.x as i128 * dir.x as i128 + vel.y as i128 * dir.y as i128, 1000);
    let t: i128 = speed as i128 - div_toward_zero(n as i128 + along, 2);
    assert(-10_000_000_000_000_000 <= t <= 10_000_000_000_000_000);
    assert(-10_000_000_000_000_000_000 <= dir.x * t <= 10_000_000_000_000_000_000) by (nonlinear_arith)
        requires
            -1000 <= dir.x <= 1000,
            -10_000_000_000_000_000 <= t <= 10_000_000_000_000_000,
    ;
    assert(-10_000_000_000_000_000_000 <= dir.y * t <= 10_000_000_000_000_000_000) by (nonlinear_arith)
        requires
            -1000 <= dir.y <= 1000,
            -10_000_000_000_000_000 <= t <= 10_000_000_000_000_000,
    ;
    let tx: i128 = dir.x as i128 * t;
    let ty: i128 = dir.y as i128 * t;
    assert(-10_000_000_000_000_000_000_000_000_000 <= tx * dt <= 10_000_000_000_000_000_000_000_000_000) by (nonlinear_arith)
        requires
            -10_000_000_000_000_000_000 <= tx <= 10_000_000_000_000_000_000,
            0 <= dt <= 1_000_000_000,
    ;
    assert(-10_000_000_000_000_000_000_000_000_000 <= ty * dt <= 10_000_000_000_000_000_000_000_000_000) by (nonlinear_arith)
        requires
            -10_000_000_000_000_000_000 <= ty <= 10_000_000_000_000_000_000,
            0 <= dt <= 1_000_000_000,
    ;
    let dx = div_toward_zero(tx * dt as i128, 1_000_000);
    let dy = div_toward_zero(ty * dt as i128, 1_000_000);
    Vec2 { x: clamp_wide(vel.x as i128 + dx), y: clamp_wide(vel.y as i128 + dy) }
}

fn damp(vel: Vec2, dir: Vec2, friction: i64, dt: u64) -> (r: Vec2)
    requires
        vel.ok(),
        dir_ok(dir),
        0 <= friction <= FRICTION_LIMIT,
        dt <= DT_LIMIT,
    ensures
        r == damped(vel, dir, friction as int, dt as int),
        r.ok(),
{
    assert(-1_000_000_000_000_000_000 <= -dir.y * vel.x <= 1_000_000_000_000_000_000) by (nonlinear_arith)
        requires
            coord_ok(vel.x),
            -1000 <= dir.y <= 1000,
    ;
    assert(-1_000_000_000_000_000_000 <= dir.x * vel.y <= 1_000_000_000_000_000_000) by (nonlinear_arith)
        requires
            coord_ok(vel.y),
            -1000 <= dir.x <= 1000,
    ;
    let s = div_toward_zero(-(dir.y as i128) * vel.x as i128 + dir.x as i128 * vel.y as i128, 1000);
    assert(-2_000_000_000_000_000 <= s <= 2_000_000_000_000_000);
    assert(-2_000_000_000_000_000_000 <= -dir.y * s <= 2_000_000_000_000_000_000) by (nonlinear_arith)
        requires
            -2_000_000_000_000_000 <= s <= 2_000_000_000_000_000,
            -1000 <= dir.y <= 1000,
    ;
    assert(-2_000_000_000_000_000_000 <= dir.x * s <= 2_000_000_000_000_000_000) by (nonlinear_arith)
        requires
            -2_000_000_000_000_000 <= s <= 2_000_000_000_000_000,
            -1000 <= dir.x <= 1000,
    ;
    let ax: i128 = -(dir.y as i128) * s;
    let ay: i128 = dir.x as i128 * s;
    assert(-2_000_000_000_000_000_000_000_000 <= ax * friction <= 2_000_000_000_000_000_000_000_000) by (nonlinear_arith)
        requires
            -2_000_000_000_000_000_000 <= ax <= 2_000_000_000_000_000_000,
            0 <= friction <= 1_000_000,
    ;
    assert(-2_000_000_000_000_000_000_000_000 <= ay * friction <= 2_000_000_000_000_000_000_000_000) by (nonlinear_arith)
        requires
            -2_000_000_000_000_000_000 <= ay <= 2_000_000_000_000_000_000,
            0 <= friction <= 1_000_000,
    ;
    let bx: i128 = ax * friction as i128;
    let by: i128 = ay * friction as i128;
    assert(-2_000_000_000_000_000_000_000_000_000_000_000 <= bx * dt <= 2_000_000_000_000_000_000_000_000_000_000_000) by (nonlinear_arith)
        requires
            -2_000_000_000_000_000_000_000_000 <= bx <= 2_000_000_000_000_000_000_000_000,
            0 <= dt <= 1_000_000_000,
    ;
    assert(-2_000_000_000_000_000_000_000_000_000_000_000 <= by * dt <= 2_000_000_000_000_000_000_000_000_000_000_000) by (nonlinear_arith)
        requires
            -2_000_000_000_000_000_000_000_000 <= by <= 2_000_000_000_000_000_000_000_000,
            0 <= dt <= 1_000_000_000,
    ;
    let dx = div_toward_zero(bx * dt as i128, 1_000_000_000);
    let dy = div_toward_zero(by * dt as i128, 1_000_000_000);
    Vec2 { x: clamp_wide(vel.x as i128 - dx), y: clamp_wide(vel.y as i128 - dy) }
}

/// One tick of motion for a ship at `pos` moving at `vel` and facing `dir`:
/// see `integrated`.
pub fn integrate(
    pos: Vec2,
    vel: Vec2,
    dir: Vec2,
    rot: Vec2,
    speed: i64,
    friction: i64,
    dt: u64,
) -> (r: (Vec2, Vec2, Vec2))
    requires
        pos.ok(),
        vel.ok(),
        dir_ok(dir),
        dir_ok(rot),
        -SPEED_LIMIT <= speed <= SPEED_LIMIT,
        0 <= friction <= FRICTION_LIMIT,
        dt <= DT_LIMIT,
    ensures
        r == integrated(pos, vel, dir, rot, speed as int, friction as int, dt as int),
        r.0.ok(),
        r.1.ok(),
        dir_ok(r.2),
{
    let turned = rotatevector(dir, rot);
    let d = normalize(turned, dir);
    let v1 = accelerate(vel, d, speed, dt);
    let v2 = damp(v1, d, friction, dt);
    (advance(pos, v2, dt), v2, d)
}


/// Moves every part of a ship at `pos` facing `dir` to its world position.
pub fn place_parts(parts: &mut Vec<Part>, pos: Vec2, dir: Vec2)
    requires
        parts_ok(old(parts)@),
        pos.ok(),
        dir_ok(dir),
    ensures
        final(parts)@.len() == old(parts)@.len(),
        forall|k: int| 0 <= k < old(parts)@.len() ==> #[trigger] final(parts)@[k] == (Part {
            pos: world_pose_spec(pos, dir, old(parts)@[k].location),
            ..old(parts)@[k]
        }),
        parts_ok(final(parts)@),
{
    let n = parts.len();
    let mut i: usize = 0;
    while i < n
        invariant
            n == parts@.len(),
            n == old(parts)@.len(),
            i <= n,
            pos.ok(),
            dir_ok(dir),
            parts_ok(old(parts)@),
            forall|k: int| 0 <= k < i ==> #[trigger] parts@[k] == (Part {
                pos: world_pose_spec(pos, dir, old(parts)@[k].location),
                ..old(parts)@[k]
            }),
            forall|k: int| i <= k < n ==> #[trigger] parts@[k] == old(parts)@[k],
            forall|k: int| 0 <= k < n ==> #[trigger] parts@[k].ok(),
        decreases n - i,
    {
        assert(parts@[i as int].ok());
        let p = world_pose(pos, dir, parts[i].location);
        parts[i].pos = p;
        i += 1;
    }
}

/// One tick of the player's ship: it turns by `rot`, moves under its
/// current speed with full lateral damping, and its parts follow.
pub fn move_player(player: &mut Player, rot: Vec2, dt: u64)
    requires
        old(player).ok(),
        dir_ok(rot),
        dt <= DT_LIMIT,
    ensures
        final(player).ok(),
        (final(player).pos, final(player).vel, final(player).dir) == integrated(
            old(player).pos,
            old(player).vel,
            old(player).dir,
            rot,
            old(player).speed as int,
            1000,
            dt as int,
        ),
        final(player).parts@.len() == old(player).parts@.len(),
        forall|k: int| 0 <= k < old(player).parts@.len() ==> #[trigger] final(player).parts@[k] == (Part {
            pos: world_pose_spec(final(player).pos, final(player).dir, old(player).parts@[k].location),
            ..old(player).parts@[k]
        }),
        (Player {
            pos: old(player).pos,
            vel: old(player).vel,
            dir: old(player).dir,
            parts: old(player).parts,
            ..*final(player)
        }) == *old(player),
{
    let (p, v, d) = integrate(player.pos, player.vel, player.dir, rot, player.speed, 1000, dt);
    player.pos = p;
    player.vel = v;
    player.dir = d;
    place_parts(&mut player.parts, p, d);
    proof {
        assert forall|k: int| 0 <= k < player.damage@.len() implies #[trigger] player.link_in_range(player.damage@[k]) by {
            assert(old(player).link_in_range(old(player).damage@[k]));
        }
    }
}

/// The turn of an enemy toward its aim point this tick, in thousandths of a
/// degree: `turningspeed * dt` toward the side the aim point lies on.
pub fn enemy_turn(e: &Enemy, dt: u64) -> (r: i64)
    requires
        e.ok(),
        dt <= DT_LIMIT,
    ensures
        r == crate::player::steer_spec(
            !crate::targeting::turns_right(*e),
            crate::targeting::turns_right(*e),
            e.turningspeed as int,
            e.turningspeed as int,
            dt as int,
        ),
{
    let right = crate::targeting::turn_toward_target(e);
    crate::player::steer(!right, right, e.turningspeed, e.turningspeed, dt)
}

/// One tick of an enemy's motion: it turns by `rot`, and moves at its own
/// speed with its own lateral friction.
pub fn move_enemy(e: &mut Enemy, rot: Vec2, dt: u64)
    requires
        old(e).ok(),
        dir_ok(rot),
        dt <= DT_LIMIT,
    ensures
        final(e).ok(),
        (final(e).pos, final(e).vel, final(e).dir) == integrated(
            old(e).pos,
            old(e).vel,
            old(e).dir,
            rot,
            old(e).speed as int,
            old(e).friction as int,
            dt as int,
        ),
        (Enemy { pos: old(e).pos, vel: old(e).vel, dir: old(e).dir, ..*final(e) }) == *old(e),
{
    let (p, v, d) = integrate(e.pos, e.vel, e.dir, rot, e.speed, e.friction, dt);
    e.pos = p;
    e.vel = v;
    e.dir = d;
}


/// A tick with `dt = 0` moves no ship and changes no velocity, whatever
/// its turn.
pub proof fn lemma_zero_dt_motion(pos: Vec2, vel: Vec2, dir: Vec2, rot: Vec2, speed: int, friction: int)
    requires
        pos.ok(),
        vel.ok(),
    ensures
        integrated(pos, vel, dir, rot, speed, friction, 0).0 == pos,
        integrated(pos, vel, dir, rot, speed, friction, 0).1 == vel,
{
    let d = normalized(rotate_spec(dir, rot), dir);
    let t = thrust(vel, d, speed);
    assert(d.x * t * 0 == 0 && d.y * t * 0 == 0) by (nonlinear_arith);
    let a = accelerated(vel, d, speed, 0);
    assert(a == vel);
    let s = sideways(a, d);
    assert(-d.y * s * friction * 0 == 0 && d.x * s * friction * 0 == 0) by (nonlinear_arith);
    assert(damped(a, d, friction, 0) == vel);
    assert(vel.x * 0 == 0 && vel.y * 0 == 0) by (nonlinear_arith);
}

} // verus!
