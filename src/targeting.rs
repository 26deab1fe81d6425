//! Steering: lengths of vectors, predictive interception and turn choice.
use vstd::prelude::*;
use crate::enemies::Enemy;
use crate::fixed::{clamp_coord, dir_ok, trunc_div, Vec2, COORD_LIMIT};

verus! {

/// `r` is the integer square root of `n`.
pub open spec fn is_isqrt(n: int, r: int) -> bool {
    0 <= r && r * r <= n < (r + 1) * (r + 1)
}

/// Integer square root, by bisection.
pub fn isqrt(n: u128) -> (r: u64)
    ensures
        is_isqrt(n as int, r as int),
{
    let mut lo: u128 = 0;
    let mut hi: u128 = 0x1_0000_0000_0000_0000;
    assert(hi * hi > n) by (nonlinear_arith)
        requires
            hi == 0x1_0000_0000_0000_0000u128,
            n < 0x1_0000_0000_0000_0000_0000_0000_0000_0000int,
    ;
    while hi - lo > 1
        invariant
            lo < hi <= 0x1_0000_0000_0000_0000,
            lo * lo <= n,
            n < hi * hi,
        decreases hi - lo,
    {
        let mid: u128 = lo + (hi - lo) / 2;
        assert(mid < hi);
        assert(mid * mid < 0x1_0000_0000_0000_0000_0000_0000_0000_0000) by (nonlinear_arith)
            requires
                0 <= mid < 0x1_0000_0000_0000_0000,
        ;
        if mid * mid <= n {
            lo = mid;
        } else {
            hi = mid;
        }
    }
    assert(lo + 1 == hi);
    assert(lo < 0x1_0000_0000_0000_0000);
    lo as u64
}

/// Length of `v`, rounded down.
pub open spec fn length_of(v: Vec2, r: int) -> bool {
    is_isqrt(v.x * v.x + v.y * v.y, r)
}

/// The length of `v`, rounded down.
pub fn length(v: Vec2) -> (r: u64)
    requires
        v.ok(),
    ensures
        length_of(v, r as int),
        r <= 2 * COORD_LIMIT,
{
    assert(v.x * v.x <= 1_000_000_000_000_000_000_000_000_000_000) by (nonlinear_arith)
        requires
            -COORD_LIMIT <= v.x <= COORD_LIMIT,
    ;
    assert(v.y * v.y <= 1_000_000_000_000_000_000_000_000_000_000) by (nonlinear_arith)
        requires
            -COORD_LIMIT <= v.y <= COORD_LIMIT,
    ;
    assert(v.x * v.x >= 0 && v.y * v.y >= 0) by (nonlinear_arith);
    let sq: u128 = (v.x as i128 * v.x as i128) as u128 + (v.y as i128 * v.y as i128) as u128;
    let r = isqrt(sq);
    assert(r <= 2 * COORD_LIMIT) by (nonlinear_arith)
        requires
            r * r <= 2_000_000_000_000_000_000_000_000_000_000,
            r >= 0,
    ;
    r
}


/// The integer square root of `n` (for `n >= 0`).
pub open spec fn sqrt_floor(n: int) -> int {
    choose|r: int| is_isqrt(n, r)
}

proof fn lemma_isqrt_unique(n: int, r: int)
    requires
        is_isqrt(n, r),
    ensures
        sqrt_floor(n) == r,
{
    let s = sqrt_floor(n);
    assert(is_isqrt(n, s));
    if s < r {
        assert((s + 1) * (s + 1) <= r * r) by (nonlinear_arith)
            requires
                0 <= s < r,
        ;
    } else if r < s {
        assert((r + 1) * (r + 1) <= s * s) by (nonlinear_arith)
            requires
                0 <= r < s,
        ;
    }
}

/// Distance from `a` to `b`, rounded down.
pub open spec fn dist_spec(a: Vec2, b: Vec2) -> int {
    sqrt_floor(a.dist_sq(b))
}

/// Length of `v`, rounded down.
pub open spec fn length_spec(v: Vec2) -> int {
    sqrt_floor(v.x * v.x + v.y * v.y)
}

pub fn dist(a: Vec2, b: Vec2) -> (r: u64)
    requires
        a.ok(),
        b.ok(),
    ensures
        r == dist_spec(a, b),
        is_isqrt(a.dist_sq(b), r as int),
        r <= 3 * COORD_LIMIT,
{
    let dx: i128 = a.x as i128 - b.x as i128;
    let dy: i128 = a.y as i128 - b.y as i128;
    assert(0 <= dx * dx <= 4_000_000_000_000_000_000_000_000_000_000) by (nonlinear_arith)
        requires
            -2_000_000_000_000_000 <= dx <= 2_000_000_000_000_000,
    ;
    assert(0 <= dy * dy <= 4_000_000_000_000_000_000_000_000_000_000) by (nonlinear_arith)
        requires
            -2_000_000_000_000_000 <= dy <= 2_000_000_000_000_000,
    ;
    let sq: u128 = (dx * dx) as u128 + (dy * dy) as u128;
    let r = isqrt(sq);
    proof {
        lemma_isqrt_unique(sq as int, r as int);
        assert(r <= 3 * COORD_LIMIT) by (nonlinear_arith)
            requires
                r * r <= 8_000_000_000_000_000_000_000_000_000_000,
                r >= 0,
        ;
    }
    r
}

/// Where the player will be after `tau` milliseconds at speed `speed`
/// along `dir`.
pub open spec fn lead(pos: Vec2, dir: Vec2, speed: int, tau: int) -> Vec2 {
    Vec2 {
        x: clamp_coord(pos.x + trunc_div(dir.x * speed * tau, 1_000_000)) as i64,
        y: clamp_coord(pos.y + trunc_div(dir.y * speed * tau, 1_000_000)) as i64,
    }
}

/// Number of refinements of the interception time.
pub const INTERCEPT_ROUNDS: u64 = 10;

/// The interception time (milliseconds) after `k` refinements: starting from
/// zero, each is the time the enemy, at `enemy_speed`, needs to reach where
/// the player will be after the previous one.
pub open spec fn intercept_tau(
    pos: Vec2,
    dir: Vec2,
    speed: int,
    enemy_pos: Vec2,
    enemy_speed: int,
    k: nat,
) -> int
    decreases k,
{
    if k == 0 {
        0
    } else {
        let prev = intercept_tau(pos, dir, speed, enemy_pos, enemy_speed, (k - 1) as nat);
        dist_spec(lead(pos, dir, speed, prev), enemy_pos) * 1000 / enemy_speed
    }
}

fn lead_axis(p: i64, d: i64, speed: u64, tau: u64) -> (r: i64)
    requires
        crate::fixed::coord_ok(p),
        -1000 <= d <= 1000,
        speed <= 3 * COORD_LIMIT,
        tau <= 3_000_000_000_000_000_000,
    ensures
        r == clamp_coord(p + trunc_div(d * speed * tau, 1_000_000)),
{
    assert(-3_000_000_000_000_000_000 <= d * speed <= 3_000_000_000_000_000_000) by (nonlinear_arith)
        requires
            -1000 <= d <= 1000,
            0 <= speed <= 3_000_000_000_000_000,
    ;
    let ds: i128 = d as i128 * speed as i128;
    assert(-9_000_000_000_000_000_000_000_000_000_000_000_000 <= ds * tau
        <= 9_000_000_000_000_000_000_000_000_000_000_000_000) by (nonlinear_arith)
        requires
            -3_000_000_000_000_000_000 <= ds <= 3_000_000_000_000_000_000,
            0 <= tau <= 3_000_000_000_000_000_000,
    ;
    let q = crate::fixed::div_toward_zero(ds * tau as i128, 1_000_000);
    let v: i128 = p as i128 + q;
    if v > COORD_LIMIT as i128 {
        COORD_LIMIT
    } else if v < -(COORD_LIMIT as i128) {
        -COORD_LIMIT
    } else {
        v as i64
    }
}

/// Predictive aim: the point where an enemy at `enemy_pos` moving at
/// `enemy_vel` meets the player, who keeps going along `player_dir` at the
/// speed of `player_vel`; refined `INTERCEPT_ROUNDS` times. A stationary
/// enemy aims at the player.
pub fn predict_target(
    player_pos: Vec2,
    player_dir: Vec2,
    player_vel: Vec2,
    enemy_pos: Vec2,
    enemy_vel: Vec2,
) -> (t: Vec2)
    requires
        player_pos.ok(),
        dir_ok(player_dir),
        player_vel.ok(),
        enemy_pos.ok(),
        enemy_vel.ok(),
    ensures
        t == predicted(player_pos, player_dir, player_vel, enemy_pos, enemy_vel),
{
    let zero = Vec2 { x: 0, y: 0 };
    let es = dist(enemy_vel, zero);
    let ps = dist(player_vel, zero);
    assert(enemy_vel.dist_sq(zero) == enemy_vel.x * enemy_vel.x + enemy_vel.y * enemy_vel.y);
    assert(player_vel.dist_sq(zero) == player_vel.x * player_vel.x + player_vel.y * player_vel.y);
    if es == 0 {
        return player_pos;
    }
    intercept_point(player_pos, player_dir, ps, enemy_pos, es, INTERCEPT_ROUNDS)
}

/// The aim point of refinement round `rounds` (from 1): where the player,
/// at `pos` moving along `dir` at `speed`, will be after the interception
/// time of the round before.
pub fn intercept_point(pos: Vec2, dir: Vec2, speed: u64, enemy_pos: Vec2, enemy_speed: u64, rounds: u64) -> (t: Vec2)
    requires
        pos.ok(),
        dir_ok(dir),
        enemy_pos.ok(),
        speed <= 3 * COORD_LIMIT,
        enemy_speed > 0,
        rounds >= 1,
    ensures
        t == lead(pos, dir, speed as int, intercept_tau(pos, dir, speed as int, enemy_pos, enemy_speed as int, (rounds - 1) as nat)),
{
    let mut tau: u64 = 0;
    let mut k: u64 = 0;
    while k < rounds - 1
        invariant
            enemy_speed > 0,
            speed <= 3 * COORD_LIMIT,
            k <= rounds - 1,
            pos.ok(),
            dir_ok(dir),
            enemy_pos.ok(),
            tau == intercept_tau(pos, dir, speed as int, enemy_pos, enemy_speed as int, k as nat),
            tau <= 3_000_000_000_000_000_000,
        decreases rounds - 1 - k,
    {
        let target = Vec2 { x: lead_axis(pos.x, dir.x, speed, tau), y: lead_axis(pos.y, dir.y, speed, tau) };
        let d = dist(target, enemy_pos);
        tau = d * 1000 / enemy_speed;
        k += 1;
    }
    Vec2 { x: lead_axis(pos.x, dir.x, speed, tau), y: lead_axis(pos.y, dir.y, speed, tau) }
}

/// Sets an enemy's aim point: predictive enemies lead the player, the others
/// aim at the player.
pub fn update_target(enemy: &mut Enemy, player_pos: Vec2, player_dir: Vec2, player_vel: Vec2)
    requires
        old(enemy).ok(),
        player_pos.ok(),
        dir_ok(player_dir),
        player_vel.ok(),
    ensures
        !old(enemy).predictive ==> final(enemy).targetpos == player_pos,
        old(enemy).predictive ==> final(enemy).targetpos == predicted(
            player_pos,
            player_dir,
            player_vel,
            old(enemy).pos,
            old(enemy).vel,
        ),
        *final(enemy) == (Enemy { targetpos: final(enemy).targetpos, ..*old(enemy) }),
{
    if enemy.predictive {
        let t = predict_target(player_pos, player_dir, player_vel, enemy.pos, enemy.vel);
        enemy.targetpos = t;
    } else {
        enemy.targetpos = player_pos;
    }
}

/// The aim point of `predict_target`.
pub open spec fn predicted(player_pos: Vec2, player_dir: Vec2, player_vel: Vec2, enemy_pos: Vec2, enemy_vel: Vec2) -> Vec2 {
    if length_spec(enemy_vel) == 0 {
        player_pos
    } else {
        lead(
            player_pos,
            player_dir,
            length_spec(player_vel),
            intercept_tau(
                player_pos,
                player_dir,
                length_spec(player_vel),
                enemy_pos,
                length_spec(enemy_vel),
                (INTERCEPT_ROUNDS - 1) as nat,
            ),
        )
    }
}

/// Which way an enemy turns toward its aim point: true to turn with
/// increasing angle (toward its right-hand side), false otherwise.
pub open spec fn turns_right(e: Enemy) -> bool {
    (-e.dir.y) * (e.targetpos.x - e.pos.x) + e.dir.x * (e.targetpos.y - e.pos.y) > 0
}

pub fn turn_toward_target(e: &Enemy) -> (r: bool)
    requires
        e.ok(),
    ensures
        r == turns_right(*e),
{
    let dx: i128 = e.targetpos.x as i128 - e.pos.x as i128;
    let dy: i128 = e.targetpos.y as i128 - e.pos.y as i128;
    assert(-2_000_000_000_000_000_000 <= -(e.dir.y as int) * dx <= 2_000_000_000_000_000_000) by (nonlinear_arith)
        requires
            -1000 <= e.dir.y <= 1000,
            -2_000_000_000_000_000 <= dx <= 2_000_000_000_000_000,
    ;
    assert(-2_000_000_000_000_000_000 <= e.dir.x as int * dy <= 2_000_000_000_000_000_000) by (nonlinear_arith)
        requires
            -1000 <= e.dir.x <= 1000,
            -2_000_000_000_000_000 <= dy <= 2_000_000_000_000_000,
    ;
    -(e.dir.y as i128) * dx + e.dir.x as i128 * dy > 0
}


/// A witnessed square root is the one `sqrt_floor` names.
pub proof fn lemma_isqrt_witness(n: int, r: int)
    requires
        is_isqrt(n, r),
    ensures
        is_isqrt(n, sqrt_floor(n)),
        sqrt_floor(n) == r,
{
    lemma_isqrt_unique(n, r);
}

} // verus!
