//! Emitters: spawn points fixed on a carrier that release particles or
//! bullets at a steady average rate, whatever the length of a tick.
use vstd::prelude::*;
use vstd::arithmetic::div_mod::lemma_fundamental_div_mod_converse;
use crate::bullets::Bullet;
use crate::color::Color;
use crate::fixed::{
    clamp_coord, coord_ok, dir_ok, div_toward_zero, trunc_div, world_pose, world_pose_spec, Vec2,
    DT_LIMIT, ONE,
};
use crate::particles::{Partical, ParticalShape};

verus! {

/// Largest emission interval, in milliseconds.
pub const INTERVAL_LIMIT: u64 = 1_000_000_000;

/// How many spawns an accumulator of `acc` ms owes at `interval` ms apiece:
/// one for each time the accumulator still exceeds the interval.
pub open spec fn spawns_due(acc: int, interval: int) -> int {
    if acc <= 0 {
        0
    } else {
        (acc - 1) / interval
    }
}

/// The accumulator after one emitter cycle: drained, then advanced by `dt`.
pub open spec fn cycled(acc: int, interval: int, dt: int) -> int {
    acc - spawns_due(acc, interval) * interval + dt
}

/// Drains the accumulator: while it exceeds `interval`, one spawn is owed
/// and `interval` is taken off. Returns the spawns and what is left.
pub fn drain(acc: u64, interval: u64) -> (res: (u64, u64))
    requires
        interval > 0,
    ensures
        res.0 == spawns_due(acc as int, interval as int),
        res.1 == acc - res.0 * interval,
        res.1 <= interval,
        acc <= interval ==> res.1 == acc,
{
    let mut count: u64 = 0;
    let mut left: u64 = acc;
    while left > interval
        invariant
            interval > 0,
            left == acc - count * interval,
            left <= acc,
            count * interval <= acc,
            count <= acc,
            acc > 0 ==> left >= 1,
            acc <= interval ==> count == 0,
        decreases left,
    {
        left = left - interval;
        assert((count + 1) * interval == count * interval + interval) by (nonlinear_arith);
        assert(count + 1 <= (count + 1) * interval) by (nonlinear_arith)
            requires
                interval >= 1,
                count >= 0,
        ;
        count = count + 1;
    }
    proof {
        if acc > 0 {
            lemma_fundamental_div_mod_converse(acc - 1, interval as int, count as int, left - 1);
        }
    }
    (count, left)
}

/// Accumulator law of one cycle: what is left lies in `[0, interval + dt]`,
/// and below `interval + dt` unless the accumulator held a whole positive
/// number of intervals.
pub proof fn lemma_cycle_bounds(acc: int, interval: int, dt: int)
    requires
        acc >= 0,
        interval > 0,
        dt >= 0,
    ensures
        0 <= cycled(acc, interval, dt) <= interval + dt,
        !(acc > 0 && acc % interval == 0) ==> cycled(acc, interval, dt) < interval + dt,
        dt == 0 && acc <= interval ==> cycled(acc, interval, dt) == acc,
{
    if acc > 0 {
        let q = (acc - 1) / interval;
        let r = (acc - 1) % interval;
        vstd::arithmetic::div_mod::lemma_fundamental_div_mod(acc - 1, interval);
        assert(0 <= r < interval);
        assert(acc - q * interval == r + 1);
        if acc % interval != 0 {
            if r + 1 == interval {
                assert(acc == (q + 1) * interval) by (nonlinear_arith)
                    requires
                        acc - 1 == interval * q + r,
                        r + 1 == interval,
                ;
                lemma_fundamental_div_mod_converse(acc, interval, q + 1, 0);
            }
        }
        if acc <= interval {
            lemma_fundamental_div_mod_converse(acc - 1, interval, 0, acc - 1);
        }
    }
}

/// One emitter cycle on the accumulator `time`: drain, then add `dt`.
/// Returns the number of spawns owed.
pub fn cycle(time: &mut u64, interval: u64, dt: u64) -> (n: u64)
    requires
        interval > 0,
        interval <= INTERVAL_LIMIT,
        dt <= DT_LIMIT,
    ensures
        n == spawns_due(*old(time) as int, interval as int),
        *final(time) == cycled(*old(time) as int, interval as int, dt as int),
        *final(time) <= interval + dt,
{
    let (n, left) = drain(*time, interval);
    *time = left + dt;
    n
}

/// A particle source fixed on a carrier at offset `location`.
#[derive(Clone, Copy, Debug, PartialEq, Eq, Structural)]
pub struct ParticalEmitter {
    pub pos: Vec2,
    pub location: Vec2,
    pub speed_orginal: i64,
    pub vel: Vec2,
    pub size: i64,
    pub shape: ParticalShape,
    pub starting_color: Color,
    pub ending_color: Color,
    pub duration: u64,
    pub partical_interval: u64,
    pub time: u64,
    pub speed: i64,
}

impl ParticalEmitter {
    pub open spec fn ok(self) -> bool {
        &&& self.pos.ok()
        &&& self.location.ok()
        &&& self.vel.ok()
        &&& coord_ok(self.speed)
        &&& coord_ok(self.speed_orginal)
        &&& self.partical_interval <= INTERVAL_LIMIT
        &&& self.time <= INTERVAL_LIMIT + DT_LIMIT
    }

    /// The particle it releases, at its current pose and velocity.
    pub open spec fn partical(self) -> Partical {
        Partical {
            pos: self.pos,
            vel: self.vel,
            size: self.size,
            shape: self.shape,
            starting_color: self.starting_color,
            ending_color: self.ending_color,
            duration: self.duration,
            time: 0,
        }
    }
}

/// Exhaust velocity: the carrier's velocity, plus thrust backwards along its
/// facing at `speed` scaled by `health_factor` (thousandths), plus `jitter`.
pub open spec fn exhaust_axis(cv: int, d: int, speed: int, health_factor: int, jitter: int) -> int {
    clamp_coord(cv - trunc_div(d * speed * health_factor, ONE * ONE) + jitter)
}

pub open spec fn exhaust_spec(cv: Vec2, dir: Vec2, speed: i64, health_factor: i64, jitter: Vec2) -> Vec2 {
    Vec2 {
        x: exhaust_axis(cv.x as int, dir.x as int, speed as int, health_factor as int, jitter.x as int) as i64,
        y: exhaust_axis(cv.y as int, dir.y as int, speed as int, health_factor as int, jitter.y as int) as i64,
    }
}

fn exhaust_axis_exec(cv: i64, d: i64, speed: i64, health_factor: i64, jitter: i64) -> (r: i64)
    requires
        coord_ok(cv),
        coord_ok(jitter),
        coord_ok(speed),
        -ONE <= d <= ONE,
    ensures
        r == exhaust_axis(cv as int, d as int, speed as int, health_factor as int, jitter as int),
        coord_ok(r),
{
    assert(-1_000_000_000_000_000_000 <= d * speed <= 1_000_000_000_000_000_000) by (nonlinear_arith)
        requires
            -ONE <= d <= ONE,
            coord_ok(speed),
    ;
    let ds: i128 = d as i128 * speed as i128;
    assert(-10_000_000_000_000_000_000_000_000_000_000_000_000i128 <= ds * health_factor as i128
        <= 10_000_000_000_000_000_000_000_000_000_000_000_000i128) by (nonlinear_arith)
        requires
            -1_000_000_000_000_000_000 <= ds <= 1_000_000_000_000_000_000,
            -0x8000_0000_0000_0000i128 <= health_factor <= 0x8000_0000_0000_0000i128,
    ;
    let t = div_toward_zero(ds * health_factor as i128, 1_000_000);
    let v: i128 = cv as i128 - t + jitter as i128;
    if v > crate::fixed::COORD_LIMIT as i128 {
        crate::fixed::COORD_LIMIT
    } else if v < -(crate::fixed::COORD_LIMIT as i128) {
        -crate::fixed::COORD_LIMIT
    } else {
        v as i64
    }
}

/// Appends `n` copies of `p`.
fn push_copies(pool: &mut Vec<Partical>, p: Partical, n: u64)
    ensures
        final(pool)@ == old(pool)@ + Seq::new(n as nat, |i: int| p),
{
    let ghost start = pool@;
    let mut i: u64 = 0;
    while i < n
        invariant
            i <= n,
            pool@ == start + Seq::new(i as nat, |j: int| p),
        decreases n - i,
    {
        pool.push(p);
        i += 1;
        assert(pool@ =~= start + Seq::new(i as nat, |j: int| p));
    }
}

/// One tick of a particle emitter on a carrier at `carrier_pos`, moving at
/// `carrier_vel` and facing `carrier_dir`: it takes its world pose, sets
/// its exhaust velocity (`jitter` is the tick's random kick), releases the
/// particles its accumulator owes, then adds `dt`. A zero interval stops it.
pub fn update_partical_emitter(
    em: &mut ParticalEmitter,
    carrier_pos: Vec2,
    carrier_vel: Vec2,
    carrier_dir: Vec2,
    health_factor: i64,
    jitter: Vec2,
    dt: u64,
    particals: &mut Vec<Partical>,
)
    requires
        old(em).ok(),
        carrier_pos.ok(),
        carrier_vel.ok(),
        dir_ok(carrier_dir),
        jitter.ok(),
        dt <= DT_LIMIT,
    ensures
        final(em).pos == world_pose_spec(carrier_pos, carrier_dir, old(em).location),
        final(em).vel == exhaust_spec(carrier_vel, carrier_dir, old(em).speed, health_factor, jitter),
        ({
            let e = *final(em);
            &&& e.location == old(em).location
            &&& e.speed == old(em).speed
            &&& e.speed_orginal == old(em).speed_orginal
            &&& e.partical_interval == old(em).partical_interval
            &&& e.size == old(em).size && e.shape == old(em).shape
            &&& e.duration == old(em).duration
            &&& e.starting_color == old(em).starting_color
            &&& e.ending_color == old(em).ending_color
        }),
        old(em).partical_interval == 0 ==> final(em).time == old(em).time
            && final(particals)@ == old(particals)@,
        old(em).partical_interval > 0 ==> {
            &&& final(em).time == cycled(old(em).time as int, old(em).partical_interval as int, dt as int)
            &&& final(particals)@ == old(particals)@ + Seq::new(
                spawns_due(old(em).time as int, old(em).partical_interval as int) as nat,
                |i: int| final(em).partical(),
            )
        },
        final(em).ok(),
{
    em.pos = world_pose(carrier_pos, carrier_dir, em.location);
    em.vel = Vec2 {
        x: exhaust_axis_exec(carrier_vel.x, carrier_dir.x, em.speed, health_factor, jitter.x),
        y: exhaust_axis_exec(carrier_vel.y, carrier_dir.y, em.speed, health_factor, jitter.y),
    };
    if em.partical_interval > 0 {
        let n = cycle(&mut em.time, em.partical_interval, dt);
        let p = Partical {
            pos: em.pos,
            vel: em.vel,
            size: em.size,
            shape: em.shape,
            starting_color: em.starting_color,
            ending_color: em.ending_color,
            duration: em.duration,
            time: 0,
        };
        push_copies(particals, p, n);
    }
}


/// A gun fixed on a carrier at offset `location`; `bullet_interval` is the
/// current interval and `bullet_interval_orginal` the undamaged one.
#[derive(Clone, Copy, Debug, PartialEq, Eq, Structural)]
pub struct BulletEmitter {
    pub pos: Vec2,
    pub location: Vec2,
    pub size: i64,
    pub damage: i64,
    pub friendly: bool,
    pub duration: u64,
    pub bullet_interval_orginal: u64,
    pub bullet_interval: u64,
    pub time: u64,
}

impl BulletEmitter {
    pub open spec fn ok(self) -> bool {
        &&& self.pos.ok()
        &&& self.location.ok()
        &&& self.bullet_interval <= INTERVAL_LIMIT
        &&& self.bullet_interval_orginal <= INTERVAL_LIMIT
        &&& self.time <= INTERVAL_LIMIT + DT_LIMIT
    }

    /// The bullet it fires, from its current pose at velocity `vel`.
    pub open spec fn bullet(self, vel: Vec2) -> Bullet {
        Bullet {
            pos: self.pos,
            vel,
            size: self.size,
            damage: self.damage,
            friendly: self.friendly,
            duration: self.duration,
            time: 0,
        }
    }
}

fn push_bullets(pool: &mut Vec<Bullet>, b: Bullet, n: u64)
    ensures
        final(pool)@ == old(pool)@ + Seq::new(n as nat, |i: int| b),
{
    let ghost start = pool@;
    let mut i: u64 = 0;
    while i < n
        invariant
            i <= n,
            pool@ == start + Seq::new(i as nat, |j: int| b),
        decreases n - i,
    {
        pool.push(b);
        i += 1;
        assert(pool@ =~= start + Seq::new(i as nat, |j: int| b));
    }
}

/// One tick of a gun: it takes its world pose, then its accumulator is
/// drained and advanced by `dt` whether or not it may fire. The bullets owed
/// leave at `bullet_vel` when `fire` holds, and are lost otherwise. A zero
/// interval stops the gun.
pub fn update_bullet_emitter(
    em: &mut BulletEmitter,
    carrier_pos: Vec2,
    carrier_dir: Vec2,
    bullet_vel: Vec2,
    fire: bool,
    dt: u64,
    bullets: &mut Vec<Bullet>,
)
    requires
        old(em).ok(),
        carrier_pos.ok(),
        dir_ok(carrier_dir),
        dt <= DT_LIMIT,
    ensures
        final(em).pos == world_pose_spec(carrier_pos, carrier_dir, old(em).location),
        (BulletEmitter { pos: old(em).pos, time: old(em).time, ..*final(em) }) == *old(em),
        old(em).bullet_interval == 0 ==> final(em).time == old(em).time
            && final(bullets)@ == old(bullets)@,
        old(em).bullet_interval > 0 ==> {
            &&& final(em).time == cycled(old(em).time as int, old(em).bullet_interval as int, dt as int)
            &&& final(bullets)@ == old(bullets)@ + Seq::new(
                if fire { spawns_due(old(em).time as int, old(em).bullet_interval as int) as nat } else { 0 },
                |i: int| final(em).bullet(bullet_vel),
            )
        },
        final(em).ok(),
{
    em.pos = world_pose(carrier_pos, carrier_dir, em.location);
    if em.bullet_interval > 0 {
        let n = cycle(&mut em.time, em.bullet_interval, dt);
        let b = Bullet {
            pos: em.pos,
            vel: bullet_vel,
            size: em.size,
            damage: em.damage,
            friendly: em.friendly,
            duration: em.duration,
            time: 0,
        };
        if fire {
            push_bullets(bullets, b, n);
        } else {
            assert(bullets@ =~= bullets@ + Seq::new(0, |i: int| b));
        }
    }
}

} // verus!
