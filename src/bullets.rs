//! The bullet pool: flight, ageing, hits on enemies and on the player's
//! parts, and removal of spent bullets.
use vstd::prelude::*;
use crate::color::Color;
use crate::enemies::{Enemy, SIZE_LIMIT};
use crate::fixed::{advance, advance_spec, closer, closer_than, Vec2, DT_LIMIT};
use crate::particles::{sat_add, Explosion};
use crate::player::{Part, Player, HEALTH_LIMIT};

verus! {

/// A projectile; `time` is its age and `duration` its lifetime, in
/// milliseconds; `damage` is in thousandths of a health point.
#[derive(Clone, Copy, Debug, PartialEq, Eq, Structural)]
pub struct Bullet {
    pub pos: Vec2,
    pub vel: Vec2,
    pub size: i64,
    pub damage: i64,
    pub friendly: bool,
    pub duration: u64,
    pub time: u64,
}

impl Bullet {
    pub open spec fn ok(self) -> bool {
        &&& self.pos.ok()
        &&& self.vel.ok()
        &&& 0 <= self.size <= SIZE_LIMIT
        &&& 0 <= self.damage <= HEALTH_LIMIT
        &&& self.duration > 0
    }

    pub open spec fn alive(self) -> bool {
        self.time < self.duration
    }

    /// The bullet after `dt` milliseconds of flight.
    pub open spec fn stepped(self, dt: int) -> Bullet {
        Bullet { pos: advance_spec(self.pos, self.vel, dt), time: sat_add(self.time as int, dt) as u64, ..self }
    }

    /// Whether it touches a target of radius `size` at `pos`.
    pub open spec fn hits(self, pos: Vec2, size: i64) -> bool {
        closer_than(self.pos, pos, self.size * 2 + size)
    }

    /// Damage dealt on a hit: it fades linearly with age, to nothing at the
    /// end of the bullet's lifetime.
    pub open spec fn faded_damage(self) -> int {
        if self.time >= self.duration {
            0
        } else {
            self.damage - self.time * self.damage / (self.duration as int)
        }
    }
}

pub open spec fn bullets_ok(bs: Seq<Bullet>) -> bool {
    forall|i: int| 0 <= i < bs.len() ==> #[trigger] bs[i].ok()
}

/// `h - d`, saturated at the smallest `i64`.
pub open spec fn sat_sub(h: int, d: int) -> int {
    if h - d < i64::MIN {
        i64::MIN as int
    } else {
        h - d
    }
}

/// A target's health after the bullets `bs` of side `friendly` have been
/// resolved against it, one after another.
pub open spec fn health_after(h: int, bs: Seq<Bullet>, friendly: bool, pos: Vec2, size: i64) -> int
    decreases bs.len(),
{
    if bs.len() == 0 {
        h
    } else {
        let prev = health_after(h, bs.drop_last(), friendly, pos, size);
        let b = bs.last();
        if b.friendly == friendly && b.hits(pos, size) {
            sat_sub(prev, b.faded_damage())
        } else {
            prev
        }
    }
}

/// The spark of a friendly bullet hitting an enemy.
pub open spec fn enemy_hit_explosion(b: Bullet, vel: Vec2) -> Explosion {
    Explosion {
        pos: b.pos,
        vel,
        force_min: 0,
        force_max: 600_000,
        amount: 50,
        start_color: Color { r: 255, g: 0, b: 0, a: 255 },
        ending_color: Color { r: 255, g: 255, b: 50, a: 0 },
        duration: 100,
    }
}

/// The spark of a hostile bullet hitting one of the player's parts.
pub open spec fn part_hit_explosion(b: Bullet, vel: Vec2) -> Explosion {
    Explosion {
        pos: b.pos,
        vel,
        force_min: 0,
        force_max: 600_000,
        amount: 50,
        start_color: Color { r: 140, g: 255, b: 251, a: 255 },
        ending_color: Color { r: 255, g: 0, b: 50, a: 0 },
        duration: 100,
    }
}

/// How many of the enemies `es` bullet `b` touches.
pub open spec fn enemy_hits(b: Bullet, es: Seq<Enemy>) -> nat
    decreases es.len(),
{
    if es.len() == 0 {
        0
    } else {
        enemy_hits(b, es.drop_last()) + if b.hits(es.last().pos, es.last().size) {
            1nat
        } else {
            0nat
        }
    }
}

/// How many of the parts `ps` bullet `b` touches.
pub open spec fn part_hits(b: Bullet, ps: Seq<Part>) -> nat
    decreases ps.len(),
{
    if ps.len() == 0 {
        0
    } else {
        part_hits(b, ps.drop_last()) + if b.hits(ps.last().pos, ps.last().size) {
            1nat
        } else {
            0nat
        }
    }
}

proof fn lemma_enemy_hits_shape(b: Bullet, a: Seq<Enemy>, c: Seq<Enemy>)
    requires
        a.len() == c.len(),
        forall|j: int| 0 <= j < a.len() ==> #[trigger] a[j].pos == c[j].pos && a[j].size == c[j].size,
    ensures
        enemy_hits(b, a) == enemy_hits(b, c),
    decreases a.len(),
{
    if a.len() > 0 {
        let (a1, c1) = (a.drop_last(), c.drop_last());
        assert forall|j: int| 0 <= j < a1.len() implies #[trigger] a1[j].pos == c1[j].pos && a1[j].size == c1[j].size by {
            assert(a[j].pos == c[j].pos && a[j].size == c[j].size);
        }
        lemma_enemy_hits_shape(b, a1, c1);
        assert(a[a.len() - 1].pos == c[a.len() - 1].pos && a[a.len() - 1].size == c[a.len() - 1].size);
    }
}

proof fn lemma_part_hits_shape(b: Bullet, a: Seq<Part>, c: Seq<Part>)
    requires
        a.len() == c.len(),
        forall|j: int| 0 <= j < a.len() ==> #[trigger] a[j].pos == c[j].pos && a[j].size == c[j].size,
    ensures
        part_hits(b, a) == part_hits(b, c),
    decreases a.len(),
{
    if a.len() > 0 {
        let (a1, c1) = (a.drop_last(), c.drop_last());
        assert forall|j: int| 0 <= j < a1.len() implies #[trigger] a1[j].pos == c1[j].pos && a1[j].size == c1[j].size by {
            assert(a[j].pos == c[j].pos && a[j].size == c[j].size);
        }
        lemma_part_hits_shape(b, a1, c1);
        assert(a[a.len() - 1].pos == c[a.len() - 1].pos && a[a.len() - 1].size == c[a.len() - 1].size);
    }
}

/// The sparks one bullet makes: one per enemy (if friendly) or per part (if
/// hostile) that it touches.
pub open spec fn bullet_explosions(b: Bullet, es: Seq<Enemy>, ps: Seq<Part>, vel: Vec2) -> Seq<Explosion> {
    if b.friendly {
        Seq::new(enemy_hits(b, es), |i: int| enemy_hit_explosion(b, vel))
    } else {
        Seq::new(part_hits(b, ps), |i: int| part_hit_explosion(b, vel))
    }
}

pub open spec fn explosions_of(bs: Seq<Bullet>, es: Seq<Enemy>, ps: Seq<Part>, vel: Vec2) -> Seq<Explosion>
    decreases bs.len(),
{
    if bs.len() == 0 {
        Seq::empty()
    } else {
        explosions_of(bs.drop_last(), es, ps, vel) + bullet_explosions(bs.last(), es, ps, vel)
    }
}

proof fn lemma_faded_range(b: Bullet)
    requires
        b.ok(),
    ensures
        0 <= b.faded_damage() <= b.damage,
{
    if b.time < b.duration {
        assert(b.time * b.damage / (b.duration as int) <= b.damage) by (nonlinear_arith)
            requires
                b.time < b.duration,
                0 <= b.damage,
                0 <= b.time,
        ;
        assert(b.time * b.damage / (b.duration as int) >= 0) by (nonlinear_arith)
            requires
                b.duration > 0,
                0 <= b.damage,
                0 <= b.time,
        ;
    }
}

/// Resolving bullets only lowers a target's health, never below the
/// smallest `i64`.
proof fn lemma_health_after_range(h: int, bs: Seq<Bullet>, friendly: bool, pos: Vec2, size: i64)
    requires
        bullets_ok(bs),
        i64::MIN <= h,
    ensures
        i64::MIN <= health_after(h, bs, friendly, pos, size) <= h,
    decreases bs.len(),
{
    if bs.len() > 0 {
        let d = bs.drop_last();
        assert forall|i: int| 0 <= i < d.len() implies #[trigger] d[i].ok() by {
            assert(bs[i].ok());
        }
        lemma_health_after_range(h, d, friendly, pos, size);
        assert(bs[bs.len() - 1].ok());
        lemma_faded_range(bs.last());
    }
}

fn faded_damage(b: &Bullet) -> (d: i64)
    requires
        b.ok(),
    ensures
        d == b.faded_damage(),
        0 <= d <= b.damage,
{
    if b.time >= b.duration {
        0
    } else {
        assert(b.time * b.damage <= 0x1_0000_0000_0000_0000 * 1_000_000_000_000) by (nonlinear_arith)
            requires
                0 <= b.time < 0x1_0000_0000_0000_0000,
                0 <= b.damage <= 1_000_000_000_000,
        ;
        let t: u128 = b.time as u128 * b.damage as u128 / b.duration as u128;
        assert(t <= b.damage) by (nonlinear_arith)
            requires
                t == (b.time as int) * (b.damage as int) / (b.duration as int),
                b.time < b.duration,
                0 <= b.damage,
        ;
        b.damage - t as i64
    }
}

pub(crate) fn sub_saturating(h: i64, d: i64) -> (r: i64)
    requires
        d >= 0,
    ensures
        r == sat_sub(h as int, d as int),
{
    if h < i64::MIN + d {
        i64::MIN
    } else {
        h - d
    }
}


pub open spec fn with_enemy_health(e: Enemy, h: int) -> Enemy {
    Enemy { health: h as i64, ..e }
}

pub open spec fn with_part_health(p: Part, h: int) -> Part {
    Part { health: h as i64, ..p }
}

/// Resolves friendly bullet `b`, whose faded damage is `fd`, against every
/// enemy in order.
fn hit_enemies(b: &Bullet, fd: i64, enemies: &mut Vec<Enemy>, explosions: &mut Vec<Explosion>, vel: Vec2)
    requires
        b.ok(),
        fd == b.faded_damage(),
        fd >= 0,
        crate::enemies::enemies_ok(old(enemies)@),
    ensures
        final(enemies)@.len() == old(enemies)@.len(),
        forall|j: int| 0 <= j < old(enemies)@.len() ==> #[trigger] final(enemies)@[j] == with_enemy_health(
            old(enemies)@[j],
            if b.hits(old(enemies)@[j].pos, old(enemies)@[j].size) {
                sat_sub(old(enemies)@[j].health as int, fd as int)
            } else {
                old(enemies)@[j].health as int
            },
        ),
        final(explosions)@ == old(explosions)@ + Seq::new(
            enemy_hits(*b, old(enemies)@),
            |i: int| enemy_hit_explosion(*b, vel),
        ),
{
    let ghost start = explosions@;
    let n = enemies.len();
    let mut j: usize = 0;
    while j < n
        invariant
            b.ok(),
            fd == b.faded_damage(),
            fd >= 0,
            n == enemies@.len(),
            n == old(enemies)@.len(),
            j <= n,
            crate::enemies::enemies_ok(old(enemies)@),
            forall|k: int| 0 <= k < j ==> #[trigger] enemies@[k] == with_enemy_health(
                old(enemies)@[k],
                if b.hits(old(enemies)@[k].pos, old(enemies)@[k].size) {
                    sat_sub(old(enemies)@[k].health as int, fd as int)
                } else {
                    old(enemies)@[k].health as int
                },
            ),
            forall|k: int| j <= k < n ==> #[trigger] enemies@[k] == old(enemies)@[k],
            explosions@ == start + Seq::new(
                enemy_hits(*b, old(enemies)@.subrange(0, j as int)),
                |i: int| enemy_hit_explosion(*b, vel),
            ),
        decreases n - j,
    {
        assert(old(enemies)@[j as int].ok());
        proof {
            let pre = old(enemies)@.subrange(0, j + 1);
            assert(pre.drop_last() =~= old(enemies)@.subrange(0, j as int));
            assert(pre.last() == old(enemies)@[j as int]);
        }
        let r = b.size * 2 + enemies[j].size;
        if closer(b.pos, enemies[j].pos, r) {
            let h = sub_saturating(enemies[j].health, fd);
            enemies[j].health = h;
            explosions.push(Explosion {
                pos: b.pos,
                vel,
                force_min: 0,
                force_max: 600_000,
                amount: 50,
                start_color: Color { r: 255, g: 0, b: 0, a: 255 },
                ending_color: Color { r: 255, g: 255, b: 50, a: 0 },
                duration: 100,
            });
        }
        j += 1;
        assert(explosions@ =~= start + Seq::new(
            enemy_hits(*b, old(enemies)@.subrange(0, j as int)),
            |i: int| enemy_hit_explosion(*b, vel),
        ));
    }
    assert(old(enemies)@.subrange(0, n as int) =~= old(enemies)@);
}


/// Resolves hostile bullet `b`, whose faded damage is `fd`, against every
/// part of the player's ship in order.
fn hit_parts(b: &Bullet, fd: i64, parts: &mut Vec<Part>, explosions: &mut Vec<Explosion>, vel: Vec2)
    requires
        b.ok(),
        fd == b.faded_damage(),
        fd >= 0,
        crate::player::parts_ok(old(parts)@),
    ensures
        final(parts)@.len() == old(parts)@.len(),
        forall|j: int| 0 <= j < old(parts)@.len() ==> #[trigger] final(parts)@[j] == with_part_health(
            old(parts)@[j],
            if b.hits(old(parts)@[j].pos, old(parts)@[j].size) {
                sat_sub(old(parts)@[j].health as int, fd as int)
            } else {
                old(parts)@[j].health as int
            },
        ),
        final(explosions)@ == old(explosions)@ + Seq::new(
            part_hits(*b, old(parts)@),
            |i: int| part_hit_explosion(*b, vel),
        ),
        crate::player::parts_ok(final(parts)@),
{
    let ghost start = explosions@;
    let n = parts.len();
    let mut j: usize = 0;
    while j < n
        invariant
            b.ok(),
            fd == b.faded_damage(),
            fd >= 0,
            n == parts@.len(),
            n == old(parts)@.len(),
            j <= n,
            crate::player::parts_ok(old(parts)@),
            crate::player::parts_ok(parts@),
            forall|k: int| 0 <= k < j ==> #[trigger] parts@[k] == with_part_health(
                old(parts)@[k],
                if b.hits(old(parts)@[k].pos, old(parts)@[k].size) {
                    sat_sub(old(parts)@[k].health as int, fd as int)
                } else {
                    old(parts)@[k].health as int
                },
            ),
            forall|k: int| j <= k < n ==> #[trigger] parts@[k] == old(parts)@[k],
            explosions@ == start + Seq::new(
                part_hits(*b, old(parts)@.subrange(0, j as int)),
                |i: int| part_hit_explosion(*b, vel),
            ),
        decreases n - j,
    {
        assert(old(parts)@[j as int].ok());
        proof {
            let pre = old(parts)@.subrange(0, j + 1);
            assert(pre.drop_last() =~= old(parts)@.subrange(0, j as int));
            assert(pre.last() == old(parts)@[j as int]);
        }
        let r = b.size * 2 + parts[j].size;
        if closer(b.pos, parts[j].pos, r) {
            let h = sub_saturating(parts[j].health, fd);
            parts[j].health = h;
            explosions.push(Explosion {
                pos: b.pos,
                vel,
                force_min: 0,
                force_max: 600_000,
                amount: 50,
                start_color: Color { r: 140, g: 255, b: 251, a: 255 },
                ending_color: Color { r: 255, g: 0, b: 50, a: 0 },
                duration: 100,
            });
        }
        assert(parts@[j as int].ok());
        j += 1;
        assert(explosions@ =~= start + Seq::new(
            part_hits(*b, old(parts)@.subrange(0, j as int)),
            |i: int| part_hit_explosion(*b, vel),
        ));
    }
    assert(old(parts)@.subrange(0, n as int) =~= old(parts)@);
}

/// Drops every bullet whose age has reached its lifetime, keeping the order
/// of the rest.
pub fn retain_bullets(bullets: &mut Vec<Bullet>)
    ensures
        final(bullets)@ == old(bullets)@.filter(|b: Bullet| b.alive()),
        forall|i: int| 0 <= i < final(bullets)@.len() ==> #[trigger] final(bullets)@[i].alive(),
{
    let mut kept: Vec<Bullet> = Vec::new();
    let mut i: usize = 0;
    while i < bullets.len()
        invariant
            bullets@ == old(bullets)@,
            0 <= i <= bullets@.len(),
            kept@ == bullets@.subrange(0, i as int).filter(|b: Bullet| b.alive()),
        decreases bullets@.len() - i,
    {
        let b = bullets[i];
        proof {
            assert(bullets@.subrange(0, i + 1) == bullets@.subrange(0, i as int).push(b));
            bullets@.subrange(0, i as int).lemma_filter_push(b, |b: Bullet| b.alive());
        }
        if b.time < b.duration {
            kept.push(b);
        }
        i += 1;
    }
    assert(bullets@.subrange(0, bullets@.len() as int) == bullets@);
    proof {
        broadcast use vstd::seq_lib::group_filter_ensures;

        assert(forall|i: int| 0 <= i < kept@.len() ==> #[trigger] kept@[i].alive());
    }
    *bullets = kept;
}

/// A tick with `dt = 0` leaves a bullet where it is, with its velocity and
/// age.
pub proof fn lemma_bullet_still(b: Bullet)
    requires
        b.ok(),
    ensures
        b.stepped(0) == b,
{
}


/// Advances every bullet by `dt` milliseconds, then resolves it: a friendly
/// bullet damages every enemy it touches and a hostile one every part of
/// the player's ship it touches, by its faded damage. Each hit adds a spark
/// to `explosions`. A bullet is not used up by a hit.
pub fn update_bullets(
    player: &mut Player,
    bullets: &mut Vec<Bullet>,
    enemies: &mut Vec<Enemy>,
    explosions: &mut Vec<Explosion>,
    dt: u64,
)
    requires
        crate::player::parts_ok(old(player).parts@),
        bullets_ok(old(bullets)@),
        crate::enemies::enemies_ok(old(enemies)@),
        dt <= DT_LIMIT,
    ensures
        final(bullets)@.len() == old(bullets)@.len(),
        forall|i: int| 0 <= i < old(bullets)@.len() ==> #[trigger] final(bullets)@[i]
            == old(bullets)@[i].stepped(dt as int),
        bullets_ok(final(bullets)@),
        final(enemies)@.len() == old(enemies)@.len(),
        forall|j: int| 0 <= j < old(enemies)@.len() ==> #[trigger] final(enemies)@[j] == with_enemy_health(
            old(enemies)@[j],
            health_after(
                old(enemies)@[j].health as int,
                final(bullets)@,
                true,
                old(enemies)@[j].pos,
                old(enemies)@[j].size,
            ),
        ),
        final(player).parts@.len() == old(player).parts@.len(),
        forall|j: int| 0 <= j < old(player).parts@.len() ==> #[trigger] final(player).parts@[j] == with_part_health(
            old(player).parts@[j],
            health_after(
                old(player).parts@[j].health as int,
                final(bullets)@,
                false,
                old(player).parts@[j].pos,
                old(player).parts@[j].size,
            ),
        ),
        crate::player::parts_ok(final(player).parts@),
        final(explosions)@ == old(explosions)@ + explosions_of(
            final(bullets)@,
            old(enemies)@,
            old(player).parts@,
            old(player).vel,
        ),
        (Player { parts: old(player).parts, ..*final(player) }) == *old(player),
{
    let ghost start = explosions@;
    let ghost es0 = enemies@;
    let ghost ps0 = player.parts@;
    let vel = player.vel;
    let n = bullets.len();
    let mut i: usize = 0;
    while i < n
        invariant
            n == bullets@.len(),
            n == old(bullets)@.len(),
            i <= n,
            dt <= DT_LIMIT,
            es0 == old(enemies)@,
            ps0 == old(player).parts@,
            vel == old(player).vel,
            bullets_ok(old(bullets)@),
            forall|k: int| 0 <= k < i ==> #[trigger] bullets@[k] == old(bullets)@[k].stepped(dt as int),
            forall|k: int| i <= k < n ==> #[trigger] bullets@[k] == old(bullets)@[k],
            bullets_ok(bullets@),
            crate::enemies::enemies_ok(es0),
            crate::enemies::enemies_ok(enemies@),
            enemies@.len() == es0.len(),
            forall|j: int| 0 <= j < es0.len() ==> #[trigger] enemies@[j] == with_enemy_health(
                es0[j],
                health_after(es0[j].health as int, bullets@.subrange(0, i as int), true, es0[j].pos, es0[j].size),
            ),
            crate::player::parts_ok(player.parts@),
            player.parts@.len() == ps0.len(),
            forall|j: int| 0 <= j < ps0.len() ==> #[trigger] player.parts@[j] == with_part_health(
                ps0[j],
                health_after(ps0[j].health as int, bullets@.subrange(0, i as int), false, ps0[j].pos, ps0[j].size),
            ),
            explosions@ == start + explosions_of(bullets@.subrange(0, i as int), es0, ps0, vel),
            (Player { parts: old(player).parts, ..*player }) == *old(player),
        decreases n - i,
    {
        let ghost done = bullets@.subrange(0, i as int);
        let mut b = bullets[i];
        assert(old(bullets)@[i as int].ok());
        b.pos = advance(b.pos, b.vel, dt);
        b.time = b.time.saturating_add(dt);
        bullets.set(i, b);
        assert(bullets@[i as int].ok());
        let ghost pre = bullets@.subrange(0, i + 1);
        proof {
            assert(pre.drop_last() =~= done);
            assert(bullets@.subrange(0, i as int) =~= done);
            assert(pre.last() == b);
        }
        let fd = faded_damage(&b);
        let ghost es1 = enemies@;
        let ghost ps1 = player.parts@;
        let ghost ex1 = explosions@;
        proof {
            assert forall|j: int| 0 <= j < es1.len() implies #[trigger] es1[j].pos == es0[j].pos && es1[j].size == es0[j].size by {
                assert(es1[j] == with_enemy_health(
                    es0[j],
                    health_after(es0[j].health as int, done, true, es0[j].pos, es0[j].size),
                ));
            }
            assert forall|j: int| 0 <= j < ps1.len() implies #[trigger] ps1[j].pos == ps0[j].pos && ps1[j].size == ps0[j].size by {
                assert(ps1[j] == with_part_health(
                    ps0[j],
                    health_after(ps0[j].health as int, done, false, ps0[j].pos, ps0[j].size),
                ));
            }
            lemma_enemy_hits_shape(b, es1, es0);
            lemma_part_hits_shape(b, ps1, ps0);
        }
        if b.friendly {
            hit_enemies(&b, fd, enemies, explosions, vel);
            proof {
                assert forall|j: int| 0 <= j < es0.len() implies #[trigger] enemies@[j].ok() by {
                    assert(es0[j].ok());
                    assert(es1[j].pos == es0[j].pos && es1[j].size == es0[j].size);
                }
            }
        } else {
            hit_parts(&b, fd, &mut player.parts, explosions, vel);
        }
        proof {
            assert(explosions@ =~= start + explosions_of(pre, es0, ps0, vel));
            assert forall|k: int| 0 <= k < pre.len() implies #[trigger] pre[k].ok() by {
                assert(bullets@[k].ok());
            }
            assert forall|k: int| 0 <= k < done.len() implies #[trigger] done[k].ok() by {
                assert(pre[k].ok());
            }
            assert forall|j: int| 0 <= j < es0.len() implies #[trigger] enemies@[j] == with_enemy_health(
                es0[j],
                health_after(es0[j].health as int, pre, true, es0[j].pos, es0[j].size),
            ) by {
                lemma_health_after_range(es0[j].health as int, done, true, es0[j].pos, es0[j].size);
                assert(es1[j] == with_enemy_health(
                    es0[j],
                    health_after(es0[j].health as int, done, true, es0[j].pos, es0[j].size),
                ));
            }
            assert forall|j: int| 0 <= j < ps0.len() implies #[trigger] player.parts@[j] == with_part_health(
                ps0[j],
                health_after(ps0[j].health as int, pre, false, ps0[j].pos, ps0[j].size),
            ) by {
                lemma_health_after_range(ps0[j].health as int, done, false, ps0[j].pos, ps0[j].size);
                assert(ps1[j] == with_part_health(
                    ps0[j],
                    health_after(ps0[j].health as int, done, false, ps0[j].pos, ps0[j].size),
                ));
            }
        }
        i += 1;
    }
    assert(bullets@.subrange(0, n as int) =~= bullets@);
}

} // verus!
