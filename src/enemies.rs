//! Enemies and the collisions they take part in.
use vstd::prelude::*;
use crate::emitters::{BulletEmitter, ParticalEmitter};
use crate::fixed::{clamp_coord, closer, closer_than, coord_ok, dir_ok, Vec2, COORD_LIMIT, ONE};
use crate::bullets::{sat_sub, with_part_health};
use crate::color::Color;
use crate::particles::{enemy_dies_spec, Explosion};
use crate::player::{parts_ok, Part};

verus! {

/// Largest collision radius (and bullet size).
pub const SIZE_LIMIT: i64 = 1_000_000_000_000;

/// An enemy ship. `texture_id` and `extra_texture_ids` are the host's asset
/// handles; `health` is in thousandths and the enemy is dead at or below 0.
#[derive(Debug)]
pub struct Enemy {
    pub name: String,
    pub pos: Vec2,
    pub vel: Vec2,
    pub dir: Vec2,
    pub targetpos: Vec2,
    pub speed: i64,
    pub turningspeed: i64,
    pub predictive: bool,
    pub texture_scale: i64,
    pub friction: i64,
    pub size: i64,
    pub health: i64,
    pub partical_emmiters: Vec<ParticalEmitter>,
    pub bullet_emmiters: Vec<BulletEmitter>,
    pub texture_id: u64,
    pub extra_texture_ids: Vec<u64>,
}

impl Enemy {
    pub open spec fn ok(self) -> bool {
        &&& self.pos.ok()
        &&& self.vel.ok()
        &&& dir_ok(self.dir)
        &&& self.targetpos.ok()
        &&& coord_ok(self.speed)
        &&& crate::player::param_ok(self.turningspeed)
        &&& 0 <= self.friction <= crate::kinematics::FRICTION_LIMIT
        &&& 0 <= self.size <= SIZE_LIMIT
    }

    pub open spec fn alive(self) -> bool {
        self.health > 0
    }
}

pub open spec fn enemies_ok(es: Seq<Enemy>) -> bool {
    forall|i: int| 0 <= i < es.len() ==> #[trigger] es[i].ok()
}


/// Whether two enemies overlap: their distance is below the sum of their
/// radii.
pub open spec fn collides(a: Enemy, b: Enemy) -> bool {
    closer_than(a.pos, b.pos, a.size + b.size)
}

/// Whether enemy `i` overlaps some other enemy of `es`.
pub open spec fn rammed(es: Seq<Enemy>, i: int) -> bool {
    exists|j: int| 0 <= j < es.len() && j != i && #[trigger] collides(es[i], es[j])
}

/// The death explosions of the rammed enemies among the first `k`, in order.
pub open spec fn ram_explosions(es: Seq<Enemy>, k: int) -> Seq<Explosion>
    decreases k,
{
    if k <= 0 {
        Seq::empty()
    } else if rammed(es, k - 1) {
        ram_explosions(es, k - 1).push(enemy_dies_spec(es[k - 1].pos, es[k - 1].vel))
    } else {
        ram_explosions(es, k - 1)
    }
}

/// An enemy flagged dead.
pub open spec fn flagged_dead(e: Enemy) -> Enemy {
    Enemy { health: -1i64, ..e }
}

fn rammed_exec(enemies: &Vec<Enemy>, i: usize) -> (r: bool)
    requires
        enemies_ok(enemies@),
        i < enemies@.len(),
    ensures
        r == rammed(enemies@, i as int),
{
    let n = enemies.len();
    let mut j: usize = 0;
    while j < n
        invariant
            n == enemies@.len(),
            i < n,
            j <= n,
            enemies_ok(enemies@),
            forall|k: int| 0 <= k < j && k != i ==> !collides(enemies@[i as int], #[trigger] enemies@[k]),
        decreases n - j,
    {
        assert(enemies@[j as int].ok());
        assert(enemies@[i as int].ok());
        if j != i && closer(enemies[i].pos, enemies[j].pos, enemies[i].size + enemies[j].size) {
            assert(collides(enemies@[i as int], enemies@[j as int]));
            return true;
        }
        j += 1;
    }
    proof {
        if rammed(enemies@, i as int) {
            let k = choose|k: int| 0 <= k < enemies@.len() && k != i && #[trigger] collides(enemies@[i as int], enemies@[k]);
            assert(!collides(enemies@[i as int], enemies@[k]));
        }
    }
    false
}

/// Mutual collisions: every enemy that overlaps another is flagged dead
/// (health -1) and explodes once, in list order.
pub fn collide_enemies(enemies: &mut Vec<Enemy>, explosions: &mut Vec<Explosion>)
    requires
        enemies_ok(old(enemies)@),
    ensures
        final(enemies)@.len() == old(enemies)@.len(),
        forall|i: int| 0 <= i < old(enemies)@.len() ==> #[trigger] final(enemies)@[i] == if rammed(old(enemies)@, i) {
            flagged_dead(old(enemies)@[i])
        } else {
            old(enemies)@[i]
        },
        final(explosions)@ == old(explosions)@ + ram_explosions(old(enemies)@, old(enemies)@.len() as int),
        enemies_ok(final(enemies)@),
{
    let ghost es0 = enemies@;
    let ghost start = explosions@;
    let n = enemies.len();
    let mut flags: Vec<bool> = Vec::new();
    let mut i: usize = 0;
    while i < n
        invariant
            n == enemies@.len(),
            enemies@ == es0,
            enemies_ok(es0),
            i <= n,
            flags@.len() == i,
            forall|k: int| 0 <= k < i ==> #[trigger] flags@[k] == rammed(es0, k),
            explosions@ == start + ram_explosions(es0, i as int),
        decreases n - i,
    {
        let r = rammed_exec(enemies, i);
        flags.push(r);
        if r {
            assert(enemies@[i as int].ok());
            explosions.push(crate::particles::enemy_dies(enemies[i].pos, enemies[i].vel));
        }
        i += 1;
        assert(explosions@ =~= start + ram_explosions(es0, i as int));
    }
    let mut k: usize = 0;
    while k < n
        invariant
            n == enemies@.len(),
            n == es0.len(),
            k <= n,
            flags@.len() == n,
            enemies_ok(es0),
            forall|m: int| 0 <= m < n ==> #[trigger] flags@[m] == rammed(es0, m),
            forall|m: int| 0 <= m < k ==> #[trigger] enemies@[m] == if rammed(es0, m) {
                flagged_dead(es0[m])
            } else {
                es0[m]
            },
            forall|m: int| k <= m < n ==> #[trigger] enemies@[m] == es0[m],
            forall|m: int| 0 <= m < n ==> #[trigger] enemies@[m].ok(),
        decreases n - k,
    {
        if flags[k] {
            enemies[k].health = -1;
        }
        assert(es0[k as int].ok());
        k += 1;
    }
}


/// Damage an enemy deals to a part it rams: one point.
pub const RAM_DAMAGE: i64 = 1000;

/// Whether enemy `e` touches part `p`.
pub open spec fn touches(e: Enemy, p: Part) -> bool {
    closer_than(e.pos, p.pos, e.size + p.size)
}

/// Whether enemy `e` touches some part of `ps`.
pub open spec fn touches_any(e: Enemy, ps: Seq<Part>) -> bool {
    exists|k: int| 0 <= k < ps.len() && #[trigger] touches(e, ps[k])
}

/// The spark on a part that an enemy rams.
pub open spec fn impact_explosion(p: Part, vel: Vec2) -> Explosion {
    Explosion {
        pos: p.pos,
        vel,
        force_min: 0,
        force_max: 600_000,
        amount: 50,
        start_color: Color { r: 140, g: 255, b: 251, a: 255 },
        ending_color: Color { r: 255, g: 0, b: 50, a: 0 },
        duration: 100,
    }
}

/// Explosions of enemy `e` ramming the parts `ps`: for each part it touches,
/// its own death and a spark on the part.
pub open spec fn ram_part_explosions(e: Enemy, ps: Seq<Part>, vel: Vec2) -> Seq<Explosion>
    decreases ps.len(),
{
    if ps.len() == 0 {
        Seq::empty()
    } else if touches(e, ps.last()) {
        ram_part_explosions(e, ps.drop_last(), vel).push(enemy_dies_spec(e.pos, e.vel)).push(
            impact_explosion(ps.last(), vel),
        )
    } else {
        ram_part_explosions(e, ps.drop_last(), vel)
    }
}

pub open spec fn rams_explosions(es: Seq<Enemy>, ps: Seq<Part>, vel: Vec2) -> Seq<Explosion>
    decreases es.len(),
{
    if es.len() == 0 {
        Seq::empty()
    } else {
        rams_explosions(es.drop_last(), ps, vel) + ram_part_explosions(es.last(), ps, vel)
    }
}

/// A part's health after the enemies `es` have rammed it, one by one.
pub open spec fn health_after_rams(h: int, es: Seq<Enemy>, p: Part) -> int
    decreases es.len(),
{
    if es.len() == 0 {
        h
    } else if touches(es.last(), p) {
        sat_sub(health_after_rams(h, es.drop_last(), p), RAM_DAMAGE as int)
    } else {
        health_after_rams(h, es.drop_last(), p)
    }
}

proof fn lemma_rams_range(h: int, es: Seq<Enemy>, p: Part)
    requires
        i64::MIN <= h,
    ensures
        i64::MIN <= health_after_rams(h, es, p) <= h,
    decreases es.len(),
{
    if es.len() > 0 {
        lemma_rams_range(h, es.drop_last(), p);
    }
}

/// Enemy `e` rams every part it touches.
fn ram_one(e: &mut Enemy, parts: &mut Vec<Part>, explosions: &mut Vec<Explosion>, vel: Vec2)
    requires
        old(e).ok(),
        parts_ok(old(parts)@),
    ensures
        *final(e) == if touches_any(*old(e), old(parts)@) { flagged_dead(*old(e)) } else { *old(e) },
        final(parts)@.len() == old(parts)@.len(),
        forall|k: int| 0 <= k < old(parts)@.len() ==> #[trigger] final(parts)@[k] == with_part_health(
            old(parts)@[k],
            if touches(*old(e), old(parts)@[k]) {
                sat_sub(old(parts)@[k].health as int, RAM_DAMAGE as int)
            } else {
                old(parts)@[k].health as int
            },
        ),
        final(explosions)@ == old(explosions)@ + ram_part_explosions(*old(e), old(parts)@, vel),
        parts_ok(final(parts)@),
{
    let ghost e0 = *e;
    let ghost ps0 = parts@;
    let ghost start = explosions@;
    let n = parts.len();
    let mut k: usize = 0;
    while k < n
        invariant
            e0.ok(),
            n == parts@.len(),
            n == ps0.len(),
            k <= n,
            parts_ok(ps0),
            parts_ok(parts@),
            *e == if (exists|m: int| 0 <= m < k && #[trigger] touches(e0, ps0[m])) {
                flagged_dead(e0)
            } else {
                e0
            },
            forall|m: int| 0 <= m < k ==> #[trigger] parts@[m] == with_part_health(
                ps0[m],
                if touches(e0, ps0[m]) {
                    sat_sub(ps0[m].health as int, RAM_DAMAGE as int)
                } else {
                    ps0[m].health as int
                },
            ),
            forall|m: int| k <= m < n ==> #[trigger] parts@[m] == ps0[m],
            explosions@ == start + ram_part_explosions(e0, ps0.subrange(0, k as int), vel),
        decreases n - k,
    {
        assert(ps0[k as int].ok());
        proof {
            let pre = ps0.subrange(0, k + 1);
            assert(pre.drop_last() =~= ps0.subrange(0, k as int));
            assert(pre.last() == ps0[k as int]);
        }
        if closer(e.pos, parts[k].pos, e.size + parts[k].size) {
            e.health = -1;
            explosions.push(crate::particles::enemy_dies(e.pos, e.vel));
            let h = crate::bullets::sub_saturating(parts[k].health, RAM_DAMAGE);
            parts[k].health = h;
            explosions.push(Explosion {
                pos: parts[k].pos,
                vel,
                force_min: 0,
                force_max: 600_000,
                amount: 50,
                start_color: Color { r: 140, g: 255, b: 251, a: 255 },
                ending_color: Color { r: 255, g: 0, b: 50, a: 0 },
                duration: 100,
            });
        }
        assert(parts@[k as int].ok());
        k += 1;
        assert(explosions@ =~= start + ram_part_explosions(e0, ps0.subrange(0, k as int), vel));
    }
    assert(ps0.subrange(0, n as int) =~= ps0);
}

/// Every enemy, in order, rams the parts of the player's ship that it
/// touches: it is flagged dead and explodes, and each part it touches loses
/// one point of health and shows a spark.
pub fn ram_parts(enemies: &mut Vec<Enemy>, parts: &mut Vec<Part>, explosions: &mut Vec<Explosion>, vel: Vec2)
    requires
        enemies_ok(old(enemies)@),
        parts_ok(old(parts)@),
    ensures
        final(enemies)@.len() == old(enemies)@.len(),
        forall|i: int| 0 <= i < old(enemies)@.len() ==> #[trigger] final(enemies)@[i] == if touches_any(
            old(enemies)@[i],
            old(parts)@,
        ) {
            flagged_dead(old(enemies)@[i])
        } else {
            old(enemies)@[i]
        },
        final(parts)@.len() == old(parts)@.len(),
        forall|k: int| 0 <= k < old(parts)@.len() ==> #[trigger] final(parts)@[k] == with_part_health(
            old(parts)@[k],
            health_after_rams(old(parts)@[k].health as int, old(enemies)@, old(parts)@[k]),
        ),
        final(explosions)@ == old(explosions)@ + rams_explosions(old(enemies)@, old(parts)@, vel),
        enemies_ok(final(enemies)@),
        parts_ok(final(parts)@),
{
    let ghost es0 = enemies@;
    let ghost ps0 = parts@;
    let ghost start = explosions@;
    let n = enemies.len();
    let mut i: usize = 0;
    while i < n
        invariant
            n == enemies@.len(),
            n == es0.len(),
            i <= n,
            enemies_ok(es0),
            parts_ok(ps0),
            parts_ok(parts@),
            parts@.len() == ps0.len(),
            forall|m: int| 0 <= m < i ==> #[trigger] enemies@[m] == if touches_any(es0[m], ps0) {
                flagged_dead(es0[m])
            } else {
                es0[m]
            },
            forall|m: int| i <= m < n ==> #[trigger] enemies@[m] == es0[m],
            forall|m: int| 0 <= m < n ==> #[trigger] enemies@[m].ok(),
            forall|k: int| 0 <= k < ps0.len() ==> #[trigger] parts@[k] == with_part_health(
                ps0[k],
                health_after_rams(ps0[k].health as int, es0.subrange(0, i as int), ps0[k]),
            ),
            explosions@ == start + rams_explosions(es0.subrange(0, i as int), ps0, vel),
        decreases n - i,
    {
        let ghost ps1 = parts@;
        let ghost ex1 = explosions@;
        let ghost pre = es0.subrange(0, i + 1);
        let ghost done = es0.subrange(0, i as int);
        proof {
            assert(pre.drop_last() =~= done);
            assert(pre.last() == es0[i as int]);
            assert(es0[i as int].ok());
        }
        ram_one(&mut enemies[i], parts, explosions, vel);
        proof {
            assert forall|k: int| 0 <= k < ps1.len() implies #[trigger] ps1[k].pos == ps0[k].pos && ps1[k].size
                == ps0[k].size && touches(es0[i as int], ps1[k]) == touches(es0[i as int], ps0[k]) by {
                assert(ps1[k] == with_part_health(
                    ps0[k],
                    health_after_rams(ps0[k].health as int, done, ps0[k]),
                ));
            }
            lemma_ram_shape(es0[i as int], ps1, ps0, vel);
            assert(explosions@ =~= start + rams_explosions(pre, ps0, vel));
            assert forall|k: int| 0 <= k < ps0.len() implies #[trigger] parts@[k] == with_part_health(
                ps0[k],
                health_after_rams(ps0[k].health as int, pre, ps0[k]),
            ) by {
                lemma_rams_range(ps0[k].health as int, done, ps0[k]);
                assert(ps1[k] == with_part_health(
                    ps0[k],
                    health_after_rams(ps0[k].health as int, done, ps0[k]),
                ));
            }
            assert(touches_any(es0[i as int], ps1) == touches_any(es0[i as int], ps0)) by {
                if touches_any(es0[i as int], ps1) {
                    let k = choose|k: int| 0 <= k < ps1.len() && #[trigger] touches(es0[i as int], ps1[k]);
                    assert(touches(es0[i as int], ps0[k]));
                }
                if touches_any(es0[i as int], ps0) {
                    let k = choose|k: int| 0 <= k < ps0.len() && #[trigger] touches(es0[i as int], ps0[k]);
                    assert(touches(es0[i as int], ps1[k]));
                }
            }
        }
        i += 1;
    }
    assert(es0.subrange(0, n as int) =~= es0);
}

proof fn lemma_ram_shape(e: Enemy, a: Seq<Part>, c: Seq<Part>, vel: Vec2)
    requires
        a.len() == c.len(),
        forall|k: int| 0 <= k < a.len() ==> #[trigger] a[k].pos == c[k].pos && a[k].size == c[k].size
            && touches(e, a[k]) == touches(e, c[k]),
    ensures
        ram_part_explosions(e, a, vel) == ram_part_explosions(e, c, vel),
    decreases a.len(),
{
    if a.len() > 0 {
        let (a1, c1) = (a.drop_last(), c.drop_last());
        assert forall|k: int| 0 <= k < a1.len() implies #[trigger] a1[k].pos == c1[k].pos && a1[k].size == c1[k].size
            && touches(e, a1[k]) == touches(e, c1[k]) by {
            assert(a[k].pos == c[k].pos);
            assert(touches(e, a[k]) == touches(e, c[k]));
        }
        lemma_ram_shape(e, a1, c1, vel);
        assert(a[a.len() - 1].pos == c[a.len() - 1].pos && touches(e, a.last()) == touches(e, c.last()));
    }
}


/// `a` and `b` hold the same values, field by field.
pub open spec fn same_enemy(a: Enemy, b: Enemy) -> bool {
    &&& a.name@ == b.name@
    &&& a.pos == b.pos
    &&& a.vel == b.vel
    &&& a.dir == b.dir
    &&& a.targetpos == b.targetpos
    &&& a.speed == b.speed
    &&& a.turningspeed == b.turningspeed
    &&& a.predictive == b.predictive
    &&& a.texture_scale == b.texture_scale
    &&& a.friction == b.friction
    &&& a.size == b.size
    &&& a.health == b.health
    &&& a.partical_emmiters@ == b.partical_emmiters@
    &&& a.bullet_emmiters@ == b.bullet_emmiters@
    &&& a.texture_id == b.texture_id
    &&& a.extra_texture_ids@ == b.extra_texture_ids@
}

/// Distance from the player at which wave enemies appear, in thousandths.
pub const SPAWN_DISTANCE: i64 = 2_000_000;

impl Enemy {
    /// A copy of this enemy.
    pub fn clone_enemy(&self) -> (r: Enemy)
        ensures
            same_enemy(r, *self),
    {
        let pe = self.partical_emmiters.clone();
        let be = self.bullet_emmiters.clone();
        let ex = self.extra_texture_ids.clone();
        assert(pe@ =~= self.partical_emmiters@);
        assert(be@ =~= self.bullet_emmiters@);
        assert(ex@ =~= self.extra_texture_ids@);
        Enemy {
            name: self.name.clone(),
            pos: self.pos,
            vel: self.vel,
            dir: self.dir,
            targetpos: self.targetpos,
            speed: self.speed,
            turningspeed: self.turningspeed,
            predictive: self.predictive,
            texture_scale: self.texture_scale,
            friction: self.friction,
            size: self.size,
            health: self.health,
            partical_emmiters: pe,
            bullet_emmiters: be,
            texture_id: self.texture_id,
            extra_texture_ids: ex,
        }
    }
}

/// Where a wave places a new enemy: `SPAWN_DISTANCE` from the player along
/// `heading`, a unit vector in thousandths.
pub open spec fn spawn_point(player_pos: Vec2, heading: Vec2) -> Vec2 {
    Vec2 {
        x: clamp_coord(player_pos.x + heading.x * (SPAWN_DISTANCE / ONE)) as i64,
        y: clamp_coord(player_pos.y + heading.y * (SPAWN_DISTANCE / ONE)) as i64,
    }
}

/// A new enemy from a wave's template, placed along the random `heading`
/// and facing the random `facing`.
pub fn spawn_enemy(template: &Enemy, player_pos: Vec2, heading: Vec2, facing: Vec2) -> (e: Enemy)
    requires
        player_pos.ok(),
        dir_ok(heading),
    ensures
        same_enemy(e, Enemy { pos: spawn_point(player_pos, heading), dir: facing, ..*template }),
{
    let mut e = template.clone_enemy();
    let x: i64 = player_pos.x + heading.x * 2000;
    let y: i64 = player_pos.y + heading.y * 2000;
    e.pos = Vec2 { x: clamp_i64(x), y: clamp_i64(y) };
    e.dir = facing;
    e
}

fn clamp_i64(v: i64) -> (r: i64)
    ensures
        r == clamp_coord(v as int),
{
    if v > COORD_LIMIT {
        COORD_LIMIT
    } else if v < -COORD_LIMIT {
        -COORD_LIMIT
    } else {
        v
    }
}


/// Drops every enemy whose health has reached 0, keeping the order of the
/// rest.
pub fn retain_enemies(enemies: &mut Vec<Enemy>)
    ensures
        final(enemies)@ == old(enemies)@.filter(|e: Enemy| e.alive()),
        forall|i: int| 0 <= i < final(enemies)@.len() ==> #[trigger] final(enemies)@[i].alive(),
{
    let ghost s0 = enemies@;
    let ghost pred = |e: Enemy| e.alive();
    let mut i: usize = 0;
    let ghost mut seen: int = 0;
    while i < enemies.len()
        invariant
            0 <= i <= enemies@.len(),
            0 <= seen <= s0.len(),
            pred == (|e: Enemy| e.alive()),
            enemies@.subrange(0, i as int) == s0.subrange(0, seen).filter(pred),
            enemies@.subrange(i as int, enemies@.len() as int) == s0.subrange(seen, s0.len() as int),
        decreases enemies@.len() - i,
    {
        let ghost cur = enemies@;
        proof {
            assert(cur.subrange(i as int, cur.len() as int).len() == s0.subrange(seen, s0.len() as int).len());
            assert(seen < s0.len());
            assert(cur[i as int] == s0[seen]) by {
                assert(cur.subrange(i as int, cur.len() as int)[0] == s0.subrange(seen, s0.len() as int)[0]);
            }
            assert(s0.subrange(0, seen + 1) =~= s0.subrange(0, seen).push(s0[seen]));
            s0.subrange(0, seen).lemma_filter_push(s0[seen], pred);
        }
        if enemies[i].health <= 0 {
            enemies.remove(i);
            proof {
                assert(enemies@.subrange(0, i as int) =~= cur.subrange(0, i as int));
                let tc = cur.subrange(i as int, cur.len() as int);
                let ts = s0.subrange(seen, s0.len() as int);
                assert forall|k: int| 0 <= k < enemies@.len() - i implies #[trigger] enemies@[i + k] == s0[seen + 1 + k] by {
                    assert(tc[k + 1] == ts[k + 1]);
                }
                assert(tc.len() == ts.len());
                assert(enemies@.len() - i == s0.len() - seen - 1);
                assert forall|k: int| 0 <= k < enemies@.len() - i implies #[trigger] enemies@.subrange(i as int, enemies@.len() as int)[k] == s0.subrange(seen + 1, s0.len() as int)[k] by {
                    assert(enemies@[i + k] == s0[seen + 1 + k]);
                }
                assert(enemies@.subrange(i as int, enemies@.len() as int) =~= s0.subrange(seen + 1, s0.len() as int));
                seen = seen + 1;
            }
        } else {
            proof {
                assert(enemies@.subrange(0, i + 1) =~= cur.subrange(0, i as int).push(cur[i as int]));
                let tc = cur.subrange(i as int, cur.len() as int);
                let ts = s0.subrange(seen, s0.len() as int);
                assert forall|k: int| 0 <= k < enemies@.len() - i - 1 implies #[trigger] enemies@[i + 1 + k] == s0[seen + 1 + k] by {
                    assert(tc[k + 1] == ts[k + 1]);
                }
                assert(tc.len() == ts.len());
                assert forall|k: int| 0 <= k < enemies@.len() - i - 1 implies #[trigger] enemies@.subrange(i + 1, enemies@.len() as int)[k] == s0.subrange(seen + 1, s0.len() as int)[k] by {
                    assert(enemies@[i + 1 + k] == s0[seen + 1 + k]);
                }
                assert(enemies@.subrange(i + 1, enemies@.len() as int) =~= s0.subrange(seen + 1, s0.len() as int));
                seen = seen + 1;
            }
            i += 1;
        }
    }
    proof {
        assert(s0.subrange(seen, s0.len() as int).len() == 0);
        assert(s0.subrange(0, seen) =~= s0);
        assert(enemies@.subrange(0, i as int) =~= enemies@);
        broadcast use vstd::seq_lib::group_filter_ensures;

        assert(forall|k: int| 0 <= k < enemies@.len() ==> #[trigger] enemies@[k].alive());
    }
}

/// Whether some part of the ship is destroyed, which ends the game.
pub open spec fn ship_destroyed(ps: Seq<Part>) -> bool {
    exists|k: int| 0 <= k < ps.len() && #[trigger] ps[k].health <= 0
}

pub fn any_part_destroyed(parts: &Vec<Part>) -> (r: bool)
    ensures
        r == ship_destroyed(parts@),
{
    let mut i: usize = 0;
    while i < parts.len()
        invariant
            i <= parts@.len(),
            forall|k: int| 0 <= k < i ==> #[trigger] parts@[k].health > 0,
        decreases parts@.len() - i,
    {
        if parts[i].health <= 0 {
            return true;
        }
        i += 1;
    }
    false
}

} // verus!
