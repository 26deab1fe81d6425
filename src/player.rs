//! The player's ship: its parts, and the damage links through which the
//! health of parts scales the ship's other parameters.
use vstd::prelude::*;
use crate::emitters::{BulletEmitter, ParticalEmitter, INTERVAL_LIMIT};
use crate::enemies::{Enemy, SIZE_LIMIT};
use crate::fixed::{coord_ok, dir_ok, div_toward_zero, trunc_div, Vec2, ONE};
use crate::products::{lemma_prod_permutation, prod_by};

verus! {

/// Largest magnitude of a health value.
pub const HEALTH_LIMIT: i64 = 1_000_000_000_000;

/// Largest magnitude of a parameter that damage links scale.
pub const PARAM_LIMIT: i64 = 1_000_000_000_000;

/// Most damage links on one ship, so that the exact product of their
/// factors fits in 128 bits.
pub const MAX_LINKS: usize = 8;

/// A damageable subsystem at offset `location` from the ship's centre;
/// health in thousandths.
#[derive(Debug)]
pub struct Part {
    pub pos: Vec2,
    pub location: Vec2,
    pub health: i64,
    pub starting_health: i64,
    pub size: i64,
    pub name: String,
}

impl Part {
    pub open spec fn ok(self) -> bool {
        &&& self.pos.ok()
        &&& self.location.ok()
        &&& 0 < self.starting_health <= HEALTH_LIMIT
        &&& self.health <= self.starting_health
        &&& 0 <= self.size <= SIZE_LIMIT
    }

    /// Health within `[0, starting_health]`, as between ticks.
    pub open spec fn intact(self) -> bool {
        0 <= self.health <= self.starting_health
    }
}

/// The parameter a damage link scales.
#[derive(Clone, Copy, Debug, PartialEq, Eq, Structural)]
pub enum PartMod {
    /// The exhaust speed of the particle emitter at the link's index.
    Partical,
    /// The firing interval of the gun at the link's index.
    Gun,
    TurnLeft,
    TurnRight,
    Speed,
}

/// How a link applies its factor; both variants scale multiplicatively.
#[derive(Clone, Copy, Debug, PartialEq, Eq, Structural)]
pub enum DamageType {
    Mult,
    Div,
}

/// A damage link: the parameter `des` (at `index`, for emitters and guns)
/// is scaled by the summed health of the parts `src` over their summed
/// starting health.
#[derive(Debug)]
pub struct Damage {
    pub src: Vec<usize>,
    pub des: PartMod,
    pub index: usize,
    pub damage_type: DamageType,
}

pub open spec fn parts_ok(parts: Seq<Part>) -> bool {
    forall|i: int| 0 <= i < parts.len() ==> #[trigger] parts[i].ok()
}

pub open spec fn parts_intact(parts: Seq<Part>) -> bool {
    forall|i: int| 0 <= i < parts.len() ==> #[trigger] parts[i].intact()
}

pub open spec fn link_ok(l: Damage, n_parts: nat) -> bool {
    &&& l.src@.len() > 0
    &&& forall|k: int| 0 <= k < l.src@.len() ==> #[trigger] l.src@[k] < n_parts
}

pub open spec fn health_sum(parts: Seq<Part>, src: Seq<usize>) -> int
    decreases src.len(),
{
    if src.len() == 0 {
        0
    } else {
        health_sum(parts, src.drop_last()) + parts[src.last() as int].health
    }
}

pub open spec fn start_sum(parts: Seq<Part>, src: Seq<usize>) -> int
    decreases src.len(),
{
    if src.len() == 0 {
        0
    } else {
        start_sum(parts, src.drop_last()) + parts[src.last() as int].starting_health
    }
}

/// A link's factor in thousandths: summed health over summed starting
/// health of its source parts.
pub open spec fn link_factor(parts: Seq<Part>, l: Damage) -> int {
    trunc_div(ONE * health_sum(parts, l.src@), start_sum(parts, l.src@))
}

/// Whether link `l` scales the parameter `des` (of the emitter or gun at
/// `index`).
pub open spec fn targets(l: Damage, des: PartMod, index: int) -> bool {
    l.des == des && (des == PartMod::Partical || des == PartMod::Gun ==> l.index == index)
}

pub open spec fn factor_of(parts: Seq<Part>, des: PartMod, index: int) -> spec_fn(Damage) -> int {
    |l: Damage| if targets(l, des, index) { link_factor(parts, l) } else { 1 }
}

pub open spec fn scale_of(des: PartMod, index: int) -> spec_fn(Damage) -> int {
    |l: Damage| if targets(l, des, index) { ONE as int } else { 1 }
}

/// `base` scaled by the factors of every link that targets the parameter:
/// the exact product, rounded toward zero once.
pub open spec fn scaled(base: int, parts: Seq<Part>, links: Seq<Damage>, des: PartMod, index: int) -> int {
    trunc_div(
        base * prod_by(links, factor_of(parts, des, index)),
        prod_by(links, scale_of(des, index)),
    )
}

/// Damage links compose in any order: two lists that hold the same links
/// (a permutation of each other) scale every parameter alike.
pub proof fn lemma_links_order_free(
    base: int,
    parts: Seq<Part>,
    l1: Seq<Damage>,
    l2: Seq<Damage>,
    des: PartMod,
    index: int,
)
    requires
        l1.to_multiset() == l2.to_multiset(),
    ensures
        scaled(base, parts, l1, des, index) == scaled(base, parts, l2, des, index),
{
    lemma_prod_permutation(l1, l2, factor_of(parts, des, index));
    lemma_prod_permutation(l1, l2, scale_of(des, index));
}

/// The player's ship. Turn rates are in thousandths of a degree per second;
/// `speed`, `left_turn` and `right_turn` are recomputed from their
/// undamaged values each tick.
#[derive(Debug)]
pub struct Player {
    pub pos: Vec2,
    pub vel: Vec2,
    pub dir: Vec2,
    pub speed_original: i64,
    pub left_turn_original: i64,
    pub right_turn_original: i64,
    pub parts: Vec<Part>,
    pub damage: Vec<Damage>,
    pub partical_emmiters: Vec<ParticalEmitter>,
    pub bullet_emmiters: Vec<BulletEmitter>,
    pub speed: i64,
    pub left_turn: i64,
    pub right_turn: i64,
}

pub open spec fn param_ok(v: i64) -> bool {
    -PARAM_LIMIT <= v <= PARAM_LIMIT
}

impl Player {
    /// A link whose parts, emitter or gun exist on this ship.
    pub open spec fn link_in_range(self, l: Damage) -> bool {
        &&& link_ok(l, self.parts@.len())
        &&& l.des == PartMod::Partical ==> l.index < self.partical_emmiters@.len()
        &&& l.des == PartMod::Gun ==> l.index < self.bullet_emmiters@.len()
    }

    /// Well-formed: values in range, and every link names parts, emitters
    /// and guns that exist.
    pub open spec fn ok(self) -> bool {
        &&& self.pos.ok()
        &&& self.vel.ok()
        &&& dir_ok(self.dir)
        &&& param_ok(self.speed_original)
        &&& param_ok(self.left_turn_original)
        &&& param_ok(self.right_turn_original)
        &&& param_ok(self.speed)
        &&& param_ok(self.left_turn)
        &&& param_ok(self.right_turn)
        &&& parts_ok(self.parts@)
        &&& self.damage@.len() <= MAX_LINKS
        &&& forall|k: int| 0 <= k < self.damage@.len() ==> #[trigger] self.link_in_range(self.damage@[k])
        &&& forall|k: int| 0 <= k < self.partical_emmiters@.len() ==> #[trigger] self.partical_emmiters@[k].ok()
        &&& forall|k: int| 0 <= k < self.partical_emmiters@.len() ==> param_ok(#[trigger] self.partical_emmiters@[k].speed_orginal)
        &&& forall|k: int| 0 <= k < self.bullet_emmiters@.len() ==> #[trigger] self.bullet_emmiters@[k].ok()
    }
}


proof fn lemma_sums_bounds(parts: Seq<Part>, src: Seq<usize>)
    requires
        parts_ok(parts),
        parts_intact(parts),
        forall|k: int| 0 <= k < src.len() ==> #[trigger] src[k] < parts.len(),
    ensures
        0 <= health_sum(parts, src) <= start_sum(parts, src),
        src.len() <= start_sum(parts, src) <= HEALTH_LIMIT * src.len(),
    decreases src.len(),
{
    if src.len() > 0 {
        let d = src.drop_last();
        assert forall|k: int| 0 <= k < d.len() implies #[trigger] d[k] < parts.len() by {
            assert(d[k] == src[k]);
        }
        lemma_sums_bounds(parts, d);
        assert(src.last() == src[src.len() - 1]);
        assert(parts[src.last() as int].ok());
        assert(parts[src.last() as int].intact());
    }
}

/// A link's factor in thousandths.
fn link_factor_exec(parts: &Vec<Part>, src: &Vec<usize>) -> (r: i64)
    requires
        parts_ok(parts@),
        parts_intact(parts@),
        src@.len() > 0,
        forall|k: int| 0 <= k < src@.len() ==> #[trigger] src@[k] < parts@.len(),
    ensures
        r == trunc_div(ONE * health_sum(parts@, src@), start_sum(parts@, src@)),
        0 <= r <= ONE,
{
    let mut h: i128 = 0;
    let mut s: i128 = 0;
    let mut i: usize = 0;
    while i < src.len()
        invariant
            parts_ok(parts@),
            parts_intact(parts@),
            forall|k: int| 0 <= k < src@.len() ==> #[trigger] src@[k] < parts@.len(),
            i <= src@.len(),
            h == health_sum(parts@, src@.subrange(0, i as int)),
            s == start_sum(parts@, src@.subrange(0, i as int)),
            -1_000_000_000_000 * i <= h <= 1_000_000_000_000 * i,
            0 <= s <= 1_000_000_000_000 * i,
        decreases src@.len() - i,
    {
        let j = src[i];
        assert(parts@[j as int].ok());
        assert(parts@[j as int].intact());
        proof {
            let pre = src@.subrange(0, i + 1);
            assert(pre.drop_last() =~= src@.subrange(0, i as int));
            assert(pre.last() == j);
        }
        assert(0 <= parts@[j as int].health <= HEALTH_LIMIT);
        assert(i < 0x1_0000_0000_0000_0000);
        h = h + parts[j].health as i128;
        s = s + parts[j].starting_health as i128;
        i += 1;
    }
    assert(src@.subrange(0, src@.len() as int) =~= src@);
    proof {
        lemma_sums_bounds(parts@, src@);
    }
    let r = div_toward_zero(1000 * h, s);
    proof {
        let hi = h as int;
        let si = s as int;
        assert(0 <= hi <= si);
        assert((1000 * hi) / si <= 1000 && (1000 * hi) / si >= 0) by (nonlinear_arith)
            requires
                0 <= hi <= si,
                si > 0,
        ;
    }
    r as i64
}


spec fn p1000(k: nat) -> int
    decreases k,
{
    if k == 0 {
        1
    } else {
        1000 * p1000((k - 1) as nat)
    }
}

proof fn lemma_p1000_bound(k: nat)
    requires
        k <= 8,
    ensures
        1 <= p1000(k) <= 1_000_000_000_000_000_000_000_000,
        k <= 7 ==> p1000(k) <= 1_000_000_000_000_000_000_000,
{
    reveal_with_fuel(p1000, 9);
    if k == 0 {
    } else if k == 1 {
    } else if k == 2 {
    } else if k == 3 {
    } else if k == 4 {
    } else if k == 5 {
    } else if k == 6 {
    } else if k == 7 {
    } else {
    }
}

fn targets_exec(l: &Damage, des: PartMod, index: usize) -> (r: bool)
    ensures
        r == targets(*l, des, index as int),
{
    l.des == des && (!(des == PartMod::Partical || des == PartMod::Gun) || l.index == index)
}

/// `base` scaled by every link that targets `des` (at `index`).
fn scaled_param(base: i64, parts: &Vec<Part>, links: &Vec<Damage>, des: PartMod, index: usize) -> (r: i64)
    requires
        parts_ok(parts@),
        parts_intact(parts@),
        param_ok(base),
        links@.len() <= MAX_LINKS,
        forall|k: int| 0 <= k < links@.len() ==> #[trigger] link_ok(links@[k], parts@.len()),
    ensures
        r == scaled(base as int, parts@, links@, des, index as int),
        param_ok(r),
        base >= 0 ==> 0 <= r <= base,
{
    let ghost f = factor_of(parts@, des, index as int);
    let ghost g = scale_of(des, index as int);
    let ghost ab: int = if base >= 0 { base as int } else { -base };
    let mut num: i128 = base as i128;
    let mut den: i128 = 1;
    let ghost mut k: nat = 0;
    let mut i: usize = 0;
    while i < links.len()
        invariant
            parts_ok(parts@),
            parts_intact(parts@),
            links@.len() <= MAX_LINKS,
            forall|k: int| 0 <= k < links@.len() ==> #[trigger] link_ok(links@[k], parts@.len()),
            i <= links@.len(),
            k <= i,
            ab == if base >= 0 { base as int } else { -base },
            0 <= ab <= PARAM_LIMIT,
            num == base * prod_by(links@.subrange(0, i as int), f),
            den == prod_by(links@.subrange(0, i as int), g),
            den == p1000(k),
            -(ab * den) <= num <= ab * den,
            base >= 0 ==> num >= 0,
            f == factor_of(parts@, des, index as int),
            g == scale_of(des, index as int),
        decreases links@.len() - i,
    {
        let l = &links[i];
        proof {
            let pre = links@.subrange(0, i + 1);
            assert(pre.drop_last() =~= links@.subrange(0, i as int));
            assert(pre.last() == links@[i as int]);
            assert(link_ok(links@[i as int], parts@.len()));
            lemma_p1000_bound(k);
        }
        let t = targets_exec(l, des, index);
        assert(g(links@[i as int]) == if t { 1000int } else { 1int });
        assert(f(links@[i as int]) == if t { link_factor(parts@, links@[i as int]) } else { 1int });
        if t {
            let fac = link_factor_exec(parts, &l.src);
            proof {
                assert(k <= 7);
                assert(-(ab * (den * 1000)) <= num * fac <= ab * (den * 1000)
                    <= 1_000_000_000_000_000_000_000_000_000_000_000_000) by (nonlinear_arith)
                    requires
                        -(ab * den) <= num <= ab * den,
                        0 <= fac <= 1000,
                        0 <= ab <= 1_000_000_000_000,
                        1 <= den <= 1_000_000_000_000_000_000_000,
                ;
                assert(base >= 0 ==> num * fac >= 0) by (nonlinear_arith)
                    requires
                        base >= 0 ==> num >= 0,
                        fac >= 0,
                ;
                assert(base * prod_by(links@.subrange(0, i as int), f) * fac == base * (prod_by(
                    links@.subrange(0, i as int),
                    f,
                ) * fac)) by (nonlinear_arith);
            }
            num = num * fac as i128;
            den = den * 1000;
            proof {
                k = k + 1;
            }
        }
        i += 1;
    }
    assert(links@.subrange(0, links@.len() as int) =~= links@);
    proof {
        lemma_p1000_bound(k);
        assert(ab * den <= 1_000_000_000_000 * 1_000_000_000_000_000_000_000_000) by (nonlinear_arith)
            requires
                0 <= ab <= 1_000_000_000_000,
                0 <= den <= 1_000_000_000_000_000_000_000_000,
        ;
    }
    let r = div_toward_zero(num, den);
    proof {
        if num >= 0 {
            let nn = num as int;
            let dd = den as int;
            assert(nn / dd <= ab) by (nonlinear_arith)
                    requires
                    0 <= nn <= ab * dd,
                    dd >= 1,
            ;
        } else {
            let nn = -(num as int);
            let dd = den as int;
            assert(nn / dd <= ab) by (nonlinear_arith)
                    requires
                    0 <= nn <= ab * dd,
                    dd >= 1,
            ;
        }
    }
    r as i64
}


/// Each particle emitter's exhaust speed, reset and scaled by its links.
fn rescale_partical_emitters(ems: &mut Vec<ParticalEmitter>, parts: &Vec<Part>, links: &Vec<Damage>)
    requires
        parts_ok(parts@),
        parts_intact(parts@),
        links@.len() <= MAX_LINKS,
        forall|k: int| 0 <= k < links@.len() ==> #[trigger] link_ok(links@[k], parts@.len()),
        forall|k: int| 0 <= k < old(ems)@.len() ==> param_ok(#[trigger] old(ems)@[k].speed_orginal),
    ensures
        final(ems)@.len() == old(ems)@.len(),
        forall|k: int| 0 <= k < old(ems)@.len() ==> #[trigger] final(ems)@[k] == (ParticalEmitter {
            speed: scaled(old(ems)@[k].speed_orginal as int, parts@, links@, PartMod::Partical, k) as i64,
            ..old(ems)@[k]
        }),
        forall|k: int| 0 <= k < old(ems)@.len() ==> param_ok(#[trigger] final(ems)@[k].speed),
{
    let n = ems.len();
    let mut i: usize = 0;
    while i < n
        invariant
            n == ems@.len(),
            n == old(ems)@.len(),
            i <= n,
            parts_ok(parts@),
            parts_intact(parts@),
            links@.len() <= MAX_LINKS,
            forall|k: int| 0 <= k < links@.len() ==> #[trigger] link_ok(links@[k], parts@.len()),
            forall|k: int| 0 <= k < n ==> param_ok(#[trigger] old(ems)@[k].speed_orginal),
            forall|k: int| 0 <= k < i ==> #[trigger] ems@[k] == (ParticalEmitter {
                speed: scaled(old(ems)@[k].speed_orginal as int, parts@, links@, PartMod::Partical, k) as i64,
                ..old(ems)@[k]
            }),
            forall|k: int| 0 <= k < i ==> param_ok(#[trigger] ems@[k].speed),
            forall|k: int| i <= k < n ==> #[trigger] ems@[k] == old(ems)@[k],
        decreases n - i,
    {
        assert(param_ok(old(ems)@[i as int].speed_orginal));
        let s = scaled_param(ems[i].speed_orginal, parts, links, PartMod::Partical, i);
        ems[i].speed = s;
        i += 1;
    }
}

/// Each gun's interval, reset and scaled by its links.
fn rescale_bullet_emitters(ems: &mut Vec<BulletEmitter>, parts: &Vec<Part>, links: &Vec<Damage>)
    requires
        parts_ok(parts@),
        parts_intact(parts@),
        links@.len() <= MAX_LINKS,
        forall|k: int| 0 <= k < links@.len() ==> #[trigger] link_ok(links@[k], parts@.len()),
        forall|k: int| 0 <= k < old(ems)@.len() ==> #[trigger] old(ems)@[k].ok(),
    ensures
        final(ems)@.len() == old(ems)@.len(),
        forall|k: int| 0 <= k < old(ems)@.len() ==> #[trigger] final(ems)@[k] == (BulletEmitter {
            bullet_interval: scaled(
                old(ems)@[k].bullet_interval_orginal as int,
                parts@,
                links@,
                PartMod::Gun,
                k,
            ) as u64,
            ..old(ems)@[k]
        }),
        forall|k: int| 0 <= k < old(ems)@.len() ==> #[trigger] final(ems)@[k].ok(),
{
    let n = ems.len();
    let mut i: usize = 0;
    while i < n
        invariant
            n == ems@.len(),
            n == old(ems)@.len(),
            i <= n,
            parts_ok(parts@),
            parts_intact(parts@),
            links@.len() <= MAX_LINKS,
            forall|k: int| 0 <= k < links@.len() ==> #[trigger] link_ok(links@[k], parts@.len()),
            forall|k: int| 0 <= k < n ==> #[trigger] old(ems)@[k].ok(),
            forall|k: int| 0 <= k < i ==> #[trigger] ems@[k] == (BulletEmitter {
                bullet_interval: scaled(
                    old(ems)@[k].bullet_interval_orginal as int,
                    parts@,
                    links@,
                    PartMod::Gun,
                    k,
                ) as u64,
                ..old(ems)@[k]
            }),
            forall|k: int| 0 <= k < i ==> #[trigger] ems@[k].ok(),
            forall|k: int| i <= k < n ==> #[trigger] ems@[k] == old(ems)@[k],
        decreases n - i,
    {
        assert(old(ems)@[i as int].ok());
        let base = ems[i].bullet_interval_orginal;
        let s = scaled_param(base as i64, parts, links, PartMod::Gun, i);
        ems[i].bullet_interval = s as u64;
        i += 1;
    }
}

/// Resets the ship's parameters to their undamaged values and scales each
/// by the damage links that target it: speed, both turn rates, each
/// emitter's exhaust speed and each gun's interval.
pub fn apply_damage(player: &mut Player)
    requires
        old(player).ok(),
        parts_intact(old(player).parts@),
    ensures
        final(player).ok(),
        final(player).speed == scaled(
            old(player).speed_original as int,
            old(player).parts@,
            old(player).damage@,
            PartMod::Speed,
            0,
        ),
        final(player).left_turn == scaled(
            old(player).left_turn_original as int,
            old(player).parts@,
            old(player).damage@,
            PartMod::TurnLeft,
            0,
        ),
        final(player).right_turn == scaled(
            old(player).right_turn_original as int,
            old(player).parts@,
            old(player).damage@,
            PartMod::TurnRight,
            0,
        ),
        final(player).partical_emmiters@.len() == old(player).partical_emmiters@.len(),
        forall|k: int| 0 <= k < old(player).partical_emmiters@.len() ==> #[trigger] final(player).partical_emmiters@[k]
            == (ParticalEmitter {
            speed: scaled(
                old(player).partical_emmiters@[k].speed_orginal as int,
                old(player).parts@,
                old(player).damage@,
                PartMod::Partical,
                k,
            ) as i64,
            ..old(player).partical_emmiters@[k]
        }),
        final(player).bullet_emmiters@.len() == old(player).bullet_emmiters@.len(),
        forall|k: int| 0 <= k < old(player).bullet_emmiters@.len() ==> #[trigger] final(player).bullet_emmiters@[k]
            == (BulletEmitter {
            bullet_interval: scaled(
                old(player).bullet_emmiters@[k].bullet_interval_orginal as int,
                old(player).parts@,
                old(player).damage@,
                PartMod::Gun,
                k,
            ) as u64,
            ..old(player).bullet_emmiters@[k]
        }),
        final(player).pos == old(player).pos,
        final(player).vel == old(player).vel,
        final(player).dir == old(player).dir,
        final(player).parts@ == old(player).parts@,
        final(player).damage@ == old(player).damage@,
        final(player).speed_original == old(player).speed_original,
        final(player).left_turn_original == old(player).left_turn_original,
        final(player).right_turn_original == old(player).right_turn_original,
{
    proof {
        assert forall|k: int| 0 <= k < player.damage@.len() implies #[trigger] link_ok(player.damage@[k], player.parts@.len()) by {
            assert(player.link_in_range(player.damage@[k]));
        }
    }
    player.speed = scaled_param(player.speed_original, &player.parts, &player.damage, PartMod::Speed, 0);
    player.left_turn = scaled_param(
        player.left_turn_original,
        &player.parts,
        &player.damage,
        PartMod::TurnLeft,
        0,
    );
    player.right_turn = scaled_param(
        player.right_turn_original,
        &player.parts,
        &player.damage,
        PartMod::TurnRight,
        0,
    );
    rescale_partical_emitters(&mut player.partical_emmiters, &player.parts, &player.damage);
    rescale_bullet_emitters(&mut player.bullet_emmiters, &player.parts, &player.damage);
    proof {
        assert forall|k: int| 0 <= k < player.partical_emmiters@.len() implies #[trigger] player.partical_emmiters@[k].ok() by {
            assert(old(player).partical_emmiters@[k].ok());
        }
        assert forall|k: int| 0 <= k < player.partical_emmiters@.len() implies param_ok(#[trigger] player.partical_emmiters@[k].speed_orginal) by {
            assert(param_ok(old(player).partical_emmiters@[k].speed_orginal));
        }
        assert forall|k: int| 0 <= k < player.damage@.len() implies #[trigger] player.link_in_range(player.damage@[k]) by {
            assert(old(player).link_in_range(old(player).damage@[k]));
        }
    }
}


/// The ship's turn this tick, in thousandths of a degree: the left key turns
/// it by `-left_turn * dt`, the right key by `+right_turn * dt`.
pub open spec fn steer_spec(left: bool, right: bool, left_turn: int, right_turn: int, dt: int) -> int {
    (if left {
        -trunc_div(left_turn * dt, ONE as int)
    } else {
        0
    }) + (if right {
        trunc_div(right_turn * dt, ONE as int)
    } else {
        0
    })
}

pub fn steer(left: bool, right: bool, left_turn: i64, right_turn: i64, dt: u64) -> (r: i64)
    requires
        param_ok(left_turn),
        param_ok(right_turn),
        dt <= crate::fixed::DT_LIMIT,
    ensures
        r == steer_spec(left, right, left_turn as int, right_turn as int, dt as int),
{
    assert(-1_000_000_000_000_000_000_000 <= left_turn * dt <= 1_000_000_000_000_000_000_000) by (nonlinear_arith)
        requires
            param_ok(left_turn),
            0 <= dt <= 1_000_000_000,
    ;
    assert(-1_000_000_000_000_000_000_000 <= right_turn * dt <= 1_000_000_000_000_000_000_000) by (nonlinear_arith)
        requires
            param_ok(right_turn),
            0 <= dt <= 1_000_000_000,
    ;
    let mut a: i128 = 0;
    if left {
        a = a - div_toward_zero(left_turn as i128 * dt as i128, 1000);
    }
    if right {
        a = a + div_toward_zero(right_turn as i128 * dt as i128, 1000);
    }
    a as i64
}

/// Whether `target` lies within the gun window ahead of a ship at `pos`
/// facing `dir`: the cosine of the angle off the nose exceeds 0.75.
pub open spec fn in_fire_window(pos: Vec2, dir: Vec2, target: Vec2) -> bool {
    let dot = dir.x * (target.x - pos.x) + dir.y * (target.y - pos.y);
    dot > 0 && 16 * dot * dot > 9_000_000 * pos.dist_sq(target)
}

/// The player's fire gate: some enemy lies in the gun window.
pub open spec fn player_may_fire(pos: Vec2, dir: Vec2, es: Seq<Enemy>) -> bool {
    exists|i: int| 0 <= i < es.len() && in_fire_window(pos, dir, #[trigger] es[i].pos)
}

fn in_window(pos: Vec2, dir: Vec2, target: Vec2) -> (r: bool)
    requires
        pos.ok(),
        dir_ok(dir),
        target.ok(),
    ensures
        r == in_fire_window(pos, dir, target),
{
    let dx: i128 = target.x as i128 - pos.x as i128;
    let dy: i128 = target.y as i128 - pos.y as i128;
    assert(-2_000_000_000_000_000_000 <= dir.x * dx <= 2_000_000_000_000_000_000) by (nonlinear_arith)
        requires
            -1000 <= dir.x <= 1000,
            -2_000_000_000_000_000 <= dx <= 2_000_000_000_000_000,
    ;
    assert(-2_000_000_000_000_000_000 <= dir.y * dy <= 2_000_000_000_000_000_000) by (nonlinear_arith)
        requires
            -1000 <= dir.y <= 1000,
            -2_000_000_000_000_000 <= dy <= 2_000_000_000_000_000,
    ;
    let dot: i128 = dir.x as i128 * dx + dir.y as i128 * dy;
    if dot <= 0 {
        return false;
    }
    let d: u128 = dot as u128;
    assert(16 * d * d <= 16 * 4_000_000_000_000_000_000 * 4_000_000_000_000_000_000) by (nonlinear_arith)
        requires
            0 < d <= 4_000_000_000_000_000_000,
    ;
    assert(0 <= dx * dx <= 4_000_000_000_000_000_000_000_000_000_000) by (nonlinear_arith)
        requires
            -2_000_000_000_000_000 <= dx <= 2_000_000_000_000_000,
    ;
    assert(0 <= dy * dy <= 4_000_000_000_000_000_000_000_000_000_000) by (nonlinear_arith)
        requires
            -2_000_000_000_000_000 <= dy <= 2_000_000_000_000_000,
    ;
    let sq: u128 = (dx * dx) as u128 + (dy * dy) as u128;
    assert(sq == pos.dist_sq(target)) by (nonlinear_arith)
        requires
            sq == dx * dx + dy * dy,
            dx == target.x - pos.x,
            dy == target.y - pos.y,
    ;
    16 * d * d > 9_000_000 * sq
}

/// The player's fire gate over the enemies present.
pub fn player_fire_gate(pos: Vec2, dir: Vec2, enemies: &Vec<Enemy>) -> (r: bool)
    requires
        pos.ok(),
        dir_ok(dir),
        crate::enemies::enemies_ok(enemies@),
    ensures
        r == player_may_fire(pos, dir, enemies@),
{
    let mut i: usize = 0;
    while i < enemies.len()
        invariant
            i <= enemies@.len(),
            pos.ok(),
            dir_ok(dir),
            crate::enemies::enemies_ok(enemies@),
            forall|k: int| 0 <= k < i ==> !in_fire_window(pos, dir, #[trigger] enemies@[k].pos),
        decreases enemies@.len() - i,
    {
        assert(enemies@[i as int].ok());
        if in_window(pos, dir, enemies[i].pos) {
            return true;
        }
        i += 1;
    }
    false
}

/// Restores every part to its starting health.
pub fn repair(parts: &mut Vec<Part>)
    requires
        parts_ok(old(parts)@),
    ensures
        final(parts)@.len() == old(parts)@.len(),
        forall|k: int| 0 <= k < old(parts)@.len() ==> #[trigger] final(parts)@[k] == (Part {
            health: old(parts)@[k].starting_health,
            ..old(parts)@[k]
        }),
        parts_ok(final(parts)@),
        parts_intact(final(parts)@),
{
    let n = parts.len();
    let mut i: usize = 0;
    while i < n
        invariant
            n == parts@.len(),
            n == old(parts)@.len(),
            i <= n,
            parts_ok(old(parts)@),
            forall|k: int| 0 <= k < i ==> #[trigger] parts@[k] == (Part {
                health: old(parts)@[k].starting_health,
                ..old(parts)@[k]
            }),
            forall|k: int| i <= k < n ==> #[trigger] parts@[k] == old(parts)@[k],
        decreases n - i,
    {
        let s = parts[i].starting_health;
        parts[i].health = s;
        i += 1;
    }
    assert forall|k: int| 0 <= k < n implies #[trigger] parts@[k].ok() by {
        assert(old(parts)@[k].ok());
    }
    assert forall|k: int| 0 <= k < n implies #[trigger] parts@[k].intact() by {
        assert(old(parts)@[k].ok());
    }
}


/// Whether every part's health lies within `[0, starting_health]`, which
/// `apply_damage` needs.
pub fn all_parts_intact(parts: &Vec<Part>) -> (r: bool)
    ensures
        r == parts_intact(parts@),
{
    let mut i: usize = 0;
    while i < parts.len()
        invariant
            i <= parts@.len(),
            forall|k: int| 0 <= k < i ==> #[trigger] parts@[k].intact(),
        decreases parts@.len() - i,
    {
        if parts[i].health < 0 || parts[i].health > parts[i].starting_health {
            assert(!parts@[i as int].intact());
            return false;
        }
        i += 1;
    }
    true
}

} // verus!
