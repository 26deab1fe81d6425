//! The particle pool and particle explosions.
use vstd::prelude::*;
use crate::color::{Color, colorlerp, colorlerp_spec};
use crate::fixed::{advance, advance_spec, Vec2, DT_LIMIT, ONE};

verus! {

#[derive(Clone, Copy, Debug, PartialEq, Eq, Structural)]
pub enum ParticalShape {
    Square,
    Circle,
    RotSquare,
}

/// A short-lived colored particle; `time` is its age and `duration` its
/// lifetime, both in milliseconds.
#[derive(Clone, Copy, Debug, PartialEq, Eq, Structural)]
pub struct Partical {
    pub pos: Vec2,
    pub vel: Vec2,
    pub size: i64,
    pub shape: ParticalShape,
    pub starting_color: Color,
    pub ending_color: Color,
    pub duration: u64,
    pub time: u64,
}

impl Partical {
    pub open spec fn ok(self) -> bool {
        self.pos.ok() && self.vel.ok()
    }

    pub open spec fn alive(self) -> bool {
        self.time < self.duration
    }

    /// The particle after `dt` milliseconds.
    pub open spec fn stepped(self, dt: int) -> Partical {
        Partical {
            pos: advance_spec(self.pos, self.vel, dt),
            time: sat_add(self.time as int, dt) as u64,
            ..self
        }
    }
}

/// `a + b`, saturated at the largest `u64`.
pub open spec fn sat_add(a: int, b: int) -> int {
    if a + b > u64::MAX {
        u64::MAX as int
    } else {
        a + b
    }
}

pub open spec fn all_ok(ps: Seq<Partical>) -> bool {
    forall|i: int| 0 <= i < ps.len() ==> #[trigger] ps[i].ok()
}

/// Advances every particle by `dt` milliseconds: it moves along its velocity
/// and ages.
pub fn update_particals(particals: &mut Vec<Partical>, dt: u64)
    requires
        all_ok(old(particals)@),
        dt <= DT_LIMIT,
    ensures
        final(particals)@.len() == old(particals)@.len(),
        forall|i: int|
            0 <= i < old(particals)@.len() ==> #[trigger] final(particals)@[i]
                == old(particals)@[i].stepped(dt as int),
        all_ok(final(particals)@),
{
    let n = particals.len();
    let mut i: usize = 0;
    while i < n
        invariant
            particals@.len() == n,
            n == old(particals)@.len(),
            dt <= DT_LIMIT,
            all_ok(old(particals)@),
            forall|j: int| 0 <= j < i ==> #[trigger] particals@[j] == old(particals)@[j].stepped(dt as int),
            forall|j: int| i <= j < n ==> #[trigger] particals@[j] == old(particals)@[j],
            all_ok(particals@),
        decreases n - i,
    {
        let mut p = particals[i];
        assert(particals@[i as int].ok());
        p.pos = advance(p.pos, p.vel, dt);
        p.time = p.time.saturating_add(dt);
        particals.set(i, p);
        assert(particals@[i as int].ok());
        i += 1;
    }
}

/// Drops every particle whose age has reached its lifetime, keeping the order
/// of the rest.
pub fn retain_particals(particals: &mut Vec<Partical>)
    ensures
        final(particals)@ == old(particals)@.filter(|p: Partical| p.alive()),
        forall|i: int| 0 <= i < final(particals)@.len() ==> #[trigger] final(particals)@[i].alive(),
{
    let mut kept: Vec<Partical> = Vec::new();
    let mut i: usize = 0;
    while i < particals.len()
        invariant
            particals@ == old(particals)@,
            0 <= i <= particals@.len(),
            kept@ == particals@.subrange(0, i as int).filter(|p: Partical| p.alive()),
        decreases particals@.len() - i,
    {
        let p = particals[i];
        proof {
            assert(particals@.subrange(0, i + 1) == particals@.subrange(0, i as int).push(p));
            particals@.subrange(0, i as int).lemma_filter_push(p, |p: Partical| p.alive());
        }
        if p.time < p.duration {
            kept.push(p);
        }
        i += 1;
    }
    assert(particals@.subrange(0, particals@.len() as int) == particals@);
    proof {
        broadcast use vstd::seq_lib::group_filter_ensures;

        assert(forall|i: int| 0 <= i < kept@.len() ==> #[trigger] kept@[i].alive());
    }
    *particals = kept;
}

/// A tick with `dt = 0` leaves a particle where it is, with its velocity and
/// age.
pub proof fn lemma_partical_still(p: Partical)
    requires
        p.ok(),
    ensures
        p.stepped(0) == p,
{
}

/// The color a live particle shows: its start color faded toward its end
/// color by the share of its lifetime that has passed.
pub fn partical_color(p: &Partical) -> (c: Color)
    requires
        p.alive(),
    ensures
        c == colorlerp_spec(p.starting_color, p.ending_color, p.time * (ONE as int) / (p.duration as int)),
{
    let t: u128 = (p.time as u128) * 1000 / (p.duration as u128);
    assert(t <= 1000) by (nonlinear_arith)
        requires
            t == (p.time as int) * 1000 / (p.duration as int),
            p.time < p.duration,
    ;
    colorlerp(p.starting_color, p.ending_color, t as i64)
}

/// A burst of `amount` square particles of size 5 from `pos`, each moving at
/// `vel` plus a random kick whose length lies in `[force_min, force_max)`.
#[derive(Clone, Copy, Debug, PartialEq, Eq, Structural)]
pub struct Explosion {
    pub pos: Vec2,
    pub vel: Vec2,
    pub force_min: i64,
    pub force_max: i64,
    pub amount: usize,
    pub start_color: Color,
    pub ending_color: Color,
    pub duration: u64,
}

/// Size of an explosion particle.
pub const EXPLOSION_PARTICAL_SIZE: i64 = 5000;

pub open spec fn clamp_sum(a: i64, b: i64) -> i64 {
    crate::fixed::clamp_coord(a + b) as i64
}

/// The particle that an explosion releases with the given kick.
pub open spec fn explosion_partical(e: Explosion, kick: Vec2) -> Partical {
    Partical {
        pos: e.pos,
        vel: Vec2 { x: clamp_sum(e.vel.x, kick.x), y: clamp_sum(e.vel.y, kick.y) },
        size: EXPLOSION_PARTICAL_SIZE,
        shape: ParticalShape::Square,
        starting_color: e.start_color,
        ending_color: e.ending_color,
        duration: e.duration,
        time: 0,
    }
}

fn clamped_sum(a: i64, b: i64) -> (r: i64)
    requires
        crate::fixed::coord_ok(a),
        crate::fixed::coord_ok(b),
    ensures
        r == clamp_sum(a, b),
        crate::fixed::coord_ok(r),
{
    let s: i64 = a + b;
    if s > crate::fixed::COORD_LIMIT {
        crate::fixed::COORD_LIMIT
    } else if s < -crate::fixed::COORD_LIMIT {
        -crate::fixed::COORD_LIMIT
    } else {
        s
    }
}

/// Appends one particle per kick of `kicks`, in order: the explosion's
/// particles, with the random kicks drawn by the caller.
pub fn particalexplosion(particals: &mut Vec<Partical>, e: &Explosion, kicks: &Vec<Vec2>)
    requires
        e.pos.ok(),
        e.vel.ok(),
        kicks@.len() == e.amount,
        forall|i: int| 0 <= i < kicks@.len() ==> #[trigger] kicks@[i].ok(),
    ensures
        final(particals)@ == old(particals)@ + Seq::new(
            e.amount as nat,
            |i: int| explosion_partical(*e, kicks@[i]),
        ),
{
    let ghost start = particals@;
    let mut i: usize = 0;
    while i < kicks.len()
        invariant
            0 <= i <= kicks@.len(),
            kicks@.len() == e.amount,
            e.pos.ok(),
            e.vel.ok(),
            forall|j: int| 0 <= j < kicks@.len() ==> #[trigger] kicks@[j].ok(),
            particals@ == start + Seq::new(i as nat, |j: int| explosion_partical(*e, kicks@[j])),
        decreases kicks@.len() - i,
    {
        let k = kicks[i];
        assert(kicks@[i as int].ok());
        let p = Partical {
            pos: e.pos,
            vel: Vec2 { x: clamped_sum(e.vel.x, k.x), y: clamped_sum(e.vel.y, k.y) },
            size: EXPLOSION_PARTICAL_SIZE,
            shape: ParticalShape::Square,
            starting_color: e.start_color,
            ending_color: e.ending_color,
            duration: e.duration,
            time: 0,
        };
        particals.push(p);
        i += 1;
        assert(particals@ =~= start + Seq::new(i as nat, |j: int| explosion_partical(*e, kicks@[j])));
    }
}

/// The explosion of a dying enemy: 500 yellow particles fading to red over
/// 0.3 s, kicked up to 300 units per second.
pub open spec fn enemy_dies_spec(pos: Vec2, vel: Vec2) -> Explosion {
    Explosion {
        pos,
        vel,
        force_min: 0,
        force_max: 300_000,
        amount: 500,
        start_color: Color { r: 200, g: 200, b: 50, a: 255 },
        ending_color: Color { r: 255, g: 0, b: 0, a: 100 },
        duration: 300,
    }
}

/// The explosion of a dying enemy at `pos` moving at `vel`.
pub fn enemy_dies(pos: Vec2, vel: Vec2) -> (e: Explosion)
    ensures
        e == enemy_dies_spec(pos, vel),
{
    Explosion {
        pos,
        vel,
        force_min: 0,
        force_max: 300_000,
        amount: 500,
        start_color: Color { r: 200, g: 200, b: 50, a: 255 },
        ending_color: Color { r: 255, g: 0, b: 0, a: 100 },
        duration: 300,
    }
}

} // verus!
