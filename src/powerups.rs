//! Power-ups lying in the world, picked up by touching a part of the ship.
use vstd::prelude::*;
use crate::fixed::{clamp_coord, closer, closer_than, dir_ok, Vec2, COORD_LIMIT};
use crate::player::{parts_intact, parts_ok, repair, Part, Player};
use crate::rng::random_below;

verus! {

#[derive(Clone, Copy, Debug, PartialEq, Eq, Structural)]
pub enum PowerUpType {
    /// Reserved: picking it up has no effect.
    Shield,
    /// Restores every part; the power-up then moves away from the player.
    Repair,
}

/// A power-up; the host keeps its texture.
#[derive(Clone, Copy, Debug, PartialEq, Eq, Structural)]
pub struct PowerUp {
    pub pos: Vec2,
    pub power_type: PowerUpType,
}

/// Extra reach of a power-up beyond a part's radius, in thousandths.
pub const PICKUP_RADIUS: i64 = 16_000;

/// Nearest and farthest (exclusive) distance of a relocated power-up.
pub const RELOCATE_MIN: u64 = 2_000_000;

pub const RELOCATE_MAX: u64 = 2_500_000;

pub open spec fn picks_up(p: Part, pos: Vec2) -> bool {
    closer_than(p.pos, pos, p.size + PICKUP_RADIUS)
}

pub open spec fn any_picks_up(ps: Seq<Part>, pos: Vec2) -> bool {
    exists|k: int| 0 <= k < ps.len() && #[trigger] picks_up(ps[k], pos)
}

/// `distance` (thousandths) from the player along `heading`.
pub open spec fn relocated(player_pos: Vec2, heading: Vec2, distance: int) -> Vec2 {
    Vec2 {
        x: clamp_coord(player_pos.x + heading.x * distance / 1000) as i64,
        y: clamp_coord(player_pos.y + heading.y * distance / 1000) as i64,
    }
}

fn place(player_pos: Vec2, heading: Vec2, distance: u64) -> (r: Vec2)
    requires
        player_pos.ok(),
        dir_ok(heading),
        distance < RELOCATE_MAX,
    ensures
        r == relocated(player_pos, heading, distance as int),
        r.ok(),
{
    assert(-2_500_000_000 <= heading.x * distance <= 2_500_000_000) by (nonlinear_arith)
        requires
            -1000 <= heading.x <= 1000,
            0 <= distance < 2_500_000,
    ;
    assert(-2_500_000_000 <= heading.y * distance <= 2_500_000_000) by (nonlinear_arith)
        requires
            -1000 <= heading.y <= 1000,
            0 <= distance < 2_500_000,
    ;
    let ox: i64 = floor_div_1000(heading.x * distance as i64);
    let oy: i64 = floor_div_1000(heading.y * distance as i64);
    Vec2 { x: clamp(player_pos.x + ox), y: clamp(player_pos.y + oy) }
}

fn floor_div_1000(v: i64) -> (r: i64)
    requires
        -2_500_000_000 <= v <= 2_500_000_000,
    ensures
        r == v / 1000,
{
    if v >= 0 {
        v / 1000
    } else {
        let q: i64 = (-v) / 1000;
        let r: i64 = (-v) % 1000;
        if r == 0 {
            -q
        } else {
            proof {
                vstd::arithmetic::div_mod::lemma_fundamental_div_mod(-v as int, 1000);
                vstd::arithmetic::div_mod::lemma_fundamental_div_mod_converse(v as int, 1000, -q - 1, 1000 - r);
            }
            -q - 1
        }
    }
}

fn clamp(v: i64) -> (r: i64)
    ensures
        r == clamp_coord(v as int),
{
    if v > COORD_LIMIT {
        COORD_LIMIT
    } else if v < -COORD_LIMIT {
        -COORD_LIMIT
    } else {
        v
    }
}

/// Resolves one power-up against the player's parts, in order: each part
/// that touches it triggers it. A Repair restores every part and moves the
/// power-up to a random distance in `[RELOCATE_MIN, RELOCATE_MAX)` from the
/// player along `heading`; a Shield does nothing. Returns whether it was
/// triggered.
pub fn power_ups_update(pu: &mut PowerUp, player: &mut Player, heading: Vec2) -> (picked: bool)
    requires
        old(pu).pos.ok(),
        old(player).pos.ok(),
        parts_ok(old(player).parts@),
        dir_ok(heading),
    ensures
        picked == any_picks_up(old(player).parts@, old(pu).pos),
        !picked ==> *final(pu) == *old(pu) && final(player).parts@ == old(player).parts@,
        picked && old(pu).power_type == PowerUpType::Repair ==> {
            &&& parts_intact(final(player).parts@)
            &&& forall|k: int| 0 <= k < final(player).parts@.len() ==> #[trigger] final(player).parts@[k].health
                == final(player).parts@[k].starting_health
            &&& exists|d: int| RELOCATE_MIN <= d < RELOCATE_MAX && final(pu).pos == relocated(old(player).pos, heading, d)
        },
        old(pu).power_type == PowerUpType::Shield ==> *final(pu) == *old(pu) && final(player).parts@
            == old(player).parts@,
        final(pu).power_type == old(pu).power_type,
        final(pu).pos.ok(),
        parts_ok(final(player).parts@),
        final(player).parts@.len() == old(player).parts@.len(),
        forall|k: int| 0 <= k < old(player).parts@.len() ==> {
            &&& #[trigger] final(player).parts@[k].pos == old(player).parts@[k].pos
            &&& final(player).parts@[k].size == old(player).parts@[k].size
            &&& final(player).parts@[k].starting_health == old(player).parts@[k].starting_health
        },
        (Player { parts: old(player).parts, ..*final(player) }) == *old(player),
{
    let n = player.parts.len();
    let mut picked = false;
    let mut i: usize = 0;
    while i < n
        invariant
            n == player.parts@.len(),
            n == old(player).parts@.len(),
            i <= n,
            pu.pos.ok(),
            player.pos == old(player).pos,
            old(player).pos.ok(),
            dir_ok(heading),
            parts_ok(player.parts@),
            pu.power_type == old(pu).power_type,
            (Player { parts: old(player).parts, ..*player }) == *old(player),
            forall|k: int| 0 <= k < n ==> {
                &&& #[trigger] player.parts@[k].pos == old(player).parts@[k].pos
                &&& player.parts@[k].size == old(player).parts@[k].size
                &&& player.parts@[k].starting_health == old(player).parts@[k].starting_health
            },
            !picked ==> *pu == *old(pu) && player.parts@ == old(player).parts@,
            !picked ==> forall|k: int| 0 <= k < i ==> !#[trigger] picks_up(old(player).parts@[k], old(pu).pos),
            picked ==> any_picks_up(old(player).parts@, old(pu).pos),
            picked && old(pu).power_type == PowerUpType::Repair ==> {
                &&& parts_intact(player.parts@)
                &&& forall|k: int| 0 <= k < n ==> #[trigger] player.parts@[k].health
                    == player.parts@[k].starting_health
                &&& exists|d: int| RELOCATE_MIN <= d < RELOCATE_MAX && pu.pos == relocated(old(player).pos, heading, d)
            },
            old(pu).power_type == PowerUpType::Shield ==> *pu == *old(pu) && player.parts@ == old(player).parts@,
        decreases n - i,
    {
        assert(player.parts@[i as int].ok());
        let r = player.parts[i].size + PICKUP_RADIUS;
        if closer(player.parts[i].pos, pu.pos, r) {
            if !picked {
                assert(picks_up(old(player).parts@[i as int], old(pu).pos));
            }
            picked = true;
            match pu.power_type {
                PowerUpType::Repair => {
                    repair(&mut player.parts);
                    let d = random_below(RELOCATE_MAX - RELOCATE_MIN) + RELOCATE_MIN;
                    pu.pos = place(player.pos, heading, d);
                },
                PowerUpType::Shield => {},
            }
        }
        i += 1;
    }
    picked
}

} // verus!
