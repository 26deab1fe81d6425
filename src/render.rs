//! What the draw pass reads from the state: screen rectangles, colors and
//! the star field's tiles. The host draws them.
use vstd::prelude::*;
use crate::bullets::Bullet;
use crate::color::{colorlerp, colorlerp_spec, Color};
use crate::fixed::{to_screen, to_screen_spec, Vec2, ONE};
use crate::player::Part;

verus! {

/// A bullet as drawn: its screen position (thousandths of a pixel), its
/// width and length, which shrink with its age, and its color.
#[derive(Clone, Copy, Debug, PartialEq, Eq, Structural)]
pub struct BulletSprite {
    pub pos: Vec2,
    pub width: i64,
    pub length: i64,
    pub color: Color,
}

pub open spec fn bullet_sprite_spec(b: Bullet, view: Vec2, w: i64, h: i64) -> BulletSprite {
    let scale = ONE - b.time * ONE / (b.duration as int);
    BulletSprite {
        pos: to_screen_spec(b.pos, view, w, h),
        width: (b.size * scale / (ONE as int)) as i64,
        length: (b.size * 2 * scale / (ONE as int)) as i64,
        color: if b.friendly {
            Color { r: 0, g: 228, b: 48, a: 255 }
        } else {
            Color { r: 230, g: 41, b: 55, a: 255 }
        },
    }
}

/// How a live bullet is drawn for a viewer at `view` on a `w` by `h`
/// screen: friendly ones green, hostile ones red.
pub fn bullet_sprite(b: &Bullet, view: Vec2, w: i32, h: i32) -> (s: BulletSprite)
    requires
        b.ok(),
        b.alive(),
        view.ok(),
        w >= 0,
        h >= 0,
    ensures
        s == bullet_sprite_spec(*b, view, w as i64, h as i64),
{
    let t: u128 = b.time as u128 * 1000 / b.duration as u128;
    assert(t <= 1000) by (nonlinear_arith)
        requires
            t == (b.time as int) * 1000 / (b.duration as int),
            b.time < b.duration,
    ;
    let scale: i64 = 1000 - t as i64;
    assert(0 <= b.size * scale <= 1_000_000_000_000 * 1000) by (nonlinear_arith)
        requires
            0 <= b.size <= 1_000_000_000_000,
            0 <= scale <= 1000,
    ;
    assert(0 <= b.size * 2 * scale <= 2_000_000_000_000 * 1000) by (nonlinear_arith)
        requires
            0 <= b.size <= 1_000_000_000_000,
            0 <= scale <= 1000,
    ;
    let color = if b.friendly {
        Color { r: 0, g: 228, b: 48, a: 255 }
    } else {
        Color { r: 230, g: 41, b: 55, a: 255 }
    };
    BulletSprite {
        pos: to_screen(b.pos, view, w, h),
        width: b.size * scale / 1000,
        length: b.size * 2 * scale / 1000,
        color,
    }
}

/// The share of its health a part has lost, in thousandths (capped at the
/// largest `i64`).
pub open spec fn health_lost(p: Part) -> int {
    let t = ONE - crate::fixed::trunc_div(p.health * ONE, p.starting_health as int);
    if t > i64::MAX {
        i64::MAX as int
    } else {
        t
    }
}

/// The debug color of a part: green when whole, shading to blue as it loses
/// health.
pub open spec fn part_debug_color_spec(p: Part) -> Color {
    colorlerp_spec(Color { r: 0, g: 228, b: 48, a: 255 }, Color { r: 0, g: 121, b: 241, a: 255 }, health_lost(p))
}

pub fn part_debug_color(p: &Part) -> (c: Color)
    requires
        p.ok(),
    ensures
        c == part_debug_color_spec(*p),
{
    let q = crate::fixed::div_toward_zero(p.health as i128 * 1000, p.starting_health as i128);
    assert(q <= 1000) by (nonlinear_arith)
        requires
            q == crate::fixed::trunc_div(p.health * 1000, p.starting_health as int),
            p.health <= p.starting_health,
            p.starting_health > 0,
    ;
    assert(q >= -0x8000_0000_0000_0000i128 * 1000) by (nonlinear_arith)
        requires
            q == crate::fixed::trunc_div(p.health * 1000, p.starting_health as int),
            p.health >= -0x8000_0000_0000_0000i128,
            p.starting_health >= 1,
    ;
    let t: i128 = 1000 - q;
    let tt: i64 = if t > 0x7fff_ffff_ffff_ffff {
        0x7fff_ffff_ffff_ffff
    } else {
        t as i64
    };
    colorlerp(
        Color { r: 0, g: 228, b: 48, a: 255 },
        Color { r: 0, g: 121, b: 241, a: 255 },
        tt,
    )
}


/// Side of a star-field tile, in pixels and world units.
pub const TILE: i64 = 15;

/// One tile of the star field: where it is drawn (thousandths of a pixel),
/// the world tile it shows and the seed that decides its star.
#[derive(Clone, Copy, Debug, PartialEq, Eq, Structural)]
pub struct StarTile {
    pub screen: Vec2,
    pub world_x: i64,
    pub world_y: i64,
    pub seed: u64,
}

/// Remainder with the sign of the dividend, as for floats.
pub open spec fn trunc_rem(a: int, b: int) -> int {
    a - crate::fixed::trunc_div(a, b) * b
}

/// Seed of world tile `(wx, wy)`: their product plus one, wrapped to 64 bits.
pub open spec fn tile_seed(wx: int, wy: int) -> int {
    (wx * wy + 1) % 0x1_0000_0000_0000_0000
}

/// The tile at grid position `(x, y)` for a viewer at `view`.
pub open spec fn tile_spec(x: int, y: int, view: Vec2) -> StarTile {
    let wx = x + crate::fixed::trunc_div(crate::fixed::trunc_div(view.x as int, ONE as int), TILE as int);
    let wy = y + crate::fixed::trunc_div(crate::fixed::trunc_div(view.y as int, ONE as int), TILE as int);
    StarTile {
        screen: Vec2 {
            x: (x * TILE * ONE - trunc_rem(view.x as int, TILE * ONE)) as i64,
            y: (y * TILE * ONE - trunc_rem(view.y as int, TILE * ONE)) as i64,
        },
        world_x: wx as i64,
        world_y: wy as i64,
        seed: tile_seed(wx, wy) as u64,
    }
}

fn seed_of(wx: i64, wy: i64) -> (r: u64)
    requires
        -0x1_0000_0000_0000 <= wx <= 0x1_0000_0000_0000,
        -0x1_0000_0000_0000 <= wy <= 0x1_0000_0000_0000,
    ensures
        r == tile_seed(wx as int, wy as int),
{
    assert(-0x1_0000_0000_0000_0000_0000_0000 <= wx * wy <= 0x1_0000_0000_0000_0000_0000_0000) by (nonlinear_arith)
        requires
            -0x1_0000_0000_0000 <= wx <= 0x1_0000_0000_0000,
            -0x1_0000_0000_0000 <= wy <= 0x1_0000_0000_0000,
    ;
    let p: i128 = wx as i128 * wy as i128 + 1;
    let m: i128 = 0x1_0000_0000_0000_0000;
    if p >= 0 {
        (p % m) as u64
    } else {
        let q: i128 = (-p) % m;
        proof {
            vstd::arithmetic::div_mod::lemma_fundamental_div_mod(-p as int, m as int);
        }
        if q == 0 {
            proof {
                vstd::arithmetic::div_mod::lemma_fundamental_div_mod_converse(p as int, m as int, -((-(p as int)) / (m as int)), 0);
            }
            0
        } else {
            proof {
                vstd::arithmetic::div_mod::lemma_fundamental_div_mod_converse(
                    p as int,
                    m as int,
                    -((-(p as int)) / (m as int)) - 1,
                    m - q,
                );
            }
            (m - q) as u64
        }
    }
}

fn tile(x: i64, y: i64, view: Vec2) -> (t: StarTile)
    requires
        -1 <= x <= 0x1_0000_0000,
        -1 <= y <= 0x1_0000_0000,
        view.ok(),
    ensures
        t == tile_spec(x as int, y as int, view),
{
    let vx = crate::fixed::div_toward_zero(view.x as i128, 1000);
    let vy = crate::fixed::div_toward_zero(view.y as i128, 1000);
    let tx = crate::fixed::div_toward_zero(vx, 15);
    let ty = crate::fixed::div_toward_zero(vy, 15);
    assert(-1_000_000_000_000 <= vx <= 1_000_000_000_000);
    assert(-1_000_000_000_000 <= tx <= 1_000_000_000_000);
    assert(-1_000_000_000_000 <= ty <= 1_000_000_000_000);
    let wx: i64 = x + tx as i64;
    let wy: i64 = y + ty as i64;
    let rx: i128 = view.x as i128 - crate::fixed::div_toward_zero(view.x as i128, 15000) * 15000;
    let ry: i128 = view.y as i128 - crate::fixed::div_toward_zero(view.y as i128, 15000) * 15000;
    assert(-15000 < rx < 15000);
    StarTile {
        screen: Vec2 { x: x * 15000 - rx as i64, y: y * 15000 - ry as i64 },
        world_x: wx,
        world_y: wy,
        seed: seed_of(wx, wy),
    }
}


/// Columns (or rows) of tiles that cover `pixels`, with a margin of one
/// tile before and two after.
pub open spec fn tile_count(pixels: int) -> int {
    pixels / (TILE as int) + 3
}

/// The tiles of the star field on a `width` by `height` screen, column by
/// column: entry `i * rows + j` is the tile at grid position
/// `(i - 1, j - 1)`.
pub fn star_tiles(width: i32, height: i32, view: Vec2) -> (tiles: Vec<StarTile>)
    requires
        width >= 0,
        height >= 0,
        view.ok(),
    ensures
        tiles@.len() == tile_count(width as int) * tile_count(height as int),
        forall|i: int, j: int|
            0 <= i < tile_count(width as int) && 0 <= j < tile_count(height as int) ==> #[trigger] tiles@[i
                * tile_count(height as int) + j] == tile_spec(i - 1, j - 1, view),
{
    let cols: i64 = width as i64 / 15 + 3;
    let rows: i64 = height as i64 / 15 + 3;
    let mut tiles: Vec<StarTile> = Vec::new();
    let mut i: i64 = 0;
    while i < cols
        invariant
            cols == tile_count(width as int),
            rows == tile_count(height as int),
            3 <= cols <= 0x1000_0000,
            3 <= rows <= 0x1000_0000,
            0 <= i <= cols,
            view.ok(),
            tiles@.len() == i * rows,
            forall|a: int, b: int|
                0 <= a < i && 0 <= b < rows ==> #[trigger] tiles@[a * rows + b] == tile_spec(a - 1, b - 1, view),
        decreases cols - i,
    {
        let mut j: i64 = 0;
        while j < rows
            invariant
                cols == tile_count(width as int),
                rows == tile_count(height as int),
                3 <= cols <= 0x1000_0000,
                3 <= rows <= 0x1000_0000,
                0 <= i < cols,
                0 <= j <= rows,
                view.ok(),
                tiles@.len() == i * rows + j,
                forall|a: int, b: int|
                    0 <= a < i && 0 <= b < rows ==> #[trigger] tiles@[a * rows + b] == tile_spec(a - 1, b - 1, view),
                forall|b: int| 0 <= b < j ==> #[trigger] tiles@[i * rows + b] == tile_spec(i - 1, b - 1, view),
            decreases rows - j,
        {
            let t = tile(i - 1, j - 1, view);
            let ghost before = tiles@;
            tiles.push(t);
            proof {
                assert forall|a: int, b: int| 0 <= a < i && 0 <= b < rows implies #[trigger] tiles@[a * rows + b]
                    == tile_spec(a - 1, b - 1, view) by {
                    assert(a * rows + b < i * rows) by (nonlinear_arith)
                        requires
                            0 <= a < i,
                            0 <= b < rows,
                    ;
                    assert(tiles@[a * rows + b] == before[a * rows + b]);
                }
                assert forall|b: int| 0 <= b < j + 1 implies #[trigger] tiles@[i * rows + b] == tile_spec(i - 1, b - 1, view) by {
                    if b < j {
                        assert(tiles@[i * rows + b] == before[i * rows + b]);
                    }
                }
            }
            j += 1;
        }
        proof {
            assert forall|a: int, b: int| 0 <= a < i + 1 && 0 <= b < rows implies #[trigger] tiles@[a * rows + b]
                == tile_spec(a - 1, b - 1, view) by {
                if a == i {
                } else {
                }
            }
            assert(i * rows + rows == (i + 1) * rows) by (nonlinear_arith);
        }
        i += 1;
    }
    tiles
}

} // verus!
