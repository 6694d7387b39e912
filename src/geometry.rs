//! Grid-to-world projections for orthogonal and isometric maps.
//!
//! World coordinates are held in half-pixel units (twice the pixel value), so
//! the half-tile offsets of the isometric diamond stay exact integers. World
//! `y` grows upwards: grid row `y` lies below row `y - 1`.
use vstd::arithmetic::div_mod::{lemma_div_multiples_vanish_fancy, lemma_fundamental_div_mod_converse};
use vstd::prelude::*;

use crate::map::CompiledMap;

verus! {

/// Largest magnitude of a world coordinate that the inverse projections take.
pub const WORLD_LIMIT: i128 = 0x1000_0000_0000_0000_0000_0000;

/// Largest magnitude of a grid coordinate whose projection the inverse
/// projections take back.
pub const GRID_LIMIT: i64 = 0x0800_0000_0000_0000;

/// How a map lays its cells out on screen.
#[derive(Clone, Copy, Debug, PartialEq, Eq, Structural)]
pub enum Orientation {
    Orthogonal,
    Isometric,
    Staggered,
    Hexagonal,
}

impl Orientation {
    /// Whether projections exist for this orientation.
    pub open spec fn spec_supported(self) -> bool {
        self is Orthogonal || self is Isometric
    }

    pub fn is_supported(&self) -> (r: bool)
        ensures
            r == self.spec_supported(),
    {
        match self {
            Orientation::Orthogonal => true,
            Orientation::Isometric => true,
            _ => false,
        }
    }
}

/// A cell of the tile grid (column `x`, row `y`).
#[derive(Clone, Copy, Debug, PartialEq, Eq, Structural)]
pub struct GridPos {
    pub x: i64,
    pub y: i64,
}

/// A point in world space, in half-pixel units.
#[derive(Clone, Copy, Debug, PartialEq, Eq, Structural)]
pub struct WorldPos {
    pub x: i128,
    pub y: i128,
}

/// An exact grid position: a whole cell plus the offset inside it, in
/// half-pixels (`0 <= offset_x < 2 * tile_width`, likewise for `y`).
#[derive(Clone, Copy, Debug, PartialEq, Eq, Structural)]
pub struct GridPoint {
    pub cell_x: i128,
    pub cell_y: i128,
    pub offset_x: i128,
    pub offset_y: i128,
}

impl WorldPos {
    pub open spec fn in_limits(self) -> bool {
        -WORLD_LIMIT <= self.x <= WORLD_LIMIT && -WORLD_LIMIT <= self.y <= WORLD_LIMIT
    }
}

impl GridPos {
    pub open spec fn in_limits(self) -> bool {
        -GRID_LIMIT <= self.x <= GRID_LIMIT && -GRID_LIMIT <= self.y <= GRID_LIMIT
    }
}

/// Orthogonal projection, in half-pixels: `(w * x, -(h * y))` pixels.
pub open spec fn ortho_x(x: int, w: int) -> int {
    2 * w * x
}

pub open spec fn ortho_y(y: int, h: int) -> int {
    -(2 * h * y)
}

/// Isometric projection, in half-pixels: `((x - y) * w / 2, -(x + y) * h / 2)` pixels.
pub open spec fn iso_x(x: int, y: int, w: int) -> int {
    (x - y) * w
}

pub open spec fn iso_y(x: int, y: int, h: int) -> int {
    -((x + y) * h)
}

/// `n / d` rounded to the nearest integer, halves away from zero (`d > 0`).
pub open spec fn round_div(n: int, d: int) -> int {
    if n >= 0 {
        (2 * n + d) / (2 * d)
    } else {
        -((-2 * n + d) / (2 * d))
    }
}

/// Column of the isometric inverse: `((x / (w/2)) + (-y / (h/2))) / 2`, rounded.
pub open spec fn iso_unproject_x(wx: int, wy: int, w: int, h: int) -> int {
    round_div(wx * h - wy * w, 2 * w * h)
}

/// Row of the isometric inverse: `((-y / (h/2)) - (x / (w/2))) / 2`, rounded.
pub open spec fn iso_unproject_y(wx: int, wy: int, w: int, h: int) -> int {
    round_div(-(wy * w) - wx * h, 2 * w * h)
}

/// Rounds `n / d` to the nearest integer, halves away from zero.
fn round_div_exec(n: i128, d: i128) -> (r: i128)
    requires
        0 < d <= WORLD_LIMIT,
        -0x2000_0000_0000_0000_0000_0000_0000_0000 <= n <= 0x2000_0000_0000_0000_0000_0000_0000_0000,
    ensures
        r == round_div(n as int, d as int),
{
    if n >= 0 {
        let q = (2 * n + d) / (2 * d);
        assert(0 <= q <= 2 * n + d) by (nonlinear_arith)
            requires q == (2 * n + d) / (2 * d), n >= 0, d > 0;
        q
    } else {
        let q = (-2 * n + d) / (2 * d);
        assert(0 <= q <= -2 * n + d) by (nonlinear_arith)
            requires q == (-2 * n + d) / (2 * d), n < 0, d > 0;
        -q
    }
}

/// Splits `v` into `q * d + r` with `0 <= r < d`.
fn floor_div_mod(v: i128, d: i128) -> (r: (i128, i128))
    requires
        0 < d,
        -WORLD_LIMIT <= v <= WORLD_LIMIT,
    ensures
        r.0 == v as int / d as int,
        r.1 == v as int % d as int,
{
    if v >= 0 {
        (v / d, v % d)
    } else {
        let a = -v;
        let q0 = a / d;
        let m0 = a % d;
        proof {
            vstd::arithmetic::div_mod::lemma_fundamental_div_mod(a as int, d as int);
        }
        assert(0 <= q0 <= a) by (nonlinear_arith)
            requires q0 == a / d, a > 0, d > 0;
        if m0 == 0 {
            proof {
                assert(v == (-q0) * d + 0) by (nonlinear_arith)
                    requires a == -v, a == d * q0 + m0, m0 == 0;
                lemma_fundamental_div_mod_converse(v as int, d as int, -q0 as int, 0);
            }
            (-q0, 0)
        } else {
            proof {
                assert(v == (-q0 - 1) * d + (d - m0)) by (nonlinear_arith)
                    requires a == -v, a == d * q0 + m0;
                lemma_fundamental_div_mod_converse(v as int, d as int, -q0 - 1, d - m0);
            }
            (-q0 - 1, d - m0)
        }
    }
}

/// `round_div` gives back the multiplier of an exact multiple.
pub proof fn lemma_round_div_exact(k: int, d: int)
    requires
        d > 0,
    ensures
        round_div(k * d, d) == k,
{
    if k >= 0 {
        assert(2 * (k * d) + d == (2 * d) * k + d) by (nonlinear_arith);
        lemma_div_multiples_vanish_fancy(k, d, 2 * d);
        assert(k * d >= 0) by (nonlinear_arith) requires k >= 0, d > 0;
    } else {
        assert(-2 * (k * d) + d == (2 * d) * (-k) + d) by (nonlinear_arith);
        lemma_div_multiples_vanish_fancy(-k, d, 2 * d);
        assert(k * d < 0) by (nonlinear_arith) requires k < 0, d > 0;
    }
}

impl CompiledMap {
    /// Orthogonal projection of a grid position to world space.
    pub fn project_ortho(pos: GridPos, tile_width: u32, tile_height: u32) -> (r: WorldPos)
        ensures
            r.x == ortho_x(pos.x as int, tile_width as int),
            r.y == ortho_y(pos.y as int, tile_height as int),
    {
        assert(-0x1_0000_0000_0000_0000_0000_0000 <= 2 * (tile_width as int) * (pos.x as int)
            <= 0x1_0000_0000_0000_0000_0000_0000) by (nonlinear_arith)
            requires tile_width < 0x1_0000_0000, -0x8000_0000_0000_0000 <= pos.x < 0x8000_0000_0000_0000;
        assert(-0x1_0000_0000_0000_0000_0000_0000 <= 2 * (tile_height as int) * (pos.y as int)
            <= 0x1_0000_0000_0000_0000_0000_0000) by (nonlinear_arith)
            requires tile_height < 0x1_0000_0000, -0x8000_0000_0000_0000 <= pos.y < 0x8000_0000_0000_0000;
        let x = 2 * (tile_width as i128) * (pos.x as i128);
        let y = 2 * (tile_height as i128) * (pos.y as i128);
        WorldPos { x, y: -y }
    }

    /// Inverse of the orthogonal projection, exact: the cell and the offset
    /// inside it.
    pub fn unproject_ortho(pos: WorldPos, tile_width: u32, tile_height: u32) -> (r: GridPoint)
        requires
            tile_width > 0,
            tile_height > 0,
            pos.in_limits(),
        ensures
            r.cell_x == pos.x as int / (2 * tile_width as int),
            r.offset_x == pos.x as int % (2 * tile_width as int),
            r.cell_y == -(pos.y as int) / (2 * tile_height as int),
            r.offset_y == -(pos.y as int) % (2 * tile_height as int),
    {
        let (cx, ox) = floor_div_mod(pos.x, 2 * tile_width as i128);
        let (cy, oy) = floor_div_mod(-pos.y, 2 * tile_height as i128);
        GridPoint { cell_x: cx, cell_y: cy, offset_x: ox, offset_y: oy }
    }

    /// Isometric projection of a grid position to world space.
    pub fn project_iso(pos: GridPos, tile_width: u32, tile_height: u32) -> (r: WorldPos)
        ensures
            r.x == iso_x(pos.x as int, pos.y as int, tile_width as int),
            r.y == iso_y(pos.x as int, pos.y as int, tile_height as int),
    {
        let dx = pos.x as i128 - pos.y as i128;
        let sx = pos.x as i128 + pos.y as i128;
        assert(-0x1_0000_0000_0000_0000_0000_0000 <= dx * (tile_width as int)
            <= 0x1_0000_0000_0000_0000_0000_0000) by (nonlinear_arith)
            requires tile_width < 0x1_0000_0000, -0x1_0000_0000_0000_0000 <= dx <= 0x1_0000_0000_0000_0000;
        assert(-0x1_0000_0000_0000_0000_0000_0000 <= sx * (tile_height as int)
            <= 0x1_0000_0000_0000_0000_0000_0000) by (nonlinear_arith)
            requires tile_height < 0x1_0000_0000, -0x1_0000_0000_0000_0000 <= sx <= 0x1_0000_0000_0000_0000;
        WorldPos { x: dx * tile_width as i128, y: -(sx * tile_height as i128) }
    }

    /// Inverse of the isometric projection, rounded to the nearest cell.
    pub fn unproject_iso(pos: WorldPos, tile_width: u32, tile_height: u32) -> (r: GridPoint)
        requires
            tile_width > 0,
            tile_height > 0,
            pos.in_limits(),
        ensures
            r.cell_x == iso_unproject_x(pos.x as int, pos.y as int, tile_width as int, tile_height as int),
            r.cell_y == iso_unproject_y(pos.x as int, pos.y as int, tile_width as int, tile_height as int),
            r.offset_x == 0,
            r.offset_y == 0,
    {
        let w = tile_width as i128;
        let h = tile_height as i128;
        assert(0 < 2 * w * h <= WORLD_LIMIT) by (nonlinear_arith)
            requires 0 < w < 0x1_0000_0000, 0 < h < 0x1_0000_0000;
        assert(-WORLD_LIMIT * 0x1_0000_0000 <= pos.x * h <= WORLD_LIMIT * 0x1_0000_0000) by (nonlinear_arith)
            requires 0 < h < 0x1_0000_0000, -WORLD_LIMIT <= pos.x <= WORLD_LIMIT;
        assert(-WORLD_LIMIT * 0x1_0000_0000 <= pos.y * w <= WORLD_LIMIT * 0x1_0000_0000) by (nonlinear_arith)
            requires 0 < w < 0x1_0000_0000, -WORLD_LIMIT <= pos.y <= WORLD_LIMIT;
        let a = pos.x * h;
        let b = pos.y * w;
        let d = 2 * w * h;
        let x = round_div_exec(a - b, d);
        let y = round_div_exec(-b - a, d);
        GridPoint { cell_x: x, cell_y: y, offset_x: 0, offset_y: 0 }
    }
}

proof fn lemma_mul_bounded(a: int, b: int)
    requires
        -0x1000_0000_0000_0000 <= a <= 0x1000_0000_0000_0000,
        0 <= b < 0x1_0000_0000,
    ensures
        -WORLD_LIMIT <= a * b <= WORLD_LIMIT,
{
    assert(0x1000_0000_0000_0000 * 0x1_0000_0000 == WORLD_LIMIT);
    if a >= 0 {
        vstd::arithmetic::mul::lemma_mul_upper_bound(a, 0x1000_0000_0000_0000, b, 0x1_0000_0000);
        assert(0 <= a * b) by (nonlinear_arith) requires a >= 0, b >= 0;
    } else {
        vstd::arithmetic::mul::lemma_mul_upper_bound(-a, 0x1000_0000_0000_0000, b, 0x1_0000_0000);
        assert(a * b <= 0 && a * b == -((-a) * b)) by (nonlinear_arith) requires a < 0, b >= 0;
    }
}

/// Projecting a grid position and taking it back gives the same cell, with no
/// offset inside it, for orthogonal maps.
pub proof fn lemma_ortho_round_trip(p: GridPos, tile_width: u32, tile_height: u32)
    requires
        tile_width > 0,
        tile_height > 0,
    ensures
        ortho_x(p.x as int, tile_width as int) / (2 * tile_width as int) == p.x,
        ortho_x(p.x as int, tile_width as int) % (2 * tile_width as int) == 0,
        -ortho_y(p.y as int, tile_height as int) / (2 * tile_height as int) == p.y,
        -ortho_y(p.y as int, tile_height as int) % (2 * tile_height as int) == 0,
{
    let w2 = 2 * tile_width as int;
    let h2 = 2 * tile_height as int;
    assert(2 * (tile_width as int) * p.x == p.x * w2 + 0) by (nonlinear_arith)
        requires w2 == 2 * tile_width as int;
    assert(2 * (tile_height as int) * p.y == p.y * h2 + 0) by (nonlinear_arith)
        requires h2 == 2 * tile_height as int;
    lemma_fundamental_div_mod_converse(ortho_x(p.x as int, tile_width as int), w2, p.x as int, 0);
    lemma_fundamental_div_mod_converse(-ortho_y(p.y as int, tile_height as int), h2, p.y as int, 0);
}

/// Projecting a grid position and taking it back, rounded, gives the same cell
/// for isometric maps.
pub proof fn lemma_iso_round_trip(p: GridPos, tile_width: u32, tile_height: u32)
    requires
        tile_width > 0,
        tile_height > 0,
        p.in_limits(),
    ensures
        ({
            let w = WorldPos {
                x: iso_x(p.x as int, p.y as int, tile_width as int) as i128,
                y: iso_y(p.x as int, p.y as int, tile_height as int) as i128,
            };
            &&& w.in_limits()
            &&& iso_unproject_x(w.x as int, w.y as int, tile_width as int, tile_height as int) == p.x
            &&& iso_unproject_y(w.x as int, w.y as int, tile_width as int, tile_height as int) == p.y
        }),
{
    let w = tile_width as int;
    let h = tile_height as int;
    let x = p.x as int;
    let y = p.y as int;
    let dxy = x - y;
    let sxy = x + y;
    assert(-0x1000_0000_0000_0000 <= dxy <= 0x1000_0000_0000_0000);
    assert(-0x1000_0000_0000_0000 <= sxy <= 0x1000_0000_0000_0000);
    lemma_mul_bounded(dxy, w);
    lemma_mul_bounded(sxy, h);
    let wx = (x - y) * w;
    let wy = -((x + y) * h);
    assert(wx * h - wy * w == x * (2 * w * h)) by (nonlinear_arith)
        requires wx == (x - y) * w, wy == -((x + y) * h);
    assert(-(wy * w) - wx * h == y * (2 * w * h)) by (nonlinear_arith)
        requires wx == (x - y) * w, wy == -((x + y) * h);
    assert(2 * w * h > 0) by (nonlinear_arith) requires w > 0, h > 0;
    lemma_round_div_exact(x, 2 * w * h);
    lemma_round_div_exact(y, 2 * w * h);
}

} // verus!
