//! Integer grid coordinates.
//!
//! A `Vector2` is a pair of integer coordinates.  Block positions are always
//! *on the grid*: both components are multiples of `BLOCK_SIZE`.  `snap_int`
//! is the mathematical rounding rule (nearest multiple of the cell size, ties
//! away from zero) and `round_number` / `round_position` are its executable
//! counterparts.

use vstd::prelude::*;
use vstd::arithmetic::div_mod::{lemma_fundamental_div_mod, lemma_fundamental_div_mod_converse};

use crate::constants::{BLOCK_SIZE, HALF_BLOCK, COORD_LIMIT, ROUND_LIMIT};

verus! {

/// A point of the simulation plane.  Coordinates of stored blocks are
/// always snapped to the grid; arbitrary values appear only transiently,
/// e.g. as a pointer position handed in by the presentation layer.
#[derive(PartialEq, Eq, Structural, Debug, Clone, Copy)]
pub struct Vector2 {
    pub x: i64,
    pub y: i64,
}

pub fn vector2(x: i64, y: i64) -> (r: Vector2)
    ensures
        r == (Vector2 { x, y }),
{
    Vector2 { x, y }
}

/// Builds a `Vector2` from mathematical integers; meaningful when both fit.
pub open spec fn v2(x: int, y: int) -> Vector2 {
    Vector2 { x: x as i64, y: y as i64 }
}

/// A coordinate the simulation is willing to handle.
pub open spec fn in_range(v: int) -> bool {
    -COORD_LIMIT <= v && v <= COORD_LIMIT
}

impl Vector2 {
    /// Both components are in range.
    pub open spec fn bounded(self) -> bool {
        in_range(self.x as int) && in_range(self.y as int)
    }

    /// The point is a grid cell: both components are multiples of the cell
    /// size and in range.
    pub open spec fn on_grid(self) -> bool {
        self.bounded() && self.x as int % (BLOCK_SIZE as int) == 0 && self.y as int % (
        BLOCK_SIZE as int) == 0
    }

    /// Componentwise translation.
    pub fn offset(self, dx: i64, dy: i64) -> (r: Vector2)
        requires
            i64::MIN <= self.x + dx <= i64::MAX,
            i64::MIN <= self.y + dy <= i64::MAX,
        ensures
            r == v2(self.x + dx, self.y + dy),
    {
        Vector2 { x: self.x + dx, y: self.y + dy }
    }

    /// Componentwise scaling.
    pub fn scaled(self, k: i64) -> (r: Vector2)
        requires
            i64::MIN <= self.x * k <= i64::MAX,
            i64::MIN <= self.y * k <= i64::MAX,
        ensures
            r == v2(self.x * k, self.y * k),
    {
        Vector2 { x: self.x * k, y: self.y * k }
    }
}

/// The multiple of `BLOCK_SIZE` nearest to `v`, ties rounded away from zero.
pub open spec fn snap_int(v: int) -> int {
    if v >= 0 {
        ((v + HALF_BLOCK) / (BLOCK_SIZE as int)) * (BLOCK_SIZE as int)
    } else {
        -(((-v + HALF_BLOCK) / (BLOCK_SIZE as int)) * (BLOCK_SIZE as int))
    }
}

/// Both components snapped.
pub open spec fn snap_vec(p: Vector2) -> Vector2 {
    v2(snap_int(p.x as int), snap_int(p.y as int))
}

/// Rounds one coordinate to the nearest multiple of the cell size,
/// ties away from zero.
pub fn round_number(number: i64) -> (r: i64)
    requires
        -ROUND_LIMIT <= number && number <= ROUND_LIMIT,
    ensures
        r == snap_int(number as int),
{
    if number >= 0 {
        let n: u64 = number as u64;
        let snapped: u64 = ((n + HALF_BLOCK as u64) / (BLOCK_SIZE as u64)) * (BLOCK_SIZE as u64);
        proof {
            lemma_fundamental_div_mod((n + HALF_BLOCK) as int, BLOCK_SIZE as int);
        }
        snapped as i64
    } else {
        let n: u64 = (-number) as u64;
        let snapped: u64 = ((n + HALF_BLOCK as u64) / (BLOCK_SIZE as u64)) * (BLOCK_SIZE as u64);
        proof {
            lemma_fundamental_div_mod((n + HALF_BLOCK) as int, BLOCK_SIZE as int);
        }
        -(snapped as i64)
    }
}

/// Rounds a point to the nearest grid cell, componentwise.
pub fn round_position(position: Vector2) -> (r: Vector2)
    requires
        -ROUND_LIMIT <= position.x && position.x <= ROUND_LIMIT,
        -ROUND_LIMIT <= position.y && position.y <= ROUND_LIMIT,
    ensures
        r == snap_vec(position),
{
    Vector2 { x: round_number(position.x), y: round_number(position.y) }
}

/// Snapping always lands on a multiple of the cell size, at most half a
/// cell away from the input.
pub proof fn lemma_snap_near(v: int)
    ensures
        snap_int(v) % (BLOCK_SIZE as int) == 0,
        v - HALF_BLOCK <= snap_int(v) <= v + HALF_BLOCK,
{
    if v >= 0 {
        let q = (v + HALF_BLOCK) / (BLOCK_SIZE as int);
        lemma_fundamental_div_mod(v + HALF_BLOCK, BLOCK_SIZE as int);
        lemma_fundamental_div_mod_converse(q * (BLOCK_SIZE as int), BLOCK_SIZE as int, q, 0);
    } else {
        let q = (-v + HALF_BLOCK) / (BLOCK_SIZE as int);
        lemma_fundamental_div_mod(-v + HALF_BLOCK, BLOCK_SIZE as int);
        lemma_fundamental_div_mod_converse(q * (BLOCK_SIZE as int), BLOCK_SIZE as int, q, 0);
        assert((-(q * (BLOCK_SIZE as int))) % (BLOCK_SIZE as int) == 0) by {
            lemma_fundamental_div_mod_converse(
                -(q * (BLOCK_SIZE as int)),
                BLOCK_SIZE as int,
                -q,
                0,
            );
        }
    }
}

/// A value already on the grid snaps to itself.
pub proof fn lemma_snap_identity(v: int)
    requires
        v % (BLOCK_SIZE as int) == 0,
    ensures
        snap_int(v) == v,
{
    lemma_fundamental_div_mod(v, BLOCK_SIZE as int);
    let k = v / (BLOCK_SIZE as int);
    if v >= 0 {
        lemma_fundamental_div_mod_converse(v + HALF_BLOCK, BLOCK_SIZE as int, k, HALF_BLOCK as int);
    } else {
        lemma_fundamental_div_mod_converse(
            -v + HALF_BLOCK,
            BLOCK_SIZE as int,
            -k,
            HALF_BLOCK as int,
        );
    }
}

/// Falling by `GRAVITY_STEP` from a grid row and snapping lands exactly one
/// cell below: the gravity displacement is a discrete one-cell step.
pub proof fn lemma_snap_gravity(y: int)
    requires
        y % (BLOCK_SIZE as int) == 0,
    ensures
        snap_int(y - 8) == y - BLOCK_SIZE,
{
    lemma_fundamental_div_mod(y, BLOCK_SIZE as int);
    let k = y / (BLOCK_SIZE as int);
    if y - 8 >= 0 {
        lemma_fundamental_div_mod_converse(y - 8 + HALF_BLOCK, BLOCK_SIZE as int, k - 1, 1);
    } else {
        lemma_fundamental_div_mod_converse(-(y - 8) + HALF_BLOCK, BLOCK_SIZE as int, 1 - k, 5);
    }
}

/// Values at least one cell apart never snap to the same multiple.
pub proof fn lemma_snap_apart(a: int, b: int)
    requires
        a + BLOCK_SIZE <= b,
    ensures
        snap_int(a) != snap_int(b),
{
    lemma_snap_near(a);
    lemma_snap_near(b);
    if snap_int(a) == snap_int(b) {
        let m = snap_int(a);
        assert(b == a + BLOCK_SIZE && m == a + HALF_BLOCK && m == b - HALF_BLOCK);
        lemma_fundamental_div_mod(m, BLOCK_SIZE as int);
        let k = m / (BLOCK_SIZE as int);
        if a >= 0 {
            lemma_fundamental_div_mod_converse(a + HALF_BLOCK, BLOCK_SIZE as int, k, 0);
            lemma_fundamental_div_mod_converse(b + HALF_BLOCK, BLOCK_SIZE as int, k + 1, 0);
            assert(snap_int(b) == m + BLOCK_SIZE);
        } else {
            lemma_fundamental_div_mod_converse(-a + HALF_BLOCK, BLOCK_SIZE as int, 1 - k, 0);
            assert(snap_int(a) == m - BLOCK_SIZE);
        }
    }
}

/// Distinct grid-aligned offsets from one reference point give distinct
/// snapped positions: a spawn batch never collapses two candidate cells.
pub proof fn lemma_snap_offsets_distinct(p: Vector2, a: Vector2, b: Vector2)
    requires
        p.bounded(),
        a.bounded(),
        b.bounded(),
        a.x as int % (BLOCK_SIZE as int) == 0,
        a.y as int % (BLOCK_SIZE as int) == 0,
        b.x as int % (BLOCK_SIZE as int) == 0,
        b.y as int % (BLOCK_SIZE as int) == 0,
        a != b,
    ensures
        snap_vec(v2(p.x + a.x, p.y + a.y)) != snap_vec(v2(p.x + b.x, p.y + b.y)),
{
    lemma_snap_near(p.x + a.x);
    lemma_snap_near(p.y + a.y);
    lemma_snap_near(p.x + b.x);
    lemma_snap_near(p.y + b.y);
    if a.x != b.x {
        lemma_mult_of_block_apart(a.x as int, b.x as int);
        if a.x < b.x {
            lemma_snap_apart(p.x + a.x, p.x + b.x);
        } else {
            lemma_snap_apart(p.x + b.x, p.x + a.x);
        }
    } else {
        lemma_mult_of_block_apart(a.y as int, b.y as int);
        if a.y < b.y {
            lemma_snap_apart(p.y + a.y, p.y + b.y);
        } else {
            lemma_snap_apart(p.y + b.y, p.y + a.y);
        }
    }
}

/// Two distinct multiples of the cell size differ by at least one cell.
proof fn lemma_mult_of_block_apart(a: int, b: int)
    requires
        a % (BLOCK_SIZE as int) == 0,
        b % (BLOCK_SIZE as int) == 0,
        a != b,
    ensures
        a + BLOCK_SIZE <= b || b + BLOCK_SIZE <= a,
{
    lemma_fundamental_div_mod(a, BLOCK_SIZE as int);
    lemma_fundamental_div_mod(b, BLOCK_SIZE as int);
    let ka = a / (BLOCK_SIZE as int);
    let kb = b / (BLOCK_SIZE as int);
    assert(ka != kb);
    if ka < kb {
        assert(a + BLOCK_SIZE <= b) by (nonlinear_arith)
            requires
                a == ka * 6,
                b == kb * 6,
                ka < kb,
        ;
    } else {
        assert(b + BLOCK_SIZE <= a) by (nonlinear_arith)
            requires
                a == ka * 6,
                b == kb * 6,
                kb < ka,
        ;
    }
}

} // verus!
