//! Global configuration of the simulation grid.

use vstd::prelude::*;

verus! {

/// Side length of one grid cell; every block position is a multiple of it.
pub const BLOCK_SIZE: i64 = 6;

/// Half a cell, the rounding threshold used when snapping to the grid.
pub const HALF_BLOCK: i64 = 3;

/// Magnitude of the per-tick downward displacement of a granular block.
/// Snapping the displaced position to the grid turns it into exactly one
/// cell of fall per tick.
pub const GRAVITY_STEP: i64 = 8;

/// Bound on the magnitude of any coordinate the simulation handles; keeps
/// every position computation far away from `i64` overflow.
pub const COORD_LIMIT: i64 = 1_000_000_000_000;

/// Bound on the values `round_number` accepts; wide enough for any in-range
/// coordinate plus the largest displacement a tick or a spawn can add.
pub const ROUND_LIMIT: i64 = 2 * COORD_LIMIT;

/// Largest selectable spawn radius, in cells.
pub const MAX_SPAWN_DISTANCE: i64 = 1000;

/// Bound on the reference point of a spawn command: far enough inside the
/// coordinate bound that every candidate cell of the largest batch is
/// still in range after snapping.
pub const SPAWN_AREA_LIMIT: i64 = COORD_LIMIT - 7 * MAX_SPAWN_DISTANCE;

/// Minimum delay between two spawn commands while the mouse is held,
/// in milliseconds; zero means unlimited.
pub const SPAWN_DELAY_MS: u64 = 0;

/// The three cells directly below a block, consulted when it decides
/// whether and where to slide.
#[derive(PartialEq, Eq, Structural, Debug, Clone, Copy)]
pub enum Direction {
    BottomLeft,
    BottomRight,
    BottomMiddle,
}

} // verus!
