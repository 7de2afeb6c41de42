//! The block entity: one particle of the simulation.

use vstd::prelude::*;

use vstd::arithmetic::div_mod::lemma_add_mod_noop;

use crate::constants::{BLOCK_SIZE, Direction, GRAVITY_STEP};
use crate::index::OccupancyIndex;
use crate::rng::rand_in_range;
use crate::utils::{get_blocked_directions, Boundary};
use crate::vector::{round_position, snap_vec, v2, vector2, Vector2};
use crate::vector::{lemma_snap_gravity, lemma_snap_identity, lemma_snap_near};

verus! {

/// The material a spawn command places.  `Sand` is granular and movable,
/// `Stone` immovable.  `Erase` is a pseudo-kind used only as a tool
/// selector: it marks cells for deletion and never becomes a stored block.
#[derive(PartialEq, Eq, Structural, Debug, Clone, Copy)]
pub enum BlockType {
    Sand,
    Stone,
    Erase,
}

/// Per-tick motion state of a block.
#[derive(PartialEq, Eq, Structural, Debug, Clone, Copy)]
pub enum BlockState {
    Falling,
    Stacked,
}

/// An 8-bit-per-channel colour.
#[derive(PartialEq, Eq, Structural, Debug, Clone, Copy)]
pub struct Color {
    pub red: u8,
    pub green: u8,
    pub blue: u8,
}

/// The small fixed palette a granular block's colour is drawn from.
pub open spec fn sand_color(i: int) -> Color {
    if i == 0 {
        Color { red: 222, green: 178, blue: 111 }
    } else if i == 1 {
        Color { red: 229, green: 183, blue: 114 }
    } else {
        Color { red: 216, green: 172, blue: 108 }
    }
}

pub open spec fn is_sand_color(c: Color) -> bool {
    exists|i: int| 0 <= i < 3 && c == sand_color(i)
}

/// The fixed colour of immovable blocks.
pub open spec fn stone_color() -> Color {
    Color { red: 98, green: 95, blue: 89 }
}

/// The tint applied to a block when a spawn command lands on its cell.
pub open spec fn touched_color() -> Color {
    Color { red: 0, green: 0, blue: 255 }
}

/// A position a spawn command may target: far enough from the coordinate
/// bound that the snapped cell is still in range.
pub open spec fn in_spawn_range(v: int) -> bool {
    -(crate::constants::COORD_LIMIT as int) + BLOCK_SIZE <= v && v <= crate::constants::COORD_LIMIT
        - BLOCK_SIZE
}

/// One particle: identity, material, motion state, position, cell-sized
/// extent and colour.  The downward gravity vector of granular material is
/// derived from `block_type`; immovable material has none.
#[derive(PartialEq, Eq, Structural, Debug, Clone, Copy)]
pub struct Block {
    pub position: Vector2,
    pub size: Vector2,
    pub color: Color,
    pub uid: u128,
    pub block_type: BlockType,
    pub block_state: BlockState,
}

/// Relies on `uuid::Uuid::new_v4` and `uuid::Uuid::as_u128`: a freshly
/// drawn random version-4 identifier, carried as its 128-bit value.
/// Nothing is promised of a random draw.
#[verifier::external_body]
fn fresh_uid() -> u128 {
    uuid::Uuid::new_v4().as_u128()
}

/// Picks one of the three sand colours uniformly at random.
fn pick_sand_color() -> (c: Color)
    ensures
        is_sand_color(c),
{
    let i = rand_in_range(0, 2);
    let c = if i == 0 {
        Color { red: 222, green: 178, blue: 111 }
    } else if i == 1 {
        Color { red: 229, green: 183, blue: 114 }
    } else {
        Color { red: 216, green: 172, blue: 108 }
    };
    proof {
        if i == 0 {
            assert(c == sand_color(0));
        } else if i == 1 {
            assert(c == sand_color(1));
        } else {
            assert(c == sand_color(2));
        }
    }
    c
}

impl Block {
    /// Well-formedness: the position is a grid cell, the extent is one
    /// cell, the kind is a real material, and immovable blocks are settled.
    pub open spec fn wf(self) -> bool {
        &&& self.position.on_grid()
        &&& self.size == v2(BLOCK_SIZE as int, BLOCK_SIZE as int)
        &&& self.block_type != BlockType::Erase
        &&& (self.block_type == BlockType::Stone ==> self.block_state == BlockState::Stacked)
    }

    /// Creates a block of the given material at the given point, snapped to
    /// the grid.  Granular blocks start falling with a palette colour drawn
    /// at random; immovable blocks are settled from the start and wear the
    /// fixed stone colour.  The identity is freshly generated.
    pub fn new(block_type: BlockType, position: Vector2) -> (r: Block)
        requires
            block_type != BlockType::Erase,
            in_spawn_range(position.x as int),
            in_spawn_range(position.y as int),
        ensures
            r.wf(),
            r.position == snap_vec(position),
            r.block_type == block_type,
            r.block_state == if block_type == BlockType::Stone {
                BlockState::Stacked
            } else {
                BlockState::Falling
            },
            block_type == BlockType::Sand ==> is_sand_color(r.color),
            block_type == BlockType::Stone ==> r.color == stone_color(),
    {
        let color = if let BlockType::Sand = block_type {
            pick_sand_color()
        } else {
            Color { red: 98, green: 95, blue: 89 }
        };
        let block_state = if let BlockType::Stone = block_type {
            BlockState::Stacked
        } else {
            BlockState::Falling
        };
        proof {
            lemma_snap_near(position.x as int);
            lemma_snap_near(position.y as int);
        }
        Block {
            position: round_position(position),
            size: Vector2 { x: BLOCK_SIZE, y: BLOCK_SIZE },
            color,
            uid: fresh_uid(),
            block_type,
            block_state,
        }
    }

    /// The per-tick update rule.  `block_positions` holds the blocks
    /// already finalized earlier in the current tick; `slide_left` decides
    /// the tie-break when both diagonals are open.  The result is exactly
    /// `step_block_spec` of the previous state.
    pub fn update(
        &mut self,
        block_positions: &OccupancyIndex,
        window_positions: &Boundary,
        slide_left: bool,
    )
        requires
            old(self).wf(),
            block_positions.wf(),
            window_positions.wf(),
        ensures
            *final(self) == step_block_spec(
                *old(self),
                block_positions.occ(),
                *window_positions,
                slide_left,
            ),
            final(self).wf(),
    {
        if let BlockType::Stone = self.block_type {
            // Immovable material: re-snap defensively (the identity on a
            // well-formed block) and change nothing else.
            proof {
                lemma_snap_identity(self.position.x as int);
                lemma_snap_identity(self.position.y as int);
            }
            self.position = round_position(self.position);
            return;
        }
        let position_below = vector2(self.position.x, self.position.y - BLOCK_SIZE);
        let block_below = block_positions.query(position_below);
        match block_below {
            None => {
                // Open below: gravity gives a fixed downward step, and the
                // snapped displacement is exactly one cell of fall.
                let velocity = vector2(0, -GRAVITY_STEP);
                let next_position = round_position(
                    vector2(self.position.x + velocity.x, self.position.y + velocity.y),
                );
                proof {
                    lemma_snap_identity(self.position.x as int);
                    lemma_snap_gravity(self.position.y as int);
                    assert(next_position == position_below);
                }
                if block_positions.contains(next_position) || !self.position_in_bounds(
                    next_position,
                    window_positions,
                ) {
                    self.block_state = BlockState::Stacked;
                } else {
                    self.block_state = BlockState::Falling;
                    self.position = next_position;
                }
            },
            Some(below) => {
                if below.block_state == BlockState::Stacked {
                    // The support has settled: try to slide toward an open
                    // diagonal.
                    let velocity = self.stack_block(block_positions, slide_left);
                    let next_position = round_position(
                        vector2(self.position.x + velocity.x, self.position.y + velocity.y),
                    );
                    proof {
                        lemma_add_mod_noop(
                            self.position.x as int,
                            velocity.x as int,
                            BLOCK_SIZE as int,
                        );
                        lemma_add_mod_noop(
                            self.position.y as int,
                            velocity.y as int,
                            BLOCK_SIZE as int,
                        );
                        lemma_snap_identity(self.position.x + velocity.x);
                        lemma_snap_identity(self.position.y + velocity.y);
                        assert(next_position == slide_target(
                            old(self).position,
                            block_positions.occ(),
                            slide_left,
                        ));
                    }
                    if block_positions.contains(next_position) || !self.position_in_bounds(
                        next_position,
                        window_positions,
                    ) {
                        // Blocked or out of bounds: stay exactly as-is.
                    } else {
                        self.block_state = BlockState::Stacked;
                        self.position = next_position;
                    }
                }
                // The block below is still falling: wait for it to settle.
            },
        }
    }

    /// Decides the sliding displacement of a block whose support has
    /// settled: one cell down-left or down-right toward an open diagonal,
    /// the tie broken by `slide_left`, and no displacement when the middle
    /// is open (a defensive no-op) or both diagonals are blocked.
    fn stack_block(&self, block_positions: &OccupancyIndex, slide_left: bool) -> (velocity:
        Vector2)
        requires
            self.wf(),
            block_positions.wf(),
        ensures
            velocity.x % BLOCK_SIZE == 0,
            -BLOCK_SIZE <= velocity.x <= BLOCK_SIZE,
            -BLOCK_SIZE <= velocity.y <= 0,
            velocity.y % BLOCK_SIZE == 0,
            slide_target(self.position, block_positions.occ(), slide_left) == v2(
                self.position.x + velocity.x,
                self.position.y + velocity.y,
            ),
    {
        let blocked_directions = get_blocked_directions(*self, block_positions);

        let left_open = !blocked_directions.contains_key(Direction::BottomLeft);
        let right_open = !blocked_directions.contains_key(Direction::BottomRight);
        let middle_open = !blocked_directions.contains_key(Direction::BottomMiddle);

        if middle_open || (!left_open && !right_open) {
            proof {
                assert(v2(self.position.x + 0, self.position.y + 0) == self.position);
            }
            return vector2(0, 0);
        }
        let move_direction = if left_open && right_open {
            if slide_left {
                -BLOCK_SIZE
            } else {
                BLOCK_SIZE
            }
        } else if left_open {
            -BLOCK_SIZE
        } else {
            BLOCK_SIZE
        };
        vector2(move_direction, -BLOCK_SIZE)
    }

    /// Whether a position lies inside the simulation arena.
    pub fn position_in_bounds(&self, position: Vector2, window_positions: &Boundary) -> (r: bool)
        ensures
            r == window_positions.contains_spec(position),
    {
        if position.x < window_positions.left || position.x > window_positions.right {
            return false;
        }
        if position.y < window_positions.bottom || position.y > window_positions.top {
            return false;
        }
        true
    }
}

/// The cell directly below a position.
pub open spec fn below_of(p: Vector2) -> Vector2 {
    v2(p.x as int, p.y - BLOCK_SIZE)
}

/// The cell below and to the left.
pub open spec fn diag_left_of(p: Vector2) -> Vector2 {
    v2(p.x - BLOCK_SIZE, p.y - BLOCK_SIZE)
}

/// The cell below and to the right.
pub open spec fn diag_right_of(p: Vector2) -> Vector2 {
    v2(p.x + BLOCK_SIZE, p.y - BLOCK_SIZE)
}

/// Where a block whose support has settled tries to move: one cell
/// down-left or down-right toward an open diagonal (the tie broken by
/// `slide_left`), and its own cell — no move — when both diagonals are
/// blocked or the cell below is unexpectedly open (a defensive no-op:
/// under the invariants that branch is unreachable).
pub open spec fn slide_target(p: Vector2, m: Map<Vector2, Block>, slide_left: bool) -> Vector2 {
    let bl = diag_left_of(p);
    let br = diag_right_of(p);
    if !m.dom().contains(below_of(p)) {
        p
    } else if m.dom().contains(bl) && m.dom().contains(br) {
        p
    } else if !m.dom().contains(bl) && !m.dom().contains(br) {
        if slide_left {
            bl
        } else {
            br
        }
    } else if !m.dom().contains(bl) {
        bl
    } else {
        br
    }
}

/// The per-tick update rule for one block, against the occupancy map `m` of
/// the blocks already finalized this tick and the arena `w`:
///
/// - immovable material never changes;
/// - with open space below, the block falls one cell and keeps falling,
///   unless the landing cell is occupied or out of bounds, in which case it
///   stacks in place;
/// - over a still-falling block it waits unchanged;
/// - over a settled block it moves to `slide_target` and stacks, unless
///   that cell is occupied or out of bounds, in which case it stays as it
///   was.
pub open spec fn step_block_spec(b: Block, m: Map<Vector2, Block>, w: Boundary, slide_left: bool) -> Block {
    if b.block_type == BlockType::Stone {
        b
    } else {
        let below = below_of(b.position);
        if !m.dom().contains(below) {
            if w.contains_spec(below) {
                Block { block_state: BlockState::Falling, position: below, ..b }
            } else {
                Block { block_state: BlockState::Stacked, ..b }
            }
        } else if m[below].block_state == BlockState::Falling {
            b
        } else {
            let t = slide_target(b.position, m, slide_left);
            if m.dom().contains(t) || !w.contains_spec(t) {
                b
            } else {
                Block { block_state: BlockState::Stacked, position: t, ..b }
            }
        }
    }
}

} // verus!
