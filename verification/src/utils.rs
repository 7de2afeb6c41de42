//! Arena boundary and the spatial helpers of the simulation step.

use vstd::prelude::*;
use vstd::arithmetic::div_mod::{
    lemma_fundamental_div_mod, lemma_fundamental_div_mod_converse, lemma_mod_bound,
};

use crate::block::{below_of, diag_left_of, diag_right_of, Block};
use crate::constants::{Direction, BLOCK_SIZE, MAX_SPAWN_DISTANCE};
use crate::index::OccupancyIndex;
use crate::rng::rand_in_range;
use crate::vector::{in_range, v2, vector2, Vector2};

verus! {

/// The rectangular arena: a position is inside iff
/// `left <= x <= right` and `bottom <= y <= top`.  Any attempted move
/// landing outside is rejected exactly like a collision.
#[derive(PartialEq, Eq, Structural, Debug, Clone, Copy)]
pub struct Boundary {
    pub left: i64,
    pub right: i64,
    pub top: i64,
    pub bottom: i64,
}

impl Boundary {
    /// All four bounds are coordinates the simulation handles.
    pub open spec fn wf(self) -> bool {
        in_range(self.left as int) && in_range(self.right as int) && in_range(self.top as int)
            && in_range(self.bottom as int)
    }

    pub open spec fn contains_spec(self, p: Vector2) -> bool {
        self.left <= p.x && p.x <= self.right && self.bottom <= p.y && p.y <= self.top
    }

    pub fn contains(&self, p: Vector2) -> (r: bool)
        ensures
            r == self.contains_spec(p),
    {
        self.left <= p.x && p.x <= self.right && self.bottom <= p.y && p.y <= self.top
    }
}

/// What a block finds in the three cells directly below it.  The diagonal
/// neighbours are looked up only when the middle cell is occupied: they
/// matter only to the stacking decision, which a block with open space
/// below never reaches.
pub struct BlockedDirections {
    pub bottom_left: Option<Block>,
    pub bottom_middle: Option<Block>,
    pub bottom_right: Option<Block>,
}

impl BlockedDirections {
    pub open spec fn entry(self, direction: Direction) -> Option<Block> {
        match direction {
            Direction::BottomLeft => self.bottom_left,
            Direction::BottomMiddle => self.bottom_middle,
            Direction::BottomRight => self.bottom_right,
        }
    }

    /// Whether the cell in the given direction is blocked.
    pub fn contains_key(&self, direction: Direction) -> (r: bool)
        ensures
            r == self.entry(direction).is_some(),
    {
        match direction {
            Direction::BottomLeft => self.bottom_left.is_some(),
            Direction::BottomMiddle => self.bottom_middle.is_some(),
            Direction::BottomRight => self.bottom_right.is_some(),
        }
    }
}

/// A grid-aligned offset lying within the square of side `2 * distance + 1`
/// cells centred on the origin.
pub open spec fn offset_in_square(p: Vector2, distance: int) -> bool {
    &&& p.x as int % (BLOCK_SIZE as int) == 0
    &&& p.y as int % (BLOCK_SIZE as int) == 0
    &&& -distance * BLOCK_SIZE <= p.x as int <= distance * BLOCK_SIZE
    &&& -distance * BLOCK_SIZE <= p.y as int <= distance * BLOCK_SIZE
}

/// Every cell offset of the square of side `2 * distance + 1` centred on
/// the origin, column by column.
pub open spec fn dense_offsets(distance: int) -> Seq<Vector2> {
    let side = 2 * distance + 1;
    Seq::new(
        (side * side) as nat,
        |k: int| v2((k / side - distance) * BLOCK_SIZE, (k % side - distance) * BLOCK_SIZE),
    )
}

/// Two different indices of the dense square give two different offsets.
pub proof fn lemma_dense_offsets_distinct(distance: int, i1: int, i2: int)
    requires
        1 <= distance <= MAX_SPAWN_DISTANCE,
        0 <= i1 < i2 < dense_offsets(distance).len(),
    ensures
        dense_offsets(distance)[i1] != dense_offsets(distance)[i2],
{
    let side = 2 * distance + 1;
    lemma_fundamental_div_mod(i1, side);
    lemma_fundamental_div_mod(i2, side);
    lemma_mod_bound(i1, side);
    lemma_mod_bound(i2, side);
    let q1 = i1 / side;
    let q2 = i2 / side;
    let r1 = i1 % side;
    let r2 = i2 % side;
    assert(0 <= q1 < side && 0 <= q2 < side) by (nonlinear_arith)
        requires
            i1 == side * q1 + r1,
            i2 == side * q2 + r2,
            0 <= r1 < side,
            0 <= r2 < side,
            0 <= i1 < side * side,
            0 <= i2 < side * side,
            0 < side,
    ;
    assert(-12000 <= (q1 - distance) * 6 <= 12006 && -12000 <= (q2 - distance) * 6 <= 12006
        && -12000 <= (r1 - distance) * 6 <= 12006 && -12000 <= (r2 - distance) * 6 <= 12006)
        by (nonlinear_arith)
        requires
            0 <= q1 < side,
            0 <= q2 < side,
            0 <= r1 < side,
            0 <= r2 < side,
            side == 2 * distance + 1,
            1 <= distance <= 2000,
    ;
    if q1 == q2 && r1 == r2 {
        assert(i1 == i2);
    }
}

/// Each offset of the dense square lies within the square and on the grid.
pub proof fn lemma_dense_offset_in_square(distance: int, k: int)
    requires
        1 <= distance <= MAX_SPAWN_DISTANCE,
        0 <= k < dense_offsets(distance).len(),
    ensures
        offset_in_square(dense_offsets(distance)[k], distance),
{
    let side = 2 * distance + 1;
    lemma_fundamental_div_mod(k, side);
    lemma_mod_bound(k, side);
    let q = k / side;
    let r = k % side;
    assert(0 <= q < side) by (nonlinear_arith)
        requires
            k == side * q + r,
            0 <= r < side,
            0 <= k < side * side,
            0 < side,
    ;
    assert((-distance) * BLOCK_SIZE <= (q - distance) * BLOCK_SIZE <= distance * BLOCK_SIZE
        && (-distance) * BLOCK_SIZE <= (r - distance) * BLOCK_SIZE <= distance * BLOCK_SIZE)
        by (nonlinear_arith)
        requires
            0 <= q <= 2 * distance,
            0 <= r <= 2 * distance,
            1 <= distance,
            BLOCK_SIZE == 6,
    ;
    assert(((q - distance) * BLOCK_SIZE) % (BLOCK_SIZE as int) == 0
        && ((r - distance) * BLOCK_SIZE) % (BLOCK_SIZE as int) == 0) by {
        lemma_fundamental_div_mod_converse(
            (q - distance) * BLOCK_SIZE,
            BLOCK_SIZE as int,
            q - distance,
            0,
        );
        lemma_fundamental_div_mod_converse(
            (r - distance) * BLOCK_SIZE,
            BLOCK_SIZE as int,
            r - distance,
            0,
        );
    }
}

/// The candidate offsets of one spawn batch: either the whole dense square,
/// or `distance`-many offsets sampled at random, without repetition, from
/// that square.
pub fn generate_positions(distance: i64, randomize: bool) -> (positions: Vec<Vector2>)
    requires
        1 <= distance <= MAX_SPAWN_DISTANCE,
    ensures
        !randomize ==> positions@ == dense_offsets(distance as int),
        randomize ==> positions@.len() == distance,
        forall|i: int|
            0 <= i < positions@.len() ==> offset_in_square(
                #[trigger] positions@[i],
                distance as int,
            ),
        forall|i: int, j: int|
            0 <= i < j < positions@.len() ==> positions@[i] != positions@[j],
{
    let side: i64 = 2 * distance + 1;
    proof {
        assert(3 <= side * side <= 2001 * 2001) by (nonlinear_arith)
            requires
                3 <= side <= 2001,
        ;
    }
    let total: usize = (side * side) as usize;
    let mut pool: Vec<Vector2> = Vec::new();
    for k in 0..total
        invariant
            side == 2 * distance + 1,
            1 <= distance <= MAX_SPAWN_DISTANCE,
            total == side * side,
            total <= 2001 * 2001,
            pool@ =~= dense_offsets(distance as int).take(k as int),
            forall|i: int|
                0 <= i < pool@.len() ==> offset_in_square(#[trigger] pool@[i], distance as int),
            forall|i: int, j: int| 0 <= i < j < pool@.len() ==> pool@[i] != pool@[j],
    {
        let xi: usize = k / (side as usize);
        let yi: usize = k % (side as usize);
        proof {
            lemma_mod_bound(k as int, side as int);
            assert(xi < side) by (nonlinear_arith)
                requires
                    k < side * side,
                    0 < side,
                    xi == k as int / side as int,
            ;
            assert(-2001 * 6 <= (xi as i64 - distance) * 6 <= 2001 * 6 && -2001 * 6 <= (
            yi as i64 - distance) * 6 <= 2001 * 6) by (nonlinear_arith)
                requires
                    0 <= xi < side,
                    0 <= yi < side,
                    side == 2 * distance + 1,
                    1 <= distance <= 1000,
            ;
        }
        let offset = vector2(
            (xi as i64 - distance) * crate::constants::BLOCK_SIZE,
            (yi as i64 - distance) * crate::constants::BLOCK_SIZE,
        );
        proof {
            lemma_dense_offset_in_square(distance as int, k as int);
            assert(offset == dense_offsets(distance as int)[k as int]);
            assert(forall|i: int|
                0 <= i < pool@.len() ==> #[trigger] pool@[i] != offset) by {
                assert forall|i: int| 0 <= i < pool@.len() implies #[trigger] pool@[i]
                    != offset by {
                    lemma_dense_offsets_distinct(distance as int, i, k as int);
                }
            }
            assert(pool@.push(offset) =~= dense_offsets(distance as int).take(k + 1));
        }
        pool.push(offset);
    }
    proof {
        assert(dense_offsets(distance as int).take(total as int) =~= dense_offsets(
            distance as int,
        ));
    }
    if !randomize {
        return pool;
    }
    let count: usize = distance as usize;
    let mut positions: Vec<Vector2> = Vec::new();
    proof {
        assert(count < total) by (nonlinear_arith)
            requires
                total == side * side,
                side == 2 * distance + 1,
                1 <= distance,
                count == distance,
        ;
    }
    for k in 0..count
        invariant
            positions@.len() == k,
            pool@.len() + k == total,
            count < total,
            total <= 2001 * 2001,
            forall|i: int|
                0 <= i < positions@.len() ==> offset_in_square(
                    #[trigger] positions@[i],
                    distance as int,
                ),
            forall|i: int|
                0 <= i < pool@.len() ==> offset_in_square(#[trigger] pool@[i], distance as int),
            forall|i: int, j: int|
                0 <= i < j < positions@.len() ==> positions@[i] != positions@[j],
            forall|i: int, j: int| 0 <= i < j < pool@.len() ==> pool@[i] != pool@[j],
            forall|i: int, j: int|
                0 <= i < positions@.len() && 0 <= j < pool@.len() ==> positions@[i] != pool@[j],
    {
        proof {
            assert(1 <= pool@.len() && pool@.len() <= 2001 * 2001);
        }
        let j = rand_in_range(0, (pool.len() - 1) as i64) as usize;
        let picked = pool[j];
        positions.push(picked);
        let ghost pool_before = pool@;
        pool.remove(j);
        proof {
            assert(forall|l: int|
                0 <= l < pool@.len() ==> #[trigger] pool@[l] == if l < j {
                    pool_before[l]
                } else {
                    pool_before[l + 1]
                });
        }
    }
    positions
}

/// Queries the occupancy index for the three cells below a block.
pub fn get_blocked_directions(self_block: Block, blocks_table: &OccupancyIndex) -> (r:
    BlockedDirections)
    requires
        self_block.position.bounded(),
        blocks_table.wf(),
    ensures
        r.bottom_middle == if blocks_table.occ().dom().contains(below_of(self_block.position)) {
            Some(blocks_table.occ()[below_of(self_block.position)])
        } else {
            Option::<Block>::None
        },
        r.bottom_left == if r.bottom_middle.is_some() && blocks_table.occ().dom().contains(
            diag_left_of(self_block.position),
        ) {
            Some(blocks_table.occ()[diag_left_of(self_block.position)])
        } else {
            Option::<Block>::None
        },
        r.bottom_right == if r.bottom_middle.is_some() && blocks_table.occ().dom().contains(
            diag_right_of(self_block.position),
        ) {
            Some(blocks_table.occ()[diag_right_of(self_block.position)])
        } else {
            Option::<Block>::None
        },
{
    let self_position = self_block.position;
    let block_size = crate::constants::BLOCK_SIZE;

    let bottom_left_position = self_position.offset(-block_size, -block_size);
    let bottom_right_position = self_position.offset(block_size, -block_size);
    let bottom_middle_position = self_position.offset(0, -block_size);

    let mut blocked_directions = BlockedDirections {
        bottom_left: None,
        bottom_middle: None,
        bottom_right: None,
    };

    if let Some(bottom_middle_block) = blocks_table.query(bottom_middle_position) {
        blocked_directions.bottom_middle = Some(bottom_middle_block);

        if let Some(bottom_left_block) = blocks_table.query(bottom_left_position) {
            blocked_directions.bottom_left = Some(bottom_left_block);
        }
        if let Some(bottom_right_block) = blocks_table.query(bottom_right_position) {
            blocked_directions.bottom_right = Some(bottom_right_block);
        }
    }

    blocked_directions
}

} // verus!
