//! The guarantees of the simulation step, stated and proved once and for
//! all: blocks stay on the grid and inside the arena, the occupancy index
//! never holds two blocks on one cell, gravity moves a free block exactly
//! one cell down, blocked blocks rest, sliding goes to the open diagonal,
//! and erased blocks do not survive a tick.

use vstd::prelude::*;

use crate::block::{
    below_of, diag_left_of, diag_right_of, step_block_spec, Block, BlockState, BlockType,
};
use crate::constants::BLOCK_SIZE;
use crate::events::{all_wf, tick_spec};
use crate::index::{lemma_occupancy_position, occupancy_of};
use crate::utils::Boundary;
use crate::vector::{lemma_snap_identity, snap_vec, Vector2};
use vstd::arithmetic::div_mod::lemma_add_mod_noop;

verus! {

/// A step never invents or forgets a block: identity, material, colour and
/// extent all survive; only position and motion state can change.
pub proof fn lemma_step_preserves_identity(b: Block, m: Map<Vector2, Block>, w: Boundary, slide_left: bool)
    ensures
        step_block_spec(b, m, w, slide_left).uid == b.uid,
        step_block_spec(b, m, w, slide_left).block_type == b.block_type,
        step_block_spec(b, m, w, slide_left).color == b.color,
        step_block_spec(b, m, w, slide_left).size == b.size,
{
}

/// A step keeps a block well-formed: in particular the new position is a
/// grid cell again.
pub proof fn lemma_step_preserves_wf(b: Block, m: Map<Vector2, Block>, w: Boundary, slide_left: bool)
    requires
        b.wf(),
        w.wf(),
    ensures
        step_block_spec(b, m, w, slide_left).wf(),
{
    let p = b.position;
    lemma_add_mod_noop(p.x as int, -(BLOCK_SIZE as int), BLOCK_SIZE as int);
    lemma_add_mod_noop(p.y as int, -(BLOCK_SIZE as int), BLOCK_SIZE as int);
    lemma_add_mod_noop(p.x as int, BLOCK_SIZE as int, BLOCK_SIZE as int);
}

/// After any tick every surviving block is well-formed and its position
/// equals its own snapped position: no block ever leaves the grid.
pub proof fn lemma_tick_stays_on_grid(
    blocks: Seq<Block>,
    erase: Set<Vector2>,
    w: Boundary,
    slide_choices: Seq<bool>,
)
    requires
        all_wf(blocks),
        w.wf(),
    ensures
        all_wf(tick_spec(blocks, erase, w, slide_choices)),
        forall|j: int|
            0 <= j < tick_spec(blocks, erase, w, slide_choices).len() ==> (#[trigger] tick_spec(
                blocks,
                erase,
                w,
                slide_choices,
            )[j]).position == snap_vec(tick_spec(blocks, erase, w, slide_choices)[j].position),
    decreases blocks.len(),
{
    let r = tick_spec(blocks, erase, w, slide_choices);
    if blocks.len() == 0 {
    } else {
        let t = blocks.drop_last();
        assert(all_wf(t)) by {
            assert(forall|i: int| 0 <= i < t.len() ==> t[i] == blocks[i]);
        }
        lemma_tick_stays_on_grid(t, erase, w, slide_choices);
        let prev = tick_spec(t, erase, w, slide_choices);
        let b = blocks.last();
        if !erase.contains(b.position) {
            let stepped = step_block_spec(
                b,
                occupancy_of(prev),
                w,
                slide_choices[blocks.len() - 1],
            );
            lemma_step_preserves_wf(b, occupancy_of(prev), w, slide_choices[blocks.len() - 1]);
            assert forall|j: int| 0 <= j < r.len() implies (#[trigger] r[j]).wf() by {
                if j < prev.len() {
                    assert(r[j] == prev[j]);
                }
            }
            assert forall|j: int| 0 <= j < r.len() implies (#[trigger] r[j]).position == snap_vec(
                r[j].position,
            ) by {
                lemma_snap_identity(r[j].position.x as int);
                lemma_snap_identity(r[j].position.y as int);
            }
        }
    }
}

/// The occupancy index never holds two blocks on one coordinate: distinct
/// cells are occupied by distinct blocks, each recorded at its own
/// position.
pub proof fn lemma_index_one_per_cell(s: Seq<Block>)
    ensures
        forall|p: Vector2, q: Vector2|
            occupancy_of(s).dom().contains(p) && occupancy_of(s).dom().contains(q) && p != q
                ==> #[trigger] occupancy_of(s)[p] != #[trigger] occupancy_of(s)[q],
{
    assert forall|p: Vector2, q: Vector2|
        occupancy_of(s).dom().contains(p) && occupancy_of(s).dom().contains(q) && p
            != q implies #[trigger] occupancy_of(s)[p] != #[trigger] occupancy_of(s)[q] by {
        lemma_occupancy_position(s, p);
        lemma_occupancy_position(s, q);
    }
}

/// A granular block with open, in-bounds space below always comes out of
/// the step falling, moved down by exactly one cell.
pub proof fn lemma_gravity_falls(b: Block, m: Map<Vector2, Block>, w: Boundary, slide_left: bool)
    requires
        b.wf(),
        b.block_type == BlockType::Sand,
        !m.dom().contains(below_of(b.position)),
        w.contains_spec(below_of(b.position)),
    ensures
        step_block_spec(b, m, w, slide_left).block_state == BlockState::Falling,
        step_block_spec(b, m, w, slide_left).position == below_of(b.position),
        step_block_spec(b, m, w, slide_left).position.x == b.position.x,
        step_block_spec(b, m, w, slide_left).position.y == b.position.y - BLOCK_SIZE,
{
}

/// A granular block resting on a settled support (an immovable block is
/// always settled) with both diagonals blocked never moves, and once
/// stacked the step changes nothing at all: ticking is idempotent on it.
pub proof fn lemma_rests_when_blocked(b: Block, m: Map<Vector2, Block>, w: Boundary, slide_left: bool)
    requires
        b.wf(),
        b.block_type == BlockType::Sand,
        m.dom().contains(below_of(b.position)),
        m[below_of(b.position)].block_state == BlockState::Stacked,
        m.dom().contains(diag_left_of(b.position)),
        m.dom().contains(diag_right_of(b.position)),
    ensures
        step_block_spec(b, m, w, slide_left).position == b.position,
        b.block_state == BlockState::Stacked ==> step_block_spec(b, m, w, slide_left) == b,
{
}

/// A granular block resting on a settled support with exactly its left
/// diagonal open and free moves one cell left and one cell down, and its
/// state becomes stacked.
pub proof fn lemma_slides_left(b: Block, m: Map<Vector2, Block>, w: Boundary, slide_left: bool)
    requires
        b.wf(),
        b.block_type == BlockType::Sand,
        m.dom().contains(below_of(b.position)),
        m[below_of(b.position)].block_state == BlockState::Stacked,
        !m.dom().contains(diag_left_of(b.position)),
        m.dom().contains(diag_right_of(b.position)),
        w.contains_spec(diag_left_of(b.position)),
    ensures
        step_block_spec(b, m, w, slide_left).position == diag_left_of(b.position),
        step_block_spec(b, m, w, slide_left).position.x == b.position.x - BLOCK_SIZE,
        step_block_spec(b, m, w, slide_left).position.y == b.position.y - BLOCK_SIZE,
        step_block_spec(b, m, w, slide_left).block_state == BlockState::Stacked,
{
}

/// With both diagonals open and free, the coin decides: heads slides one
/// cell down-left, tails one cell down-right.  The two outcomes really
/// differ.
pub proof fn lemma_tie_break_both_sides(b: Block, m: Map<Vector2, Block>, w: Boundary)
    requires
        b.wf(),
        b.block_type == BlockType::Sand,
        m.dom().contains(below_of(b.position)),
        m[below_of(b.position)].block_state == BlockState::Stacked,
        !m.dom().contains(diag_left_of(b.position)),
        !m.dom().contains(diag_right_of(b.position)),
        w.contains_spec(diag_left_of(b.position)),
        w.contains_spec(diag_right_of(b.position)),
    ensures
        step_block_spec(b, m, w, true).position == diag_left_of(b.position),
        step_block_spec(b, m, w, false).position == diag_right_of(b.position),
        step_block_spec(b, m, w, true).position != step_block_spec(b, m, w, false).position,
{
    assert(diag_left_of(b.position).x == b.position.x - BLOCK_SIZE);
    assert(diag_right_of(b.position).x == b.position.x + BLOCK_SIZE);
}

/// A step never moves a block to a position outside the arena: the new
/// position is the old one, or it satisfies the boundary inequalities.
pub proof fn lemma_moves_stay_in_bounds(b: Block, m: Map<Vector2, Block>, w: Boundary, slide_left: bool)
    requires
        b.wf(),
    ensures
        step_block_spec(b, m, w, slide_left).position == b.position || w.contains_spec(
            step_block_spec(b, m, w, slide_left).position,
        ),
{
}

/// Every block surviving a tick descends from a block of the previous
/// list whose position was not marked for erasure: a marked cell's block
/// is gone after the tick.
pub proof fn lemma_tick_drops_erased(
    blocks: Seq<Block>,
    erase: Set<Vector2>,
    w: Boundary,
    slide_choices: Seq<bool>,
)
    ensures
        forall|j: int|
            0 <= j < tick_spec(blocks, erase, w, slide_choices).len() ==> exists|i: int|
                0 <= i < blocks.len() && !erase.contains(blocks[i].position) && (
                #[trigger] tick_spec(blocks, erase, w, slide_choices)[j]).uid == blocks[i].uid
                    && tick_spec(blocks, erase, w, slide_choices)[j].block_type
                    == blocks[i].block_type,
    decreases blocks.len(),
{
    let r = tick_spec(blocks, erase, w, slide_choices);
    if blocks.len() == 0 {
    } else {
        let t = blocks.drop_last();
        lemma_tick_drops_erased(t, erase, w, slide_choices);
        let prev = tick_spec(t, erase, w, slide_choices);
        let b = blocks.last();
        assert forall|j: int| 0 <= j < r.len() implies exists|i: int|
            0 <= i < blocks.len() && !erase.contains(blocks[i].position) && (#[trigger] r[j]).uid
                == blocks[i].uid && r[j].block_type == blocks[i].block_type by {
            if j < prev.len() {
                assert(r[j] == prev[j]);
                let i = choose|i: int|
                    0 <= i < t.len() && !erase.contains(t[i].position) && prev[j].uid == t[i].uid
                        && prev[j].block_type == t[i].block_type;
                assert(blocks[i] == t[i]);
            } else {
                let m = occupancy_of(prev);
                let c = slide_choices[blocks.len() - 1];
                lemma_step_preserves_identity(b, m, w, c);
                assert(blocks[blocks.len() - 1] == b);
                assert(!erase.contains(b.position) && r[j].uid == b.uid && r[j].block_type
                    == b.block_type);
            }
        }
    }
}

} // verus!
