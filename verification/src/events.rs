//! The simulation state and its per-tick and command-layer transitions.

use vstd::prelude::*;

use crate::block::{
    in_spawn_range, is_sand_color, stone_color, touched_color, step_block_spec,
    Block, BlockState, BlockType, Color,
};
use crate::constants::{MAX_SPAWN_DISTANCE, SPAWN_AREA_LIMIT};
use crate::index::{
    distinct_positions, lemma_occupancy_contains, lemma_occupancy_last, lemma_occupancy_push,
    lemma_occupancy_update_last, lemma_occupancy_value_member, occupancy_of, EraseSet,
    OccupancyIndex,
};
use crate::rng::flip_coin;
use crate::utils::{dense_offsets, generate_positions, offset_in_square, Boundary};
use crate::vector::{
    lemma_snap_identity, lemma_snap_near, lemma_snap_offsets_distinct, round_position, snap_vec,
    v2, vector2, Vector2,
};

verus! {

/// Every block of the list is well-formed.
pub open spec fn all_wf(s: Seq<Block>) -> bool {
    forall|i: int| 0 <= i < s.len() ==> (#[trigger] s[i]).wf()
}

/// The full simulation state: the block list, the occupancy index derived
/// from it, the arena boundary, the pending-erase set of the current tick,
/// and the session state of the command layer (selected material, spawn
/// radius, mouse-held flag).
pub struct Model {
    pub blocks: Vec<Block>,
    pub block_positions: OccupancyIndex,
    pub positions_to_erase: EraseSet,
    pub window_positions: Boundary,
    pub spawn_distance: i64,
    pub selected_block: BlockType,
    pub mouse_held: bool,
}

/// One tick of the simulation over an ordered block list: blocks standing
/// on a pending-erase coordinate are dropped; every other block is stepped
/// by `step_block_spec`, in list order, each against the occupancy map of
/// the blocks already finalized before it, and appended to the result.
/// `slide_choices[i]` is the tie-break coin for the block at index `i`.
pub open spec fn tick_spec(
    blocks: Seq<Block>,
    erase: Set<Vector2>,
    w: Boundary,
    slide_choices: Seq<bool>,
) -> Seq<Block>
    decreases blocks.len(),
{
    if blocks.len() == 0 {
        Seq::empty()
    } else {
        let prev = tick_spec(blocks.drop_last(), erase, w, slide_choices);
        let b = blocks.last();
        if erase.contains(b.position) {
            prev
        } else {
            prev.push(
                step_block_spec(b, occupancy_of(prev), w, slide_choices[blocks.len() - 1]),
            )
        }
    }
}

impl Model {
    /// Well-formedness: the index is exactly the occupancy of the block
    /// list, every block is well-formed, the boundary is in range and the
    /// spawn radius is a sensible cell count.
    pub open spec fn wf(self) -> bool {
        &&& self.block_positions.wf()
        &&& self.block_positions.occ() == occupancy_of(self.blocks@)
        &&& all_wf(self.blocks@)
        &&& self.window_positions.wf()
        &&& 1 <= self.spawn_distance <= MAX_SPAWN_DISTANCE
    }

    /// A fresh, empty simulation over the given arena.
    pub fn new(window_positions: Boundary) -> (r: Model)
        requires
            window_positions.wf(),
        ensures
            r.wf(),
            r.blocks@ == Seq::<Block>::empty(),
            r.block_positions.occ() == Map::<Vector2, Block>::empty(),
            r.positions_to_erase.coords() == Set::<Vector2>::empty(),
            r.window_positions == window_positions,
            r.spawn_distance == 5,
            r.selected_block == BlockType::Sand,
            r.mouse_held == false,
    {
        let r = Model {
            blocks: Vec::new(),
            block_positions: OccupancyIndex::new(),
            positions_to_erase: EraseSet::new(),
            window_positions,
            spawn_distance: 5,
            selected_block: BlockType::Sand,
            mouse_held: false,
        };
        r
    }

    /// One tick with the tie-break coins given explicitly, so that a test
    /// harness can force each branch: applies the pending erases, steps
    /// every remaining block once in list order against the incrementally
    /// built occupancy index, commits the new block list and index, and
    /// clears the pending-erase set.
    #[verifier::loop_isolation(false)]
    pub fn update_with_choices(&mut self, slide_choices: &Vec<bool>)
        requires
            old(self).wf(),
            slide_choices@.len() == old(self).blocks@.len(),
        ensures
            final(self).wf(),
            final(self).blocks@ == tick_spec(
                old(self).blocks@,
                old(self).positions_to_erase.coords(),
                old(self).window_positions,
                slide_choices@,
            ),
            final(self).block_positions.occ() == occupancy_of(final(self).blocks@),
            final(self).positions_to_erase.coords() == Set::<Vector2>::empty(),
            final(self).window_positions == old(self).window_positions,
            final(self).spawn_distance == old(self).spawn_distance,
            final(self).selected_block == old(self).selected_block,
            final(self).mouse_held == old(self).mouse_held,
    {
        let ghost blocks0 = self.blocks@;
        let ghost erase0 = self.positions_to_erase.coords();
        let ghost w = self.window_positions;
        let n = self.blocks.len();
        let mut new_blocks: Vec<Block> = Vec::new();
        let mut new_block_positions = OccupancyIndex::new();
        for i in 0..n
            invariant
                *self == *old(self),
                new_blocks@ == tick_spec(blocks0.take(i as int), erase0, w, slide_choices@),
                new_block_positions.occ() == occupancy_of(new_blocks@),
                new_block_positions.wf(),
                all_wf(new_blocks@),
        {
            let mut block = self.blocks[i];
            proof {
                assert(blocks0.take(i + 1).drop_last() =~= blocks0.take(i as int));
                assert(blocks0.take(i + 1).last() == blocks0[i as int]);
            }
            if !self.positions_to_erase.contains(block.position) {
                block.update(&new_block_positions, &self.window_positions, slide_choices[i]);
                proof {
                    lemma_occupancy_push(new_blocks@, block);
                }
                new_block_positions.insert(block);
                new_blocks.push(block);
            }
        }
        proof {
            assert(blocks0.take(n as int) =~= blocks0);
        }
        self.blocks = new_blocks;
        self.block_positions = new_block_positions;
        self.positions_to_erase.clear();
    }

    /// One tick with the tie-break coins drawn at random.  Whatever the
    /// draws, the committed state is a `tick_spec` of the previous one for
    /// some choice sequence.
    pub fn update(&mut self)
        requires
            old(self).wf(),
        ensures
            final(self).wf(),
            exists|slide_choices: Seq<bool>|
                slide_choices.len() == old(self).blocks@.len() && final(self).blocks@
                    == #[trigger] tick_spec(
                    old(self).blocks@,
                    old(self).positions_to_erase.coords(),
                    old(self).window_positions,
                    slide_choices,
                ),
            final(self).block_positions.occ() == occupancy_of(final(self).blocks@),
            final(self).positions_to_erase.coords() == Set::<Vector2>::empty(),
            final(self).window_positions == old(self).window_positions,
            final(self).spawn_distance == old(self).spawn_distance,
            final(self).selected_block == old(self).selected_block,
            final(self).mouse_held == old(self).mouse_held,
    {
        let n = self.blocks.len();
        let mut slide_choices: Vec<bool> = Vec::new();
        for i in 0..n
            invariant
                slide_choices@.len() == i,
        {
            slide_choices.push(flip_coin());
        }
        self.update_with_choices(&slide_choices);
        proof {
            assert(slide_choices@.len() == old(self).blocks@.len() && self.blocks@ == tick_spec(
                old(self).blocks@,
                old(self).positions_to_erase.coords(),
                old(self).window_positions,
                slide_choices@,
            ));
        }
    }

    /// Records that the mouse button went down.
    pub fn mouse_pressed(&mut self)
        ensures
            *final(self) == (Model { mouse_held: true, ..*old(self) }),
    {
        self.mouse_held = true;
    }

    /// Records that the mouse button was released.
    pub fn mouse_released(&mut self)
        ensures
            *final(self) == (Model { mouse_held: false, ..*old(self) }),
    {
        self.mouse_held = false;
    }

    /// Adjusts the spawn radius by a scroll delta, clamped to the
    /// selectable range.
    pub fn mouse_wheel(&mut self, delta: i64)
        requires
            old(self).wf(),
        ensures
            final(self).wf(),
            final(self).spawn_distance == if old(self).spawn_distance + delta < 1 {
                1int
            } else if old(self).spawn_distance + delta > MAX_SPAWN_DISTANCE {
                MAX_SPAWN_DISTANCE as int
            } else {
                old(self).spawn_distance + delta
            },
            final(self).blocks == old(self).blocks,
            final(self).block_positions == old(self).block_positions,
            final(self).positions_to_erase == old(self).positions_to_erase,
            final(self).window_positions == old(self).window_positions,
            final(self).selected_block == old(self).selected_block,
            final(self).mouse_held == old(self).mouse_held,
    {
        if delta < 1 - self.spawn_distance {
            self.spawn_distance = 1;
        } else if delta > MAX_SPAWN_DISTANCE - self.spawn_distance {
            self.spawn_distance = MAX_SPAWN_DISTANCE;
        } else {
            self.spawn_distance = self.spawn_distance + delta;
        }
    }

    /// Selects the active tool from a typed character: `1` sand, `2`
    /// stone, `3` erase; anything else changes nothing.
    pub fn recieved_character(&mut self, character: char)
        ensures
            final(self).selected_block == if character == '1' {
                BlockType::Sand
            } else if character == '2' {
                BlockType::Stone
            } else if character == '3' {
                BlockType::Erase
            } else {
                old(self).selected_block
            },
            *final(self) == (Model {
                selected_block: final(self).selected_block,
                ..*old(self)
            }),
    {
        match character {
            '1' => self.selected_block = BlockType::Sand,
            '2' => self.selected_block = BlockType::Stone,
            '3' => self.selected_block = BlockType::Erase,
            _ => {},
        }
    }

    /// Installs the arena boundary recomputed after a resize.
    pub fn window_resized(&mut self, window_positions: Boundary)
        requires
            old(self).wf(),
            window_positions.wf(),
        ensures
            final(self).wf(),
            *final(self) == (Model { window_positions, ..*old(self) }),
    {
        self.window_positions = window_positions;
    }
}

/// A reference point every candidate cell of the largest batch stays in
/// range from.
pub open spec fn in_spawn_area(p: Vector2) -> bool {
    &&& -SPAWN_AREA_LIMIT <= p.x <= SPAWN_AREA_LIMIT
    &&& -SPAWN_AREA_LIMIT <= p.y <= SPAWN_AREA_LIMIT
}

/// The candidate cells of a spawn batch: each offset added to the
/// reference point, snapped to the grid.
pub open spec fn candidates_for(mouse: Vector2, offsets: Seq<Vector2>) -> Seq<Vector2> {
    Seq::new(
        offsets.len(),
        |k: int| snap_vec(v2(mouse.x + offsets[k].x, mouse.y + offsets[k].y)),
    )
}

/// A block with only its colour changed to the touched marker.
pub open spec fn tinted(b: Block) -> Block {
    Block { color: touched_color(), ..b }
}

/// `b` differs from `a` at most in its colour.
pub open spec fn same_but_color(a: Block, b: Block) -> bool {
    b == (Block { color: b.color, ..a })
}

/// The session fields a spawn command never touches.
pub open spec fn spawn_keeps_session(pre: Model, post: Model) -> bool {
    &&& post.window_positions == pre.window_positions
    &&& post.spawn_distance == pre.spawn_distance
    &&& post.selected_block == pre.selected_block
    &&& post.mouse_held == pre.mouse_held
}

/// What applying one spawn batch with candidate cells `cands` does.
///
/// With the erase tool, blocks and index are untouched and exactly the
/// occupied candidate cells join the pending-erase set.  With a material
/// tool, every previously occupied candidate cell keeps its block and only
/// gains the touched tint, every free candidate cell gains a fresh block
/// of the selected material, and nothing else changes: no duplicate
/// occupants ever arise.
pub open spec fn spawn_post(pre: Model, post: Model, cands: Seq<Vector2>) -> bool {
    let m0 = pre.block_positions.occ();
    let m1 = post.block_positions.occ();
    &&& spawn_keeps_session(pre, post)
    &&& if pre.selected_block == BlockType::Erase {
        &&& post.blocks@ == pre.blocks@
        &&& m1 == m0
        &&& post.block_positions.wf() == pre.block_positions.wf()
        &&& post.positions_to_erase.coords() == pre.positions_to_erase.coords().union(
            cands.to_set().intersect(m0.dom()),
        )
    } else {
        &&& post.positions_to_erase == pre.positions_to_erase
        &&& m1.dom() == m0.dom().union(cands.to_set())
        &&& (forall|p: Vector2| #[trigger]
            m0.dom().contains(p) ==> m1[p] == if cands.contains(p) {
                tinted(m0[p])
            } else {
                m0[p]
            })
        &&& (forall|p: Vector2|
            cands.contains(p) && !m0.dom().contains(p) ==> {
                &&& (#[trigger] m1[p]).position == p
                &&& m1[p].block_type == pre.selected_block
                &&& m1[p].block_state == BlockState::Falling || pre.selected_block
                    == BlockType::Stone
                &&& (pre.selected_block == BlockType::Sand ==> is_sand_color(m1[p].color)
                    && m1[p].block_state == BlockState::Falling)
                &&& (pre.selected_block == BlockType::Stone ==> m1[p].color == stone_color()
                    && m1[p].block_state == BlockState::Stacked)
            })
        &&& pre.blocks@.len() <= post.blocks@.len()
        &&& (forall|i: int|
            0 <= i < pre.blocks@.len() ==> same_but_color(
                pre.blocks@[i],
                #[trigger] post.blocks@[i],
            ) && (post.blocks@[i] == pre.blocks@[i] || post.blocks@[i].color
                == touched_color()))
        &&& (forall|i: int|
            pre.blocks@.len() <= i < post.blocks@.len() ==> cands.contains(
                (#[trigger] post.blocks@[i]).position,
            ) && !m0.dom().contains(post.blocks@[i].position))
        &&& (distinct_positions(pre.blocks@) ==> distinct_positions(post.blocks@))
    }
}

impl Model {
    /// Applies one spawn batch at the given candidate cells, in order.
    /// Erase tool: occupied candidates are marked for erasure.  Material
    /// tool: an occupied candidate only tints the existing occupant, a
    /// free candidate receives a fresh block, registered immediately so
    /// that later candidates of the same batch see it as occupied.
    #[verifier::loop_isolation(false)]
    pub fn apply_spawn(&mut self, candidates: &Vec<Vector2>)
        requires
            old(self).wf(),
            forall|i: int|
                0 <= i < candidates@.len() ==> (#[trigger] candidates@[i]).on_grid()
                    && in_spawn_range(candidates@[i].x as int) && in_spawn_range(
                    candidates@[i].y as int,
                ),
            forall|i: int, j: int|
                0 <= i < j < candidates@.len() ==> candidates@[i] != candidates@[j],
        ensures
            final(self).wf(),
            spawn_post(*old(self), *final(self), candidates@),
    {
        let ghost cands = candidates@;
        proof {
            assert(cands.take(0) =~= Seq::<Vector2>::empty());
            let m0 = old(self).block_positions.occ();
            assert(old(self).positions_to_erase.coords().union(
                cands.take(0).to_set().intersect(m0.dom()),
            ) =~= old(self).positions_to_erase.coords());
            assert(m0.dom().union(cands.take(0).to_set()) =~= m0.dom());
        }
        let n = candidates.len();
        for k in 0..n
            invariant
                self.wf(),
                spawn_post(*old(self), *self, cands.take(k as int)),
        {
            let p = candidates[k];
            proof {
                assert(cands.take(k + 1).drop_last() =~= cands.take(k as int));
                assert(cands.take(k + 1).last() == p);
                assert(forall|q: Vector2| #[trigger]
                    cands.take(k + 1).contains(q) <==> cands.take(k as int).contains(q) || q
                        == p);
                assert(!cands.take(k as int).contains(p));
            }
            if let BlockType::Erase = self.selected_block {
                let occupied = self.block_positions.contains(p);
                if occupied {
                    self.positions_to_erase.record(p);
                }
                proof {
                    let m0 = old(self).block_positions.occ();
                    let before = old(self).positions_to_erase.coords().union(
                        cands.take(k as int).to_set().intersect(m0.dom()),
                    );
                    let after = old(self).positions_to_erase.coords().union(
                        cands.take(k + 1).to_set().intersect(m0.dom()),
                    );
                    if occupied {
                        assert(before.insert(p) =~= after);
                    } else {
                        assert(before =~= after);
                    }
                }
            } else {
                let existing = self.block_positions.query(p);
                match existing {
                    Some(existing_block) => {
                        self.touch_block(p, existing_block);
                        proof {
                            let m0 = old(self).block_positions.occ();
                            assert(m0.dom().contains(p));
                            assert(m0.dom().union(cands.take(k + 1).to_set()) =~= m0.dom().union(
                                cands.take(k as int).to_set(),
                            ));
                            assert(self.block_positions.occ().dom() =~= m0.dom().union(
                                cands.take(k + 1).to_set(),
                            ));
                        }
                    },
                    None => {
                        let new_block = Block::new(self.selected_block, p);
                        proof {
                            lemma_snap_identity(p.x as int);
                            lemma_snap_identity(p.y as int);
                            assert(new_block.position == p);
                            lemma_occupancy_push(self.blocks@, new_block);
                            lemma_occupancy_contains(self.blocks@, p);
                            if distinct_positions(old(self).blocks@) {
                                assert forall|a: int, b: int|
                                    0 <= a < b < self.blocks@.push(new_block).len() implies self
                                    .blocks@.push(new_block)[a].position != self.blocks@.push(
                                    new_block,
                                )[b].position by {
                                    if b == self.blocks@.len() {
                                        lemma_occupancy_contains(
                                            self.blocks@,
                                            self.blocks@[a].position,
                                        );
                                    }
                                }
                            }
                        }
                        self.blocks.push(new_block);
                        self.block_positions.insert(new_block);
                        proof {
                            let m0 = old(self).block_positions.occ();
                            assert(self.block_positions.occ().dom() =~= m0.dom().union(
                                cands.take(k + 1).to_set(),
                            ));
                        }
                    },
                }
            }
        }
        proof {
            assert(cands.take(n as int) =~= cands);
        }
    }

    /// One spawn command at the given reference point, with the session's
    /// selected material and radius.  A radius of one places a single
    /// block at the snapped reference point; the stone and erase tools use
    /// the dense square of candidate offsets; the sand tool samples
    /// `spawn_distance` random distinct offsets from that square.
    #[verifier::loop_isolation(false)]
    #[verifier::rlimit(60)]
    pub fn handle_mousedown(&mut self, mouse_position: Vector2)
        requires
            old(self).wf(),
            in_spawn_area(mouse_position),
        ensures
            final(self).wf(),
            exists|cands: Seq<Vector2>|
                #[trigger] spawn_post(*old(self), *final(self), cands) && (old(
                    self,
                ).spawn_distance == 1 ==> cands == seq![snap_vec(mouse_position)]) && (old(
                    self,
                ).spawn_distance != 1 && old(self).selected_block != BlockType::Sand
                    ==> cands == candidates_for(
                    mouse_position,
                    dense_offsets(old(self).spawn_distance as int),
                )) && (old(self).spawn_distance != 1 && old(self).selected_block
                    == BlockType::Sand ==> cands.len() == old(self).spawn_distance),
    {
        let randomize = match self.selected_block {
            BlockType::Sand => true,
            _ => false,
        };
        let ghost distance = self.spawn_distance as int;
        let offsets: Vec<Vector2>;
        if self.spawn_distance == 1 {
            // A radius of one spawns a single block at the pointer.
            let mut single: Vec<Vector2> = Vec::new();
            single.push(vector2(0, 0));
            offsets = single;
            proof {
                assert(offset_in_square(offsets@[0], distance));
            }
        } else {
            offsets = generate_positions(self.spawn_distance, randomize);
        }
        let m = offsets.len();
        let mut candidates: Vec<Vector2> = Vec::new();
        for i in 0..m
            invariant
                candidates@ == candidates_for(mouse_position, offsets@.take(i as int)),
                forall|j: int|
                    0 <= j < i ==> (#[trigger] candidates@[j]).on_grid() && in_spawn_range(
                        candidates@[j].x as int,
                    ) && in_spawn_range(candidates@[j].y as int),
                forall|a: int, b: int|
                    0 <= a < b < i ==> candidates@[a] != candidates@[b],
        {
            let o = offsets[i];
            let c = round_position(mouse_position.offset(o.x, o.y));
            proof {
                lemma_snap_near(mouse_position.x + o.x);
                lemma_snap_near(mouse_position.y + o.y);
                assert forall|a: int| 0 <= a < i implies candidates@[a] != c by {
                    lemma_snap_offsets_distinct(mouse_position, offsets@[a], o);
                }
                assert(candidates@.push(c) =~= candidates_for(
                    mouse_position,
                    offsets@.take(i + 1),
                ));
            }
            candidates.push(c);
        }
        proof {
            assert(offsets@.take(m as int) =~= offsets@);
        }
        self.apply_spawn(&candidates);
        proof {
            if old(self).spawn_distance == 1 {
                assert(candidates@ =~= seq![snap_vec(mouse_position)]);
            }
        }
    }

    /// Applies the touched tint to the block occupying `p`: the last block
    /// of the list standing on `p` gets the marker colour, in the list and
    /// in the index.
    fn touch_block(&mut self, p: Vector2, existing_block: Block)
        requires
            old(self).wf(),
            old(self).block_positions.occ().dom().contains(p),
            existing_block == old(self).block_positions.occ()[p],
        ensures
            final(self).wf(),
            final(self).block_positions.occ() == old(self).block_positions.occ().insert(
                p,
                tinted(existing_block),
            ),
            final(self).blocks@.len() == old(self).blocks@.len(),
            forall|i: int|
                0 <= i < old(self).blocks@.len() ==> final(self).blocks@[i] == old(
                    self,
                ).blocks@[i] || final(self).blocks@[i] == tinted(old(self).blocks@[i]),
            forall|i: int|
                0 <= i < old(self).blocks@.len() ==> (#[trigger] final(self).blocks@[i]).position
                    == old(self).blocks@[i].position,
            final(self).positions_to_erase == old(self).positions_to_erase,
            final(self).window_positions == old(self).window_positions,
            final(self).spawn_distance == old(self).spawn_distance,
            final(self).selected_block == old(self).selected_block,
            final(self).mouse_held == old(self).mouse_held,
    {
        proof {
            lemma_occupancy_contains(self.blocks@, p);
        }
        let n = self.blocks.len();
        let mut idx: usize = 0;
        let mut found = false;
        for t in 0..n
            invariant
                n == self.blocks.len(),
                *self == *old(self),
                found <==> exists|j: int| 0 <= j < t && self.blocks@[j].position == p,
                found ==> idx < t && self.blocks@[idx as int].position == p && (forall|j: int|
                    idx < j < t ==> self.blocks@[j].position != p),
        {
            if self.blocks[t].position == p {
                idx = t;
                found = true;
            }
        }
        proof {
            let i = choose|i: int| 0 <= i < self.blocks@.len() && self.blocks@[i].position == p;
            assert(found);
            lemma_occupancy_last(self.blocks@, idx as int);
            assert(self.blocks@[idx as int] == existing_block);
            lemma_occupancy_value_member(self.blocks@, p);
        }
        let mut tinted_block = existing_block;
        tinted_block.color = Color { red: 0, green: 0, blue: 255 };
        proof {
            assert(tinted_block == tinted(existing_block));
            lemma_occupancy_update_last(self.blocks@, idx as int, tinted_block);
        }
        self.blocks[idx] = tinted_block;
        self.block_positions.insert(tinted_block);
        proof {
            assert(all_wf(self.blocks@)) by {
                assert(forall|i: int|
                    0 <= i < self.blocks@.len() && i != idx ==> self.blocks@[i] == old(
                        self,
                    ).blocks@[i]);
            }
        }
    }
}

/// Whether enough time has passed since the last spawn for a held mouse
/// button to spawn again.
pub fn cooldown_over(elapsed_ms: u64, delay_ms: u64) -> (r: bool)
    ensures
        r == (elapsed_ms >= delay_ms),
{
    elapsed_ms >= delay_ms
}

} // verus!
