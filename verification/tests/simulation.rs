use falling_sand::block::{Block, BlockState, BlockType, Color};
use falling_sand::events::{cooldown_over, Model};
use falling_sand::index::{EraseSet, OccupancyIndex};
use falling_sand::rng::flip_coin;
use falling_sand::utils::Boundary;
use falling_sand::vector::{vector2, Vector2};

fn arena() -> Boundary {
    Boundary { left: -300, right: 300, top: 200, bottom: 0 }
}

fn model_with(blocks: Vec<Block>) -> Model {
    let block_positions = OccupancyIndex::build(&blocks);
    Model {
        blocks,
        block_positions,
        positions_to_erase: EraseSet::new(),
        window_positions: arena(),
        spawn_distance: 5,
        selected_block: BlockType::Sand,
        mouse_held: false,
    }
}

fn sand_palette() -> [Color; 3] {
    [
        Color { red: 222, green: 178, blue: 111 },
        Color { red: 229, green: 183, blue: 114 },
        Color { red: 216, green: 172, blue: 108 },
    ]
}

#[test]
fn new_sand_block_snaps_and_falls() {
    let b = Block::new(BlockType::Sand, vector2(1, 7));
    assert_eq!(b.position, vector2(0, 6));
    assert_eq!(b.block_type, BlockType::Sand);
    assert_eq!(b.block_state, BlockState::Falling);
    assert_eq!(b.size, vector2(6, 6));
    assert!(sand_palette().contains(&b.color));
}

#[test]
fn new_stone_block_is_settled() {
    let b = Block::new(BlockType::Stone, vector2(-4, -4));
    assert_eq!(b.position, vector2(-6, -6));
    assert_eq!(b.block_state, BlockState::Stacked);
    assert_eq!(b.color, Color { red: 98, green: 95, blue: 89 });
}

#[test]
fn free_block_falls_one_cell_per_tick() {
    let sand = Block::new(BlockType::Sand, vector2(0, 12));
    let mut model = model_with(vec![sand]);
    model.update_with_choices(&vec![false]);
    assert_eq!(model.blocks.len(), 1);
    assert_eq!(model.blocks[0].position, vector2(0, 6));
    assert_eq!(model.blocks[0].block_state, BlockState::Falling);
    model.update_with_choices(&vec![false]);
    assert_eq!(model.blocks[0].position, vector2(0, 0));
    assert_eq!(model.blocks[0].block_state, BlockState::Falling);
}

#[test]
fn floor_stops_a_falling_block() {
    // The cell below (0, 0) is outside the arena: the move is rejected
    // like a collision and the block stacks in place.
    let sand = Block::new(BlockType::Sand, vector2(0, 0));
    let mut model = model_with(vec![sand]);
    model.update_with_choices(&vec![false]);
    assert_eq!(model.blocks[0].position, vector2(0, 0));
    assert_eq!(model.blocks[0].block_state, BlockState::Stacked);
}

#[test]
fn blocked_diagonals_keep_a_block_resting() {
    let left = Block::new(BlockType::Stone, vector2(-6, 0));
    let mid = Block::new(BlockType::Stone, vector2(0, 0));
    let right = Block::new(BlockType::Stone, vector2(6, 0));
    let sand = Block::new(BlockType::Sand, vector2(0, 6));
    let mut model = model_with(vec![left, mid, right, sand]);
    model.update_with_choices(&vec![false, false, false, false]);
    assert_eq!(model.blocks[3].position, vector2(0, 6));
    assert_eq!(model.blocks[3].block_state, BlockState::Stacked);
    // Idempotent across repeated ticks.
    model.update_with_choices(&vec![true, true, true, true]);
    assert_eq!(model.blocks[3].position, vector2(0, 6));
    assert_eq!(model.blocks[3].block_state, BlockState::Stacked);
}

#[test]
fn open_left_diagonal_slides_left() {
    let mid = Block::new(BlockType::Stone, vector2(0, 0));
    let right = Block::new(BlockType::Stone, vector2(6, 0));
    let sand = Block::new(BlockType::Sand, vector2(0, 6));
    let mut model = model_with(vec![mid, right, sand]);
    // The coin must not matter: only the left diagonal is open.
    model.update_with_choices(&vec![false, false, false]);
    assert_eq!(model.blocks[2].position, vector2(-6, 0));
    assert_eq!(model.blocks[2].block_state, BlockState::Stacked);
}

#[test]
fn stone_support_both_diagonals_open() {
    // Grid cell size 6, immovable block at (0, 0), granular block at
    // (0, 6): the stacking logic runs and the block moves to (-6, 0) or
    // (6, 0), with state stacked, depending on the coin.
    let stone = Block::new(BlockType::Stone, vector2(0, 0));
    let sand = Block::new(BlockType::Sand, vector2(0, 6));

    let mut leftward = model_with(vec![stone, sand]);
    leftward.update_with_choices(&vec![true, true]);
    assert_eq!(leftward.blocks[1].position, vector2(-6, 0));
    assert_eq!(leftward.blocks[1].block_state, BlockState::Stacked);

    let mut rightward = model_with(vec![stone, sand]);
    rightward.update_with_choices(&vec![false, false]);
    assert_eq!(rightward.blocks[1].position, vector2(6, 0));
    assert_eq!(rightward.blocks[1].block_state, BlockState::Stacked);
}

#[test]
fn waiting_above_a_falling_block() {
    // A freshly spawned block is still falling; a block directly above a
    // falling neighbour does nothing this tick.
    let bounds = arena();
    let faller = Block::new(BlockType::Sand, vector2(0, 0));
    let mut index = OccupancyIndex::new();
    index.insert(faller);
    let mut above = Block::new(BlockType::Sand, vector2(0, 6));
    above.update(&index, &bounds, false);
    assert_eq!(above.position, vector2(0, 6));
    assert_eq!(above.block_state, BlockState::Falling);
}

#[test]
fn stones_never_move() {
    let stone = Block::new(BlockType::Stone, vector2(12, 18));
    let mut model = model_with(vec![stone]);
    for _ in 0..5 {
        model.update();
        assert_eq!(model.blocks[0].position, vector2(12, 18));
        assert_eq!(model.blocks[0].block_state, BlockState::Stacked);
    }
}

#[test]
fn every_tick_keeps_blocks_on_the_grid() {
    let mut model = model_with(Vec::new());
    model.recieved_character('1');
    model.handle_mousedown(vector2(2, 100));
    model.handle_mousedown(vector2(-40, 62));
    for _ in 0..10 {
        model.update();
        for b in &model.blocks {
            assert_eq!(b.position.x % 6, 0);
            assert_eq!(b.position.y % 6, 0);
            // The index keeps one block per cell and knows each of them.
            let occupant = model.block_positions.query(b.position);
            assert!(occupant.is_some());
        }
    }
}

#[test]
fn erase_removes_the_block_on_the_next_tick() {
    let mut model = model_with(Vec::new());
    model.mouse_wheel(-10);  // radius 1: a single candidate cell
    model.recieved_character('2');
    model.handle_mousedown(vector2(0, 0));
    assert_eq!(model.blocks.len(), 1);
    model.recieved_character('3');
    model.handle_mousedown(vector2(0, 0));
    model.update();
    assert_eq!(model.blocks.len(), 0);
}

#[test]
fn erase_on_an_empty_cell_is_a_no_op() {
    let mut model = model_with(Vec::new());
    model.mouse_wheel(-10);
    model.recieved_character('2');
    model.handle_mousedown(vector2(0, 0));
    model.recieved_character('3');
    model.handle_mousedown(vector2(60, 60));
    model.update();
    assert_eq!(model.blocks.len(), 1);
    assert_eq!(model.blocks[0].position, vector2(0, 0));
}

#[test]
fn spawning_into_an_occupied_cell_only_tints() {
    let mut model = model_with(Vec::new());
    model.mouse_wheel(-10);
    model.recieved_character('2');
    model.handle_mousedown(vector2(0, 0));
    let first_uid = model.blocks[0].uid;
    model.handle_mousedown(vector2(1, -2));  // snaps to the same cell
    assert_eq!(model.blocks.len(), 1);
    assert_eq!(model.blocks[0].uid, first_uid);
    assert_eq!(model.blocks[0].color, Color { red: 0, green: 0, blue: 255 });
}

#[test]
fn overlapping_batches_never_duplicate_occupants() {
    let mut model = model_with(Vec::new());
    model.recieved_character('2');
    model.mouse_wheel(-3);  // radius 2: a dense 5 x 5 batch
    model.handle_mousedown(vector2(0, 60));
    assert_eq!(model.blocks.len(), 25);
    model.handle_mousedown(vector2(6, 60));  // overlaps all but one column
    assert_eq!(model.blocks.len(), 25 + 5);
    for i in 0..model.blocks.len() {
        for j in 0..i {
            assert!(model.blocks[j].position != model.blocks[i].position);
        }
    }
}

#[test]
fn sand_spawn_uses_the_radius_as_count() {
    let mut model = model_with(Vec::new());
    model.recieved_character('1');
    model.mouse_wheel(-1);  // radius 4
    model.handle_mousedown(vector2(0, 120));
    assert_eq!(model.blocks.len(), 4);
    for i in 0..model.blocks.len() {
        for j in 0..i {
            assert!(model.blocks[j].position != model.blocks[i].position);
        }
    }
}

#[test]
fn tool_selection_and_radius() {
    let mut model = model_with(Vec::new());
    assert_eq!(model.selected_block, BlockType::Sand);
    model.recieved_character('2');
    assert_eq!(model.selected_block, BlockType::Stone);
    model.recieved_character('3');
    assert_eq!(model.selected_block, BlockType::Erase);
    model.recieved_character('x');
    assert_eq!(model.selected_block, BlockType::Erase);
    model.recieved_character('1');
    assert_eq!(model.selected_block, BlockType::Sand);

    model.mouse_wheel(3);
    assert_eq!(model.spawn_distance, 8);
    model.mouse_wheel(-100);
    assert_eq!(model.spawn_distance, 1);
    model.mouse_wheel(i64::MAX);
    assert_eq!(model.spawn_distance, 1000);

    model.mouse_pressed();
    assert!(model.mouse_held);
    model.mouse_released();
    assert!(!model.mouse_held);
}

#[test]
fn window_resize_installs_the_new_boundary() {
    let mut model = model_with(Vec::new());
    let bounds = Boundary { left: -60, right: 60, top: 60, bottom: -60 };
    model.window_resized(bounds);
    assert_eq!(model.window_positions, bounds);
}

#[test]
fn cooldown_gate() {
    assert!(cooldown_over(0, 0));
    assert!(cooldown_over(10, 10));
    assert!(!cooldown_over(5, 10));
}

#[test]
fn tie_break_takes_both_sides_over_many_draws() {
    let mut saw_left = false;
    let mut saw_right = false;
    for _ in 0..300 {
        if flip_coin() {
            saw_left = true;
        } else {
            saw_right = true;
        }
    }
    assert!(saw_left && saw_right);
}

#[test]
fn random_tie_break_reaches_both_cells() {
    let mut saw_left = false;
    let mut saw_right = false;
    for _ in 0..200 {
        let stone = Block::new(BlockType::Stone, vector2(0, 0));
        let sand = Block::new(BlockType::Sand, vector2(0, 6));
        let mut model = model_with(vec![stone, sand]);
        model.update();
        match model.blocks[1].position {
            Vector2 { x: -6, y: 0 } => saw_left = true,
            Vector2 { x: 6, y: 0 } => saw_right = true,
            other => panic!("unexpected landing cell ({}, {})", other.x, other.y),
        }
    }
    assert!(saw_left && saw_right);
}
