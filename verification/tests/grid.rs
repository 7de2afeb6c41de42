use falling_sand::block::{Block, BlockType};
use falling_sand::index::{EraseSet, OccupancyIndex};
use falling_sand::utils::{generate_positions, get_blocked_directions, Boundary};
use falling_sand::vector::{round_number, round_position, vector2};

#[test]
fn rounding_to_nearest_cell() {
    assert_eq!(round_number(0), 0);
    assert_eq!(round_number(2), 0);
    assert_eq!(round_number(3), 6);
    assert_eq!(round_number(8), 6);
    assert_eq!(round_number(9), 12);
    assert_eq!(round_number(14), 12);
    assert_eq!(round_number(-2), 0);
    assert_eq!(round_number(-3), -6);
    assert_eq!(round_number(-8), -6);
    assert_eq!(round_number(-9), -12);
    assert_eq!(round_number(600), 600);
    assert_eq!(round_number(-600), -600);
}

#[test]
fn rounding_positions_componentwise() {
    let p = round_position(vector2(7, -4));
    assert_eq!(p.x, 6);
    assert_eq!(p.y, -6);
    let q = round_position(vector2(-15, 15));
    assert_eq!(q.x, -18);
    assert_eq!(q.y, 18);
}

#[test]
fn vector_arithmetic() {
    let v = vector2(1, 2).offset(3, -4);
    assert_eq!(v.x, 4);
    assert_eq!(v.y, -2);
    let w = vector2(2, -3).scaled(6);
    assert_eq!(w.x, 12);
    assert_eq!(w.y, -18);
}

#[test]
fn index_insert_query_contains() {
    let mut index = OccupancyIndex::new();
    let a = Block::new(BlockType::Stone, vector2(0, 0));
    let b = Block::new(BlockType::Stone, vector2(6, 0));
    index.insert(a);
    index.insert(b);
    assert!(index.contains(vector2(0, 0)));
    assert!(index.contains(vector2(6, 0)));
    assert!(!index.contains(vector2(12, 0)));
    let got = index.query(vector2(0, 0)).unwrap();
    assert_eq!(got.uid, a.uid);
    assert!(index.query(vector2(0, 6)).is_none());
}

#[test]
fn index_last_entry_wins() {
    let first = Block::new(BlockType::Stone, vector2(0, 0));
    let second = Block::new(BlockType::Sand, vector2(0, 0));
    let blocks = vec![first, second];
    let index = OccupancyIndex::build(&blocks);
    let got = index.query(vector2(0, 0)).unwrap();
    assert_eq!(got.uid, second.uid);
    assert_eq!(got.block_type, BlockType::Sand);
}

#[test]
fn erase_set_records_and_clears() {
    let mut set = EraseSet::new();
    assert!(!set.contains(vector2(0, 0)));
    set.record(vector2(0, 0));
    set.record(vector2(6, 6));
    assert!(set.contains(vector2(0, 0)));
    assert!(set.contains(vector2(6, 6)));
    assert!(!set.contains(vector2(6, 0)));
    set.clear();
    assert!(!set.contains(vector2(0, 0)));
}

#[test]
fn dense_offsets_cover_the_square() {
    let offsets = generate_positions(1, false);
    assert_eq!(offsets.len(), 9);
    assert_eq!(offsets[0], vector2(-6, -6));
    assert_eq!(offsets[1], vector2(-6, 0));
    assert_eq!(offsets[2], vector2(-6, 6));
    assert_eq!(offsets[3], vector2(0, -6));
    assert_eq!(offsets[4], vector2(0, 0));
    assert_eq!(offsets[8], vector2(6, 6));
}

#[test]
fn random_offsets_distinct_and_in_square() {
    let offsets = generate_positions(5, true);
    assert_eq!(offsets.len(), 5);
    for i in 0..offsets.len() {
        assert_eq!(offsets[i].x % 6, 0);
        assert_eq!(offsets[i].y % 6, 0);
        assert!(offsets[i].x >= -30 && offsets[i].x <= 30);
        assert!(offsets[i].y >= -30 && offsets[i].y <= 30);
        for j in 0..i {
            assert!(offsets[j] != offsets[i]);
        }
    }
}

#[test]
fn blocked_directions_follow_the_index() {
    let stone_mid = Block::new(BlockType::Stone, vector2(0, 0));
    let stone_right = Block::new(BlockType::Stone, vector2(6, 0));
    let sand = Block::new(BlockType::Sand, vector2(0, 6));

    let mut index = OccupancyIndex::new();
    index.insert(stone_mid);
    index.insert(stone_right);
    let blocked = get_blocked_directions(sand, &index);
    assert!(blocked.bottom_middle.is_some());
    assert!(blocked.bottom_right.is_some());
    assert!(blocked.bottom_left.is_none());

    // Without a middle occupant the diagonals are not even looked up.
    let mut only_sides = OccupancyIndex::new();
    only_sides.insert(Block::new(BlockType::Stone, vector2(-6, 0)));
    only_sides.insert(Block::new(BlockType::Stone, vector2(6, 0)));
    let blocked = get_blocked_directions(sand, &only_sides);
    assert!(blocked.bottom_middle.is_none());
    assert!(blocked.bottom_left.is_none());
    assert!(blocked.bottom_right.is_none());
}

#[test]
fn boundary_inequalities() {
    let bounds = Boundary { left: -300, right: 300, top: 200, bottom: -200 };
    let sand = Block::new(BlockType::Sand, vector2(0, 0));
    assert!(sand.position_in_bounds(vector2(0, 0), &bounds));
    assert!(sand.position_in_bounds(vector2(-300, 200), &bounds));
    assert!(!sand.position_in_bounds(vector2(-306, 0), &bounds));
    assert!(!sand.position_in_bounds(vector2(0, 206), &bounds));
    assert!(!sand.position_in_bounds(vector2(0, -206), &bounds));
    assert!(!sand.position_in_bounds(vector2(306, 0), &bounds));
}
