use particles::board::{Board, OutOfBounds};
use particles::tile::{Tile, TileType};

#[test]
fn new_board_has_wall_border_and_empty_interior() {
    let b = Board::new(5, 4);
    assert_eq!(b.width(), 4);
    assert_eq!(b.height(), 5);
    for x in 0..4 {
        for y in 0..5 {
            let t = b.get(x, y).unwrap();
            if x == 0 || x == 3 || y == 0 || y == 4 {
                assert_eq!(t.tile_type, TileType::Wall);
                assert!(t.solid);
                assert!(!t.gas);
            } else {
                assert_eq!(t.tile_type, TileType::Empty);
                assert!(t.gas);
                assert!(!t.solid);
            }
        }
    }
}

#[test]
fn get_out_of_bounds_is_absent() {
    let b = Board::new(3, 3);
    assert!(b.get(3, 0).is_none());
    assert!(b.get(0, 3).is_none());
    assert!(b.get(10, 10).is_none());
    assert!(b.get(2, 2).is_some());
}

#[test]
fn set_overwrites_and_marks_dirty() {
    let mut b = Board::new(4, 4);
    let _ = b.drain_dirty();
    let r = b.set(1, 2, Tile::from_type(TileType::Sand));
    assert_eq!(r, Ok(()));
    assert_eq!(b.get(1, 2).unwrap().tile_type, TileType::Sand);
    assert_eq!(b.drain_dirty(), vec![(1, 2)]);
}

#[test]
fn set_out_of_bounds_is_rejected_and_changes_nothing() {
    let mut b = Board::new(4, 4);
    let _ = b.drain_dirty();
    let r = b.set(4, 1, Tile::from_type(TileType::Sand));
    assert_eq!(r, Err(OutOfBounds));
    assert!(b.drain_dirty().is_empty());
}

#[test]
fn swap_exchanges_cells_and_records_both_dirty() {
    let mut b = Board::new(5, 5);
    let _ = b.set(1, 1, Tile::from_type(TileType::Sand));
    let _ = b.set(2, 3, Tile::from_type(TileType::Water));
    let _ = b.drain_dirty();
    b.swap(1, 1, 2, 3);
    assert_eq!(b.get(1, 1).unwrap().tile_type, TileType::Water);
    assert_eq!(b.get(2, 3).unwrap().tile_type, TileType::Sand);
    assert_eq!(b.drain_dirty(), vec![(1, 1), (2, 3)]);
}

#[test]
fn drain_dirty_reports_border_once_then_empties() {
    let mut b = Board::new(3, 3);
    let first = b.drain_dirty();
    // every cell of a 3x3 grid but the center is on the border
    assert_eq!(first.len(), 8);
    assert!(!first.contains(&(1, 1)));
    assert!(b.drain_dirty().is_empty());
}

#[test]
fn set_radius_zero_touches_only_center() {
    let mut b = Board::new(9, 9);
    let _ = b.drain_dirty();
    let r = b.set_radius(4, 4, Tile::from_type(TileType::Rock), 0);
    assert_eq!(r, Ok(()));
    for x in 0..9 {
        for y in 0..9 {
            let expect = if x == 4 && y == 4 {
                TileType::Rock
            } else if x == 0 || x == 8 || y == 0 || y == 8 {
                TileType::Wall
            } else {
                TileType::Empty
            };
            assert_eq!(b.get(x, y).unwrap().tile_type, expect);
        }
    }
    assert_eq!(b.drain_dirty(), vec![(4, 4)]);
}

#[test]
fn set_radius_one_paints_a_plus_shape() {
    let mut b = Board::new(9, 9);
    let _ = b.set_radius(4, 4, Tile::from_type(TileType::Dirt), 1);
    let mut painted = Vec::new();
    for x in 0..9usize {
        for y in 0..9usize {
            if b.get(x, y).unwrap().tile_type == TileType::Dirt {
                painted.push((x, y));
            }
        }
    }
    assert_eq!(painted, vec![(3, 4), (4, 3), (4, 4), (4, 5), (5, 4)]);
}

#[test]
fn set_radius_two_paints_the_squared_distance_disk() {
    let mut b = Board::new(11, 11);
    let _ = b.set_radius(5, 5, Tile::from_type(TileType::Wood), 2);
    let mut count = 0;
    for x in 0..11i64 {
        for y in 0..11i64 {
            let d2 = (x - 5) * (x - 5) + (y - 5) * (y - 5);
            let t = b.get(x as usize, y as usize).unwrap().tile_type;
            if d2 <= 4 {
                count += 1;
                assert_eq!(t, TileType::Wood);
            } else {
                assert_ne!(t, TileType::Wood);
            }
        }
    }
    assert_eq!(count, 13);
}

#[test]
fn set_radius_clips_against_the_grid_bounds() {
    let mut b = Board::new(6, 6);
    // center on the border corner: the in-bounds part of the disk is painted
    let r = b.set_radius(0, 0, Tile::from_type(TileType::Rock), 2);
    assert_eq!(r, Ok(()));
    assert_eq!(b.get(0, 0).unwrap().tile_type, TileType::Rock);
    assert_eq!(b.get(2, 0).unwrap().tile_type, TileType::Rock);
    assert_eq!(b.get(1, 1).unwrap().tile_type, TileType::Rock);
    assert_eq!(b.get(3, 0).unwrap().tile_type, TileType::Wall);
}

#[test]
fn set_radius_negative_radius_paints_only_the_center() {
    let mut b = Board::new(7, 7);
    let _ = b.drain_dirty();
    let r = b.set_radius(3, 3, Tile::from_type(TileType::Sand), -2);
    assert_eq!(r, Ok(()));
    assert_eq!(b.drain_dirty(), vec![(3, 3)]);
    assert_eq!(b.get(3, 3).unwrap().tile_type, TileType::Sand);
    assert_eq!(b.get(3, 4).unwrap().tile_type, TileType::Empty);
}

#[test]
fn set_radius_records_center_first_then_scan_order() {
    let mut b = Board::new(9, 9);
    let _ = b.drain_dirty();
    let _ = b.set_radius(4, 4, Tile::from_type(TileType::Sand), 1);
    // center first, then dx ascending, dy ascending, center offset skipped
    assert_eq!(b.drain_dirty(), vec![(4, 4), (3, 4), (4, 3), (4, 5), (5, 4)]);
}

#[test]
fn set_radius_with_center_out_of_bounds_reports_the_error() {
    let mut b = Board::new(5, 5);
    let r = b.set_radius(7, 2, Tile::from_type(TileType::Rock), 1);
    assert_eq!(r, Err(OutOfBounds));
    // nothing in the grid lies within the disk, so nothing changed
    for x in 1..4 {
        for y in 1..4 {
            assert_eq!(b.get(x, y).unwrap().tile_type, TileType::Empty);
        }
    }
}

#[test]
fn minimal_grid_is_all_border_wall() {
    let b = Board::new(1, 1);
    assert_eq!(b.width(), 1);
    assert_eq!(b.height(), 1);
    assert_eq!(b.get(0, 0).unwrap().tile_type, TileType::Wall);
}

#[test]
fn brush_paints_when_the_target_is_empty() {
    let mut b = Board::new(9, 9);
    let r = b.apply_brush(4, 4, Tile::from_type(TileType::Water), 1, false);
    assert_eq!(r, Ok(()));
    assert_eq!(b.get(4, 4).unwrap().tile_type, TileType::Water);
    assert_eq!(b.get(4, 5).unwrap().tile_type, TileType::Water);
}

#[test]
fn brush_without_overwrite_only_remarks_an_occupied_target() {
    let mut b = Board::new(9, 9);
    let _ = b.set(4, 4, Tile::from_type(TileType::Rock));
    let _ = b.drain_dirty();
    let r = b.apply_brush(4, 4, Tile::from_type(TileType::Water), 1, false);
    assert_eq!(r, Ok(()));
    assert_eq!(b.get(4, 4).unwrap().tile_type, TileType::Rock);
    assert_eq!(b.get(4, 5).unwrap().tile_type, TileType::Empty);
    assert_eq!(b.drain_dirty(), vec![(4, 4)]);
}

#[test]
fn brush_with_overwrite_paints_over_an_occupied_target() {
    let mut b = Board::new(9, 9);
    let _ = b.set(4, 4, Tile::from_type(TileType::Rock));
    let r = b.apply_brush(4, 4, Tile::from_type(TileType::Water), 0, true);
    assert_eq!(r, Ok(()));
    assert_eq!(b.get(4, 4).unwrap().tile_type, TileType::Water);
}
