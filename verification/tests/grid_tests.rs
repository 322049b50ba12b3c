use cursed_warden::plugins::geometry::GridVec;
use cursed_warden::plugins::grid::{InventoryGridState, ItemSize, GRID_HEIGHT, GRID_WIDTH};

fn v(x: i32, y: i32) -> GridVec {
    GridVec { x, y }
}

fn new_grid(width: i32, height: i32) -> InventoryGridState {
    InventoryGridState { width, height, ..Default::default() }
}

#[test]
fn test_grid_bounds() {
    let grid = new_grid(8, 8);
    let size = ItemSize { width: 2, height: 2 };
    // Valid position (0,0)
    assert!(grid.is_area_free(v(0, 0), size, None));
    // Invalid position (out of bounds): 7 + 2 = 9 > 8
    assert!(!grid.is_area_free(v(7, 7), size, None));
    assert!(!grid.is_area_free(v(-1, 0), size, None));
}

#[test]
fn test_grid_collision() {
    let mut grid = new_grid(8, 8);
    let item1 = 1u64;
    let size1 = ItemSize { width: 2, height: 2 };
    let pos1 = v(2, 2);
    for dy in 0..size1.height {
        for dx in 0..size1.width {
            grid.set_cell(v(pos1.x + dx, pos1.y + dy), item1);
        }
    }
    let size2 = ItemSize { width: 2, height: 2 };
    // Overlaps at (3,3)
    assert!(!grid.is_area_free(v(3, 3), size2, None));
    // Non-overlapping
    assert!(grid.is_area_free(v(5, 5), size2, None));
    // Moving item 1 onto its own spot does not collide with itself
    assert!(grid.is_area_free(pos1, size1, Some(item1)));
}

#[test]
fn test_find_free_spot() {
    let mut grid = new_grid(4, 4);
    let item1 = 1u64;
    for x in 0..4 {
        grid.set_cell(v(x, 0), item1);
    }
    let size = ItemSize { width: 2, height: 2 };
    assert_eq!(grid.find_free_spot(size), Some(v(0, 1)));
}

#[test]
fn find_free_spot_on_full_grid_is_none() {
    let mut grid = new_grid(2, 2);
    grid.set_cell(v(1, 1), 7);
    assert_eq!(grid.find_free_spot(ItemSize { width: 2, height: 2 }), None);
    assert_eq!(grid.find_free_spot(ItemSize { width: 1, height: 1 }), Some(v(0, 0)));
}

#[test]
fn place_remove_and_move_items() {
    let mut grid = new_grid(4, 4);
    let size = ItemSize { width: 2, height: 1 };
    grid.place_item(5, v(0, 0), size);
    assert_eq!(grid.get_cell(v(0, 0)), Some(5));
    assert_eq!(grid.get_cell(v(1, 0)), Some(5));
    assert_eq!(grid.get_cell(v(2, 0)), None);
    // a refused move (out of bounds) keeps the item where it was
    assert!(!grid.move_item(5, v(0, 0), v(3, 0), size));
    assert_eq!(grid.get_cell(v(0, 0)), Some(5));
    // an accepted move may overlap the item's own cells
    assert!(grid.move_item(5, v(0, 0), v(1, 0), size));
    assert_eq!(grid.get_cell(v(0, 0)), None);
    assert_eq!(grid.get_cell(v(1, 0)), Some(5));
    assert_eq!(grid.get_cell(v(2, 0)), Some(5));
    grid.remove_item(5, v(1, 0), size);
    assert_eq!(grid.get_cell(v(1, 0)), None);
    assert_eq!(grid.get_cell(v(2, 0)), None);
}

#[test]
fn default_setup_is_ten_by_eight() {
    let mut grid = new_grid(0, 0);
    grid.setup_default(3);
    assert_eq!(grid.width, GRID_WIDTH);
    assert_eq!(grid.height, GRID_HEIGHT);
    assert_eq!(grid.get_cell(v(1, 1)), Some(3));
    assert_eq!(grid.get_cell(v(2, 1)), None);
    let mut demo = new_grid(0, 0);
    demo.ensure_demo_size();
    assert_eq!((demo.width, demo.height), (10, 10));
    let mut kept = new_grid(3, 2);
    kept.ensure_demo_size();
    assert_eq!((kept.width, kept.height), (3, 2));
}
