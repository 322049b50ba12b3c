use cursed_warden::plugins::geometry::GridVec;
use cursed_warden::plugins::inventory::{GridPosition, InventoryGridState, InventoryItem, ItemRotation, Placement, SlotData};
use cursed_warden::plugins::mutation::{mutation_system, try_grow, MutationTarget};

fn v(x: i32, y: i32) -> GridVec {
    GridVec { x, y }
}

fn rect(w: i32, h: i32) -> Vec<GridVec> {
    let mut shape = Vec::new();
    for y in 0..h {
        for x in 0..w {
            shape.push(v(x, y));
        }
    }
    shape
}

fn grid_with(bag: Vec<GridVec>, items: Vec<Placement>) -> InventoryGridState {
    let mut grid = InventoryGridState::new();
    grid.rebuild(&vec![Placement { entity: 1, pos: v(0, 0), rotation: 0, shape: bag }], &items);
    grid
}

#[test]
fn item_grows_a_column_on_free_slots() {
    let sword_shape = vec![v(0, 0), v(0, 1)];
    let grid0 = grid_with(rect(3, 2), vec![Placement { entity: 5, pos: v(0, 0), rotation: 0, shape: sword_shape.clone() }]);
    let mut grid = grid0;
    let mut item = InventoryItem { item_id: "sword".to_string(), shape: sword_shape };
    assert!(try_grow(5, &mut item, v(0, 0), 0, &mut grid));
    assert_eq!(item.shape, vec![v(0, 0), v(0, 1), v(1, 0), v(1, 1)]);
    assert_eq!(grid.get_slot(v(1, 0)), Some(SlotData { bag_entity: 1, occupier: Some(5) }));
    assert_eq!(grid.get_slot(v(1, 1)), Some(SlotData { bag_entity: 1, occupier: Some(5) }));
    assert_eq!(grid.get_slot(v(2, 0)), Some(SlotData { bag_entity: 1, occupier: None }));
}

#[test]
fn item_does_not_grow_onto_missing_or_taken_slots() {
    // no slot right of the item
    let mut grid = grid_with(rect(1, 2), vec![]);
    let mut item = InventoryItem { item_id: "sword".to_string(), shape: vec![v(0, 0), v(0, 1)] };
    assert!(!try_grow(5, &mut item, v(0, 0), 0, &mut grid));
    assert_eq!(item.shape, vec![v(0, 0), v(0, 1)]);
    // slot taken by another item
    let mut grid = grid_with(rect(2, 1), vec![Placement { entity: 6, pos: v(1, 0), rotation: 0, shape: vec![v(0, 0)] }]);
    let mut item = InventoryItem { item_id: "dagger".to_string(), shape: vec![v(0, 0)] };
    assert!(!try_grow(5, &mut item, v(0, 0), 0, &mut grid));
    assert_eq!(grid.get_slot(v(1, 0)), Some(SlotData { bag_entity: 1, occupier: Some(6) }));
}

#[test]
fn growth_turns_with_the_item_and_uses_only_the_right_edge() {
    // an L shape: the right edge (x = 1) holds one cell, so one cell is added at (2, 0)
    let mut item = InventoryItem { item_id: "l".to_string(), shape: vec![v(0, 0), v(1, 0), v(0, 1)] };
    // turned once, offset (2, 0) lands at (0, 2) from the anchor (2, 0): cell (2, 2)
    let mut grid = grid_with(rect(3, 3), vec![]);
    assert!(try_grow(5, &mut item, v(2, 0), 1, &mut grid));
    assert_eq!(item.shape, vec![v(0, 0), v(1, 0), v(0, 1), v(2, 0)]);
    assert_eq!(grid.get_slot(v(2, 2)), Some(SlotData { bag_entity: 1, occupier: Some(5) }));
    // an empty shape has no edge column to grow from
    let mut empty = InventoryItem { item_id: "e".to_string(), shape: vec![] };
    assert!(!try_grow(5, &mut empty, v(0, 0), 0, &mut grid));
    assert!(empty.shape.is_empty());
}

#[test]
fn mutation_pass_reports_rolls_and_keeps_unrolled_items() {
    let mut grid = grid_with(rect(4, 4), vec![]);
    let mut targets = vec![
        MutationTarget { entity: 5, item: InventoryItem { item_id: "a".to_string(), shape: vec![v(0, 0)] }, pos: GridPosition(v(0, 0)), rot: ItemRotation(0) },
        MutationTarget { entity: 6, item: InventoryItem { item_id: "b".to_string(), shape: vec![v(0, 0)] }, pos: GridPosition(v(0, 2)), rot: ItemRotation(0) },
    ];
    let rolls = mutation_system(&mut targets, &mut grid);
    assert_eq!(rolls.len(), 2);
    for (t, rolled) in targets.iter().zip(rolls.iter()) {
        if *rolled {
            assert_eq!(t.item.shape, vec![v(0, 0), v(1, 0)]);
        } else {
            assert_eq!(t.item.shape, vec![v(0, 0)]);
        }
    }
}
