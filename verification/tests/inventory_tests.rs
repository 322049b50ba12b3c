use cursed_warden::plugins::inventory_utils;
use cursed_warden::plugins::inventory_utils::apply_stat_bonus;
use cursed_warden::plugins::geometry::GridVec;
use cursed_warden::plugins::inventory::{
    calculate_bounding_box, calculate_combat_stats, next_rotation, resolve_drop, DragState,
    InventoryGridState, Placement, SlotData,
};
use cursed_warden::plugins::items::{
    BagType, ItemDatabase, ItemDefinition, ItemRarity, ItemTag, ItemType, MaterialType,
    StatType, SynergyDefinition, SynergyEffect,
};
use cursed_warden::plugins::metagame::{saved_items_to_place, PendingItems, PersistentInventory, SavedItem};
use cursed_warden::plugins::items::load_items;

fn v(x: i32, y: i32) -> GridVec {
    GridVec { x, y }
}

fn milli(v: f32) -> i64 {
    (v * 1000.0).round() as i64
}

fn rect(w: i32, h: i32) -> Vec<GridVec> {
    let mut shape = Vec::new();
    for y in 0..h {
        for x in 0..w {
            shape.push(v(x, y));
        }
    }
    shape
}

fn def(id: &str, shape: Vec<GridVec>, item_type: ItemType) -> ItemDefinition {
    ItemDefinition {
        id: id.to_string(),
        name: id.to_string(),
        width: 1,
        height: 1,
        shape,
        material: MaterialType::Steel,
        item_type,
        rarity: ItemRarity::Common,
        price: 0,
        tags: vec![],
        synergies: vec![],
        attack: 0,
        defense: 0,
        speed: 0,
    }
}

fn bag_def(id: &str, w: i32, h: i32) -> ItemDefinition {
    def(id, rect(w, h), ItemType::Bag { bag_type: BagType::Default })
}

fn placed(entity: u64, pos: GridVec, shape: &Vec<GridVec>) -> Placement {
    Placement { entity, pos, rotation: 0, shape: shape.clone() }
}

#[test]
fn test_bag_mechanics() {
    let bag_2x2 = bag_def("bag_2x2", 2, 2);
    let bag_1x1 = bag_def("bag_1x1", 1, 1);
    let mut db = ItemDatabase::new();
    db.insert(bag_2x2.clone());
    db.insert(bag_1x1.clone());
    assert_eq!(db.len(), 2);

    // 1. Initial state: the grid is empty
    let mut grid = InventoryGridState::new();
    assert_eq!(grid.slot_count(), 0);

    // 2. The first bag goes anywhere
    assert!(grid.can_place_bag(&bag_2x2.shape, v(2, 2), 0, None));
    let mut bags = vec![placed(1, v(2, 2), &bag_2x2.shape)];
    grid.rebuild(&bags, &vec![]);
    assert_eq!(grid.slot_count(), 4);
    assert!(grid.get_slot(v(2, 2)).is_some());
    assert!(grid.get_slot(v(3, 3)).is_some());

    // 3. Bags may not overlap
    assert!(!grid.can_place_bag(&bag_2x2.shape, v(3, 2), 0, None));

    // 4. Further bags must touch an existing one
    assert!(!grid.can_place_bag(&bag_1x1.shape, v(10, 10), 0, None));
    assert!(grid.can_place_bag(&bag_1x1.shape, v(4, 2), 0, None));
    bags.push(placed(2, v(4, 2), &bag_1x1.shape));
    grid.rebuild(&bags, &vec![]);
    assert_eq!(grid.slot_count(), 5);

    // 5. Items need slots
    let sword = def("sword", vec![v(0, 0), v(0, 1)], ItemType::Weapon);
    assert!(grid.can_place_item(&sword.shape, v(2, 2), 0, None, false));
    assert!(!grid.can_place_item(&sword.shape, v(4, 2), 0, None, false));

    // Occupy the slots of bag 1 with item 99
    let items = vec![placed(99, v(2, 2), &sword.shape)];
    grid.rebuild(&bags, &items);
    assert_eq!(grid.get_slot(v(2, 2)), Some(SlotData { bag_entity: 1, occupier: Some(99) }));
    assert_eq!(grid.get_slot(v(2, 3)), Some(SlotData { bag_entity: 1, occupier: Some(99) }));

    // Overlap is refused, but an item may be dropped over its own cells
    assert!(!grid.can_place_item(&sword.shape, v(2, 2), 0, None, false));
    assert!(grid.can_place_item(&sword.shape, v(2, 2), 0, Some(99), false));
}

#[test]
fn storage_accepts_anything_and_moving_bag_ignores_itself() {
    let bag = bag_def("bag", 2, 2);
    let mut grid = InventoryGridState::new();
    grid.rebuild(&vec![placed(1, v(0, 0), &bag.shape)], &vec![]);
    let big = rect(5, 5);
    assert!(grid.can_place_item(&big, v(40, 40), 0, None, true));
    // the only bag, moved far away: no other bag to touch, and its own slots do not count
    assert!(grid.can_place_bag(&bag.shape, v(20, 20), 0, Some(1)));
    assert!(grid.can_place_bag(&bag.shape, v(1, 1), 0, Some(1)));
}

#[test]
fn rebuild_later_bag_and_item_win_and_bounds_grow() {
    let mut grid = InventoryGridState::new();
    let two = rect(2, 1);
    let bags = vec![placed(1, v(-1, 0), &two), placed(2, v(0, 0), &two)];
    let items = vec![placed(7, v(0, 0), &rect(1, 1)), placed(8, v(0, 0), &rect(1, 1)), placed(9, v(5, 5), &rect(1, 1))];
    grid.rebuild(&bags, &items);
    assert_eq!(grid.get_slot(v(-1, 0)), Some(SlotData { bag_entity: 1, occupier: None }));
    assert_eq!(grid.get_slot(v(0, 0)), Some(SlotData { bag_entity: 2, occupier: Some(8) }));
    assert_eq!(grid.get_slot(v(1, 0)), Some(SlotData { bag_entity: 2, occupier: None }));
    // item 9 lies on no slot and is ignored
    assert_eq!(grid.get_slot(v(5, 5)), None);
    assert_eq!(grid.bounds.min, v(-1, 0));
    assert_eq!(grid.bounds.max, v(1, 0));
}

#[test]
fn find_free_spot_scans_rows() {
    let mut grid = InventoryGridState::new();
    let bag = rect(3, 2);
    grid.rebuild(&vec![placed(1, v(0, 0), &bag)], &vec![placed(5, v(0, 0), &rect(2, 1))]);
    let one = def("one", rect(1, 1), ItemType::Weapon);
    assert_eq!(grid.find_free_spot(&one), Some(v(2, 0)));
    let wide = def("wide", rect(3, 1), ItemType::Weapon);
    assert_eq!(grid.find_free_spot(&wide), Some(v(0, 1)));
    let tall = def("tall", rect(1, 3), ItemType::Weapon);
    assert_eq!(grid.find_free_spot(&tall), None);
}

#[test]
fn rotated_shapes_and_bounding_box() {
    let l = vec![v(0, 0), v(1, 0), v(0, 1)];
    assert_eq!(InventoryGridState::get_rotated_shape(&l, 1), vec![v(0, 0), v(0, 1), v(-1, 0)]);
    assert_eq!(InventoryGridState::get_rotated_shape(&l, 4), l);
    assert_eq!(calculate_bounding_box(&rect(2, 3), 0), (0, 0, 2, 3));
    assert_eq!(calculate_bounding_box(&rect(2, 3), 1), (-2, 0, 3, 2));
    assert_eq!(calculate_bounding_box(&vec![], 2), (0, 0, 1, 1));
    assert_eq!(next_rotation(0), 1);
    assert_eq!(next_rotation(3), 0);
}

#[test]
fn drag_of_bag_collects_its_items_and_refused_drop_restores() {
    let mut grid = InventoryGridState::new();
    let bags = vec![placed(1, v(0, 0), &rect(2, 2)), placed(2, v(2, 0), &rect(1, 1))];
    let items = vec![placed(10, v(0, 0), &rect(1, 1)), placed(11, v(1, 1), &rect(1, 1)), placed(12, v(2, 0), &rect(1, 1))];
    grid.rebuild(&bags, &items);

    let mut drag = DragState::new();
    drag.begin(&grid, 1, v(0, 0), 0, true, false);
    let mut attached = drag.attached_items.clone();
    attached.sort();
    assert_eq!(attached, vec![10, 11]);
    assert_eq!(drag.original_pos, Some(v(0, 0)));

    // dropping the bag (turned) onto bag 2 is refused: back to the original anchor and rotation
    let bag_slots = Some(rect(2, 2));
    let out = resolve_drop(&grid, &drag, 1, &rect(2, 2), &bag_slots, v(2, 0), 1, v(2, 0), false);
    assert!(!out.valid);
    assert_eq!(out.new_pos, v(0, 0));
    assert_eq!(out.new_rotation, 0);
    assert_eq!(out.delta, v(0, 0));

    // dropping it below bag 2, touching it: accepted, items move by the same distance
    let out = resolve_drop(&grid, &drag, 1, &rect(2, 2), &bag_slots, v(2, 1), 0, v(2, 1), false);
    assert!(out.valid);
    assert_eq!(out.new_pos, v(2, 1));
    assert_eq!(out.delta, v(2, 1));

    // dropping into storage is always accepted
    let out = resolve_drop(&grid, &drag, 1, &rect(2, 2), &bag_slots, v(50, 50), 0, v(50, 50), true);
    assert!(out.valid);
    assert!(out.in_storage);
    assert_eq!(out.delta, v(0, 0));
}

#[test]
fn item_drop_needs_free_slots() {
    let mut grid = InventoryGridState::new();
    grid.rebuild(&vec![placed(1, v(0, 0), &rect(2, 1))], &vec![placed(10, v(0, 0), &rect(1, 1))]);
    let mut drag = DragState::new();
    drag.begin(&grid, 20, v(5, 5), 0, false, true);
    assert!(drag.attached_items.is_empty());
    let one = rect(1, 1);
    let out = resolve_drop(&grid, &drag, 20, &one, &None, v(0, 0), 0, v(0, 0), false);
    assert!(!out.valid);
    assert_eq!(out.new_pos, v(5, 5));
    assert!(out.in_storage);
    let out = resolve_drop(&grid, &drag, 20, &one, &None, v(1, 0), 0, v(1, 0), false);
    assert!(out.valid);
    assert!(!out.in_storage);
}

fn saved(id: &str, x: i32, y: i32, rotation: u8) -> SavedItem {
    SavedItem { item_id: id.to_string(), grid_x: x, grid_y: y, rotation }
}

#[test]
fn base_combat_stats_sum_known_items() {
    let mut db = ItemDatabase::new();
    let mut sword = def("sword", rect(1, 2), ItemType::Weapon);
    sword.attack = milli(10.0);
    sword.speed = milli(-1.5);
    let mut shield = def("shield", rect(2, 2), ItemType::Weapon);
    shield.defense = milli(20.0);
    shield.attack = milli(2.0);
    db.insert(sword);
    db.insert(shield);
    let inv = PersistentInventory {
        items: vec![saved("sword", 0, 0, 0), saved("shield", 1, 0, 0), saved("unknown", 3, 3, 0), saved("sword", 4, 0, 0)],
    };
    let stats = calculate_combat_stats(&inv, &db);
    assert_eq!(stats.attack, milli(22.0));
    assert_eq!(stats.defense, milli(20.0));
    assert_eq!(stats.speed, milli(-3.0));
    assert_eq!(stats.health, milli(100.0));
}

#[test]
fn synergy_stats_count_self_buffs_of_matching_neighbours() {
    let mut db = ItemDatabase::new();
    let mut sword = def("sword", rect(1, 1), ItemType::Weapon);
    sword.attack = milli(10.0);
    sword.tags = vec![ItemTag::Weapon];
    let mut stone = def("stone", rect(1, 1), ItemType::Consumable);
    stone.tags = vec![ItemTag::Valuable];
    stone.synergies = vec![
        SynergyDefinition { offset: v(1, 0), target_tags: vec![ItemTag::Weapon], effect: SynergyEffect::BuffSelf { stat: StatType::Defense, value: milli(3.0) } },
        SynergyDefinition { offset: v(1, 0), target_tags: vec![ItemTag::Weapon], effect: SynergyEffect::BuffTarget { stat: StatType::Attack, value: milli(5.0) } },
        SynergyDefinition { offset: v(0, 1), target_tags: vec![ItemTag::Weapon], effect: SynergyEffect::BuffSelf { stat: StatType::Health, value: milli(7.0) } },
    ];
    db.insert(sword);
    db.insert(stone);

    // the stone looks right (x + 1): the sword is there; below it there is nothing
    let inv = PersistentInventory { items: vec![saved("stone", 0, 0, 0), saved("sword", 1, 0, 0)] };
    let stats = inventory_utils::calculate_combat_stats(&inv, &db);
    assert_eq!(stats.attack, milli(10.0));
    assert_eq!(stats.defense, milli(3.0));
    assert_eq!(stats.health, 0);

    // turned once, the stone looks down (0, 1) instead of right, and left (-1, 0) for (0, 1)
    let inv = PersistentInventory { items: vec![saved("stone", 1, 0, 1), saved("sword", 1, 1, 0), saved("sword", 0, 0, 0)] };
    let stats = inventory_utils::calculate_combat_stats(&inv, &db);
    assert_eq!(stats.attack, milli(20.0));
    assert_eq!(stats.defense, milli(3.0));
    assert_eq!(stats.health, milli(7.0));

    // a synergy looking at a tag nobody has never fires
    let inv = PersistentInventory { items: vec![saved("stone", 0, 0, 0), saved("stone", 1, 0, 0)] };
    let stats = inventory_utils::calculate_combat_stats(&inv, &db);
    assert_eq!(stats.defense, 0);
}

#[test]
fn stat_bonus_goes_to_one_stat() {
    let mut s = inventory_utils::CombatStats::default();
    apply_stat_bonus(&mut s, StatType::Speed, milli(2.5));
    apply_stat_bonus(&mut s, StatType::Health, milli(-1.0));
    assert_eq!((s.attack, s.defense, s.speed, s.health), (0, 0, milli(2.5), milli(-1.0)));
}

#[test]
fn without_synergies_both_stat_calculations_agree() {
    let mut db = ItemDatabase::new();
    let mut a = def("a", rect(1, 1), ItemType::Weapon);
    a.attack = milli(4.0);
    a.defense = milli(1.0);
    db.insert(a);
    let inv = PersistentInventory { items: vec![saved("a", 0, 0, 0), saved("a", 0, 0, 3)] };
    let plain = calculate_combat_stats(&inv, &db);
    let full = inventory_utils::calculate_combat_stats(&inv, &db);
    assert_eq!((plain.attack, plain.defense, plain.speed), (full.attack, full.defense, full.speed));
}

#[test]
fn rebuild_forgets_removed_bags() {
    let mut grid = InventoryGridState::new();
    grid.rebuild(&vec![placed(1, v(0, 0), &rect(2, 2))], &vec![]);
    assert_eq!(grid.slot_count(), 4);
    grid.rebuild(&vec![placed(2, v(5, 5), &rect(1, 1))], &vec![]);
    assert_eq!(grid.slot_count(), 1);
    assert_eq!(grid.get_slot(v(0, 0)), None);
    assert_eq!(grid.get_slot(v(5, 5)), Some(SlotData { bag_entity: 2, occupier: None }));
    assert_eq!(grid.bounds.max, v(5, 5));
    grid.rebuild(&vec![], &vec![]);
    assert_eq!(grid.slot_count(), 0);
}

#[test]
fn test_item_transfer_from_metagame_to_inventory() {
    let mut db = ItemDatabase::new();
    load_items(&mut db);
    let mut pending = PendingItems(Vec::new());
    pending.0.push("steel_sword".to_string());
    assert!(db.contains_key(&"steel_sword".to_string()), "ItemDatabase should contain steel_sword");

    // Entering the evening lays the starting inventory (the starter bag) on the grid...
    let start = PersistentInventory::default();
    let mut bags = Vec::new();
    let mut items = Vec::new();
    for (k, it) in saved_items_to_place(&start.items, &db).iter().enumerate() {
        let def = db.get(&it.item_id).unwrap();
        let p = placed(1 + k as u64, it.pos, &def.shape);
        match def.item_type {
            ItemType::Bag { .. } => bags.push(p),
            _ => items.push(p),
        }
    }
    assert_eq!(bags.len(), 1);
    let mut grid = InventoryGridState::new();
    grid.rebuild(&bags, &items);
    // ... and then places the pending items.
    let spots = grid.place_pending_items(&db, &mut pending, &vec![7]);

    assert_eq!(spots, vec![Some(v(2, 2))]);
    let occupied: Vec<u64> = (0..6)
        .flat_map(|y| (0..6).map(move |x| v(x, y)))
        .filter_map(|c| grid.get_slot(c).and_then(|s| s.occupier))
        .collect();
    assert!(!occupied.is_empty(), "Grid should contain items after transition");
    assert_eq!(occupied, vec![7, 7]);
    assert_eq!(grid.get_slot(v(2, 3)).unwrap().occupier, Some(7));
    assert_eq!(db.get(&"steel_sword".to_string()).map(|d| d.name.as_str()), Some("Steel Sword"));
    assert!(pending.0.is_empty(), "PendingItems should be consumed");
}

#[test]
fn starter_bag_gives_nine_slots() {
    let mut db = ItemDatabase::new();
    load_items(&mut db);
    let bag = db.get(&"starter_bag".to_string()).unwrap();
    assert_eq!(bag.name, "Starter Bag");
    assert!(matches!(bag.item_type, ItemType::Bag { .. }));
    assert_eq!(bag.shape, rect(3, 3));
    let mut grid = InventoryGridState::new();
    grid.rebuild(&vec![placed(1, v(2, 2), &bag.shape)], &vec![]);
    assert_eq!(grid.slot_count(), 9);
}

#[test]
fn pending_items_fill_free_slots_in_order() {
    let mut db = ItemDatabase::new();
    load_items(&mut db);
    let mut pending = PendingItems(vec![
        "steel_sword".to_string(),
        "unknown".to_string(),
        "health_potion".to_string(),
        "epic_shield".to_string(),
    ]);
    let mut grid = InventoryGridState::new();
    grid.rebuild(&vec![placed(1, v(0, 0), &rect(2, 2))], &vec![]);
    let spots = grid.place_pending_items(&db, &mut pending, &vec![100, 101, 102, 103]);

    assert_eq!(spots, vec![Some(v(0, 0)), None, Some(v(1, 0)), None]);
    assert_eq!(pending.0, vec!["unknown".to_string(), "epic_shield".to_string()]);
    assert_eq!(grid.get_slot(v(0, 0)).unwrap().occupier, Some(100));
    assert_eq!(grid.get_slot(v(0, 1)).unwrap().occupier, Some(100));
    assert_eq!(grid.get_slot(v(1, 0)).unwrap().occupier, Some(102));
    assert_eq!(grid.get_slot(v(1, 1)).unwrap().occupier, None);
    assert_eq!(grid.get_slot(v(1, 1)).unwrap().bag_entity, 1);
}

#[test]
fn new_grid_has_no_slots() {
    let grid = InventoryGridState::new();
    assert_eq!(grid.slot_count(), 0);
    assert!(grid.get_slot(v(0, 0)).is_none());
}

#[test]
fn turning_swaps_box_width_and_height() {
    let l_shape = vec![v(0, 0), v(1, 0), v(0, 1), v(0, 2)];
    let mut rot: u8 = 0;
    let (_, _, w0, h0) = calculate_bounding_box(&l_shape, rot);
    assert_eq!((w0, h0), (2, 3));
    for _ in 0..4 {
        let (_, _, w, h) = calculate_bounding_box(&l_shape, rot);
        let next = next_rotation(rot);
        let (_, _, w2, h2) = calculate_bounding_box(&l_shape, next);
        assert_eq!((w2, h2), (h, w));
        rot = next;
    }
    assert_eq!(rot, 0);
}
