use cursed_warden::plugins::items::{load_items, ItemDatabase};
use cursed_warden::plugins::geometry::GridVec;
use cursed_warden::plugins::inventory::{GridPosition, InventoryGridState, ItemRotation, Placement};
use cursed_warden::plugins::items::{
    ItemDefinition, ItemRarity, ItemTag, ItemType, MaterialType, StatType, SynergyDefinition,
    SynergyEffect,
};
use cursed_warden::plugins::visualization::{are_adjacent, synergy_links, ItemOnGrid};

fn v(x: i32, y: i32) -> GridVec {
    GridVec { x, y }
}

fn def(id: &str, shape: Vec<GridVec>, tags: Vec<ItemTag>, synergies: Vec<SynergyDefinition>) -> ItemDefinition {
    ItemDefinition {
        id: id.to_string(),
        name: id.to_string(),
        width: 1,
        height: 1,
        shape,
        material: MaterialType::Steel,
        item_type: ItemType::Weapon,
        rarity: ItemRarity::Common,
        price: 1,
        tags,
        synergies,
        attack: 0,
        defense: 0,
        speed: 0,
    }
}

#[test]
fn adjacency_needs_a_shared_edge() {
    let sword = def("wooden_sword", vec![v(0, 0), v(0, 1)], vec![], vec![]);
    let stone = def("whetstone", vec![v(0, 0)], vec![], vec![]);
    let p = |x, y| GridPosition(v(x, y));
    let r0 = ItemRotation(0);
    // (1, 2) touches the sword's lower cell (0, 2) when the sword is anchored at (0, 1)
    assert!(are_adjacent(&p(0, 1), &r0, &sword, &p(1, 2), &r0, &stone));
    assert!(are_adjacent(&p(1, 2), &r0, &stone, &p(0, 1), &r0, &sword));
    // diagonal only
    assert!(!are_adjacent(&p(0, 1), &r0, &sword, &p(1, 3), &r0, &stone));
    // turned once, the sword covers (0, 1) and (-1, 1)
    assert!(are_adjacent(&p(0, 1), &ItemRotation(1), &sword, &p(-2, 1), &r0, &stone));
    // far apart, even at the ends of the coordinate range
    assert!(!are_adjacent(&p(i32::MIN, 0), &r0, &stone, &p(i32::MAX, 0), &r0, &stone));
}

#[test]
fn synergy_lines_link_matching_neighbours() {
    let buff = |x, y| SynergyDefinition {
        offset: v(x, y),
        target_tags: vec![ItemTag::Weapon],
        effect: SynergyEffect::BuffTarget { stat: StatType::Attack, value: 5000 },
    };
    let stone = def("whetstone", vec![v(0, 0)], vec![ItemTag::Valuable], vec![buff(1, 0), buff(-1, 0), buff(0, 1)]);
    let sword = def("sword", vec![v(0, 0)], vec![ItemTag::Weapon], vec![]);
    let potion = def("potion", vec![v(0, 0)], vec![ItemTag::Potion], vec![]);
    let mut grid = InventoryGridState::new();
    let bag: Vec<GridVec> = (0..3).flat_map(|y| (0..3).map(move |x| v(x, y))).collect();
    let items = vec![
        Placement { entity: 10, pos: v(1, 1), rotation: 0, shape: vec![v(0, 0)] },
        Placement { entity: 11, pos: v(2, 1), rotation: 0, shape: vec![v(0, 0)] },
        Placement { entity: 12, pos: v(0, 1), rotation: 0, shape: vec![v(0, 0)] },
    ];
    grid.rebuild(&vec![Placement { entity: 1, pos: v(0, 0), rotation: 0, shape: bag }], &items);
    let on_grid = vec![
        ItemOnGrid { entity: 10, pos: GridPosition(v(1, 1)), rot: ItemRotation(0), def: stone },
        ItemOnGrid { entity: 11, pos: GridPosition(v(2, 1)), rot: ItemRotation(0), def: sword },
        ItemOnGrid { entity: 12, pos: GridPosition(v(0, 1)), rot: ItemRotation(0), def: potion },
    ];
    // right: the sword (a weapon) links; left: the potion does not; below: empty slot
    assert_eq!(synergy_links(&grid, &on_grid), vec![(10, 11)]);
}

#[test]
fn test_recipe_logic() {
    let mut db = ItemDatabase::new();
    load_items(&mut db);
    let sword = db.get(&"wooden_sword".to_string()).expect("Wooden sword not found").clone();
    let stone = db.get(&"whetstone".to_string()).expect("Whetstone not found").clone();
    assert_eq!(sword.shape, vec![v(0, 0), v(0, 1)]);
    assert_eq!(sword.tags, vec![ItemTag::Weapon]);

    // A bag under both, the sword at (1, 2) covering (1, 2) and (1, 3), the whetstone at (1, 4).
    let mut grid = InventoryGridState::new();
    let bag: Vec<GridVec> = (0..6).flat_map(|y| (0..3).map(move |x| v(x, y))).collect();
    let items = vec![
        Placement { entity: 20, pos: v(1, 2), rotation: 0, shape: sword.shape.clone() },
        Placement { entity: 21, pos: v(1, 4), rotation: 0, shape: stone.shape.clone() },
    ];
    grid.rebuild(&vec![Placement { entity: 1, pos: v(0, 0), rotation: 0, shape: bag }], &items);
    let p = |x, y| GridPosition(v(x, y));
    assert!(are_adjacent(&p(1, 2), &ItemRotation(0), &sword, &p(1, 4), &ItemRotation(0), &stone));
    let on_grid = vec![
        ItemOnGrid { entity: 20, pos: p(1, 2), rot: ItemRotation(0), def: sword },
        ItemOnGrid { entity: 21, pos: p(1, 4), rot: ItemRotation(0), def: stone },
    ];
    let links = synergy_links(&grid, &on_grid);
    assert!(!links.is_empty(), "Should detect a link between Wooden Sword and Whetstone. Found {} links.", links.len());
    assert_eq!(links, vec![(21, 20)]);
}
