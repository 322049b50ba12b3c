use cursed_warden::plugins::geometry::GridVec;
use cursed_warden::plugins::items::{load_items, ItemDatabase};
use cursed_warden::plugins::metagame::{
    create_save_data, handle_city_action, items_to_respawn, load_game, GlobalTime, LoadedItem, PendingItems,
    PersistentInventory, PlacedItemView, PlayerStats,
};
use cursed_warden::plugins::phases::GameState;

#[test]
fn new_game_defaults() {
    let s = PlayerStats::default();
    assert_eq!((s.thalers, s.reputation, s.infection), (100, 50, 0));
    let t = GlobalTime::default();
    assert_eq!((t.day, t.hour), (1, 6));
    let inv = PersistentInventory::default();
    assert_eq!(inv.items.len(), 1);
    assert_eq!(inv.items[0].item_id, "starter_bag");
    assert_eq!((inv.items[0].grid_x, inv.items[0].grid_y, inv.items[0].rotation), (2, 2, 0));
    assert!(PendingItems::default().0.is_empty());
}

#[test]
fn save_records_every_placed_item() {
    let stats = PlayerStats { thalers: 500, reputation: 10, infection: 90 };
    let time = GlobalTime { day: 2, hour: 12 };
    let placed = vec![
        PlacedItemView { item_id: "test_sword".to_string(), pos: GridVec { x: 0, y: 0 }, rotation: 0 },
        PlacedItemView { item_id: "whetstone".to_string(), pos: GridVec { x: 3, y: -1 }, rotation: 3 },
    ];
    let data = create_save_data(&stats, &time, &placed);
    assert_eq!(data.player_stats.thalers, 500);
    assert_eq!(data.global_time.day, 2);
    assert_eq!(data.inventory.len(), 2);
    assert_eq!(data.inventory[0].item_id, "test_sword");
    assert_eq!((data.inventory[1].grid_x, data.inventory[1].grid_y, data.inventory[1].rotation), (3, -1, 3));
}

#[test]
fn save_then_load_gives_back_known_items() {
    let mut db = ItemDatabase::new();
    load_items(&mut db);
    let placed = vec![
        PlacedItemView { item_id: "whetstone".to_string(), pos: GridVec { x: 1, y: 2 }, rotation: 1 },
        PlacedItemView { item_id: "no_such_item".to_string(), pos: GridVec { x: 0, y: 0 }, rotation: 0 },
        PlacedItemView { item_id: "steel_sword".to_string(), pos: GridVec { x: 4, y: 0 }, rotation: 2 },
    ];
    let data = create_save_data(&PlayerStats::default(), &GlobalTime::default(), &placed);
    let loaded = items_to_respawn(&data, &db);
    assert_eq!(
        loaded,
        vec![
            LoadedItem { item_id: "whetstone".to_string(), pos: GridVec { x: 1, y: 2 }, rotation: 1 },
            LoadedItem { item_id: "steel_sword".to_string(), pos: GridVec { x: 4, y: 0 }, rotation: 2 },
        ]
    );
}

#[test]
fn city_actions() {
    let mut pending = PendingItems::default();
    assert_eq!(handle_city_action(&"steel_sword".to_string(), &mut pending), None);
    assert_eq!(pending.0, vec!["steel_sword".to_string()]);
    assert_eq!(handle_city_action(&"NEXT_PHASE".to_string(), &mut pending), Some(GameState::EveningPhase));
    assert_eq!(pending.0.len(), 1);
}

#[test]
fn save_then_load_restores_stats_and_time() {
    let mut db = ItemDatabase::new();
    load_items(&mut db);
    let stats = PlayerStats { thalers: 500, reputation: 10, infection: 90 };
    let time = GlobalTime { day: 2, hour: 12 };
    let placed = vec![
        PlacedItemView { item_id: "health_potion".to_string(), pos: GridVec { x: 2, y: 3 }, rotation: 0 },
    ];
    let data = create_save_data(&stats, &time, &placed);
    let game = load_game(&data, &db);
    assert_eq!(game.player_stats.thalers, 500);
    assert_eq!((game.player_stats.reputation, game.player_stats.infection), (10, 90));
    assert_eq!((game.global_time.day, game.global_time.hour), (2, 12));
    assert_eq!(
        game.items,
        vec![LoadedItem { item_id: "health_potion".to_string(), pos: GridVec { x: 2, y: 3 }, rotation: 0 }]
    );
}
