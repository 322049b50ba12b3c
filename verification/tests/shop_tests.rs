use cursed_warden::plugins::geometry::GridVec;
use cursed_warden::plugins::inventory::{InventoryGridState, Placement};
use cursed_warden::plugins::items::{ItemDatabase, ItemDefinition, ItemRarity, ItemType, MaterialType};
use cursed_warden::plugins::metagame::{PendingItems, PlayerStats};
use cursed_warden::plugins::shop::{
    candidates_of, fallback_offer, generate_shop_items, keep_locked, offer_for, offer_from_draws, rarity_for_roll,
    roll_rarity, Purchase, ShopItem, ShopState, SHOP_SIZE,
};

fn milli(v: f32) -> i64 {
    (v * 1000.0).round() as i64
}

fn sword(id: &str, name: &str, rarity: ItemRarity, price: u32, attack: f32) -> ItemDefinition {
    ItemDefinition {
        id: id.to_string(),
        name: name.to_string(),
        width: 1,
        height: 2,
        shape: vec![GridVec { x: 0, y: 0 }, GridVec { x: 0, y: 1 }],
        material: MaterialType::Steel,
        item_type: ItemType::Weapon,
        rarity,
        price,
        tags: vec![],
        synergies: vec![],
        attack: milli(attack),
        defense: 0,
        speed: 0,
    }
}

fn test_db() -> ItemDatabase {
    let mut db = ItemDatabase::new();
    db.insert(sword("common_sword", "Common Sword", ItemRarity::Common, 10, 10.0));
    db.insert(sword("rare_sword", "Rare Sword", ItemRarity::Rare, 20, 15.0));
    db
}

fn first_unsold(shop: &ShopState) -> usize {
    shop.items.iter().position(|s| !s.is_sold).unwrap()
}

#[test]
fn test_shop_logic_backend() {
    let db = test_db();
    let mut stats = PlayerStats::default();
    let mut pending = PendingItems::default();
    let grid = InventoryGridState::new();
    let mut shop = ShopState::default();

    // Entering the evening generates the offers
    shop.on_enter_shop(&db, 1);
    assert_eq!(shop.items.len(), 5);
    assert_eq!(shop.reroll_cost, 1);

    // Reroll cost logic
    stats.thalers = 100;
    assert!(shop.reroll(&mut stats, &db, 1));
    assert_eq!(shop.reroll_count, 1);
    assert_eq!(shop.reroll_cost, 1);
    assert!(shop.reroll(&mut stats, &db, 1));
    assert!(shop.reroll(&mut stats, &db, 1));
    assert!(shop.reroll(&mut stats, &db, 1));
    assert_eq!(shop.reroll_count, 4);
    assert_eq!(shop.reroll_cost, 2);

    // Buying: the grid has no bag, so the item waits among the pending items
    let valid_slot = first_unsold(&shop);
    let bought = shop.buy(valid_slot, &mut stats, &grid, &db, &mut pending);
    assert_eq!(bought, Some(Purchase::Pending));
    assert_eq!(pending.0.len(), 1);
    assert!(shop.items[valid_slot].is_sold);

    // Locking
    assert!(shop.reroll(&mut stats, &db, 1));
    let valid_slot = first_unsold(&shop);
    let item_id = shop.items[valid_slot].item_id.clone();
    shop.toggle_lock(valid_slot);
    assert!(shop.items[valid_slot].is_locked);

    // Reroll again: the locked offer stays
    assert!(shop.reroll(&mut stats, &db, 1));
    assert!(shop.items[valid_slot].is_locked);
    assert_eq!(shop.items[valid_slot].item_id, item_id);
}

#[test]
fn reroll_without_money_changes_nothing() {
    let db = test_db();
    let mut shop = ShopState::default();
    shop.on_enter_shop(&db, 1);
    let before: Vec<String> = shop.items.iter().map(|s| s.item_id.clone()).collect();
    let mut stats = PlayerStats { thalers: 0, reputation: 3, infection: 0 };
    assert!(!shop.reroll(&mut stats, &db, 1));
    assert_eq!(stats.thalers, 0);
    assert_eq!(shop.reroll_count, 0);
    let after: Vec<String> = shop.items.iter().map(|s| s.item_id.clone()).collect();
    assert_eq!(before, after);
}

#[test]
fn buying_places_on_first_free_spot_and_pays() {
    let db = test_db();
    let mut grid = InventoryGridState::new();
    let bag: Vec<GridVec> = vec![GridVec { x: 0, y: 0 }, GridVec { x: 1, y: 0 }, GridVec { x: 0, y: 1 }, GridVec { x: 1, y: 1 }];
    grid.rebuild(&vec![Placement { entity: 1, pos: GridVec { x: 0, y: 0 }, rotation: 0, shape: bag }], &vec![]);
    let mut shop = ShopState { items: vec![offer_for(db.get(&"rare_sword".to_string()).unwrap(), false)], reroll_cost: 1, reroll_count: 0 };
    let mut stats = PlayerStats { thalers: 25, reputation: 0, infection: 0 };
    let mut pending = PendingItems::default();
    assert_eq!(shop.buy(0, &mut stats, &grid, &db, &mut pending), Some(Purchase::Placed(GridVec { x: 0, y: 0 })));
    assert_eq!(stats.thalers, 5);
    assert!(pending.0.is_empty());
    // sold: a second purchase is refused
    assert_eq!(shop.buy(0, &mut stats, &grid, &db, &mut pending), None);
    // out of range
    assert_eq!(shop.buy(3, &mut stats, &grid, &db, &mut pending), None);
    assert_eq!(stats.thalers, 5);
}

#[test]
fn buying_without_money_is_refused() {
    let db = test_db();
    let grid = InventoryGridState::new();
    let mut shop = ShopState { items: vec![offer_for(db.get(&"rare_sword".to_string()).unwrap(), false)], reroll_cost: 1, reroll_count: 0 };
    let mut stats = PlayerStats { thalers: 19, reputation: 0, infection: 0 };
    let mut pending = PendingItems::default();
    assert_eq!(shop.buy(0, &mut stats, &grid, &db, &mut pending), None);
    assert_eq!(stats.thalers, 19);
    assert!(!shop.items[0].is_sold);
}

#[test]
fn discounted_offer_costs_half_rounded_up() {
    let d = sword("odd", "Odd", ItemRarity::Common, 7, 1.0);
    let full = offer_for(&d, false);
    assert_eq!((full.price, full.is_discounted, full.is_locked, full.is_sold), (7, false, false, false));
    let half = offer_for(&d, true);
    assert_eq!((half.price, half.is_discounted), (4, true));
}

#[test]
fn rarity_weights_by_round() {
    assert_eq!(rarity_for_roll(1, 79), ItemRarity::Common);
    assert_eq!(rarity_for_roll(1, 80), ItemRarity::Rare);
    assert_eq!(rarity_for_roll(5, 95), ItemRarity::Epic);
    assert_eq!(rarity_for_roll(9, 96), ItemRarity::Legendary);
    assert_eq!(rarity_for_roll(12, 99), ItemRarity::Godly);
    assert_eq!(rarity_for_roll(12, 19), ItemRarity::Common);
}

#[test]
fn rolled_rarity_matches_round_weights() {
    let mut rng = rand::thread_rng();
    for _ in 0..200 {
        let r = roll_rarity(1, &mut rng, true);
        assert!(r == ItemRarity::Common || r == ItemRarity::Rare);
    }
}

#[test]
fn candidates_and_fallback() {
    let db = test_db();
    assert_eq!(candidates_of(&db, ItemRarity::Rare), vec!["rare_sword".to_string()]);
    assert!(candidates_of(&db, ItemRarity::Epic).is_empty());
    let fb = fallback_offer(&db).unwrap();
    assert_eq!(fb.item_id, "common_sword");
    assert_eq!(fb.price, 10);
    assert!(fallback_offer(&ItemDatabase::new()).is_none());
}

#[test]
fn generated_offers_come_from_the_database() {
    let db = test_db();
    let offers = generate_shop_items(&db, 3, SHOP_SIZE, true);
    assert_eq!(offers.len(), SHOP_SIZE);
    for o in &offers {
        let d = db.get(&o.item_id).unwrap();
        assert!(o.price == d.price || (o.is_discounted && o.price == (d.price + 1) / 2));
        assert!(!o.is_locked && !o.is_sold);
    }
    assert!(generate_shop_items(&ItemDatabase::new(), 3, SHOP_SIZE, true).is_empty());
}

#[test]
fn kept_offers_are_locked_and_unsold() {
    let mk = |id: &str, locked: bool, sold: bool| ShopItem { item_id: id.to_string(), price: 1, is_locked: locked, is_discounted: false, is_sold: sold };
    let items = vec![mk("a", true, false), mk("b", false, false), mk("c", true, true), mk("d", true, false)];
    let kept: Vec<String> = keep_locked(&items).iter().map(|s| s.item_id.clone()).collect();
    assert_eq!(kept, vec!["a".to_string(), "d".to_string()]);
}

#[test]
fn offer_from_draws_is_exact() {
    let db = test_db();
    let o = offer_from_draws(&db, Some(&"rare_sword".to_string()), true).unwrap();
    assert_eq!((o.item_id.as_str(), o.price, o.is_discounted, o.is_locked, o.is_sold), ("rare_sword", 10, true, false, false));
    let f = offer_from_draws(&db, None, true).unwrap();
    assert_eq!((f.item_id.as_str(), f.price, f.is_discounted), ("common_sword", 10, false));
    assert!(offer_from_draws(&ItemDatabase::new(), None, false).is_none());
}
