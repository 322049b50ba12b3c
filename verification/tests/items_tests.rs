use cursed_warden::plugins::geometry::GridVec;
use cursed_warden::plugins::items::{
    default_item_definitions, fill_default_shape, load_definitions, load_items, rect_shape_of,
    ItemDatabase, ItemRarity, ItemTag, ItemType, MaterialType,
};

fn milli(v: f32) -> i64 {
    (v * 1000.0).round() as i64
}

#[test]
fn catalogue_is_loaded_with_rectangular_shapes() {
    let mut db = ItemDatabase::new();
    load_items(&mut db);
    assert_eq!(db.len(), 9);
    assert!(db.contains_key(&"steel_sword".to_string()));
    let sword = db.get(&"steel_sword".to_string()).unwrap();
    assert_eq!(sword.name, "Steel Sword");
    assert_eq!(sword.shape, vec![GridVec { x: 0, y: 0 }, GridVec { x: 0, y: 1 }]);
    assert_eq!(sword.attack, milli(10.0));
    assert_eq!(sword.material, MaterialType::Steel);
    let shield = db.get(&"epic_shield".to_string()).unwrap();
    assert_eq!(shield.shape.len(), 4);
    assert_eq!((shield.defense, shield.speed), (milli(20.0), milli(-2.0)));
    assert_eq!(shield.rarity, ItemRarity::Epic);
    let stone = db.get(&"whetstone".to_string()).unwrap();
    assert_eq!(stone.synergies.len(), 4);
    assert_eq!(stone.tags, vec![ItemTag::Valuable]);
    assert_eq!(stone.item_type, ItemType::Consumable);
    let bag = db.get(&"starter_bag".to_string()).unwrap();
    assert_eq!(bag.shape.len(), 9);
    assert_eq!((bag.width, bag.height, bag.price), (3, 3, 6));
}

#[test]
fn later_definition_replaces_earlier() {
    let mut defs = default_item_definitions();
    let mut other = defs[0].clone();
    other.price = 99;
    defs.push(other);
    let mut db = ItemDatabase::new();
    load_definitions(&mut db, defs);
    assert_eq!(db.len(), 9);
    assert_eq!(db.get(&"steel_sword".to_string()).unwrap().price, 99);
}

#[test]
fn default_shape_is_the_rectangle() {
    assert_eq!(rect_shape_of(2, 1), vec![GridVec { x: 0, y: 0 }, GridVec { x: 1, y: 0 }]);
    assert!(rect_shape_of(0, 3).is_empty());
    let mut d = default_item_definitions()[5].clone();
    fill_default_shape(&mut d);
    assert_eq!(d.shape.len(), 3);
    let kept = vec![GridVec { x: 4, y: 4 }];
    d.shape = kept.clone();
    fill_default_shape(&mut d);
    assert_eq!(d.shape, kept);
}

#[test]
fn database_insert_and_lookup() {
    let mut db = ItemDatabase::new();
    assert!(!db.contains_key(&"x".to_string()));
    let defs = default_item_definitions();
    db.insert(defs[1].clone());
    db.insert(defs[2].clone());
    assert!(db.contains_key(&"health_potion".to_string()));
    assert_eq!(db.len(), 2);
    let mut ids = db.ids();
    ids.sort();
    assert_eq!(ids, vec!["health_potion".to_string(), "silver_dagger".to_string()]);
    assert_eq!(db.get(&"silver_dagger".to_string()).unwrap().speed, milli(5.0));
    assert_eq!(ItemRarity::default(), ItemRarity::Common);
}
