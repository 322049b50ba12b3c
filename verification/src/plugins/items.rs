//! Item definitions, their rarities, tags and synergies, and the item database.
//!
//! Stat values (attack, defense, speed, synergy bonuses) are fixed-point numbers
//! in thousandths: `1000` stands for `1.0`.
use vstd::prelude::*;

use crate::plugins::geometry::{gv, GridVec};
use crate::plugins::tables::DefTable;

verus! {

/// How rare an item is; the shop rolls a rarity before it picks an item.
#[derive(Debug, Clone, Copy, PartialEq, Eq, Hash, PartialOrd, Ord, Structural)]
pub enum ItemRarity {
    Common,
    Rare,
    Epic,
    Legendary,
    Godly,
    Unique,
}

impl Default for ItemRarity {
    fn default() -> (r: Self)
        ensures
            r == ItemRarity::Common,
    {
        ItemRarity::Common
    }
}

/// Tags that synergies look for on neighbouring items.
#[derive(Debug, Clone, Copy, PartialEq, Eq, Hash, Structural)]
pub enum ItemTag {
    Weapon,
    Potion,
    Food,
    Magic,
    Valuable,
}

/// The stat that a synergy raises.
#[derive(Debug, Clone, Copy, PartialEq, Eq, Structural)]
pub enum StatType {
    Attack,
    Defense,
    Speed,
    Health,
}

/// What an item is made of.
#[derive(Debug, Clone, Copy, PartialEq, Eq, Structural)]
pub enum MaterialType {
    Steel,
    Silver,
    Flesh,
}

/// The kind of bag an item of type `Bag` is.
#[derive(Debug, Clone, Copy, PartialEq, Eq, Structural)]
pub enum BagType {
    Default,
}

/// The kind of item; bags project inventory slots onto the grid.
#[derive(Debug, Clone, Copy, PartialEq, Eq, Structural)]
pub enum ItemType {
    Weapon,
    Consumable,
    Ammo,
    Bag { bag_type: BagType },
}

/// The effect of a synergy whose condition holds; `value` is in thousandths.
#[derive(Debug, Clone, Copy, PartialEq, Eq, Structural)]
pub enum SynergyEffect {
    /// Raises a stat of the neighbouring (target) item.
    BuffTarget { stat: StatType, value: i64 },
    /// Raises a stat of the item itself when a matching neighbour is found.
    BuffSelf { stat: StatType, value: i64 },
}

/// A synergy: if the item at `offset` (relative to the anchor, turning with the item)
/// has any of `target_tags`, `effect` applies.
#[derive(Debug, Clone)]
pub struct SynergyDefinition {
    pub offset: GridVec,
    pub target_tags: Vec<ItemTag>,
    pub effect: SynergyEffect,
}

/// The static description of an item kind.
#[derive(Debug, Clone)]
pub struct ItemDefinition {
    pub id: String,
    pub name: String,
    pub width: u8,
    pub height: u8,
    /// Cells that the item covers, relative to its anchor `(0, 0)`.
    pub shape: Vec<GridVec>,
    pub material: MaterialType,
    pub item_type: ItemType,
    pub rarity: ItemRarity,
    pub price: u32,
    pub tags: Vec<ItemTag>,
    pub synergies: Vec<SynergyDefinition>,
    /// Base attack, in thousandths.
    pub attack: i64,
    /// Base defense, in thousandths.
    pub defense: i64,
    /// Base speed, in thousandths.
    pub speed: i64,
}

/// The item definitions, by id.
pub struct ItemDatabase {
    pub items: DefTable,
}

/// The cells of a `width` x `height` rectangle, row by row.
pub open spec fn rect_shape(width: nat, height: nat) -> Seq<GridVec> {
    Seq::new(width * height, |k: int| gv(k % (width as int), k / (width as int)))
}

impl ItemDatabase {
    /// Every definition is kept under its own id.
    pub open spec fn keys_match_ids(&self) -> bool {
        forall|id: Seq<char>| #[trigger] self.items@.contains_key(id) ==> self.items@[id].id@ == id
    }

    /// An empty database.
    pub fn new() -> (db: Self)
        ensures
            db.items@ == Map::<Seq<char>, ItemDefinition>::empty(),
            db.keys_match_ids(),
    {
        ItemDatabase { items: DefTable::new() }
    }

    /// The definition with id `id`, as a map lookup.
    pub open spec fn lookup(&self, id: Seq<char>) -> Option<ItemDefinition> {
        if self.items@.contains_key(id) {
            Some(self.items@[id])
        } else {
            None
        }
    }

    /// The definition with id `id`.
    pub fn get(&self, id: &String) -> (r: Option<&ItemDefinition>)
        ensures
            match self.lookup(id@) {
                Some(d) => r is Some && *r.unwrap() == d,
                None => r is None,
            },
    {
        self.items.get(id)
    }

    /// `true` when a definition with id `id` exists.
    pub fn contains_key(&self, id: &String) -> (r: bool)
        ensures
            r == (self.lookup(id@) is Some),
    {
        self.items.get(id).is_some()
    }

    /// Adds `def` under its id, replacing the definition that had that id.
    pub fn insert(&mut self, def: ItemDefinition)
        ensures
            final(self).items@ == old(self).items@.insert(def.id@, def),
            final(self).lookup(def.id@) == Some(def),
            forall|id: Seq<char>| id != def.id@ ==> #[trigger] final(self).lookup(id) == old(self).lookup(id),
            old(self).keys_match_ids() ==> final(self).keys_match_ids(),
    {
        let key = def.id.clone();
        self.items.insert(key, def);
    }

    /// The number of definitions.
    pub fn len(&self) -> (n: usize)
        ensures
            n == self.items@.dom().len(),
    {
        self.items.len()
    }

    /// The ids of all definitions, each once, in the database's own order.
    pub fn ids(&self) -> (r: Vec<String>)
        ensures
            forall|id: Seq<char>| (exists|j: int| 0 <= j < r@.len() && #[trigger] r@[j]@ == id) == self.items@.contains_key(id),
            forall|i: int, j: int| 0 <= i < j < r@.len() ==> r@[i]@ != r@[j]@,
    {
        self.items.keys()
    }
}

/// A rectangle of `width` x `height` cells, row by row (the shape generated for items
/// defined without one).
pub fn rect_shape_of(width: u8, height: u8) -> (r: Vec<GridVec>)
    ensures
        r@ == rect_shape(width as nat, height as nat),
{
    let mut shape: Vec<GridVec> = Vec::new();
    let mut y: u8 = 0;
    while y < height
        invariant
            y <= height,
            shape@.len() == (y as int) * (width as int),
            forall|k: int| 0 <= k < shape@.len() ==> #[trigger] shape@[k] == gv(k % (width as int), k / (width as int)),
        decreases height - y,
    {
        let mut x: u8 = 0;
        while x < width
            invariant
                y < height,
                x <= width,
                shape@.len() == (y as int) * (width as int) + x,
                forall|k: int| 0 <= k < shape@.len() ==> #[trigger] shape@[k] == gv(k % (width as int), k / (width as int)),
            decreases width - x,
        {
            let ghost k = shape@.len() as int;
            shape.push(GridVec { x: x as i32, y: y as i32 });
            proof {
                vstd::arithmetic::div_mod::lemma_fundamental_div_mod_converse(
                    k,
                    width as int,
                    y as int,
                    x as int,
                );
            }
            x = x + 1;
        }
        proof {
            assert((y as int) * (width as int) + width == (y + 1) * (width as int)) by (nonlinear_arith);
        }
        y = y + 1;
    }
    proof {
        assert((height as int) * (width as int) == (width as int) * (height as int)) by (nonlinear_arith);
        assert(shape@ =~= rect_shape(width as nat, height as nat));
    }
    shape
}

/// Gives an item defined without a shape the full rectangle of its width and height.
pub fn fill_default_shape(def: &mut ItemDefinition)
    ensures
        old(def).shape@.len() == 0 ==> final(def).shape@ == rect_shape(old(def).width as nat, old(def).height as nat),
        old(def).shape@.len() != 0 ==> final(def).shape@ == old(def).shape@,
        with_default_shape(*old(def), *final(def)),
{
    if def.shape.len() == 0 {
        def.shape = rect_shape_of(def.width, def.height);
    }
}

/// `d` has the given fields, an empty shape and no synergies.
pub open spec fn plain_def(
    d: ItemDefinition,
    id: Seq<char>,
    name: Seq<char>,
    width: u8,
    height: u8,
    material: MaterialType,
    item_type: ItemType,
    rarity: ItemRarity,
    price: u32,
    tags: Seq<ItemTag>,
    attack: i64,
    defense: i64,
    speed: i64,
) -> bool {
    &&& d.id@ == id
    &&& d.name@ == name
    &&& d.width == width
    &&& d.height == height
    &&& d.shape@.len() == 0
    &&& d.material == material
    &&& d.item_type == item_type
    &&& d.rarity == rarity
    &&& d.price == price
    &&& d.tags@ == tags
    &&& d.attack == attack
    &&& d.defense == defense
    &&& d.speed == speed
}

/// The whetstone's synergies: a weapon on any side (right, left, below, above) gains 5.0 attack.
pub open spec fn whetstone_synergies(s: Seq<SynergyDefinition>) -> bool {
    &&& s.len() == 4
    &&& s[0].offset == gv(1, 0)
    &&& s[1].offset == gv(-1, 0)
    &&& s[2].offset == gv(0, 1)
    &&& s[3].offset == gv(0, -1)
    &&& forall|k: int|
        0 <= k < 4 ==> (#[trigger] s[k]).target_tags@ == seq![ItemTag::Weapon] && s[k].effect
            == SynergyEffect::BuffTarget { stat: StatType::Attack, value: 5000 }
}

/// The built-in catalogue of items (stats in thousandths, shapes left to be generated).
pub open spec fn is_default_catalog(c: Seq<ItemDefinition>) -> bool {
    &&& c.len() == 9
    &&& plain_def(c[0], "steel_sword"@, "Steel Sword"@, 1, 2, MaterialType::Steel, ItemType::Weapon, ItemRarity::Common, 5, seq![ItemTag::Weapon], 10000, 0, 0)
    &&& c[0].synergies@.len() == 0
    &&& plain_def(c[1], "silver_dagger"@, "Silver Dagger"@, 1, 1, MaterialType::Silver, ItemType::Weapon, ItemRarity::Rare, 7, seq![ItemTag::Weapon], 8000, 0, 5000)
    &&& c[1].synergies@.len() == 0
    &&& plain_def(c[2], "health_potion"@, "Health Potion"@, 1, 1, MaterialType::Flesh, ItemType::Consumable, ItemRarity::Common, 3, seq![ItemTag::Potion], 0, 0, 0)
    &&& c[2].synergies@.len() == 0
    &&& plain_def(c[3], "whetstone"@, "Whetstone"@, 1, 1, MaterialType::Steel, ItemType::Consumable, ItemRarity::Common, 4, seq![ItemTag::Valuable], 0, 0, 0)
    &&& whetstone_synergies(c[3].synergies@)
    &&& plain_def(c[4], "epic_shield"@, "Epic Shield"@, 2, 2, MaterialType::Steel, ItemType::Weapon, ItemRarity::Epic, 12, seq![ItemTag::Weapon], 2000, 20000, -2000i64)
    &&& c[4].synergies@.len() == 0
    &&& plain_def(c[5], "legendary_bow"@, "Legendary Bow"@, 1, 3, MaterialType::Flesh, ItemType::Weapon, ItemRarity::Legendary, 25, seq![ItemTag::Weapon], 15000, 0, 10000)
    &&& c[5].synergies@.len() == 0
    &&& plain_def(c[6], "unique_charm"@, "Unique Charm"@, 1, 1, MaterialType::Silver, ItemType::Consumable, ItemRarity::Unique, 50, seq![ItemTag::Valuable], 0, 0, 0)
    &&& c[6].synergies@.len() == 0
    &&& plain_def(c[7], "wooden_sword"@, "Wooden Sword"@, 1, 2, MaterialType::Steel, ItemType::Weapon, ItemRarity::Common, 2, seq![ItemTag::Weapon], 5000, 0, 0)
    &&& c[7].synergies@.len() == 0
    &&& plain_def(c[8], "starter_bag"@, "Starter Bag"@, 3, 3, MaterialType::Flesh, ItemType::Bag { bag_type: BagType::Default }, ItemRarity::Common, 6, Seq::<ItemTag>::empty(), 0, 0, 0)
    &&& c[8].synergies@.len() == 0
}

/// A definition with an empty shape and the given fields.
fn make_def(
    id: &str,
    name: &str,
    width: u8,
    height: u8,
    material: MaterialType,
    item_type: ItemType,
    rarity: ItemRarity,
    price: u32,
    tags: Vec<ItemTag>,
    synergies: Vec<SynergyDefinition>,
    attack: i64,
    defense: i64,
    speed: i64,
) -> (d: ItemDefinition)
    ensures
        plain_def(d, id@, name@, width, height, material, item_type, rarity, price, tags@, attack, defense, speed),
        d.synergies@ == synergies@,
{
    ItemDefinition {
        id: id.to_owned(),
        name: name.to_owned(),
        width,
        height,
        shape: Vec::new(),
        material,
        item_type,
        rarity,
        price,
        tags,
        synergies,
        attack,
        defense,
        speed,
    }
}

/// A list of the single tag `t`.
fn one_tag(t: ItemTag) -> (v: Vec<ItemTag>)
    ensures
        v@ == seq![t],
{
    let mut v: Vec<ItemTag> = Vec::new();
    v.push(t);
    v
}

/// A synergy at `offset` that gives a neighbouring weapon 5.0 attack.
fn weapon_buff(x: i32, y: i32) -> (s: SynergyDefinition)
    ensures
        s.offset == gv(x as int, y as int),
        s.target_tags@ == seq![ItemTag::Weapon],
        s.effect == (SynergyEffect::BuffTarget { stat: StatType::Attack, value: 5000 }),
{
    SynergyDefinition {
        offset: GridVec { x, y },
        target_tags: one_tag(ItemTag::Weapon),
        effect: SynergyEffect::BuffTarget { stat: StatType::Attack, value: 5000 },
    }
}

/// The built-in catalogue of items.
pub fn default_item_definitions() -> (c: Vec<ItemDefinition>)
    ensures
        is_default_catalog(c@),
{
    let mut c: Vec<ItemDefinition> = Vec::new();
    c.push(make_def("steel_sword", "Steel Sword", 1, 2, MaterialType::Steel, ItemType::Weapon, ItemRarity::Common, 5, one_tag(ItemTag::Weapon), Vec::new(), 10000, 0, 0));
    c.push(make_def("silver_dagger", "Silver Dagger", 1, 1, MaterialType::Silver, ItemType::Weapon, ItemRarity::Rare, 7, one_tag(ItemTag::Weapon), Vec::new(), 8000, 0, 5000));
    c.push(make_def("health_potion", "Health Potion", 1, 1, MaterialType::Flesh, ItemType::Consumable, ItemRarity::Common, 3, one_tag(ItemTag::Potion), Vec::new(), 0, 0, 0));
    let mut whetstone_syn: Vec<SynergyDefinition> = Vec::new();
    whetstone_syn.push(weapon_buff(1, 0));
    whetstone_syn.push(weapon_buff(-1, 0));
    whetstone_syn.push(weapon_buff(0, 1));
    whetstone_syn.push(weapon_buff(0, -1));
    assert(whetstone_synergies(whetstone_syn@));
    c.push(make_def("whetstone", "Whetstone", 1, 1, MaterialType::Steel, ItemType::Consumable, ItemRarity::Common, 4, one_tag(ItemTag::Valuable), whetstone_syn, 0, 0, 0));
    c.push(make_def("epic_shield", "Epic Shield", 2, 2, MaterialType::Steel, ItemType::Weapon, ItemRarity::Epic, 12, one_tag(ItemTag::Weapon), Vec::new(), 2000, 20000, -2000));
    c.push(make_def("legendary_bow", "Legendary Bow", 1, 3, MaterialType::Flesh, ItemType::Weapon, ItemRarity::Legendary, 25, one_tag(ItemTag::Weapon), Vec::new(), 15000, 0, 10000));
    c.push(make_def("unique_charm", "Unique Charm", 1, 1, MaterialType::Silver, ItemType::Consumable, ItemRarity::Unique, 50, one_tag(ItemTag::Valuable), Vec::new(), 0, 0, 0));
    c.push(make_def("wooden_sword", "Wooden Sword", 1, 2, MaterialType::Steel, ItemType::Weapon, ItemRarity::Common, 2, one_tag(ItemTag::Weapon), Vec::new(), 5000, 0, 0));
    c.push(make_def("starter_bag", "Starter Bag", 3, 3, MaterialType::Flesh, ItemType::Bag { bag_type: BagType::Default }, ItemRarity::Common, 6, Vec::new(), Vec::new(), 0, 0, 0));
    c
}

/// `d` with the rectangle of its width and height as shape when it has none.
pub open spec fn with_default_shape(d: ItemDefinition, filled: ItemDefinition) -> bool {
    &&& filled.id == d.id
    &&& filled.name == d.name
    &&& filled.width == d.width
    &&& filled.height == d.height
    &&& filled.shape@ == (if d.shape@.len() == 0 {
        rect_shape(d.width as nat, d.height as nat)
    } else {
        d.shape@
    })
    &&& filled.material == d.material
    &&& filled.item_type == d.item_type
    &&& filled.rarity == d.rarity
    &&& filled.price == d.price
    &&& filled.tags == d.tags
    &&& filled.synergies == d.synergies
    &&& filled.attack == d.attack
    &&& filled.defense == d.defense
    &&& filled.speed == d.speed
}

/// No definition after index `j` (up to `end`) has the id of definition `j`.
pub open spec fn last_with_id(defs: Seq<ItemDefinition>, j: int, end: int) -> bool {
    forall|m: int| j < m < end ==> #[trigger] defs[m].id@ != defs[j].id@
}

/// Adds each of `defs`, in order, after giving those without a shape their rectangle;
/// a later definition with the same id replaces an earlier one.
pub fn load_definitions(db: &mut ItemDatabase, defs: Vec<ItemDefinition>)
    ensures
        forall|j: int|
            0 <= j < defs@.len() && last_with_id(defs@, j, defs@.len() as int) ==> {
                &&& (#[trigger] final(db).lookup(defs@[j].id@)) is Some
                &&& with_default_shape(defs@[j], final(db).lookup(defs@[j].id@).unwrap())
            },
        forall|id: Seq<char>|
            (forall|j: int| 0 <= j < defs@.len() ==> #[trigger] defs@[j].id@ != id) ==> #[trigger] final(db).lookup(id)
                == old(db).lookup(id),
        old(db).keys_match_ids() ==> final(db).keys_match_ids(),
{
    let ghost orig = defs@;
    let mut rest = defs;
    let n = rest.len();
    let mut k: usize = 0;
    while k < n
        invariant
            n == orig.len(),
            k <= n,
            rest@ == orig.skip(k as int),
            forall|j: int|
                0 <= j < k && last_with_id(orig, j, k as int) ==> {
                    &&& (#[trigger] db.lookup(orig[j].id@)) is Some
                    &&& with_default_shape(orig[j], db.lookup(orig[j].id@).unwrap())
                },
            forall|id: Seq<char>|
                (forall|j: int| 0 <= j < k ==> #[trigger] orig[j].id@ != id) ==> #[trigger] db.lookup(id)
                    == old(db).lookup(id),
            old(db).keys_match_ids() ==> db.keys_match_ids(),
        decreases n - k,
    {
        let ghost before = *db;
        let mut d = rest.remove(0);
        assert(d == orig[k as int]);
        fill_default_shape(&mut d);
        let ghost filled = d;
        db.insert(d);
        k = k + 1;
        proof {
            assert(rest@ =~= orig.skip(k as int));
            assert forall|j: int|
                0 <= j < k && last_with_id(orig, j, k as int) implies {
                    &&& (#[trigger] db.lookup(orig[j].id@)) is Some
                    &&& with_default_shape(orig[j], db.lookup(orig[j].id@).unwrap())
                } by {
                if j < k - 1 {
                    assert(orig[k - 1].id@ != orig[j].id@);
                    assert(last_with_id(orig, j, k - 1));
                }
            }
            assert forall|id: Seq<char>|
                (forall|j: int| 0 <= j < k ==> #[trigger] orig[j].id@ != id) implies #[trigger] db.lookup(id)
                    == old(db).lookup(id) by {
                assert(orig[k - 1].id@ != id);
                assert(forall|j: int| 0 <= j < k - 1 ==> #[trigger] orig[j].id@ != id);
            }
        }
    }
}

/// `db` holds, under `id`, a definition with these fields.
pub open spec fn holds_entry(
    db: &ItemDatabase,
    id: Seq<char>,
    name: Seq<char>,
    width: u8,
    height: u8,
    material: MaterialType,
    item_type: ItemType,
    rarity: ItemRarity,
    price: u32,
    tags: Seq<ItemTag>,
    attack: i64,
    defense: i64,
    speed: i64,
) -> bool {
    &&& db.lookup(id) is Some
    &&& db.lookup(id).unwrap().id@ == id
    &&& db.lookup(id).unwrap().name@ == name
    &&& db.lookup(id).unwrap().width == width
    &&& db.lookup(id).unwrap().height == height
    &&& db.lookup(id).unwrap().material == material
    &&& db.lookup(id).unwrap().item_type == item_type
    &&& db.lookup(id).unwrap().rarity == rarity
    &&& db.lookup(id).unwrap().price == price
    &&& db.lookup(id).unwrap().tags@ == tags
    &&& db.lookup(id).unwrap().attack == attack
    &&& db.lookup(id).unwrap().defense == defense
    &&& db.lookup(id).unwrap().speed == speed
}

/// Fills `item_db` with the built-in catalogue, each item given its rectangle as shape.
pub fn load_items(item_db: &mut ItemDatabase)
    ensures
        exists|c: Seq<ItemDefinition>|
            is_default_catalog(c) && (forall|k: int|
                0 <= k < 9 ==> (#[trigger] final(item_db).lookup(c[k].id@)) is Some && with_default_shape(
                    c[k],
                    final(item_db).lookup(c[k].id@).unwrap(),
                )) && (forall|id: Seq<char>|
                (forall|k: int| 0 <= k < 9 ==> #[trigger] c[k].id@ != id) ==> #[trigger] final(item_db).lookup(id)
                    == old(item_db).lookup(id)),
        old(item_db).keys_match_ids() ==> final(item_db).keys_match_ids(),
        holds_entry(final(item_db), "steel_sword"@, "Steel Sword"@, 1, 2, MaterialType::Steel, ItemType::Weapon, ItemRarity::Common, 5, seq![ItemTag::Weapon], 10000, 0, 0),
        holds_entry(final(item_db), "silver_dagger"@, "Silver Dagger"@, 1, 1, MaterialType::Silver, ItemType::Weapon, ItemRarity::Rare, 7, seq![ItemTag::Weapon], 8000, 0, 5000),
        holds_entry(final(item_db), "health_potion"@, "Health Potion"@, 1, 1, MaterialType::Flesh, ItemType::Consumable, ItemRarity::Common, 3, seq![ItemTag::Potion], 0, 0, 0),
        holds_entry(final(item_db), "whetstone"@, "Whetstone"@, 1, 1, MaterialType::Steel, ItemType::Consumable, ItemRarity::Common, 4, seq![ItemTag::Valuable], 0, 0, 0),
        holds_entry(final(item_db), "epic_shield"@, "Epic Shield"@, 2, 2, MaterialType::Steel, ItemType::Weapon, ItemRarity::Epic, 12, seq![ItemTag::Weapon], 2000, 20000, -2000i64),
        holds_entry(final(item_db), "legendary_bow"@, "Legendary Bow"@, 1, 3, MaterialType::Flesh, ItemType::Weapon, ItemRarity::Legendary, 25, seq![ItemTag::Weapon], 15000, 0, 10000),
        holds_entry(final(item_db), "unique_charm"@, "Unique Charm"@, 1, 1, MaterialType::Silver, ItemType::Consumable, ItemRarity::Unique, 50, seq![ItemTag::Valuable], 0, 0, 0),
        holds_entry(final(item_db), "wooden_sword"@, "Wooden Sword"@, 1, 2, MaterialType::Steel, ItemType::Weapon, ItemRarity::Common, 2, seq![ItemTag::Weapon], 5000, 0, 0),
        holds_entry(final(item_db), "starter_bag"@, "Starter Bag"@, 3, 3, MaterialType::Flesh, ItemType::Bag { bag_type: BagType::Default }, ItemRarity::Common, 6, Seq::<ItemTag>::empty(), 0, 0, 0),
{
    let defs = default_item_definitions();
    let ghost c = defs@;
    proof {
        reveal_strlit("steel_sword");
        reveal_strlit("silver_dagger");
        reveal_strlit("health_potion");
        reveal_strlit("whetstone");
        reveal_strlit("epic_shield");
        reveal_strlit("legendary_bow");
        reveal_strlit("unique_charm");
        reveal_strlit("wooden_sword");
        reveal_strlit("starter_bag");
        assert forall|j: int, m: int| 0 <= j < m < 9 implies #[trigger] c[m].id@ != #[trigger] c[j].id@ by {
            if c[m].id@ == c[j].id@ {
                assert(c[m].id@[0] == c[j].id@[0]);
                assert(c[m].id@.len() == c[j].id@.len());
                assert(c[m].id@[1] == c[j].id@[1]);
                assert(c[m].id@[2] == c[j].id@[2]);
            }
        }
    }
    load_definitions(item_db, defs);
    assert forall|k: int| 0 <= k < 9 implies last_with_id(c, k, 9) by {}
    assert(forall|k: int|
        0 <= k < 9 ==> (#[trigger] item_db.lookup(c[k].id@)) is Some && with_default_shape(
            c[k],
            item_db.lookup(c[k].id@).unwrap(),
        ));
    assert(c.len() == 9);
    assert forall|k: int| 0 <= k < 9 implies {
        let d = #[trigger] item_db.lookup(c[k].id@).unwrap();
        &&& d.id == c[k].id
        &&& d.name == c[k].name
        &&& d.tags == c[k].tags
    } by {
        assert(with_default_shape(c[k], item_db.lookup(c[k].id@).unwrap()));
    }
}

} // verus!
