//! Combat statistics of the persistent inventory: the base stats of every known item plus
//! the synergies that fire between neighbouring items.
use vstd::prelude::*;

use crate::plugins::geometry::{
    can_add, can_place_at, can_rotate, cell_key, cell_key_of, gv, lemma_cell_key_injective,
    lemma_cell_key_range,
    placed_cells, placed_cells_of, plus, rotate_vector, rotated, GridVec,
};
use crate::plugins::items::{
    ItemDatabase, ItemDefinition, ItemTag, StatType, SynergyDefinition,
    SynergyEffect,
};
use crate::plugins::metagame::{PersistentInventory, SavedItem};
use crate::plugins::tables::IndexTable;

pub use crate::plugins::inventory::CombatStats;
use crate::plugins::inventory::{base_stat, base_total, key64};

verus! {

/// The anchor of a saved item.
pub open spec fn anchor(it: SavedItem) -> GridVec {
    gv(it.grid_x as int, it.grid_y as int)
}

/// The cells that saved item `it`, of definition `d`, covers.
pub open spec fn saved_cells(it: SavedItem, d: ItemDefinition) -> Seq<GridVec> {
    placed_cells(anchor(it), d.shape@, it.rotation as nat)
}

/// The index of the last item of `items` with a known definition that covers `c`.
pub open spec fn occupant_index(items: Seq<SavedItem>, db: &ItemDatabase, c: GridVec) -> Option<int>
    decreases items.len(),
{
    if items.len() == 0 {
        None
    } else {
        let i = items.len() - 1;
        match db.lookup(items[i].item_id@) {
            Some(d) => if saved_cells(items[i], d).contains(c) {
                Some(i)
            } else {
                occupant_index(items.drop_last(), db, c)
            },
            None => occupant_index(items.drop_last(), db, c),
        }
    }
}

/// Some tag of `wanted` is among `tags`.
pub open spec fn tags_match(wanted: Seq<ItemTag>, tags: Seq<ItemTag>) -> bool {
    exists|a: int, b: int| 0 <= a < wanted.len() && 0 <= b < tags.len() && #[trigger] wanted[a] == #[trigger] tags[b]
}

/// The cell that synergy `s` of item `it` looks at.
pub open spec fn synergy_target(it: SavedItem, s: SynergyDefinition) -> GridVec {
    plus(anchor(it), rotated(s.offset, it.rotation as nat))
}

/// Synergy `s` of item `items[i]` finds, at its target cell, an item carrying a wanted tag.
pub open spec fn synergy_fires(items: Seq<SavedItem>, db: &ItemDatabase, i: int, s: SynergyDefinition) -> bool {
    match occupant_index(items, db, synergy_target(items[i], s)) {
        Some(t) => match db.lookup(items[t].item_id@) {
            Some(td) => tags_match(s.target_tags@, td.tags@),
            None => false,
        },
        None => false,
    }
}

/// The bonus to `stat` that item `i` gets from its own firing synergies among `syns`.
pub open spec fn self_bonus(items: Seq<SavedItem>, db: &ItemDatabase, i: int, syns: Seq<SynergyDefinition>, stat: StatType) -> int
    decreases syns.len(),
{
    if syns.len() == 0 {
        0
    } else {
        let s = syns.last();
        self_bonus(items, db, i, syns.drop_last(), stat) + if synergy_fires(items, db, i, s) {
            match s.effect {
                SynergyEffect::BuffSelf { stat: st, value } => if st == stat {
                    value as int
                } else {
                    0
                },
                SynergyEffect::BuffTarget { .. } => 0,
            }
        } else {
            0
        }
    }
}

/// The total of `stat` over the first `n` items of `all`: base value plus own bonuses of each
/// item with a known definition.
pub open spec fn stat_total(all: Seq<SavedItem>, db: &ItemDatabase, n: int, stat: StatType) -> int
    decreases n,
{
    if n <= 0 {
        0
    } else {
        stat_total(all, db, n - 1, stat) + match db.lookup(all[n - 1].item_id@) {
            Some(d) => base_stat(d, stat) + self_bonus(all, db, n - 1, d.synergies@, stat),
            None => 0,
        }
    }
}

/// The number of synergies of item `i` (none for an unknown id).
pub open spec fn synergy_count(items: Seq<SavedItem>, db: &ItemDatabase, i: int) -> int {
    match db.lookup(items[i].item_id@) {
        Some(d) => d.synergies@.len() as int,
        None => 0,
    }
}

/// The running total of `stat` once item `i` has added its base value and the bonuses of its
/// first `k` synergies (the total of the items before it, for an unknown id).
pub open spec fn running_total(items: Seq<SavedItem>, db: &ItemDatabase, i: int, k: int, stat: StatType) -> int {
    match db.lookup(items[i].item_id@) {
        Some(d) => stat_total(items, db, i, stat) + base_stat(d, stat) + self_bonus(items, db, i, d.synergies@.take(k), stat),
        None => stat_total(items, db, i, stat),
    }
}

/// Every running total that summing item by item and synergy by synergy passes through fits
/// in `i64`: exactly the inputs on which the sums never overflow.
pub open spec fn totals_fit(items: Seq<SavedItem>, db: &ItemDatabase) -> bool {
    forall|i: int, k: int, stat: StatType|
        0 <= i < items.len() && 0 <= k <= synergy_count(items, db, i)
            ==> i64::MIN <= #[trigger] running_total(items, db, i, k, stat) <= i64::MAX
}

/// Item `it` of definition `d` can be turned and anchored without overflow, and so can the
/// cells that its synergies look at.
pub open spec fn placeable(it: SavedItem, d: ItemDefinition) -> bool {
    &&& can_place_at(anchor(it), d.shape@, it.rotation as nat)
    &&& forall|k: int| 0 <= k < d.synergies@.len() ==> {
        &&& can_rotate((#[trigger] d.synergies@[k]).offset, it.rotation as nat)
        &&& can_add(anchor(it), rotated(d.synergies@[k].offset, it.rotation as nat))
    }
}

/// The running totals fit in `i64`, and every item with a known definition is placeable:
/// the conditions under which no sum and no cell overflows.
pub open spec fn stats_computable(items: Seq<SavedItem>, db: &ItemDatabase) -> bool {
    &&& totals_fit(items, db)
    &&& forall|i: int| 0 <= i < items.len() ==> match db.lookup((#[trigger] items[i]).item_id@) {
        Some(d) => placeable(items[i], d),
        None => true,
    }
}

/// An index kept in a `usize`.
pub open spec fn opt_index(o: Option<int>) -> Option<usize> {
    match o {
        Some(t) => Some(t as usize),
        None => None,
    }
}

/// The occupant found is one of the items.
proof fn lemma_occupant_in_range(items: Seq<SavedItem>, db: &ItemDatabase, c: GridVec)
    ensures
        occupant_index(items, db, c) is Some ==> 0 <= occupant_index(items, db, c).unwrap() < items.len(),
    decreases items.len(),
{
    if items.len() > 0 {
        lemma_occupant_in_range(items.drop_last(), db, c);
    }
}

/// Once item `i` has added everything, the running total is the total of the first `i + 1`
/// items.
proof fn lemma_running_total_complete(items: Seq<SavedItem>, db: &ItemDatabase, i: int, stat: StatType)
    requires
        0 <= i < items.len(),
    ensures
        running_total(items, db, i, synergy_count(items, db, i), stat) == stat_total(items, db, i + 1, stat),
        running_total(items, db, i, 0, stat) == stat_total(items, db, i, stat) + match db.lookup(items[i].item_id@) {
            Some(d) => base_stat(d, stat),
            None => 0,
        },
{
    match db.lookup(items[i].item_id@) {
        Some(d) => {
            assert(d.synergies@.take(d.synergies@.len() as int) =~= d.synergies@);
            assert(d.synergies@.take(0) =~= Seq::<SynergyDefinition>::empty());
        },
        None => {},
    }
}

/// `true` when some tag of `wanted` is among `tags`.
pub fn any_tag_matches(wanted: &Vec<ItemTag>, tags: &Vec<ItemTag>) -> (r: bool)
    ensures
        r == tags_match(wanted@, tags@),
{
    let mut a: usize = 0;
    while a < wanted.len()
        invariant
            a <= wanted@.len(),
            forall|x: int, y: int| 0 <= x < a && 0 <= y < tags@.len() ==> #[trigger] wanted@[x] != #[trigger] tags@[y],
        decreases wanted.len() - a,
    {
        let mut b: usize = 0;
        while b < tags.len()
            invariant
                a < wanted@.len(),
                b <= tags@.len(),
                forall|x: int, y: int| 0 <= x < a && 0 <= y < tags@.len() ==> #[trigger] wanted@[x] != #[trigger] tags@[y],
                forall|y: int| 0 <= y < b ==> wanted@[a as int] != #[trigger] tags@[y],
            decreases tags.len() - b,
        {
            if wanted[a] == tags[b] {
                assert(wanted@[a as int] == tags@[b as int]);
                return true;
            }
            b = b + 1;
        }
        a = a + 1;
    }
    false
}

/// Adds `value` to the statistic `stat`.
pub fn apply_stat_bonus(stats: &mut CombatStats, stat: StatType, value: i64)
    requires
        i64::MIN <= old(stats).stat(stat) + value <= i64::MAX,
    ensures
        forall|s: StatType| #[trigger] final(stats).stat(s) == old(stats).stat(s) + if s == stat {
            value as int
        } else {
            0
        },
{
    match stat {
        StatType::Attack => stats.attack = stats.attack + value,
        StatType::Defense => stats.defense = stats.defense + value,
        StatType::Speed => stats.speed = stats.speed + value,
        StatType::Health => stats.health = stats.health + value,
    }
}

/// Builds the map from cell keys to the index of the last item (with a known definition)
/// covering that cell.
fn occupancy_map(items: &Vec<SavedItem>, db: &ItemDatabase) -> (m: IndexTable)
    requires
        stats_computable(items@, db),
    ensures
        forall|c: GridVec| #[trigger] m@.get(key64(c)) == opt_index(occupant_index(items@, db, c)),
{
    let mut grid_map = IndexTable::new();
    let mut i: usize = 0;
    while i < items.len()
        invariant
            i <= items@.len(),
            stats_computable(items@, db),
            forall|c: GridVec| #[trigger] grid_map@.get(key64(c)) == opt_index(occupant_index(items@.take(i as int), db, c)),
        decreases items.len() - i,
    {
        let item = &items[i];
        let ghost before = items@.take(i as int);
        let ghost after = items@.take(i + 1);
        assert(after.drop_last() =~= before);
        assert(after[i as int] == items@[i as int]);
        match db.get(&item.item_id) {
            Some(def) => {
                assert(placeable(items@[i as int], *def));
                let pos = GridVec { x: item.grid_x, y: item.grid_y };
                let cells = placed_cells_of(pos, &def.shape, item.rotation);
                assert(cells@ == saved_cells(items@[i as int], *def));
                let mut j: usize = 0;
                while j < cells.len()
                    invariant
                        j <= cells@.len(),
                        i < items@.len(),
                        forall|c: GridVec| #[trigger] grid_map@.get(key64(c)) == if cells@.take(j as int).contains(c) {
                            Some(i)
                        } else {
                            opt_index(occupant_index(before, db, c))
                        },
                    decreases cells.len() - j,
                {
                    let c0 = cells[j];
                    let k = cell_key_of(c0);
                    let ghost old_map = grid_map@;
                    grid_map.insert(k, i);
                    j = j + 1;
                    proof {
                        let tj = cells@.take(j as int);
                        assert(tj.drop_last() =~= cells@.take(j - 1));
                        assert(tj[j - 1] == c0);
                        assert forall|c: GridVec| #[trigger] grid_map@.get(key64(c)) == if tj.contains(c) {
                            Some(i)
                        } else {
                            opt_index(occupant_index(before, db, c))
                        } by {
                            lemma_cell_key_injective(c, c0);
                            lemma_cell_key_range(c);
                            lemma_cell_key_range(c0);
                            if c != c0 {
                                assert(grid_map@.get(key64(c)) == old_map.get(key64(c)));
                                if cells@.take(j - 1).contains(c) {
                                    let w = choose|w: int| 0 <= w < j - 1 && #[trigger] cells@.take(j - 1)[w] == c;
                                    assert(tj[w] == c);
                                }
                                if tj.contains(c) {
                                    let w = choose|w: int| 0 <= w < j && #[trigger] tj[w] == c;
                                    assert(cells@.take(j - 1)[w] == c);
                                }
                            }
                        }
                    }
                }
                assert(cells@.take(cells@.len() as int) =~= cells@);
            },
            None => {},
        }
        i = i + 1;
    }
    assert(items@.take(items@.len() as int) =~= items@);
    grid_map
}

/// The combat statistics of the persistent inventory: every item with a known definition adds
/// its base attack, defense and speed, plus the bonuses of its own synergies that fire. A
/// synergy fires when the cell at its offset (turned with the item, from the item's anchor)
/// is covered by an item (the last one placed there) carrying one of the wanted tags; only
/// self bonuses count. Items with unknown ids count for nothing.
pub fn calculate_combat_stats(inventory: &PersistentInventory, db: &ItemDatabase) -> (stats: CombatStats)
    requires
        stats_computable(inventory.items@, db),
    ensures
        forall|s: StatType| #[trigger] stats.stat(s) == stat_total(inventory.items@, db, inventory.items@.len() as int, s),
{
    let items = &inventory.items;
    let grid_map = occupancy_map(items, db);
    let mut stats = CombatStats { attack: 0, defense: 0, speed: 0, health: 0 };
    let n_items = items.len();
    let mut i: usize = 0;
    while i < items.len()
        invariant
            i <= items@.len() == n_items,
            stats_computable(items@, db),
            forall|c: GridVec| #[trigger] grid_map@.get(key64(c)) == opt_index(occupant_index(items@, db, c)),
            forall|s: StatType| #[trigger] stats.stat(s) == stat_total(items@, db, i as int, s),
        decreases items.len() - i,
    {
        let item = &items[i];
        proof {
            lemma_running_total_complete(items@, db, i as int, StatType::Attack);
            lemma_running_total_complete(items@, db, i as int, StatType::Defense);
            lemma_running_total_complete(items@, db, i as int, StatType::Speed);
            lemma_running_total_complete(items@, db, i as int, StatType::Health);
        }
        match db.get(&item.item_id) {
            Some(def) => {
                let ghost d = *def;
                assert(placeable(items@[i as int], d));
                proof {
                    assert(i64::MIN <= running_total(items@, db, i as int, 0, StatType::Attack) <= i64::MAX);
                    assert(i64::MIN <= running_total(items@, db, i as int, 0, StatType::Defense) <= i64::MAX);
                    assert(i64::MIN <= running_total(items@, db, i as int, 0, StatType::Speed) <= i64::MAX);
                    assert(stats.stat(StatType::Attack) == stats.attack);
                    assert(stats.stat(StatType::Defense) == stats.defense);
                    assert(stats.stat(StatType::Speed) == stats.speed);
                }
                let ghost s0 = stats;
                stats.attack = stats.attack + def.attack;
                stats.defense = stats.defense + def.defense;
                stats.speed = stats.speed + def.speed;
                assert(d.synergies@.take(0) =~= Seq::<SynergyDefinition>::empty());
                assert forall|s: StatType| #[trigger] stats.stat(s) == stat_total(items@, db, i as int, s)
                    + base_stat(d, s) + self_bonus(items@, db, i as int, d.synergies@.take(0), s) by {
                    assert(s0.stat(s) == stat_total(items@, db, i as int, s));
                }
                let pos = GridVec { x: item.grid_x, y: item.grid_y };
                let mut k: usize = 0;
                while k < def.synergies.len()
                    invariant
                        k <= d.synergies@.len(),
                        i < items@.len() == n_items,
                        *def == d,
                        db.lookup(items@[i as int].item_id@) == Some(d),
                        placeable(items@[i as int], d),
                        pos == anchor(items@[i as int]),
                        *item == items@[i as int],
                        stats_computable(items@, db),
                        forall|c: GridVec| #[trigger] grid_map@.get(key64(c)) == opt_index(occupant_index(items@, db, c)),
                        forall|s: StatType| #[trigger] stats.stat(s) == stat_total(items@, db, i as int, s)
                            + base_stat(d, s) + self_bonus(items@, db, i as int, d.synergies@.take(k as int), s),
                    decreases d.synergies@.len() - k,
                {
                    let syn = &def.synergies[k];
                    assert(can_rotate(d.synergies@[k as int].offset, item.rotation as nat));
                    let off = rotate_vector(syn.offset, item.rotation);
                    let target = pos.offset_by(off);
                    assert(target == synergy_target(items@[i as int], *syn));
                    let key = cell_key_of(target);
                    proof {
                        lemma_cell_key_range(target);
                        lemma_occupant_in_range(items@, db, target);
                    }
                    assert(grid_map@.get(key64(target)) == opt_index(occupant_index(items@, db, target)));
                    let fires = match grid_map.get(&key) {
                        Some(t) => {
                            let t = *t;
                            match db.get(&items[t].item_id) {
                                Some(td) => any_tag_matches(&syn.target_tags, &td.tags),
                                None => false,
                            }
                        },
                        None => false,
                    };
                    assert(fires == synergy_fires(items@, db, i as int, *syn));
                    let ghost before = stats;
                    proof {
                        let tk1 = d.synergies@.take(k + 1);
                        assert(tk1.drop_last() =~= d.synergies@.take(k as int));
                        assert(tk1.last() == *syn);
                        assert(synergy_count(items@, db, i as int) == d.synergies@.len());
                        assert(i64::MIN <= running_total(items@, db, i as int, k + 1, StatType::Attack) <= i64::MAX);
                        assert(i64::MIN <= running_total(items@, db, i as int, k + 1, StatType::Defense) <= i64::MAX);
                        assert(i64::MIN <= running_total(items@, db, i as int, k + 1, StatType::Speed) <= i64::MAX);
                        assert(i64::MIN <= running_total(items@, db, i as int, k + 1, StatType::Health) <= i64::MAX);
                        assert(base_stat(d, StatType::Health) == 0);
                    }
                    if fires {
                        match syn.effect {
                            SynergyEffect::BuffSelf { stat, value } => {
                                apply_stat_bonus(&mut stats, stat, value);
                            },
                            SynergyEffect::BuffTarget { .. } => {},
                        }
                    }
                    k = k + 1;
                    proof {
                        let tk = d.synergies@.take(k as int);
                        assert(tk.drop_last() =~= d.synergies@.take(k - 1));
                        assert(tk.last() == *syn);
                    }
                }
                assert(d.synergies@.take(d.synergies@.len() as int) =~= d.synergies@);
            },
            None => {},
        }
        i = i + 1;
    }
    stats
}

/// With no synergy on any definition, the statistics are the plain sums of base stats that
/// `inventory::calculate_combat_stats` computes.
pub proof fn lemma_without_synergies_totals_are_base(items: Seq<SavedItem>, db: &ItemDatabase, n: int, stat: StatType)
    requires
        forall|id: Seq<char>| #[trigger] db.items@.contains_key(id) ==> db.items@[id].synergies@.len() == 0,
    ensures
        stat_total(items, db, n, stat) == base_total(items, db, n, stat),
    decreases n,
{
    if n > 0 {
        lemma_without_synergies_totals_are_base(items, db, n - 1, stat);
    }
}

/// A synergy whose target cell is empty (no item with a known definition covers it) never
/// fires.
pub proof fn lemma_empty_target_never_fires(items: Seq<SavedItem>, db: &ItemDatabase, i: int, s: SynergyDefinition)
    requires
        occupant_index(items, db, synergy_target(items[i], s)) is None,
    ensures
        !synergy_fires(items, db, i, s),
{
}

} // verus!
