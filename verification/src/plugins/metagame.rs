//! The campaign around the battles: player resources, time, the persistent inventory,
//! items found in the city, and the content of a save file.
use vstd::prelude::*;

use crate::plugins::geometry::{gv, GridVec};
use crate::plugins::items::ItemDatabase;
use crate::plugins::phases::GameState;

verus! {

/// An item as stored between phases and in save files.
#[derive(Debug, Clone)]
pub struct SavedItem {
    pub item_id: String,
    pub grid_x: i32,
    pub grid_y: i32,
    pub rotation: u8,
}

/// The player's resources.
#[derive(Debug, Clone, Copy, PartialEq, Eq, Structural)]
pub struct PlayerStats {
    pub thalers: u32,
    pub reputation: u32,
    pub infection: u32,
}

impl Default for PlayerStats {
    /// A new player: 100 thalers, 50 reputation, no infection.
    fn default() -> (s: Self)
        ensures
            s.thalers == 100,
            s.reputation == 50,
            s.infection == 0,
    {
        PlayerStats { thalers: 100, reputation: 50, infection: 0 }
    }
}

/// The in-game calendar.
#[derive(Debug, Clone, Copy, PartialEq, Eq, Structural)]
pub struct GlobalTime {
    pub day: u32,
    /// Hour of the day, 0 to 24.
    pub hour: u32,
}

impl Default for GlobalTime {
    /// Day 1, 6:00 in the morning.
    fn default() -> (t: Self)
        ensures
            t.day == 1,
            t.hour == 6,
    {
        GlobalTime { day: 1, hour: 6 }
    }
}

/// Everything a save file holds.
#[derive(Debug, Clone)]
pub struct SaveData {
    pub player_stats: PlayerStats,
    pub global_time: GlobalTime,
    pub inventory: Vec<SavedItem>,
}

/// Items found in the city, waiting to be placed in the inventory.
#[derive(Debug)]
pub struct PendingItems(pub Vec<String>);

impl Default for PendingItems {
    fn default() -> (p: Self)
        ensures
            p.0@.len() == 0,
    {
        PendingItems(Vec::new())
    }
}

/// The inventory kept between evening phases (for instance during a battle).
#[derive(Debug, Clone)]
pub struct PersistentInventory {
    pub items: Vec<SavedItem>,
}

impl Default for PersistentInventory {
    /// The starting inventory: the starter bag at (2, 2), unturned.
    fn default() -> (inv: Self)
        ensures
            inv.items@.len() == 1,
            inv.items@[0].item_id@ == "starter_bag"@,
            inv.items@[0].grid_x == 2,
            inv.items@[0].grid_y == 2,
            inv.items@[0].rotation == 0,
    {
        let mut items: Vec<SavedItem> = Vec::new();
        items.push(
            SavedItem { item_id: "starter_bag".to_owned(), grid_x: 2, grid_y: 2, rotation: 0 },
        );
        PersistentInventory { items }
    }
}

/// An item on the grid as the save routine sees it: its definition's id, anchor and rotation.
#[derive(Debug, Clone)]
pub struct PlacedItemView {
    pub item_id: String,
    pub pos: GridVec,
    pub rotation: u8,
}

/// `s` records the placed item `p`.
pub open spec fn saves(p: PlacedItemView, s: SavedItem) -> bool {
    &&& s.item_id@ == p.item_id@
    &&& s.grid_x == p.pos.x
    &&& s.grid_y == p.pos.y
    &&& s.rotation == p.rotation
}

/// `d` saves the resources `ps`, the time `gt` and the placed items `q` (one saved item per
/// placed item, in order).
pub open spec fn is_save_of(d: SaveData, ps: PlayerStats, gt: GlobalTime, q: Seq<PlacedItemView>) -> bool {
    &&& d.player_stats == ps
    &&& d.global_time == gt
    &&& d.inventory@.len() == q.len()
    &&& forall|k: int| 0 <= k < q.len() ==> #[trigger] saves(q[k], d.inventory@[k])
}

/// The save data for the given resources, time and placed items (one saved item per placed
/// item, in order).
pub fn create_save_data(
    player_stats: &PlayerStats,
    global_time: &GlobalTime,
    q_items: &Vec<PlacedItemView>,
) -> (d: SaveData)
    ensures
        is_save_of(d, *player_stats, *global_time, q_items@),
{
    let mut saved_items: Vec<SavedItem> = Vec::new();
    let mut k: usize = 0;
    while k < q_items.len()
        invariant
            k <= q_items@.len(),
            saved_items@.len() == k,
            forall|j: int| 0 <= j < k ==> #[trigger] saves(q_items@[j], saved_items@[j]),
        decreases q_items.len() - k,
    {
        let p = &q_items[k];
        saved_items.push(
            SavedItem {
                item_id: p.item_id.clone(),
                grid_x: p.pos.x,
                grid_y: p.pos.y,
                rotation: p.rotation,
            },
        );
        k = k + 1;
    }
    SaveData { player_stats: *player_stats, global_time: *global_time, inventory: saved_items }
}

/// A city button was pressed: "NEXT_PHASE" moves on to the evening phase; any other action
/// names an item found, which is added to the pending items.
pub fn handle_city_action(action: &String, pending_items: &mut PendingItems) -> (next: Option<GameState>)
    ensures
        action@ == "NEXT_PHASE"@ ==> next == Some(GameState::EveningPhase) && final(pending_items).0@
            == old(pending_items).0@,
        action@ != "NEXT_PHASE"@ ==> {
            &&& next is None
            &&& final(pending_items).0@.len() == old(pending_items).0@.len() + 1
            &&& final(pending_items).0@.drop_last() == old(pending_items).0@
            &&& final(pending_items).0@.last()@ == action@
        },
{
    let next_phase = "NEXT_PHASE".to_owned();
    if *action == next_phase {
        Some(GameState::EveningPhase)
    } else {
        pending_items.0.push(action.clone());
        assert(pending_items.0@.drop_last() =~= old(pending_items).0@);
        None
    }
}

/// A saved item to put back on the grid: the id of its definition, its anchor and its
/// rotation.
#[derive(Debug, Clone, PartialEq)]
pub struct LoadedItem {
    pub item_id: String,
    pub pos: GridVec,
    pub rotation: u8,
}

/// A loaded item as plain values: the text of its id, its anchor and its rotation.
pub open spec fn loaded_view(l: LoadedItem) -> (Seq<char>, GridVec, u8) {
    (l.item_id@, l.pos, l.rotation)
}

/// The saved items among the first `n` whose id is known, as items to respawn.
pub open spec fn loaded_items(saved: Seq<SavedItem>, db: &ItemDatabase, n: int) -> Seq<(Seq<char>, GridVec, u8)>
    decreases n,
{
    if n <= 0 {
        Seq::empty()
    } else {
        let prev = loaded_items(saved, db, n - 1);
        let it = saved[n - 1];
        if db.lookup(it.item_id@) is Some {
            prev.push((it.item_id@, gv(it.grid_x as int, it.grid_y as int), it.rotation))
        } else {
            prev
        }
    }
}

/// The saved items to put on the grid, in order: each one whose id the database knows (the
/// others are skipped), at its saved anchor and rotation.
pub fn saved_items_to_place(saved: &Vec<SavedItem>, db: &ItemDatabase) -> (r: Vec<LoadedItem>)
    ensures
        r@.map_values(|l: LoadedItem| loaded_view(l)) == loaded_items(saved@, db, saved@.len() as int),
        forall|k: int| 0 <= k < r@.len() ==> db.lookup((#[trigger] r@[k]).item_id@) is Some,
{
    let mut out: Vec<LoadedItem> = Vec::new();
    let mut k: usize = 0;
    while k < saved.len()
        invariant
            k <= saved@.len(),
            out@.map_values(|l: LoadedItem| loaded_view(l)) == loaded_items(saved@, db, k as int),
            forall|j: int| 0 <= j < out@.len() ==> db.lookup((#[trigger] out@[j]).item_id@) is Some,
        decreases saved.len() - k,
    {
        let it = &saved[k];
        let ghost before = out@;
        if db.contains_key(&it.item_id) {
            out.push(LoadedItem { item_id: it.item_id.clone(), pos: GridVec { x: it.grid_x, y: it.grid_y }, rotation: it.rotation });
            assert(out@.map_values(|l: LoadedItem| loaded_view(l)) =~= before.map_values(|l: LoadedItem| loaded_view(l)).push(
                loaded_view(out@[out@.len() - 1]),
            ));
        }
        k = k + 1;
    }
    out
}

/// The items a save file puts back on the grid, in save order: each saved item whose id the
/// database knows (the others are skipped), at its saved anchor and rotation.
pub fn items_to_respawn(data: &SaveData, db: &ItemDatabase) -> (r: Vec<LoadedItem>)
    ensures
        r@.map_values(|l: LoadedItem| loaded_view(l)) == loaded_items(data.inventory@, db, data.inventory@.len() as int),
        forall|k: int| 0 <= k < r@.len() ==> db.lookup((#[trigger] r@[k]).item_id@) is Some,
{
    saved_items_to_place(&data.inventory, db)
}

/// The placed items among the first `n` whose id is known, as they come back from a save.
pub open spec fn known_placements(q: Seq<PlacedItemView>, db: &ItemDatabase, n: int) -> Seq<(Seq<char>, GridVec, u8)>
    decreases n,
{
    if n <= 0 {
        Seq::empty()
    } else {
        let prev = known_placements(q, db, n - 1);
        let p = q[n - 1];
        if db.lookup(p.item_id@) is Some {
            prev.push((p.item_id@, p.pos, p.rotation))
        } else {
            prev
        }
    }
}

/// Saving and loading gives back every placed item whose id is known, in order, at the
/// same anchor and rotation: the respawned items of saved records equal the known placements
/// they were saved from.
pub proof fn lemma_save_then_load(q: Seq<PlacedItemView>, saved: Seq<SavedItem>, db: &ItemDatabase, n: int)
    requires
        saved.len() == q.len(),
        0 <= n <= q.len(),
        forall|k: int| 0 <= k < q.len() ==> #[trigger] saves(q[k], saved[k]),
    ensures
        loaded_items(saved, db, n) == known_placements(q, db, n),
    decreases n,
{
    if n > 0 {
        lemma_save_then_load(q, saved, db, n - 1);
        assert(saves(q[n - 1], saved[n - 1]));
        assert(gv(saved[n - 1].grid_x as int, saved[n - 1].grid_y as int) == q[n - 1].pos);
    }
}

/// What loading a save puts back: the player's resources, the time, and the items to
/// respawn.
#[derive(Debug)]
pub struct LoadedGame {
    pub player_stats: PlayerStats,
    pub global_time: GlobalTime,
    pub items: Vec<LoadedItem>,
}

/// The game that save `d` loads: its resources and time, and its saved items whose id is
/// known.
pub open spec fn loaded_game(d: SaveData, db: &ItemDatabase) -> (PlayerStats, GlobalTime, Seq<(Seq<char>, GridVec, u8)>) {
    (d.player_stats, d.global_time, loaded_items(d.inventory@, db, d.inventory@.len() as int))
}

/// Loads save `data`: the resources and the time replace the current ones, and the saved
/// items whose id is known are respawned (see `items_to_respawn`).
pub fn load_game(data: &SaveData, db: &ItemDatabase) -> (r: LoadedGame)
    ensures
        (r.player_stats, r.global_time, r.items@.map_values(|l: LoadedItem| loaded_view(l))) == loaded_game(*data, db),
        forall|k: int| 0 <= k < r.items@.len() ==> db.lookup((#[trigger] r.items@[k]).item_id@) is Some,
{
    let items = items_to_respawn(data, db);
    LoadedGame { player_stats: data.player_stats, global_time: data.global_time, items }
}

/// Saving and then loading gives back the player's resources and the time exactly, and every
/// placed item whose id is known, in order, at its anchor and rotation.
pub proof fn lemma_save_load_round_trip(
    d: SaveData,
    ps: PlayerStats,
    gt: GlobalTime,
    q: Seq<PlacedItemView>,
    db: &ItemDatabase,
)
    requires
        is_save_of(d, ps, gt, q),
    ensures
        loaded_game(d, db) == (ps, gt, known_placements(q, db, q.len() as int)),
{
    lemma_save_then_load(q, d.inventory@, db, q.len() as int);
}

} // verus!
