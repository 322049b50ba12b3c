//! Night-time mutations: an item may grow by one column on its right edge, provided the
//! slots under the new cells are free (or its own).
use vstd::prelude::*;

use crate::plugins::geometry::{
    can_place_at, cell_key_of, gv, lemma_cell_key_injective, lemma_cell_key_range, placed_cells,
    plus, rotate_shape, rotated, rotated_shape, GridVec,
};
use crate::plugins::inventory::{
    accepts_item, key64, max_int, GridPosition, InventoryGridState, InventoryItem, ItemRotation,
    SlotData,
};
use crate::plugins::random::{new_thread_rng, random_ratio};

verus! {

/// An item that may mutate: its entity, the item, its anchor and its rotation.
#[derive(Debug)]
pub struct MutationTarget {
    pub entity: u64,
    pub item: InventoryItem,
    pub pos: GridPosition,
    pub rot: ItemRotation,
}

/// The largest x among the shape's cells, or 0 when that is larger.
pub open spec fn right_edge(shape: Seq<GridVec>) -> int
    decreases shape.len(),
{
    if shape.len() == 0 {
        0
    } else {
        max_int(right_edge(shape.drop_last()), shape.last().x as int)
    }
}

/// One cell in column `m + 1` for each cell of `shape` in column `m` (same row, shape order).
pub open spec fn column_after(shape: Seq<GridVec>, m: int) -> Seq<GridVec>
    decreases shape.len(),
{
    if shape.len() == 0 {
        Seq::empty()
    } else {
        let rest = column_after(shape.drop_last(), m);
        if shape.last().x == m {
            rest.push(gv(m + 1, shape.last().y as int))
        } else {
            rest
        }
    }
}

/// The cells an item of `shape` would grow by: a new column right of its right edge.
pub open spec fn extension(shape: Seq<GridVec>) -> Seq<GridVec> {
    column_after(shape, right_edge(shape))
}

/// The slot keyed by cell `c` in `m`.
pub open spec fn slot_in(m: Map<i64, SlotData>, c: GridVec) -> Option<SlotData> {
    if m.contains_key(key64(c)) {
        Some(m[key64(c)])
    } else {
        None
    }
}

/// Offset `o` from `pos` lands on a slot of `m` that accepts an item of entity `e`.
pub open spec fn accepts_at(m: Map<i64, SlotData>, pos: GridVec, o: GridVec, e: u64) -> bool {
    crate::plugins::geometry::can_add(pos, o) && accepts_item(slot_in(m, plus(pos, o)), Some(e))
}

/// Every offset of `offsets` lands, from `pos`, on a slot that accepts entity `e`.
pub open spec fn fits_in(m: Map<i64, SlotData>, pos: GridVec, offsets: Seq<GridVec>, e: u64) -> bool {
    forall|k: int| 0 <= k < offsets.len() ==> #[trigger] accepts_at(m, pos, offsets[k], e)
}

/// `m` with the slot of every cell of `cells` (where one exists) marked as held by `e`.
pub open spec fn occupy(m: Map<i64, SlotData>, cells: Seq<GridVec>, e: u64) -> Map<i64, SlotData>
    decreases cells.len(),
{
    if cells.len() == 0 {
        m
    } else {
        let m1 = occupy(m, cells.drop_last(), e);
        let k = key64(cells.last());
        if m1.contains_key(k) {
            m1.insert(k, SlotData { bag_entity: m1[k].bag_entity, occupier: Some(e) })
        } else {
            m1
        }
    }
}

/// An item of `shape` at `pos`, turned by `rot`, grows on slots `m`: it has an extension and
/// every extension cell lands on a slot that is free or its own.
pub open spec fn grows_at(shape: Seq<GridVec>, pos: GridVec, rot: u8, e: u64, m: Map<i64, SlotData>) -> bool {
    let ext = extension(shape);
    ext.len() > 0 && fits_in(m, pos, rotated_shape(ext, rot as nat), e)
}

/// The slots after such an item grew (or `m` when it does not grow).
pub open spec fn slots_after_growth(shape: Seq<GridVec>, pos: GridVec, rot: u8, e: u64, m: Map<i64, SlotData>) -> Map<i64, SlotData> {
    if grows_at(shape, pos, rot, e, m) {
        occupy(m, placed_cells(pos, extension(shape), rot as nat), e)
    } else {
        m
    }
}

/// Target `t` grows on slots `m`.
pub open spec fn grows(t: MutationTarget, m: Map<i64, SlotData>) -> bool {
    grows_at(t.item.shape@, t.pos.0, t.rot.0, t.entity, m)
}

/// The slots after the first `n` targets took their turn, with `rolls` saying which of them
/// tried to mutate.
pub open spec fn slots_after(ts: Seq<MutationTarget>, rolls: Seq<bool>, m: Map<i64, SlotData>, n: int) -> Map<i64, SlotData>
    decreases n,
{
    if n <= 0 {
        m
    } else {
        let prev = slots_after(ts, rolls, m, n - 1);
        if rolls[n - 1] {
            slots_after_growth(ts[n - 1].item.shape@, ts[n - 1].pos.0, ts[n - 1].rot.0, ts[n - 1].entity, prev)
        } else {
            prev
        }
    }
}

/// The growth of an item of `shape` at `pos`, turned by `rot`, can be computed without
/// overflow.
pub open spec fn growth_computable(shape: Seq<GridVec>, pos: GridVec, rot: u8) -> bool {
    &&& right_edge(shape) < i32::MAX
    &&& can_place_at(pos, extension(shape), rot as nat)
}

/// Tries to grow `item` (of `entity`, anchored at `pos`, turned by `rot`) by one column right
/// of its right edge (the largest x of its cells, at least 0): one new cell for each cell in
/// that column. When there is such a cell and all of them, turned and anchored, land on slots
/// that are free or held by `entity`, those slots become held by `entity` and the new cells
/// are appended to the shape; otherwise nothing changes. Returns whether the item grew.
pub fn try_grow(
    entity: u64,
    item: &mut InventoryItem,
    pos: GridVec,
    rot: u8,
    grid_state: &mut InventoryGridState,
) -> (grew: bool)
    requires
        growth_computable(old(item).shape@, pos, rot),
    ensures
        grew == grows_at(old(item).shape@, pos, rot, entity, old(grid_state).slots@),
        final(grid_state).slots@ == slots_after_growth(old(item).shape@, pos, rot, entity, old(grid_state).slots@),
        final(grid_state).bounds == old(grid_state).bounds,
        final(item).item_id == old(item).item_id,
        final(item).shape@ == if grew {
            old(item).shape@ + extension(old(item).shape@)
        } else {
            old(item).shape@
        },
{
    let ghost shape0 = item.shape@;
    let mut max_x: i32 = 0;
    let mut i: usize = 0;
    while i < item.shape.len()
        invariant
            i <= shape0.len(),
            item.shape@ == shape0,
            max_x == right_edge(shape0.take(i as int)),
        decreases shape0.len() - i,
    {
        let p = item.shape[i];
        if p.x > max_x {
            max_x = p.x;
        }
        i = i + 1;
        assert(shape0.take(i as int).drop_last() =~= shape0.take(i - 1));
    }
    assert(shape0.take(i as int) =~= shape0);
    let mut ext: Vec<GridVec> = Vec::new();
    let mut i: usize = 0;
    while i < item.shape.len()
        invariant
            i <= shape0.len(),
            item.shape@ == shape0,
            max_x == right_edge(shape0),
            right_edge(shape0) < i32::MAX,
            ext@ == column_after(shape0.take(i as int), max_x as int),
        decreases shape0.len() - i,
    {
        let p = item.shape[i];
        if p.x == max_x {
            ext.push(GridVec { x: max_x + 1, y: p.y });
        }
        i = i + 1;
        assert(shape0.take(i as int).drop_last() =~= shape0.take(i - 1));
    }
    assert(shape0.take(i as int) =~= shape0);
    assert(ext@ == extension(shape0));
    if ext.len() == 0 {
        return false;
    }
    let ghost offsets = rotated_shape(ext@, rot as nat);
    assert forall|k: int| 0 <= k < offsets.len() implies #[trigger] crate::plugins::geometry::can_add(pos, offsets[k]) by {
        assert(offsets[k] == rotated(ext@[k], rot as nat));
    }
    let fits = grid_state.can_place_item(&ext, pos, rot, Some(entity), false);
    assert(fits == fits_in(grid_state.slots@, pos, offsets, entity)) by {
        if fits {
            assert forall|k: int| 0 <= k < offsets.len() implies #[trigger] accepts_at(grid_state.slots@, pos, offsets[k], entity) by {
                assert(grid_state.item_cell_ok(pos, offsets[k], Some(entity)));
            }
        } else {
            let k = choose|k: int| 0 <= k < offsets.len() && !#[trigger] grid_state.item_cell_ok(pos, offsets[k], Some(entity));
            assert(!accepts_at(grid_state.slots@, pos, offsets[k], entity));
        }
    }
    if !fits {
        return false;
    }
    let rotated_extension = rotate_shape(&ext, rot);
    let ghost old_slots = grid_state.slots@;
    let ghost cells = placed_cells(pos, ext@, rot as nat);
    let mut k: usize = 0;
    while k < rotated_extension.len()
        invariant
            k <= rotated_extension@.len(),
            rotated_extension@ == offsets,
            offsets == rotated_shape(ext@, rot as nat),
            cells == placed_cells(pos, ext@, rot as nat),
            can_place_at(pos, ext@, rot as nat),
            grid_state.bounds == old(grid_state).bounds,
            grid_state.slots@ == occupy(old_slots, cells.take(k as int), entity),
        decreases rotated_extension.len() - k,
    {
        assert(crate::plugins::geometry::can_add(pos, rotated(ext@[k as int], rot as nat)));
        let cell = pos.offset_by(rotated_extension[k]);
        let key = cell_key_of(cell);
        proof {
            lemma_cell_key_range(cell);
        }
        let found = match grid_state.slots.get(&key) {
            Some(slot) => Some(slot.bag_entity),
            None => None,
        };
        match found {
            Some(bag_entity) => {
                grid_state.slots.insert(key, SlotData { bag_entity: bag_entity, occupier: Some(entity) });
            },
            None => {},
        }
        k = k + 1;
        proof {
            let tk = cells.take(k as int);
            assert(tk.drop_last() =~= cells.take(k - 1));
            assert(tk.last() == cell);
        }
    }
    assert(cells.take(k as int) =~= cells);
    let mut ext = ext;
    item.shape.append(&mut ext);
    true
}

/// The nightly mutation pass: each target in turn, with probability one in ten, tries to
/// grow (see `try_grow`); later targets see the slots taken by earlier ones. Returns, for
/// each target, whether it rolled a mutation.
pub fn mutation_system(targets: &mut Vec<MutationTarget>, grid_state: &mut InventoryGridState) -> (rolls: Vec<bool>)
    requires
        forall|k: int| 0 <= k < old(targets)@.len() ==> #[trigger] growth_computable(
            old(targets)@[k].item.shape@,
            old(targets)@[k].pos.0,
            old(targets)@[k].rot.0,
        ),
    ensures
        rolls@.len() == old(targets)@.len(),
        final(targets)@.len() == old(targets)@.len(),
        final(grid_state).slots@ == slots_after(old(targets)@, rolls@, old(grid_state).slots@, old(targets)@.len() as int),
        final(grid_state).bounds == old(grid_state).bounds,
        forall|k: int| 0 <= k < old(targets)@.len() ==> {
            let t = #[trigger] old(targets)@[k];
            let grew = rolls@[k] && grows(t, slots_after(old(targets)@, rolls@, old(grid_state).slots@, k));
            &&& final(targets)@[k].entity == t.entity
            &&& final(targets)@[k].pos == t.pos
            &&& final(targets)@[k].rot == t.rot
            &&& final(targets)@[k].item.item_id == t.item.item_id
            &&& final(targets)@[k].item.shape@ == if grew {
                t.item.shape@ + extension(t.item.shape@)
            } else {
                t.item.shape@
            }
        },
{
    let ghost ts = targets@;
    let ghost m0 = grid_state.slots@;
    let mut rng = new_thread_rng();
    let mut rolls: Vec<bool> = Vec::new();
    let mut k: usize = 0;
    while k < targets.len()
        invariant
            k <= ts.len(),
            targets@.len() == ts.len(),
            rolls@.len() == k,
            grid_state.bounds == old(grid_state).bounds,
            forall|j: int| 0 <= j < ts.len() ==> #[trigger] growth_computable(
                ts[j].item.shape@,
                ts[j].pos.0,
                ts[j].rot.0,
            ),
            grid_state.slots@ == slots_after(ts, rolls@, m0, k as int),
            forall|j: int| k <= j < ts.len() ==> #[trigger] targets@[j] == ts[j],
            forall|j: int| 0 <= j < k ==> {
                let t = #[trigger] ts[j];
                let grew = rolls@[j] && grows(t, slots_after(ts, rolls@, m0, j));
                &&& targets@[j].entity == t.entity
                &&& targets@[j].pos == t.pos
                &&& targets@[j].rot == t.rot
                &&& targets@[j].item.item_id == t.item.item_id
                &&& targets@[j].item.shape@ == if grew {
                    t.item.shape@ + extension(t.item.shape@)
                } else {
                    t.item.shape@
                }
            },
        decreases ts.len() - k,
    {
        let roll = random_ratio(&mut rng, 1, 10);
        let ghost prev_rolls = rolls@;
        rolls.push(roll);
        assert(targets@[k as int] == ts[k as int]);
        if roll {
            let t = &mut targets[k];
            let entity = t.entity;
            let pos = t.pos.0;
            let rot = t.rot.0;
            try_grow(entity, &mut t.item, pos, rot, grid_state);
        }
        proof {
            assert forall|j: int| 0 <= j <= k implies slots_after(ts, rolls@, m0, j) == slots_after(ts, prev_rolls, m0, j) by {
                lemma_slots_after_prefix(ts, rolls@, prev_rolls, m0, j);
            }
        }
        k = k + 1;
    }
    rolls
}

/// `slots_after` up to `n` only reads the first `n` rolls.
proof fn lemma_slots_after_prefix(ts: Seq<MutationTarget>, a: Seq<bool>, b: Seq<bool>, m: Map<i64, SlotData>, n: int)
    requires
        n <= a.len(),
        n <= b.len(),
        forall|j: int| 0 <= j < n ==> a[j] == b[j],
    ensures
        slots_after(ts, a, m, n) == slots_after(ts, b, m, n),
    decreases n,
{
    if n > 0 {
        lemma_slots_after_prefix(ts, a, b, m, n - 1);
    }
}

/// Marking `cells` as held by `e` changes exactly the slots under those cells: each keeps its
/// bag and gets occupier `e`; every other slot, and every cell without a slot, stays as it was.
pub proof fn lemma_occupy_effect(m: Map<i64, SlotData>, cells: Seq<GridVec>, e: u64, c: GridVec)
    ensures
        slot_in(occupy(m, cells, e), c) == if cells.contains(c) && slot_in(m, c) is Some {
            Some(SlotData { bag_entity: slot_in(m, c).unwrap().bag_entity, occupier: Some(e) })
        } else {
            slot_in(m, c)
        },
    decreases cells.len(),
{
    if cells.len() > 0 {
        let rest = cells.drop_last();
        let last = cells.last();
        lemma_occupy_effect(m, rest, e, c);
        lemma_occupy_effect(m, rest, e, last);
        lemma_cell_key_injective(c, last);
        lemma_cell_key_range(c);
        lemma_cell_key_range(last);
        if c != last {
            if cells.contains(c) {
                let w = choose|w: int| 0 <= w < cells.len() && cells[w] == c;
                assert(rest[w] == c);
            }
            if rest.contains(c) {
                let w = choose|w: int| 0 <= w < rest.len() && rest[w] == c;
                assert(cells[w] == c);
            }
        } else {
            assert(cells[cells.len() - 1] == c);
        }
    }
}

/// When an item grows, every one of its new cells lands on a slot that was free or its own
/// and that it now holds (the slot keeps its bag), and every other slot is unchanged; when it
/// does not grow, no slot changes.
pub proof fn lemma_growth_takes_new_cells(shape: Seq<GridVec>, pos: GridVec, rot: u8, e: u64, m: Map<i64, SlotData>, c: GridVec)
    requires
        growth_computable(shape, pos, rot),
    ensures
        grows_at(shape, pos, rot, e, m) && placed_cells(pos, extension(shape), rot as nat).contains(c) ==> {
            &&& slot_in(m, c) is Some
            &&& accepts_item(slot_in(m, c), Some(e))
            &&& slot_in(slots_after_growth(shape, pos, rot, e, m), c) == Some(
                SlotData { bag_entity: slot_in(m, c).unwrap().bag_entity, occupier: Some(e) },
            )
        },
        !placed_cells(pos, extension(shape), rot as nat).contains(c) || !grows_at(shape, pos, rot, e, m)
            ==> slot_in(slots_after_growth(shape, pos, rot, e, m), c) == slot_in(m, c),
{
    let cells = placed_cells(pos, extension(shape), rot as nat);
    lemma_occupy_effect(m, cells, e, c);
    if grows_at(shape, pos, rot, e, m) && cells.contains(c) {
        let w = choose|w: int| 0 <= w < cells.len() && cells[w] == c;
        let offsets = rotated_shape(extension(shape), rot as nat);
        assert(offsets[w] == rotated(extension(shape)[w], rot as nat));
        assert(accepts_at(m, pos, offsets[w], e));
    }
}

} // verus!
