//! The bag-based inventory grid: bags project slots onto the grid, items occupy slots.
//!
//! The grid state is rebuilt from the placed bags and items after every change;
//! placement checks for items and bags, the search for a free spot, and the
//! decisions taken when a drag starts and ends are computed here.
use vstd::prelude::*;

use crate::plugins::geometry::{
    can_add, can_place_at, rotated, cell_key, cell_key_of, fits_i32, gv, lemma_cell_key_injective, placed_cells,
    placed_cells_of, plus, rotate_shape, rotated_shape, shape_can_rotate, GridVec,
};
use crate::plugins::items::{ItemDatabase, ItemDefinition, StatType};
use crate::plugins::metagame::{PendingItems, PersistentInventory, SavedItem};
use crate::plugins::mutation::{occupy, slot_in};
use crate::plugins::tables::SlotTable;

verus! {

/// A slot that a bag provides, and the item that occupies it (if any).
#[derive(Debug, Clone, Copy, PartialEq, Eq, Structural)]
pub struct SlotData {
    /// The bag that created this slot.
    pub bag_entity: u64,
    /// The item that occupies this slot.
    pub occupier: Option<u64>,
}

/// An axis-aligned rectangle of cells, corners included.
#[derive(Debug, Clone, Copy, PartialEq, Eq, Structural)]
pub struct GridRect {
    pub min: GridVec,
    pub max: GridVec,
}

/// A bag or an item as placed on the grid: its entity, anchor, rotation and shape.
#[derive(Debug, Clone)]
pub struct Placement {
    pub entity: u64,
    pub pos: GridVec,
    pub rotation: u8,
    pub shape: Vec<GridVec>,
}

impl Placement {
    /// The cells that this placement covers.
    pub open spec fn cells(self) -> Seq<GridVec> {
        placed_cells(self.pos, self.shape@, self.rotation as nat)
    }

    /// The placement can be computed without overflow.
    pub open spec fn valid(self) -> bool {
        can_place_at(self.pos, self.shape@, self.rotation as nat)
    }
}

/// An item on the grid or in storage: its definition's id and the cells it covers, relative
/// to its anchor `(0, 0)`.
#[derive(Debug)]
pub struct InventoryItem {
    pub item_id: String,
    pub shape: Vec<GridVec>,
}

/// A bag: the slots it provides, relative to its anchor.
#[derive(Debug)]
pub struct Bag {
    pub provided_slots: Vec<GridVec>,
}

/// The anchor cell of an item or bag.
#[derive(Debug, Clone, Copy, PartialEq, Eq, Structural)]
pub struct GridPosition(pub GridVec);

/// The number of quarter turns of an item or bag (only the value modulo 4 matters).
#[derive(Debug, Clone, Copy, PartialEq, Eq, Structural)]
pub struct ItemRotation(pub u8);

/// The grid state: the slots that bags provide, and the bounds of the active zone.
pub struct InventoryGridState {
    /// Slots keyed by `cell_key` of their cell.
    pub slots: SlotTable,
    /// The smallest rectangle holding the origin and every slot.
    pub bounds: GridRect,
}

/// The hash-map key of a cell.
pub open spec fn key64(c: GridVec) -> i64 {
    cell_key(c) as i64
}

/// The rectangle made of the origin cell alone.
pub open spec fn origin_rect() -> GridRect {
    GridRect { min: gv(0, 0), max: gv(0, 0) }
}

/// The smaller of two integers.
pub open spec fn min_int(a: int, b: int) -> int {
    if a <= b {
        a
    } else {
        b
    }
}

/// The larger of two integers.
pub open spec fn max_int(a: int, b: int) -> int {
    if a >= b {
        a
    } else {
        b
    }
}

/// `r` grown to hold cell `c`.
pub open spec fn extend_rect(r: GridRect, c: GridVec) -> GridRect {
    GridRect {
        min: gv(min_int(r.min.x as int, c.x as int), min_int(r.min.y as int, c.y as int)),
        max: gv(max_int(r.max.x as int, c.x as int), max_int(r.max.y as int, c.y as int)),
    }
}

/// `r` grown to hold each of `cells`, in order.
pub open spec fn extend_rect_all(r: GridRect, cells: Seq<GridVec>) -> GridRect
    decreases cells.len(),
{
    if cells.len() == 0 {
        r
    } else {
        extend_rect(extend_rect_all(r, cells.drop_last()), cells.last())
    }
}

/// The bounds after projecting `bags`: the origin and every cell of every bag.
pub open spec fn bounds_of(bags: Seq<Placement>) -> GridRect
    decreases bags.len(),
{
    if bags.len() == 0 {
        origin_rect()
    } else {
        extend_rect_all(bounds_of(bags.drop_last()), bags.last().cells())
    }
}

/// `true` when `c` lies in `r` (corners included).
pub open spec fn rect_contains(r: GridRect, c: GridVec) -> bool {
    r.min.x <= c.x <= r.max.x && r.min.y <= c.y <= r.max.y
}

/// The entity of the last placement in `ps` that covers `c` (later placements win).
pub open spec fn last_cover(ps: Seq<Placement>, c: GridVec) -> Option<u64>
    decreases ps.len(),
{
    if ps.len() == 0 {
        None
    } else if ps.last().cells().contains(c) {
        Some(ps.last().entity)
    } else {
        last_cover(ps.drop_last(), c)
    }
}

/// The slot at `c` once `bags` are projected and `items` placed.
pub open spec fn expected_slot(bags: Seq<Placement>, items: Seq<Placement>, c: GridVec) -> Option<
    SlotData,
> {
    match last_cover(bags, c) {
        None => None,
        Some(b) => Some(SlotData { bag_entity: b, occupier: last_cover(items, c) }),
    }
}

/// A slot that accepts an item: it exists and is free or held by `exclude`.
pub open spec fn accepts_item(s: Option<SlotData>, exclude: Option<u64>) -> bool {
    match s {
        None => false,
        Some(slot) => match slot.occupier {
            None => true,
            Some(o) => Some(o) == exclude,
        },
    }
}

/// A cell that accepts a bag: no slot there, or a slot of `exclude`.
pub open spec fn accepts_bag(s: Option<SlotData>, exclude: Option<u64>) -> bool {
    match s {
        None => true,
        Some(slot) => Some(slot.bag_entity) == exclude,
    }
}

/// The neighbour of `c` in direction `d`: 0 right, 1 left, 2 down, 3 up.
pub open spec fn neighbour(c: GridVec, d: int) -> GridVec {
    if d == 0 {
        gv(c.x + 1, c.y as int)
    } else if d == 1 {
        gv(c.x - 1, c.y as int)
    } else if d == 2 {
        gv(c.x as int, c.y + 1)
    } else {
        gv(c.x as int, c.y - 1)
    }
}

/// Every placed offset that can be added to `pos` lands strictly inside the `i32` range, so
/// its four neighbours exist.
pub open spec fn neighbours_fit(pos: GridVec, offsets: Seq<GridVec>) -> bool {
    forall|k: int|
        0 <= k < offsets.len() && #[trigger] can_add(pos, offsets[k]) ==> {
            &&& i32::MIN < pos.x + offsets[k].x < i32::MAX
            &&& i32::MIN < pos.y + offsets[k].y < i32::MAX
        }
}

/// All placements of `ps` can be computed without overflow.
pub open spec fn all_valid(ps: Seq<Placement>) -> bool {
    forall|i: int| 0 <= i < ps.len() ==> #[trigger] ps[i].valid()
}

impl InventoryGridState {
    /// The slot at cell `c`, if a bag provides one.
    pub open spec fn slot_at(&self, c: GridVec) -> Option<SlotData> {
        if self.slots@.contains_key(key64(c)) {
            Some(self.slots@[key64(c)])
        } else {
            None
        }
    }

    /// The item check of `can_place_item` passes at offset `o` from `pos`.
    pub open spec fn item_cell_ok(&self, pos: GridVec, o: GridVec, exclude: Option<u64>) -> bool {
        can_add(pos, o) && accepts_item(self.slot_at(plus(pos, o)), exclude)
    }

    /// Every offset of `offsets` (already turned) passes the item check from `pos`.
    pub open spec fn item_fits(&self, pos: GridVec, offsets: Seq<GridVec>, exclude: Option<u64>) -> bool {
        forall|k: int| 0 <= k < offsets.len() ==> #[trigger] self.item_cell_ok(pos, offsets[k], exclude)
    }

    /// Each offset that the item check reaches (all before it passed) can be added to `pos`.
    pub open spec fn item_scan_safe(&self, pos: GridVec, offsets: Seq<GridVec>, exclude: Option<u64>) -> bool {
        forall|k: int|
            0 <= k < offsets.len() && (forall|j: int|
                0 <= j < k ==> #[trigger] self.item_cell_ok(pos, offsets[j], exclude)) ==> #[trigger] can_add(
                pos,
                offsets[k],
            )
    }

    /// The bag check of `can_place_bag` passes at offset `o` from `pos`.
    pub open spec fn bag_cell_ok(&self, pos: GridVec, o: GridVec, exclude: Option<u64>) -> bool {
        can_add(pos, o) && accepts_bag(self.slot_at(plus(pos, o)), exclude)
    }

    /// Every offset of `offsets` (already turned) passes the bag check from `pos`.
    pub open spec fn bag_fits(&self, pos: GridVec, offsets: Seq<GridVec>, exclude: Option<u64>) -> bool {
        forall|k: int| 0 <= k < offsets.len() ==> #[trigger] self.bag_cell_ok(pos, offsets[k], exclude)
    }

    /// Each offset that the bag check reaches can be added to `pos`.
    pub open spec fn bag_scan_safe(&self, pos: GridVec, offsets: Seq<GridVec>, exclude: Option<u64>) -> bool {
        forall|k: int|
            0 <= k < offsets.len() && (forall|j: int|
                0 <= j < k ==> #[trigger] self.bag_cell_ok(pos, offsets[j], exclude)) ==> #[trigger] can_add(
                pos,
                offsets[k],
            )
    }

    /// An empty grid: no slots, bounds at the origin.
    pub fn new() -> (s: Self)
        ensures
            s.slots@ == Map::<i64, SlotData>::empty(),
            forall|c: GridVec| #[trigger] s.slot_at(c) is None,
            s.bounds == origin_rect(),
    {
        InventoryGridState {
            slots: SlotTable::new(),
            bounds: GridRect { min: GridVec { x: 0, y: 0 }, max: GridVec { x: 0, y: 0 } },
        }
    }

    /// The number of slots.
    pub fn slot_count(&self) -> (n: usize)
        ensures
            n == self.slots@.dom().len(),
    {
        self.slots.len()
    }

    /// The slot at cell `c`, if a bag provides one.
    pub fn get_slot(&self, c: GridVec) -> (r: Option<SlotData>)
        ensures
            r == self.slot_at(c),
    {
        let k = cell_key_of(c);
        match self.slots.get(&k) {
            Some(s) => Some(*s),
            None => None,
        }
    }

    /// Turns a shape by `rot` quarter turns (shared helper for other modules).
    pub fn get_rotated_shape(shape: &Vec<GridVec>, rot: u8) -> (r: Vec<GridVec>)
        requires
            shape_can_rotate(shape@, rot as nat),
        ensures
            r@ == rotated_shape(shape@, rot as nat),
    {
        rotate_shape(shape, rot)
    }

    /// Rebuilds every slot from scratch: bags project their (turned) shapes, a later bag
    /// overwriting an earlier one on a shared cell; then each item marks the slots under
    /// its cells as occupied (a later item wins); item cells without a slot are ignored.
    /// The bounds become the smallest rectangle holding the origin and every bag cell.
    pub fn rebuild(&mut self, bags: &Vec<Placement>, items: &Vec<Placement>)
        requires
            all_valid(bags@),
            all_valid(items@),
        ensures
            forall|c: GridVec| #[trigger]
                final(self).slot_at(c) == expected_slot(bags@, items@, c),
            final(self).bounds == bounds_of(bags@),
    {
        self.slots.clear();
        self.bounds = GridRect { min: GridVec { x: 0, y: 0 }, max: GridVec { x: 0, y: 0 } };
        assert(bags@.take(0) =~= Seq::<Placement>::empty());
        let mut i: usize = 0;
        while i < bags.len()
            invariant
                i <= bags.len(),
                all_valid(bags@),
                forall|c: GridVec| #[trigger]
                    self.slot_at(c) == (match last_cover(bags@.take(i as int), c) {
                        None => None,
                        Some(b) => Some(SlotData { bag_entity: b, occupier: None }),
                    }),
                self.bounds == bounds_of(bags@.take(i as int)),
            decreases bags.len() - i,
        {
            let bag = &bags[i];
            assert(bags@[i as int].valid());
            let cells = placed_cells_of(bag.pos, &bag.shape, bag.rotation);
            let ghost before = bags@.take(i as int);
            let mut j: usize = 0;
            while j < cells.len()
                invariant
                    j <= cells.len(),
                    cells@ == bag.cells(),
                    *bag == bags@[i as int],
                    before == bags@.take(i as int),
                    forall|c: GridVec| #[trigger]
                        self.slot_at(c) == (if cells@.take(j as int).contains(c) {
                            Some(SlotData { bag_entity: bag.entity, occupier: None })
                        } else {
                            match last_cover(before, c) {
                                None => None,
                                Some(b) => Some(SlotData { bag_entity: b, occupier: None }),
                            }
                        }),
                    self.bounds == extend_rect_all(bounds_of(before), cells@.take(j as int)),
                decreases cells.len() - j,
            {
                let c0 = cells[j];
                let k = cell_key_of(c0);
                let ghost old_state = *self;
                self.slots.insert(k, SlotData { bag_entity: bag.entity, occupier: None });
                let b = self.bounds;
                let nmin = GridVec {
                    x: if b.min.x <= c0.x { b.min.x } else { c0.x },
                    y: if b.min.y <= c0.y { b.min.y } else { c0.y },
                };
                let nmax = GridVec {
                    x: if b.max.x >= c0.x { b.max.x } else { c0.x },
                    y: if b.max.y >= c0.y { b.max.y } else { c0.y },
                };
                self.bounds = GridRect { min: nmin, max: nmax };
                j = j + 1;
                proof {
                    let tj = cells@.take(j as int);
                    assert(tj.drop_last() =~= cells@.take(j - 1));
                    assert(tj.last() == c0);
                    assert forall|c: GridVec| #[trigger]
                        self.slot_at(c) == (if tj.contains(c) {
                            Some(SlotData { bag_entity: bag.entity, occupier: None })
                        } else {
                            match last_cover(before, c) {
                                None => None,
                                Some(b) => Some(SlotData { bag_entity: b, occupier: None }),
                            }
                        }) by {
                        lemma_cell_key_injective(c, c0);
                        if c == c0 {
                            assert(tj[j - 1] == c0);
                        } else {
                            assert(old_state.slot_at(c) == self.slot_at(c));
                            if cells@.take(j - 1).contains(c) {
                                let w = choose|w: int|
                                    0 <= w < j - 1 && #[trigger] cells@.take(j - 1)[w] == c;
                                assert(tj[w] == c);
                            }
                            if tj.contains(c) {
                                let w = choose|w: int| 0 <= w < j && #[trigger] tj[w] == c;
                                assert(cells@.take(j - 1)[w] == c);
                            }
                        }
                    }
                }
            }
            i = i + 1;
            proof {
                let ti = bags@.take(i as int);
                assert(ti.drop_last() =~= before);
                assert(ti.last() == bags@[i - 1]);
                assert(cells@.take(cells@.len() as int) =~= cells@);
            }
        }
        assert(bags@.take(bags@.len() as int) =~= bags@);
        assert(items@.take(0) =~= Seq::<Placement>::empty());
        let mut i: usize = 0;
        while i < items.len()
            invariant
                i <= items.len(),
                all_valid(items@),
                self.bounds == bounds_of(bags@),
                forall|c: GridVec| #[trigger]
                    self.slot_at(c) == expected_slot(bags@, items@.take(i as int), c),
            decreases items.len() - i,
        {
            let item = &items[i];
            assert(items@[i as int].valid());
            let cells = placed_cells_of(item.pos, &item.shape, item.rotation);
            let ghost before = items@.take(i as int);
            let mut j: usize = 0;
            while j < cells.len()
                invariant
                    j <= cells.len(),
                    cells@ == item.cells(),
                    *item == items@[i as int],
                    before == items@.take(i as int),
                    self.bounds == bounds_of(bags@),
                    forall|c: GridVec| #[trigger]
                        self.slot_at(c) == (match last_cover(bags@, c) {
                            None => None,
                            Some(b) => Some(
                                SlotData {
                                    bag_entity: b,
                                    occupier: if cells@.take(j as int).contains(c) {
                                        Some(item.entity)
                                    } else {
                                        last_cover(before, c)
                                    },
                                },
                            ),
                        }),
                decreases cells.len() - j,
            {
                let c0 = cells[j];
                let k = cell_key_of(c0);
                let ghost old_state = *self;
                let found = match self.slots.get(&k) {
                    Some(slot) => Some(slot.bag_entity),
                    None => None,
                };
                match found {
                    Some(bag_entity) => {
                        self.slots.insert(
                            k,
                            SlotData { bag_entity: bag_entity, occupier: Some(item.entity) },
                        );
                    },
                    None => {},
                }
                j = j + 1;
                proof {
                    let tj = cells@.take(j as int);
                    assert(tj.drop_last() =~= cells@.take(j - 1));
                    assert(tj[j - 1] == c0);
                    assert forall|c: GridVec| #[trigger]
                        self.slot_at(c) == (match last_cover(bags@, c) {
                            None => None,
                            Some(b) => Some(
                                SlotData {
                                    bag_entity: b,
                                    occupier: if tj.contains(c) {
                                        Some(item.entity)
                                    } else {
                                        last_cover(before, c)
                                    },
                                },
                            ),
                        }) by {
                        lemma_cell_key_injective(c, c0);
                        if c != c0 {
                            assert(old_state.slot_at(c) == self.slot_at(c));
                            if cells@.take(j - 1).contains(c) {
                                let w = choose|w: int|
                                    0 <= w < j - 1 && #[trigger] cells@.take(j - 1)[w] == c;
                                assert(tj[w] == c);
                            }
                            if tj.contains(c) {
                                let w = choose|w: int| 0 <= w < j && #[trigger] tj[w] == c;
                                assert(cells@.take(j - 1)[w] == c);
                            }
                        }
                    }
                }
            }
            i = i + 1;
            proof {
                let ti = items@.take(i as int);
                assert(ti.drop_last() =~= before);
                assert(ti.last() == items@[i - 1]);
                assert(cells@.take(cells@.len() as int) =~= cells@);
                assert forall|c: GridVec| #[trigger]
                    self.slot_at(c) == expected_slot(bags@, ti, c) by {
                }
            }
        }
        assert(items@.take(items@.len() as int) =~= items@);
    }

    /// Whether an item with `shape`, turned by `rot`, can go at `pos`: always in storage
    /// (unbounded); otherwise every covered cell must be a slot that is free or held by
    /// `exclude`. The cells are checked in shape order and the check stops at the first failure.
    pub fn can_place_item(
        &self,
        shape: &Vec<GridVec>,
        pos: GridVec,
        rot: u8,
        exclude_entity: Option<u64>,
        target_is_storage: bool,
    ) -> (r: bool)
        requires
            target_is_storage || (shape_can_rotate(shape@, rot as nat) && self.item_scan_safe(
                pos,
                rotated_shape(shape@, rot as nat),
                exclude_entity,
            )),
        ensures
            r == (target_is_storage || self.item_fits(
                pos,
                rotated_shape(shape@, rot as nat),
                exclude_entity,
            )),
    {
        if target_is_storage {
            return true;
        }
        let rotated = rotate_shape(shape, rot);
        let mut k: usize = 0;
        while k < rotated.len()
            invariant
                k <= rotated.len(),
                !target_is_storage,
                rotated@ == rotated_shape(shape@, rot as nat),
                self.item_scan_safe(pos, rotated@, exclude_entity),
                forall|j: int|
                    0 <= j < k ==> #[trigger] self.item_cell_ok(pos, rotated@[j], exclude_entity),
            decreases rotated.len() - k,
        {
            let offset = rotated[k];
            assert(can_add(pos, rotated@[k as int]));
            let target = pos.offset_by(offset);
            match self.get_slot(target) {
                Some(slot) => {
                    match slot.occupier {
                        Some(occupier) => {
                            let same = match exclude_entity {
                                Some(e) => e == occupier,
                                None => false,
                            };
                            if !same {
                                assert(!self.item_cell_ok(pos, rotated@[k as int], exclude_entity));
                                assert(!self.item_fits(pos, rotated@, exclude_entity));
                                return false;
                            }
                        },
                        None => {},
                    }
                },
                None => {
                    assert(!self.item_cell_ok(pos, rotated@[k as int], exclude_entity));
                    assert(!self.item_fits(pos, rotated@, exclude_entity));
                    return false;
                },
            }
            k = k + 1;
        }
        true
    }

    /// Some slot belongs to a bag other than `exclude`.
    pub open spec fn has_other_bag(&self, exclude: Option<u64>) -> bool {
        exists|k: i64| #[trigger] self.slots@.contains_key(k) && exclude != Some(self.slots@[k].bag_entity)
    }

    /// The neighbour of cell `c` in direction `d` (0: right, 1: left, 2: down, 3: up) is a slot
    /// of a bag other than `exclude`.
    pub open spec fn neighbour_of_other_bag(&self, c: GridVec, d: int, exclude: Option<u64>) -> bool {
        match self.slot_at(neighbour(c, d)) {
            Some(s) => exclude != Some(s.bag_entity),
            None => false,
        }
    }

    /// Some cell of the placed offsets shares an edge with a slot of a bag other than `exclude`.
    pub open spec fn bag_touches(&self, pos: GridVec, offsets: Seq<GridVec>, exclude: Option<u64>) -> bool {
        exists|k: int, d: int|
            0 <= k < offsets.len() && 0 <= d < 4 && #[trigger] self.neighbour_of_other_bag(
                plus(pos, offsets[k]),
                d,
                exclude,
            )
    }

    /// The full bag rule: no overlap with another bag and, when other bags exist, an edge
    /// shared with one of them.
    pub open spec fn bag_allowed(&self, pos: GridVec, offsets: Seq<GridVec>, exclude: Option<u64>) -> bool {
        &&& self.bag_fits(pos, offsets, exclude)
        &&& (self.has_other_bag(exclude) ==> self.bag_touches(pos, offsets, exclude))
    }

    /// `n` shares an edge with `c`: one step right, left, down or up.
    pub open spec fn edge_neighbours(c: GridVec, n: GridVec) -> bool {
        ||| n.x == c.x + 1 && n.y == c.y
        ||| n.x == c.x - 1 && n.y == c.y
        ||| n.x == c.x && n.y == c.y + 1
        ||| n.x == c.x && n.y == c.y - 1
    }

    /// A bag (cells `pos + offsets[k]`) that covers no slot of another bag and has a cell
    /// sharing an edge, on any of the four sides, with a slot of another bag is allowed.
    pub proof fn lemma_bag_beside_another_is_allowed(
        &self,
        pos: GridVec,
        offsets: Seq<GridVec>,
        exclude: Option<u64>,
        k: int,
        n: GridVec,
    )
        requires
            forall|j: int|
                0 <= j < offsets.len() ==> #[trigger] can_add(pos, offsets[j]) && match self.slot_at(plus(pos, offsets[j])) {
                    Some(s) => exclude == Some(s.bag_entity),
                    None => true,
                },
            0 <= k < offsets.len(),
            Self::edge_neighbours(plus(pos, offsets[k]), n),
            self.slot_at(n) is Some,
            exclude != Some(self.slot_at(n).unwrap().bag_entity),
        ensures
            self.bag_allowed(pos, offsets, exclude),
    {
        assert forall|j: int| 0 <= j < offsets.len() implies #[trigger] self.bag_cell_ok(pos, offsets[j], exclude) by {
            assert(can_add(pos, offsets[j]));
        }
        let c = plus(pos, offsets[k]);
        let d: int = if n.x == c.x + 1 && n.y == c.y {
            0
        } else if n.x == c.x - 1 && n.y == c.y {
            1
        } else if n.x == c.x && n.y == c.y + 1 {
            2
        } else {
            3
        };
        assert(neighbour(c, d) == n);
        assert(self.neighbour_of_other_bag(c, d, exclude));
        assert(self.bag_touches(pos, offsets, exclude));
    }

    /// An allowed bag covers no slot of another bag, and when some cell holds a slot of another
    /// bag, one of its cells shares an edge with such a slot.
    pub proof fn lemma_allowed_bag_is_clear_and_touching(&self, pos: GridVec, offsets: Seq<GridVec>, exclude: Option<u64>)
        requires
            self.bag_allowed(pos, offsets, exclude),
            neighbours_fit(pos, offsets),
        ensures
            forall|j: int|
                0 <= j < offsets.len() ==> match self.slot_at(plus(pos, #[trigger] offsets[j])) {
                    Some(s) => exclude == Some(s.bag_entity),
                    None => true,
                },
            (exists|c: GridVec| #[trigger] self.slot_at(c) is Some && exclude != Some(self.slot_at(c).unwrap().bag_entity))
                ==> exists|k: int, n: GridVec|
                #![trigger offsets[k], self.slot_at(n)]
                0 <= k < offsets.len() && Self::edge_neighbours(plus(pos, offsets[k]), n) && self.slot_at(n) is Some
                    && exclude != Some(self.slot_at(n).unwrap().bag_entity),
    {
        assert forall|j: int| 0 <= j < offsets.len() implies match self.slot_at(plus(pos, #[trigger] offsets[j])) {
            Some(s) => exclude == Some(s.bag_entity),
            None => true,
        } by {
            assert(self.bag_cell_ok(pos, offsets[j], exclude));
        }
        if exists|c: GridVec| #[trigger] self.slot_at(c) is Some && exclude != Some(self.slot_at(c).unwrap().bag_entity) {
            let c = choose|c: GridVec| #[trigger] self.slot_at(c) is Some && exclude != Some(self.slot_at(c).unwrap().bag_entity);
            assert(self.slots@.contains_key(key64(c)));
            assert(self.has_other_bag(exclude));
            let (k, d) = choose|k: int, d: int|
                0 <= k < offsets.len() && 0 <= d < 4 && #[trigger] self.neighbour_of_other_bag(plus(pos, offsets[k]), d, exclude);
            let cell = plus(pos, offsets[k]);
            let n = neighbour(cell, d);
            assert(self.bag_cell_ok(pos, offsets[k], exclude));
            assert(Self::edge_neighbours(cell, n));
            assert(self.slot_at(n) is Some && exclude != Some(self.slot_at(n).unwrap().bag_entity));
        }
    }

    /// Whether some slot belongs to a bag other than `exclude`.
    fn any_other_bag(&self, exclude: Option<u64>) -> (r: bool)
        ensures
            r == self.has_other_bag(exclude),
    {
        let vals = self.slots.values();
        let mut i: usize = 0;
        while i < vals.len()
            invariant
                i <= vals@.len(),
                forall|v: SlotData| vals@.contains(v) == self.slots@.values().contains(v),
                forall|j: int| 0 <= j < i ==> exclude == Some((#[trigger] vals@[j]).bag_entity),
            decreases vals.len() - i,
        {
            let slot = vals[i];
            let other = match exclude {
                Some(e) => e != slot.bag_entity,
                None => true,
            };
            if other {
                proof {
                    assert(vals@[i as int] == slot);
                    assert(vals@.contains(slot));
                    assert(self.slots@.values().contains(slot));
                    let k = choose|k: i64| #[trigger] self.slots@.dom().contains(k) && self.slots@[k] == slot;
                    assert(self.slots@.contains_key(k));
                }
                return true;
            }
            i = i + 1;
        }
        proof {
            if self.has_other_bag(exclude) {
                let k = choose|k: i64| #[trigger] self.slots@.contains_key(k) && exclude != Some(self.slots@[k].bag_entity);
                assert(self.slots@.values().contains(self.slots@[k]));
                assert(vals@.contains(self.slots@[k]));
                let j = choose|j: int| 0 <= j < vals@.len() && vals@[j] == self.slots@[k];
                assert(exclude == Some(vals@[j].bag_entity));
            }
        }
        false
    }

    /// Whether a bag with `bag_shape`, turned by `rot`, can go at `pos`: none of its cells may
    /// hold a slot of a bag other than `exclude_bag` (checked in shape order, stopping at the
    /// first failure), and when slots of other bags exist, one of its cells must share an edge
    /// with such a slot. The first bag goes anywhere.
    pub fn can_place_bag(
        &self,
        bag_shape: &Vec<GridVec>,
        pos: GridVec,
        rot: u8,
        exclude_bag: Option<u64>,
    ) -> (r: bool)
        requires
            shape_can_rotate(bag_shape@, rot as nat),
            self.bag_scan_safe(pos, rotated_shape(bag_shape@, rot as nat), exclude_bag),
            neighbours_fit(pos, rotated_shape(bag_shape@, rot as nat)),
        ensures
            r == self.bag_allowed(pos, rotated_shape(bag_shape@, rot as nat), exclude_bag),
    {
        let rotated = rotate_shape(bag_shape, rot);
        let mut k: usize = 0;
        while k < rotated.len()
            invariant
                k <= rotated.len(),
                rotated@ == rotated_shape(bag_shape@, rot as nat),
                self.bag_scan_safe(pos, rotated@, exclude_bag),
                forall|j: int|
                    0 <= j < k ==> #[trigger] self.bag_cell_ok(pos, rotated@[j], exclude_bag),
            decreases rotated.len() - k,
        {
            let offset = rotated[k];
            assert(can_add(pos, rotated@[k as int]));
            let target = pos.offset_by(offset);
            match self.get_slot(target) {
                Some(slot) => {
                    let same = match exclude_bag {
                        Some(e) => e == slot.bag_entity,
                        None => false,
                    };
                    if !same {
                        assert(!self.bag_cell_ok(pos, rotated@[k as int], exclude_bag));
                        assert(!self.bag_fits(pos, rotated@, exclude_bag));
                        return false;
                    }
                },
                None => {},
            }
            k = k + 1;
        }
        assert(self.bag_fits(pos, rotated@, exclude_bag));
        if !self.any_other_bag(exclude_bag) {
            return true;
        }
        let mut k: usize = 0;
        while k < rotated.len()
            invariant
                k <= rotated.len(),
                rotated@ == rotated_shape(bag_shape@, rot as nat),
                self.bag_fits(pos, rotated@, exclude_bag),
                neighbours_fit(pos, rotated@),
                forall|j: int, d: int|
                    0 <= j < k && 0 <= d < 4 ==> !#[trigger] self.neighbour_of_other_bag(
                        plus(pos, rotated@[j]),
                        d,
                        exclude_bag,
                    ),
            decreases rotated.len() - k,
        {
            assert(self.bag_cell_ok(pos, rotated@[k as int], exclude_bag));
            let c = pos.offset_by(rotated[k]);
            assert(can_add(pos, rotated@[k as int]));
            let mut d: u8 = 0;
            while d < 4
                invariant
                    d <= 4,
                    k < rotated@.len(),
                    rotated@ == rotated_shape(bag_shape@, rot as nat),
                    self.bag_fits(pos, rotated@, exclude_bag),
                    c == plus(pos, rotated@[k as int]),
                    i32::MIN < c.x < i32::MAX,
                    i32::MIN < c.y < i32::MAX,
                    forall|e: int| 0 <= e < d ==> !#[trigger] self.neighbour_of_other_bag(c, e, exclude_bag),
                decreases 4 - d,
            {
                let n = if d == 0 {
                    GridVec { x: c.x + 1, y: c.y }
                } else if d == 1 {
                    GridVec { x: c.x - 1, y: c.y }
                } else if d == 2 {
                    GridVec { x: c.x, y: c.y + 1 }
                } else {
                    GridVec { x: c.x, y: c.y - 1 }
                };
                assert(n == neighbour(c, d as int));
                match self.get_slot(n) {
                    Some(slot) => {
                        let other = match exclude_bag {
                            Some(e) => e != slot.bag_entity,
                            None => true,
                        };
                        if other {
                            assert(self.neighbour_of_other_bag(c, d as int, exclude_bag));
                            assert(self.bag_touches(pos, rotated@, exclude_bag));
                            return true;
                        }
                    },
                    None => {},
                }
                d = d + 1;
            }
            k = k + 1;
        }
        false
    }

    /// `true` when an item of `shape` (unturned) fits at `p` with no exclusion.
    pub open spec fn free_spot(&self, shape: Seq<GridVec>, p: GridVec) -> bool {
        self.item_fits(p, shape, None)
    }

    /// The placement checks that `find_free_spot` makes for `shape` can be computed without
    /// overflow: at each cell of the bounds reached (all earlier cells refused), the reached
    /// cells of the shape can be added.
    pub open spec fn spot_search_safe(&self, shape: Seq<GridVec>) -> bool {
        forall|p: GridVec|
            rect_contains(self.bounds, p) && (forall|q: GridVec|
                rect_contains(self.bounds, q) && Self::scans_before(q, p) ==> !#[trigger] self.free_spot(
                    shape,
                    q,
                )) ==> #[trigger] self.item_scan_safe(p, shape, None)
    }

    /// `p` is the first cell of the bounds, row by row, where `shape` fits.
    pub open spec fn is_first_free_spot(&self, shape: Seq<GridVec>, p: GridVec) -> bool {
        &&& rect_contains(self.bounds, p)
        &&& self.free_spot(shape, p)
        &&& forall|q: GridVec|
            rect_contains(self.bounds, q) && Self::scans_before(q, p) ==> !#[trigger] self.free_spot(
                shape,
                q,
            )
    }

    /// `shape` fits at no cell of the bounds.
    pub open spec fn no_free_spot(&self, shape: Seq<GridVec>) -> bool {
        forall|q: GridVec| rect_contains(self.bounds, q) ==> !#[trigger] self.free_spot(shape, q)
    }

    /// Scanning row by row, `q` comes before `p`.
    pub open spec fn scans_before(q: GridVec, p: GridVec) -> bool {
        q.y < p.y || (q.y == p.y && q.x < p.x)
    }

    /// The first cell of the bounds, row by row (top to bottom, left to right), where an item
    /// of `def.shape` fits without turning; `None` when there is none.
    pub fn find_free_spot(&self, def: &ItemDefinition) -> (r: Option<GridVec>)
        requires
            self.spot_search_safe(def.shape@),
        ensures
            match r {
                Some(p) => self.is_first_free_spot(def.shape@, p),
                None => self.no_free_spot(def.shape@),
            },
    {
        let min = self.bounds.min;
        let max = self.bounds.max;
        assert(rotated_shape(def.shape@, 0) =~= def.shape@);
        let mut y: i64 = min.y as i64;
        while y <= max.y as i64
            invariant
                min == self.bounds.min,
                max == self.bounds.max,
                min.y <= y,
                y <= max.y + 1 || y == min.y,
                rotated_shape(def.shape@, 0) == def.shape@,
                forall|p: GridVec|
                    rect_contains(self.bounds, p) && (forall|q: GridVec|
                        rect_contains(self.bounds, q) && Self::scans_before(q, p)
                            ==> !#[trigger] self.free_spot(def.shape@, q)) ==> #[trigger] self.item_scan_safe(
                        p,
                        def.shape@,
                        None,
                    ),
                forall|q: GridVec|
                    rect_contains(self.bounds, q) && q.y < y ==> !#[trigger] self.free_spot(
                        def.shape@,
                        q,
                    ),
            decreases max.y + 1 - y,
        {
            let mut x: i64 = min.x as i64;
            while x <= max.x as i64
                invariant
                    min == self.bounds.min,
                    max == self.bounds.max,
                    min.y <= y <= max.y,
                    min.x <= x,
                    x <= max.x + 1 || x == min.x,
                    rotated_shape(def.shape@, 0) == def.shape@,
                    forall|p: GridVec|
                        rect_contains(self.bounds, p) && (forall|q: GridVec|
                            rect_contains(self.bounds, q) && Self::scans_before(q, p)
                                ==> !#[trigger] self.free_spot(def.shape@, q)) ==> #[trigger] self.item_scan_safe(
                            p,
                            def.shape@,
                            None,
                        ),
                    forall|q: GridVec|
                        rect_contains(self.bounds, q) && (q.y < y || (q.y == y && q.x < x))
                            ==> !#[trigger] self.free_spot(def.shape@, q),
                decreases max.x + 1 - x,
            {
                let pos = GridVec { x: x as i32, y: y as i32 };
                assert(rect_contains(self.bounds, pos));
                assert forall|q: GridVec|
                    rect_contains(self.bounds, q) && Self::scans_before(q, pos)
                        implies !#[trigger] self.free_spot(def.shape@, q) by {}
                if self.can_place_item(&def.shape, pos, 0, None, false) {
                    return Some(pos);
                }
                x = x + 1;
            }
            y = y + 1;
        }
        None
    }
}

/// Slot map `m` has a free slot at offset `o` from `pos` (and the offset can be added).
pub open spec fn free_cell_in(m: Map<i64, SlotData>, pos: GridVec, o: GridVec) -> bool {
    can_add(pos, o) && accepts_item(slot_in(m, plus(pos, o)), None)
}

/// An item of `shape` (unturned) fits on free slots of `m` at `p`.
pub open spec fn free_spot_in(m: Map<i64, SlotData>, shape: Seq<GridVec>, p: GridVec) -> bool {
    forall|k: int| 0 <= k < shape.len() ==> #[trigger] free_cell_in(m, p, shape[k])
}

/// `p` is the first cell of `bounds`, row by row, where `shape` fits on `m`.
pub open spec fn first_free_spot_in(m: Map<i64, SlotData>, bounds: GridRect, shape: Seq<GridVec>, p: GridVec) -> bool {
    &&& rect_contains(bounds, p)
    &&& free_spot_in(m, shape, p)
    &&& forall|q: GridVec|
        rect_contains(bounds, q) && InventoryGridState::scans_before(q, p) ==> !#[trigger] free_spot_in(m, shape, q)
}

/// Every cell of `bounds` can take every offset of `shape` without overflow.
pub open spec fn spot_search_bounded(bounds: GridRect, shape: Seq<GridVec>) -> bool {
    forall|p: GridVec, k: int| rect_contains(bounds, p) && 0 <= k < shape.len() ==> #[trigger] can_add(p, #[trigger] shape[k])
}

/// Placing pending item `id` as entity `e` on slots `m`: the first free spot of its
/// definition, if any, and the slots with its cells held by `e`; nothing for an unknown id or
/// when the item fits nowhere.
pub open spec fn pending_step(m: Map<i64, SlotData>, bounds: GridRect, db: &ItemDatabase, id: Seq<char>, e: u64) -> (Option<GridVec>, Map<i64, SlotData>) {
    match db.lookup(id) {
        Some(d) => if exists|p: GridVec| first_free_spot_in(m, bounds, d.shape@, p) {
            let p = choose|p: GridVec| first_free_spot_in(m, bounds, d.shape@, p);
            (Some(p), occupy(m, placed_cells(p, d.shape@, 0), e))
        } else {
            (None, m)
        },
        None => (None, m),
    }
}

/// The spots and the slots after the first `n` pending items were placed in order.
pub open spec fn pending_after(
    m: Map<i64, SlotData>,
    bounds: GridRect,
    db: &ItemDatabase,
    ids: Seq<Seq<char>>,
    es: Seq<u64>,
    n: int,
) -> (Seq<Option<GridVec>>, Map<i64, SlotData>)
    decreases n,
{
    if n <= 0 {
        (Seq::empty(), m)
    } else {
        let prev = pending_after(m, bounds, db, ids, es, n - 1);
        let step = pending_step(prev.1, bounds, db, ids[n - 1], es[n - 1]);
        (prev.0.push(step.0), step.1)
    }
}

/// The ids among the first `n` whose spot is `None`, in order: the items still pending.
pub open spec fn still_pending(ids: Seq<Seq<char>>, spots: Seq<Option<GridVec>>, n: int) -> Seq<Seq<char>>
    decreases n,
{
    if n <= 0 {
        Seq::empty()
    } else if spots[n - 1] is None {
        still_pending(ids, spots, n - 1).push(ids[n - 1])
    } else {
        still_pending(ids, spots, n - 1)
    }
}

/// The texts of the pending ids.
pub open spec fn pending_ids(p: PendingItems) -> Seq<Seq<char>> {
    p.0@.map_values(|s: String| s@)
}

/// The position of cell `q` of `bounds` in the row-by-row scan.
pub open spec fn scan_rank(bounds: GridRect, q: GridVec) -> int {
    (q.y - bounds.min.y) * (bounds.max.x - bounds.min.x + 1) + (q.x - bounds.min.x)
}

/// When `shape` fits at some cell of `bounds`, there is a first such cell in the row-by-row
/// scan.
proof fn lemma_first_free_spot_exists(m: Map<i64, SlotData>, bounds: GridRect, shape: Seq<GridVec>, p: GridVec)
    requires
        rect_contains(bounds, p),
        free_spot_in(m, shape, p),
    ensures
        exists|f: GridVec| first_free_spot_in(m, bounds, shape, f),
    decreases scan_rank(bounds, p),
{
    let w = bounds.max.x - bounds.min.x + 1;
    assert(scan_rank(bounds, p) >= 0) by (nonlinear_arith)
        requires
            w >= 1,
            p.y - bounds.min.y >= 0,
            0 <= p.x - bounds.min.x < w,
            scan_rank(bounds, p) == (p.y - bounds.min.y) * w + (p.x - bounds.min.x),
    ;
    if forall|q: GridVec| rect_contains(bounds, q) && InventoryGridState::scans_before(q, p) ==> !#[trigger] free_spot_in(m, shape, q) {
        assert(first_free_spot_in(m, bounds, shape, p));
    } else {
        let q = choose|q: GridVec| rect_contains(bounds, q) && InventoryGridState::scans_before(q, p) && #[trigger] free_spot_in(m, shape, q);
        assert(scan_rank(bounds, q) < scan_rank(bounds, p)) by (nonlinear_arith)
            requires
                w >= 1,
                0 <= q.x - bounds.min.x < w,
                0 <= p.x - bounds.min.x < w,
                q.y < p.y || (q.y == p.y && q.x < p.x),
                scan_rank(bounds, p) == (p.y - bounds.min.y) * w + (p.x - bounds.min.x),
                scan_rank(bounds, q) == (q.y - bounds.min.y) * w + (q.x - bounds.min.x),
        ;
        lemma_first_free_spot_exists(m, bounds, shape, q);
    }
}

/// The pending item `ids[k]` is known and fits somewhere in `bounds` on the slots left by the
/// items before it.
pub open spec fn fits_at_turn(
    m: Map<i64, SlotData>,
    bounds: GridRect,
    db: &ItemDatabase,
    ids: Seq<Seq<char>>,
    es: Seq<u64>,
    k: int,
) -> bool {
    match db.lookup(ids[k]) {
        Some(d) => exists|p: GridVec|
            rect_contains(bounds, p) && #[trigger] free_spot_in(pending_after(m, bounds, db, ids, es, k).1, d.shape@, p),
        None => false,
    }
}

/// Placing the first `n` items keeps the spots given to the first `j`.
proof fn lemma_pending_after_prefix(
    m: Map<i64, SlotData>,
    bounds: GridRect,
    db: &ItemDatabase,
    ids: Seq<Seq<char>>,
    es: Seq<u64>,
    j: int,
    n: int,
)
    requires
        0 <= j <= n,
    ensures
        pending_after(m, bounds, db, ids, es, n).0.len() == n,
        pending_after(m, bounds, db, ids, es, n).0.take(j) == pending_after(m, bounds, db, ids, es, j).0,
    decreases n,
{
    if n > 0 {
        if j < n {
            lemma_pending_after_prefix(m, bounds, db, ids, es, j, n - 1);
            lemma_pending_after_prefix(m, bounds, db, ids, es, n - 1, n - 1);
            let prev = pending_after(m, bounds, db, ids, es, n - 1).0;
            let cur = pending_after(m, bounds, db, ids, es, n).0;
            assert(cur.take(j) =~= prev.take(j));
        } else {
            lemma_pending_after_prefix(m, bounds, db, ids, es, n - 1, n - 1);
            assert(pending_after(m, bounds, db, ids, es, n).0.take(n) =~= pending_after(m, bounds, db, ids, es, n).0);
        }
    }
}

/// When every item got a spot, none stays pending.
proof fn lemma_still_pending_empty(ids: Seq<Seq<char>>, spots: Seq<Option<GridVec>>, n: int)
    requires
        forall|k: int| 0 <= k < n ==> #[trigger] spots[k] is Some,
    ensures
        still_pending(ids, spots, n).len() == 0,
    decreases n,
{
    if n > 0 {
        lemma_still_pending_empty(ids, spots, n - 1);
    }
}

/// A pending item that fits somewhere on the slots left by the items before it is placed
/// (it gets a spot, and so leaves the pending list); when every pending item fits at its
/// turn, no item stays pending.
pub proof fn lemma_fitting_pending_items_are_placed(
    m: Map<i64, SlotData>,
    bounds: GridRect,
    db: &ItemDatabase,
    ids: Seq<Seq<char>>,
    es: Seq<u64>,
    n: int,
)
    requires
        0 <= n,
    ensures
        forall|k: int|
            0 <= k < n && #[trigger] fits_at_turn(m, bounds, db, ids, es, k) ==> pending_after(m, bounds, db, ids, es, n).0[k] is Some,
        (forall|k: int| 0 <= k < n ==> #[trigger] fits_at_turn(m, bounds, db, ids, es, k)) ==> still_pending(
            ids,
            pending_after(m, bounds, db, ids, es, n).0,
            n,
        ).len() == 0,
{
    let spots = pending_after(m, bounds, db, ids, es, n).0;
    assert forall|k: int|
        0 <= k < n && #[trigger] fits_at_turn(m, bounds, db, ids, es, k) implies spots[k] is Some by {
        lemma_pending_after_prefix(m, bounds, db, ids, es, k + 1, n);
        lemma_pending_after_prefix(m, bounds, db, ids, es, k, k);
        let d = db.lookup(ids[k]).unwrap();
        let prev = pending_after(m, bounds, db, ids, es, k);
        let p = choose|p: GridVec| rect_contains(bounds, p) && #[trigger] free_spot_in(prev.1, d.shape@, p);
        lemma_first_free_spot_exists(prev.1, bounds, d.shape@, p);
        assert(pending_after(m, bounds, db, ids, es, k + 1).0[k] is Some);
        assert(spots.take(k + 1)[k] == spots[k]);
    }
    if forall|k: int| 0 <= k < n ==> #[trigger] fits_at_turn(m, bounds, db, ids, es, k) {
        assert forall|k: int| 0 <= k < n implies #[trigger] spots[k] is Some by {
            assert(fits_at_turn(m, bounds, db, ids, es, k));
        }
        lemma_still_pending_empty(ids, spots, n);
    }
}

/// Two cells that are both the first free spot are the same cell.
proof fn lemma_first_free_spot_unique(m: Map<i64, SlotData>, bounds: GridRect, shape: Seq<GridVec>, p: GridVec, q: GridVec)
    requires
        first_free_spot_in(m, bounds, shape, p),
        first_free_spot_in(m, bounds, shape, q),
    ensures
        p == q,
{
    if p != q {
        if InventoryGridState::scans_before(q, p) {
            assert(!free_spot_in(m, shape, q));
        } else {
            assert(InventoryGridState::scans_before(p, q));
            assert(!free_spot_in(m, shape, p));
        }
    }
}

impl InventoryGridState {
    /// The free-spot check of the grid is the one on its slot map.
    proof fn lemma_free_spot_on_map(&self, shape: Seq<GridVec>, p: GridVec)
        ensures
            self.free_spot(shape, p) == free_spot_in(self.slots@, shape, p),
    {
        assert(rotated_shape(shape, 0) =~= shape);
        if self.free_spot(shape, p) {
            assert forall|k: int| 0 <= k < shape.len() implies #[trigger] free_cell_in(self.slots@, p, shape[k]) by {
                assert(self.item_cell_ok(p, shape[k], None));
            }
        }
        if free_spot_in(self.slots@, shape, p) {
            assert forall|k: int| 0 <= k < shape.len() implies #[trigger] self.item_cell_ok(p, shape[k], None) by {
                assert(free_cell_in(self.slots@, p, shape[k]));
            }
        }
    }

    /// A search over bounds where no addition overflows is safe whatever the occupancy.
    proof fn lemma_bounded_search_safe(&self, shape: Seq<GridVec>)
        requires
            spot_search_bounded(self.bounds, shape),
        ensures
            self.spot_search_safe(shape),
    {
        assert forall|p: GridVec, k: int|
            rect_contains(self.bounds, p) && 0 <= k < shape.len() implies #[trigger] can_add(p, shape[k]) by {}
    }

    /// Places the pending item `id` as entity `entity`: at the first free spot of its
    /// definition (row by row, unturned), its cells' slots becoming held by `entity`. An unknown
    /// id, or an item that fits nowhere, changes nothing. Returns the spot.
    pub fn place_pending_item(&mut self, db: &ItemDatabase, id: &String, entity: u64) -> (r: Option<GridVec>)
        requires
            forall|d: Seq<char>| #[trigger] db.items@.contains_key(d) ==> spot_search_bounded(old(self).bounds, db.items@[d].shape@),
        ensures
            (r, final(self).slots@) == pending_step(old(self).slots@, old(self).bounds, db, id@, entity),
            final(self).bounds == old(self).bounds,
    {
        let ghost m0 = self.slots@;
        match db.get(id) {
            Some(def) => {
                proof {
                    assert(db.items@.contains_key(id@));
                    self.lemma_bounded_search_safe(def.shape@);
                }
                match self.find_free_spot(def) {
                    Some(p) => {
                        proof {
                            self.lemma_free_spot_on_map(def.shape@, p);
                            assert forall|q: GridVec|
                                rect_contains(self.bounds, q) && InventoryGridState::scans_before(q, p)
                                    implies !#[trigger] free_spot_in(m0, def.shape@, q) by {
                                self.lemma_free_spot_on_map(def.shape@, q);
                            }
                            assert(first_free_spot_in(m0, self.bounds, def.shape@, p));
                            let c = choose|c: GridVec| first_free_spot_in(m0, self.bounds, def.shape@, c);
                            lemma_first_free_spot_unique(m0, self.bounds, def.shape@, p, c);
                            assert(rotated_shape(def.shape@, 0) =~= def.shape@);
                            assert forall|i: int| 0 <= i < def.shape@.len() implies #[trigger] can_add(p, rotated(def.shape@[i], 0)) by {
                                assert(free_cell_in(m0, p, def.shape@[i]));
                            }
                            assert(shape_can_rotate(def.shape@, 0));
                        }
                        let cells = placed_cells_of(p, &def.shape, 0);
                        let ghost all = placed_cells(p, def.shape@, 0);
                        let mut k: usize = 0;
                        while k < cells.len()
                            invariant
                                k <= cells@.len(),
                                cells@ == all,
                                self.bounds == old(self).bounds,
                                self.slots@ == occupy(m0, all.take(k as int), entity),
                            decreases cells.len() - k,
                        {
                            let cell = cells[k];
                            let key = cell_key_of(cell);
                            proof {
                                crate::plugins::geometry::lemma_cell_key_range(cell);
                            }
                            let found = match self.slots.get(&key) {
                                Some(slot) => Some(slot.bag_entity),
                                None => None,
                            };
                            match found {
                                Some(bag_entity) => {
                                    self.slots.insert(key, SlotData { bag_entity: bag_entity, occupier: Some(entity) });
                                },
                                None => {},
                            }
                            k = k + 1;
                            proof {
                                let tk = all.take(k as int);
                                assert(tk.drop_last() =~= all.take(k - 1));
                                assert(tk.last() == cell);
                            }
                        }
                        assert(all.take(k as int) =~= all);
                        Some(p)
                    },
                    None => {
                        proof {
                            if exists|c: GridVec| first_free_spot_in(m0, self.bounds, def.shape@, c) {
                                let c = choose|c: GridVec| first_free_spot_in(m0, self.bounds, def.shape@, c);
                                self.lemma_free_spot_on_map(def.shape@, c);
                                assert(!self.free_spot(def.shape@, c));
                            }
                        }
                        None
                    },
                }
            },
            None => None,
        }
    }

    /// Places the pending items in order, the `k`-th as entity `entities[k]` (see
    /// `place_pending_item`); later items see the slots taken by earlier ones. Returns the spot
    /// of each item; the items that found no spot (or are unknown) stay pending, in order.
    pub fn place_pending_items(&mut self, db: &ItemDatabase, pending: &mut PendingItems, entities: &Vec<u64>) -> (spots: Vec<Option<GridVec>>)
        requires
            entities@.len() == old(pending).0@.len(),
            forall|d: Seq<char>| #[trigger] db.items@.contains_key(d) ==> spot_search_bounded(old(self).bounds, db.items@[d].shape@),
        ensures
            ({
                let after = pending_after(old(self).slots@, old(self).bounds, db, pending_ids(*old(pending)), entities@, entities@.len() as int);
                &&& spots@ == after.0
                &&& final(self).slots@ == after.1
                &&& pending_ids(*final(pending)) == still_pending(pending_ids(*old(pending)), after.0, entities@.len() as int)
            }),
            final(self).bounds == old(self).bounds,
    {
        let ghost m0 = self.slots@;
        let ghost ids = pending_ids(*pending);
        let n = entities.len();
        let mut spots: Vec<Option<GridVec>> = Vec::new();
        let mut left: Vec<String> = Vec::new();
        let mut k: usize = 0;
        while k < n
            invariant
                n == entities@.len(),
                n == pending.0@.len(),
                ids == pending_ids(*pending),
                k <= n,
                spots@.len() == k,
                self.bounds == old(self).bounds,
                forall|d: Seq<char>| #[trigger] db.items@.contains_key(d) ==> spot_search_bounded(old(self).bounds, db.items@[d].shape@),
                spots@ == pending_after(m0, old(self).bounds, db, ids, entities@, k as int).0,
                self.slots@ == pending_after(m0, old(self).bounds, db, ids, entities@, k as int).1,
                left@.map_values(|s: String| s@) == still_pending(ids, spots@, k as int),
            decreases n - k,
        {
            let ghost before_left = left@;
            let ghost before_spots = spots@;
            let id = &pending.0[k];
            assert(ids[k as int] == id@);
            let r = self.place_pending_item(db, id, entities[k]);
            spots.push(r);
            proof {
                assert forall|j: int| 0 <= j < k implies #[trigger] spots@[j] == before_spots[j] by {}
                lemma_still_pending_prefix(ids, before_spots, spots@, k as int);
            }
            if r.is_none() {
                left.push(id.clone());
                assert(left@.map_values(|s: String| s@) =~= before_left.map_values(|s: String| s@).push(id@));
            }
            k = k + 1;
        }
        pending.0 = left;
        assert(pending_ids(*pending) =~= left@.map_values(|s: String| s@));
        spots
    }
}

/// `still_pending` over the first `n` items reads only the first `n` spots.
proof fn lemma_still_pending_prefix(ids: Seq<Seq<char>>, a: Seq<Option<GridVec>>, b: Seq<Option<GridVec>>, n: int)
    requires
        0 <= n <= a.len(),
        n <= b.len(),
        forall|j: int| 0 <= j < n ==> #[trigger] b[j] == a[j],
    ensures
        still_pending(ids, a, n) == still_pending(ids, b, n),
    decreases n,
{
    if n > 0 {
        lemma_still_pending_prefix(ids, a, b, n - 1);
    }
}

/// `true` when some slot of bag `bag` is occupied by item `o`.
pub open spec fn bag_holds(grid: &InventoryGridState, bag: u64, o: u64) -> bool {
    grid.slots@.values().contains(SlotData { bag_entity: bag, occupier: Some(o) })
}

/// What was true when a drag started, to restore it if the drop is refused.
pub struct DragState {
    pub original_pos: Option<GridVec>,
    pub original_rotation: Option<u8>,
    pub was_in_storage: bool,
    /// When a bag is dragged: the items lying in its slots, which move along with it.
    pub attached_items: Vec<u64>,
}

impl DragState {
    /// No drag in progress.
    pub fn new() -> (s: Self)
        ensures
            s.original_pos is None,
            s.original_rotation is None,
            !s.was_in_storage,
            s.attached_items@.len() == 0,
    {
        DragState {
            original_pos: None,
            original_rotation: None,
            was_in_storage: false,
            attached_items: Vec::new(),
        }
    }

    /// Records the state of `entity` as a drag starts. When a bag outside storage is dragged,
    /// collects (once each) the items occupying its slots.
    pub fn begin(
        &mut self,
        grid: &InventoryGridState,
        entity: u64,
        pos: GridVec,
        rotation: u8,
        is_bag: bool,
        in_storage: bool,
    )
        ensures
            final(self).original_pos == Some(pos),
            final(self).original_rotation == Some(rotation),
            final(self).was_in_storage == in_storage,
            final(self).attached_items@.no_duplicates(),
            forall|o: u64|
                #![trigger final(self).attached_items@.contains(o)]
                final(self).attached_items@.contains(o) <==> (is_bag && !in_storage && bag_holds(
                    grid,
                    entity,
                    o,
                )),
    {
        self.original_pos = Some(pos);
        self.original_rotation = Some(rotation);
        self.was_in_storage = in_storage;
        self.attached_items = Vec::new();
        if is_bag && !in_storage {
            let mut attached: Vec<u64> = Vec::new();
            let vals = grid.slots.values();
            let mut i: usize = 0;
            while i < vals.len()
                invariant
                    i <= vals@.len(),
                    forall|v: SlotData| vals@.contains(v) == grid.slots@.values().contains(v),
                    attached@.no_duplicates(),
                    forall|o: u64|
                        #![trigger attached@.contains(o)]
                        attached@.contains(o) <==> exists|j: int|
                            0 <= j < i && vals@[j] == (SlotData {
                                bag_entity: entity,
                                occupier: Some(o),
                            }),
                decreases vals.len() - i,
            {
                let slot = vals[i];
                let ghost before = attached@;
                if slot.bag_entity == entity {
                    match slot.occupier {
                        Some(occupier) => {
                            if !vec_contains(&attached, occupier) {
                                attached.push(occupier);
                            }
                        },
                        None => {},
                    }
                }
                proof {
                    assert forall|o: u64|
                        #![trigger attached@.contains(o)]
                        attached@.contains(o) <==> exists|j: int|
                            0 <= j < i + 1 && vals@[j] == (SlotData {
                                bag_entity: entity,
                                occupier: Some(o),
                            }) by {
                        let target = SlotData { bag_entity: entity, occupier: Some(o) };
                        if slot == target {
                            assert(vals@[i as int] == target);
                            assert(attached@.contains(o)) by {
                                if !before.contains(o) {
                                    assert(attached@[attached@.len() - 1] == o);
                                }
                            }
                        } else {
                            if attached@.contains(o) {
                                if !before.contains(o) {
                                    let w = choose|w: int| 0 <= w < attached@.len() && #[trigger] attached@[w] == o;
                                    if w < before.len() {
                                        assert(before[w] == o);
                                    }
                                }
                                assert(before.contains(o));
                            }
                            if before.contains(o) {
                                let w = choose|w: int| 0 <= w < before.len() && #[trigger] before[w] == o;
                                assert(attached@[w] == o);
                            }
                            if exists|j: int| 0 <= j < i + 1 && vals@[j] == target {
                                let j = choose|j: int| 0 <= j < i + 1 && vals@[j] == target;
                                assert(j < i);
                            }
                        }
                    }
                }
                i = i + 1;
            }
            proof {
                assert forall|o: u64|
                    #![trigger attached@.contains(o)]
                    attached@.contains(o) <==> bag_holds(grid, entity, o) by {
                    let target = SlotData { bag_entity: entity, occupier: Some(o) };
                    if attached@.contains(o) {
                        let j = choose|j: int| 0 <= j < vals@.len() && vals@[j] == target;
                        assert(vals@.contains(target));
                        assert(grid.slots@.values().contains(target));
                    }
                    if bag_holds(grid, entity, o) {
                        assert(vals@.contains(target));
                        let j = choose|j: int| 0 <= j < vals@.len() && vals@[j] == target;
                        assert(vals@[j] == target);
                    }
                }
            }
            self.attached_items = attached;
        }
    }
}

/// `true` when `v` holds `x`.
pub fn vec_contains(v: &Vec<u64>, x: u64) -> (r: bool)
    ensures
        r == v@.contains(x),
{
    let mut i: usize = 0;
    while i < v.len()
        invariant
            i <= v.len(),
            forall|j: int| 0 <= j < i ==> v@[j] != x,
        decreases v.len() - i,
    {
        if v[i] == x {
            return true;
        }
        i = i + 1;
    }
    false
}

/// The smallest x among the cells of a non-empty `s`.
pub open spec fn seq_min_x(s: Seq<GridVec>) -> int
    decreases s.len(),
{
    if s.len() <= 1 {
        s[0].x as int
    } else {
        min_int(seq_min_x(s.drop_last()), s.last().x as int)
    }
}

/// The largest x among the cells of a non-empty `s`.
pub open spec fn seq_max_x(s: Seq<GridVec>) -> int
    decreases s.len(),
{
    if s.len() <= 1 {
        s[0].x as int
    } else {
        max_int(seq_max_x(s.drop_last()), s.last().x as int)
    }
}

/// The smallest y among the cells of a non-empty `s`.
pub open spec fn seq_min_y(s: Seq<GridVec>) -> int
    decreases s.len(),
{
    if s.len() <= 1 {
        s[0].y as int
    } else {
        min_int(seq_min_y(s.drop_last()), s.last().y as int)
    }
}

/// The largest y among the cells of a non-empty `s`.
pub open spec fn seq_max_y(s: Seq<GridVec>) -> int
    decreases s.len(),
{
    if s.len() <= 1 {
        s[0].y as int
    } else {
        max_int(seq_max_y(s.drop_last()), s.last().y as int)
    }
}

/// The box `(min_x, min_y, width, height)` around a turned shape; `(0, 0, 1, 1)` when empty.
pub open spec fn spec_bounding_box(r: Seq<GridVec>) -> (int, int, int, int) {
    if r.len() == 0 {
        (0, 0, 1, 1)
    } else {
        (
            seq_min_x(r),
            seq_min_y(r),
            seq_max_x(r) - seq_min_x(r) + 1,
            seq_max_y(r) - seq_min_y(r) + 1,
        )
    }
}

/// The box of a turned shape fits in `i32` (its width and height are computed without overflow).
pub open spec fn bounding_box_fits(r: Seq<GridVec>) -> bool {
    r.len() > 0 ==> (seq_max_x(r) - seq_min_x(r) + 1 <= i32::MAX && seq_max_y(r) - seq_min_y(r) + 1
        <= i32::MAX)
}

/// The extremes of a prefix are bounds for each of its cells.
pub proof fn lemma_extremes_bound(s: Seq<GridVec>, i: int)
    requires
        0 <= i < s.len(),
    ensures
        seq_min_x(s) <= s[i].x <= seq_max_x(s),
        seq_min_y(s) <= s[i].y <= seq_max_y(s),
    decreases s.len(),
{
    if s.len() > 1 && i < s.len() - 1 {
        lemma_extremes_bound(s.drop_last(), i);
    }
}

/// Every cell of a turned shape lies inside its bounding box.
pub proof fn lemma_bounding_box_holds_shape(shape: Seq<GridVec>, turns: nat, i: int)
    requires
        0 <= i < shape.len(),
    ensures
        ({
            let r = rotated_shape(shape, turns);
            let b = spec_bounding_box(r);
            b.0 <= r[i].x < b.0 + b.2 && b.1 <= r[i].y < b.1 + b.3
        }),
{
    lemma_extremes_bound(rotated_shape(shape, turns), i);
}

/// The bounding box `(min_x, min_y, width, height)`, in cells, of `shape` turned by
/// `rotation_step`; `(0, 0, 1, 1)` for an empty shape.
pub fn calculate_bounding_box(shape: &Vec<GridVec>, rotation_step: u8) -> (r: (i32, i32, i32, i32))
    requires
        shape_can_rotate(shape@, rotation_step as nat),
        bounding_box_fits(rotated_shape(shape@, rotation_step as nat)),
    ensures
        (r.0 as int, r.1 as int, r.2 as int, r.3 as int) == spec_bounding_box(
            rotated_shape(shape@, rotation_step as nat),
        ),
{
    let rotated = rotate_shape(shape, rotation_step);
    if rotated.len() == 0 {
        return (0, 0, 1, 1);
    }
    let mut min_x = rotated[0].x;
    let mut max_x = rotated[0].x;
    let mut min_y = rotated[0].y;
    let mut max_y = rotated[0].y;
    let mut i: usize = 1;
    while i < rotated.len()
        invariant
            1 <= i <= rotated.len(),
            min_x == seq_min_x(rotated@.take(i as int)),
            max_x == seq_max_x(rotated@.take(i as int)),
            min_y == seq_min_y(rotated@.take(i as int)),
            max_y == seq_max_y(rotated@.take(i as int)),
        decreases rotated.len() - i,
    {
        let v = rotated[i];
        if v.x < min_x {
            min_x = v.x;
        }
        if v.x > max_x {
            max_x = v.x;
        }
        if v.y < min_y {
            min_y = v.y;
        }
        if v.y > max_y {
            max_y = v.y;
        }
        i = i + 1;
        assert(rotated@.take(i as int).drop_last() =~= rotated@.take(i - 1));
    }
    assert(rotated@.take(i as int) =~= rotated@);
    (min_x, min_y, max_x - min_x + 1, max_y - min_y + 1)
}

/// A quarter turn of every cell maps the extremes of a shape onto each other: the new x range
/// is the old y range negated, the new y range is the old x range.
proof fn lemma_quarter_turn_extremes(a: Seq<GridVec>)
    requires
        a.len() > 0,
        forall|i: int| 0 <= i < a.len() ==> (#[trigger] a[i]).y != i32::MIN,
    ensures
        ({
            let b = a.map_values(|v: GridVec| rotated(v, 1));
            &&& seq_min_x(b) == -seq_max_y(a)
            &&& seq_max_x(b) == -seq_min_y(a)
            &&& seq_min_y(b) == seq_min_x(a)
            &&& seq_max_y(b) == seq_max_x(a)
        }),
    decreases a.len(),
{
    let b = a.map_values(|v: GridVec| rotated(v, 1));
    if a.len() > 1 {
        let a1 = a.drop_last();
        assert forall|i: int| 0 <= i < a1.len() implies (#[trigger] a1[i]).y != i32::MIN by {
            assert(a1[i] == a[i]);
        }
        lemma_quarter_turn_extremes(a1);
        assert(b.drop_last() =~= a1.map_values(|v: GridVec| rotated(v, 1)));
    }
    assert(b.last() == rotated(a.last(), 1));
}

/// Turning by `turns + 1` is turning by `turns` and then once more, for a cell with no
/// `i32::MIN` coordinate.
proof fn lemma_turn_once_more(v: GridVec, turns: nat)
    requires
        v.x != i32::MIN,
        v.y != i32::MIN,
    ensures
        rotated(v, turns + 1) == rotated(rotated(v, turns), 1),
        rotated(v, turns).y != i32::MIN,
{
    assert((turns + 1) % 4 == (turns % 4 + 1) % 4);
}

/// One more quarter turn (as the R key gives) swaps the width and the height of a shape's
/// bounding box, for a shape with no `i32::MIN` coordinate.
pub proof fn lemma_turn_swaps_box(shape: Seq<GridVec>, turns: nat)
    requires
        forall|i: int| 0 <= i < shape.len() ==> shape[i].x != i32::MIN && shape[i].y != i32::MIN,
    ensures
        spec_bounding_box(rotated_shape(shape, ((turns + 1) % 4) as nat)).2 == spec_bounding_box(rotated_shape(shape, turns)).3,
        spec_bounding_box(rotated_shape(shape, ((turns + 1) % 4) as nat)).3 == spec_bounding_box(rotated_shape(shape, turns)).2,
{
    let a = rotated_shape(shape, turns);
    let b = rotated_shape(shape, turns + 1);
    assert(rotated_shape(shape, ((turns + 1) % 4) as nat) =~= b) by {
        assert forall|i: int| 0 <= i < shape.len() implies rotated(shape[i], ((turns + 1) % 4) as nat) == rotated(shape[i], turns + 1) by {
            assert(((turns + 1) % 4) as nat % 4 == (turns + 1) % 4);
        }
    }
    if shape.len() > 0 {
        assert forall|i: int| 0 <= i < a.len() implies (#[trigger] a[i]).y != i32::MIN by {
            lemma_turn_once_more(shape[i], turns);
        }
        assert(b =~= a.map_values(|v: GridVec| rotated(v, 1))) by {
            assert forall|i: int| 0 <= i < a.len() implies b[i] == rotated(a[i], 1) by {
                lemma_turn_once_more(shape[i], turns);
            }
        }
        lemma_quarter_turn_extremes(a);
    }
}

/// The rotation after one more quarter turn (the R key while dragging).
pub fn next_rotation(rot: u8) -> (r: u8)
    requires
        rot < 255,
    ensures
        r == (rot + 1) % 4,
{
    (rot + 1) % 4
}

/// What happens to a dragged item or bag when it is dropped.
#[derive(Debug, Clone, Copy, PartialEq, Eq, Structural)]
pub struct DropOutcome {
    /// The drop is accepted.
    pub valid: bool,
    /// The anchor after the drop (the target, or the original when refused).
    pub new_pos: GridVec,
    /// The rotation after the drop.
    pub new_rotation: u8,
    /// The item lies in storage after the drop.
    pub in_storage: bool,
    /// The shift to apply to the items attached to a dragged bag (zero otherwise).
    pub delta: GridVec,
}

/// The check that decides a drop outside storage: bags may not overlap other bags and must
/// touch one when there are others, items need free slots (their own cells excepted).
pub open spec fn drop_accepted(
    grid: &InventoryGridState,
    entity: u64,
    shape: Seq<GridVec>,
    bag_slots: Option<Vec<GridVec>>,
    rotation: u8,
    target: GridVec,
    is_storage_drop: bool,
) -> bool {
    is_storage_drop || match bag_slots {
        Some(b) => grid.bag_allowed(target, rotated_shape(b@, rotation as nat), Some(entity)),
        None => grid.item_fits(target, rotated_shape(shape, rotation as nat), Some(entity)),
    }
}

/// The checks of a drop can be computed without overflow.
pub open spec fn drop_computable(
    grid: &InventoryGridState,
    drag: &DragState,
    entity: u64,
    shape: Seq<GridVec>,
    bag_slots: Option<Vec<GridVec>>,
    rotation: u8,
    target: GridVec,
    is_storage_drop: bool,
) -> bool {
    &&& !is_storage_drop ==> match bag_slots {
        Some(b) => shape_can_rotate(b@, rotation as nat) && grid.bag_scan_safe(
            target,
            rotated_shape(b@, rotation as nat),
            Some(entity),
        ) && neighbours_fit(target, rotated_shape(b@, rotation as nat)),
        None => shape_can_rotate(shape, rotation as nat) && grid.item_scan_safe(
            target,
            rotated_shape(shape, rotation as nat),
            Some(entity),
        ),
    }
    &&& (bag_slots is Some && !is_storage_drop && drop_accepted(
        grid,
        entity,
        shape,
        bag_slots,
        rotation,
        target,
        is_storage_drop,
    )) ==> match drag.original_pos {
        Some(o) => fits_i32(target.x - o.x, target.y - o.y),
        None => true,
    }
}

/// The outcome of a drop (see `resolve_drop`).
pub open spec fn spec_resolve_drop(
    grid: &InventoryGridState,
    drag: &DragState,
    entity: u64,
    shape: Seq<GridVec>,
    bag_slots: Option<Vec<GridVec>>,
    current_pos: GridVec,
    current_rotation: u8,
    target_pos: GridVec,
    is_storage_drop: bool,
) -> DropOutcome {
    if drop_accepted(grid, entity, shape, bag_slots, current_rotation, target_pos, is_storage_drop) {
        DropOutcome {
            valid: true,
            new_pos: target_pos,
            new_rotation: current_rotation,
            in_storage: is_storage_drop,
            delta: if bag_slots is Some && !is_storage_drop {
                match drag.original_pos {
                    Some(o) => gv(target_pos.x - o.x, target_pos.y - o.y),
                    None => gv(0, 0),
                }
            } else {
                gv(0, 0)
            },
        }
    } else {
        DropOutcome {
            valid: false,
            new_pos: match drag.original_pos {
                Some(o) => o,
                None => current_pos,
            },
            new_rotation: match drag.original_rotation {
                Some(o) => o,
                None => current_rotation,
            },
            in_storage: drag.was_in_storage,
            delta: gv(0, 0),
        }
    }
}

/// Decides a drop of `entity` at `target_pos`: a drop into storage is always accepted;
/// otherwise a bag must not overlap another bag (and must touch one, if any other exists)
/// and an item must land on free slots.
/// An accepted drop keeps the current rotation and, for a bag outside storage, shifts its
/// attached items by the distance from its original anchor. A refused drop restores the
/// original anchor, rotation and storage flag recorded when the drag started.
pub fn resolve_drop(
    grid: &InventoryGridState,
    drag: &DragState,
    entity: u64,
    shape: &Vec<GridVec>,
    bag_slots: &Option<Vec<GridVec>>,
    current_pos: GridVec,
    current_rotation: u8,
    target_pos: GridVec,
    is_storage_drop: bool,
) -> (r: DropOutcome)
    requires
        drop_computable(
            grid,
            drag,
            entity,
            shape@,
            *bag_slots,
            current_rotation,
            target_pos,
            is_storage_drop,
        ),
    ensures
        r == spec_resolve_drop(
            grid,
            drag,
            entity,
            shape@,
            *bag_slots,
            current_pos,
            current_rotation,
            target_pos,
            is_storage_drop,
        ),
{
    let zero = GridVec { x: 0, y: 0 };
    let valid = if is_storage_drop {
        true
    } else {
        match bag_slots {
            Some(bag) => grid.can_place_bag(bag, target_pos, current_rotation, Some(entity)),
            None => grid.can_place_item(shape, target_pos, current_rotation, Some(entity), false),
        }
    };
    if valid {
        let delta = if bag_slots.is_some() && !is_storage_drop {
            match drag.original_pos {
                Some(o) => target_pos.minus(o),
                None => zero,
            }
        } else {
            zero
        };
        DropOutcome {
            valid: true,
            new_pos: target_pos,
            new_rotation: current_rotation,
            in_storage: is_storage_drop,
            delta,
        }
    } else {
        let new_pos = match drag.original_pos {
            Some(o) => o,
            None => current_pos,
        };
        let new_rotation = match drag.original_rotation {
            Some(o) => o,
            None => current_rotation,
        };
        DropOutcome {
            valid: false,
            new_pos,
            new_rotation,
            in_storage: drag.was_in_storage,
            delta: zero,
        }
    }
}

/// Growing a rectangle keeps every cell it held, and holds each added cell.
proof fn lemma_extend_rect_all_contains(r: GridRect, cells: Seq<GridVec>)
    ensures
        forall|p: GridVec| rect_contains(r, p) ==> #[trigger] rect_contains(extend_rect_all(r, cells), p),
        forall|i: int| 0 <= i < cells.len() ==> #[trigger] rect_contains(extend_rect_all(r, cells), cells[i]),
    decreases cells.len(),
{
    if cells.len() > 0 {
        lemma_extend_rect_all_contains(r, cells.drop_last());
        let inner = extend_rect_all(r, cells.drop_last());
        assert forall|p: GridVec| rect_contains(r, p) implies #[trigger] rect_contains(
            extend_rect_all(r, cells),
            p,
        ) by {
            assert(rect_contains(inner, p));
        }
        assert forall|i: int| 0 <= i < cells.len() implies #[trigger] rect_contains(
            extend_rect_all(r, cells),
            cells[i],
        ) by {
            if i < cells.len() - 1 {
                assert(rect_contains(inner, cells.drop_last()[i]));
            }
        }
    }
}

/// The bounds after a rebuild hold the origin and every slot: no slot lies outside the
/// active zone.
pub proof fn lemma_bounds_hold_every_slot(bags: Seq<Placement>, c: GridVec)
    ensures
        rect_contains(bounds_of(bags), gv(0, 0)),
        last_cover(bags, c) is Some ==> rect_contains(bounds_of(bags), c),
    decreases bags.len(),
{
    if bags.len() > 0 {
        lemma_bounds_hold_every_slot(bags.drop_last(), c);
        lemma_extend_rect_all_contains(bounds_of(bags.drop_last()), bags.last().cells());
        if bags.last().cells().contains(c) {
            let i = choose|i: int| 0 <= i < bags.last().cells().len() && bags.last().cells()[i] == c;
            assert(rect_contains(bounds_of(bags), bags.last().cells()[i]));
        }
    }
}

/// An item that `can_place_item` accepts on a rebuilt grid occupies, once the grid is rebuilt
/// with it added, exactly the cells it covers; every other slot stays as it was.
pub proof fn lemma_accepted_item_occupies_its_cells(
    grid: &InventoryGridState,
    bags: Seq<Placement>,
    items: Seq<Placement>,
    p: Placement,
    exclude: Option<u64>,
)
    requires
        forall|c: GridVec| #[trigger] grid.slot_at(c) == expected_slot(bags, items, c),
        p.valid(),
        grid.item_fits(p.pos, rotated_shape(p.shape@, p.rotation as nat), exclude),
    ensures
        forall|c: GridVec|
            #[trigger] p.cells().contains(c) ==> last_cover(bags, c) is Some && expected_slot(
                bags,
                items.push(p),
                c,
            ) == Some(SlotData { bag_entity: last_cover(bags, c).unwrap(), occupier: Some(p.entity) }),
        forall|c: GridVec|
            !#[trigger] p.cells().contains(c) ==> expected_slot(bags, items.push(p), c)
                == expected_slot(bags, items, c),
{
    assert(items.push(p).drop_last() =~= items);
    assert forall|c: GridVec| #[trigger] p.cells().contains(c) implies last_cover(bags, c) is Some
        && expected_slot(bags, items.push(p), c) == Some(
        SlotData { bag_entity: last_cover(bags, c).unwrap(), occupier: Some(p.entity) },
    ) by {
        let k = choose|k: int| 0 <= k < p.cells().len() && p.cells()[k] == c;
        let r = rotated_shape(p.shape@, p.rotation as nat);
        assert(grid.item_cell_ok(p.pos, r[k], exclude));
    }
}

/// An item that lies on slots and was placed last can always be dropped back where it lies:
/// on the rebuilt grid, every one of its cells accepts it.
pub proof fn lemma_item_fits_where_it_lies(
    grid: &InventoryGridState,
    bags: Seq<Placement>,
    items: Seq<Placement>,
    p: Placement,
)
    requires
        forall|c: GridVec| #[trigger] grid.slot_at(c) == expected_slot(bags, items.push(p), c),
        p.valid(),
        forall|c: GridVec| #[trigger] p.cells().contains(c) ==> last_cover(bags, c) is Some,
    ensures
        grid.item_fits(p.pos, rotated_shape(p.shape@, p.rotation as nat), Some(p.entity)),
{
    let r = rotated_shape(p.shape@, p.rotation as nat);
    assert forall|k: int| 0 <= k < r.len() implies #[trigger] grid.item_cell_ok(p.pos, r[k], Some(p.entity)) by {
        let c = p.cells()[k];
        assert(r[k] == rotated(p.shape@[k], p.rotation as nat));
        assert(c == plus(p.pos, r[k]));
        assert(p.cells().contains(c));
        assert(items.push(p).last() == p);
        assert(last_cover(items.push(p), c) == Some(p.entity));
    }
}

/// A bag that `can_place_bag` accepts (excluding no bag) on a rebuilt grid overlaps no
/// existing slot, and once the grid is rebuilt with it added, every one of its cells is a
/// free slot of that bag while every other slot stays as it was.
pub proof fn lemma_accepted_bag_does_not_overlap(
    grid: &InventoryGridState,
    bags: Seq<Placement>,
    items: Seq<Placement>,
    b: Placement,
)
    requires
        forall|c: GridVec| #[trigger] grid.slot_at(c) == expected_slot(bags, items, c),
        b.valid(),
        grid.bag_fits(b.pos, rotated_shape(b.shape@, b.rotation as nat), None),
        forall|c: GridVec| #[trigger] b.cells().contains(c) ==> last_cover(items, c) is None,
    ensures
        forall|c: GridVec| #[trigger] b.cells().contains(c) ==> last_cover(bags, c) is None,
        forall|c: GridVec|
            #[trigger] b.cells().contains(c) ==> expected_slot(bags.push(b), items, c) == Some(
                SlotData { bag_entity: b.entity, occupier: None },
            ),
        forall|c: GridVec|
            !#[trigger] b.cells().contains(c) ==> expected_slot(bags.push(b), items, c)
                == expected_slot(bags, items, c),
{
    assert(bags.push(b).drop_last() =~= bags);
    assert forall|c: GridVec| #[trigger] b.cells().contains(c) implies last_cover(bags, c) is None by {
        let k = choose|k: int| 0 <= k < b.cells().len() && b.cells()[k] == c;
        let r = rotated_shape(b.shape@, b.rotation as nat);
        assert(grid.bag_cell_ok(b.pos, r[k], None));
    }
}

/// An accepted drop lands where it was dropped, with the rotation it was checked with (the
/// turns made while dragging are kept), in storage exactly when dropped there; a drop into
/// storage is always accepted; an item dropped on the grid is accepted exactly when each of
/// its turned cells lands on a slot that is free or held by the item itself.
pub proof fn lemma_accepted_drop_lands(
    grid: &InventoryGridState,
    drag: &DragState,
    entity: u64,
    shape: Seq<GridVec>,
    bag_slots: Option<Vec<GridVec>>,
    current_pos: GridVec,
    current_rotation: u8,
    target_pos: GridVec,
    is_storage_drop: bool,
)
    ensures
        ({
            let r = spec_resolve_drop(
                grid,
                drag,
                entity,
                shape,
                bag_slots,
                current_pos,
                current_rotation,
                target_pos,
                is_storage_drop,
            );
            &&& r.valid ==> r.new_rotation == current_rotation && r.new_pos == target_pos && r.in_storage
                == is_storage_drop
            &&& is_storage_drop ==> r.valid
            &&& (!is_storage_drop && bag_slots is None) ==> (r.valid <==> forall|k: int|
                0 <= k < shape.len() ==> {
                    let o = #[trigger] rotated(shape[k], current_rotation as nat);
                    &&& can_add(target_pos, o)
                    &&& grid.slot_at(plus(target_pos, o)) is Some
                    &&& (grid.slot_at(plus(target_pos, o)).unwrap().occupier is None || grid.slot_at(
                        plus(target_pos, o),
                    ).unwrap().occupier == Some(entity))
                })
        }),
{
    if !is_storage_drop && bag_slots is None {
        let offsets = rotated_shape(shape, current_rotation as nat);
        assert forall|k: int| 0 <= k < shape.len() implies offsets[k] == rotated(shape[k], current_rotation as nat) by {}
        if grid.item_fits(target_pos, offsets, Some(entity)) {
            assert forall|k: int| 0 <= k < shape.len() implies {
                let o = #[trigger] rotated(shape[k], current_rotation as nat);
                &&& can_add(target_pos, o)
                &&& grid.slot_at(plus(target_pos, o)) is Some
                &&& (grid.slot_at(plus(target_pos, o)).unwrap().occupier is None || grid.slot_at(
                    plus(target_pos, o),
                ).unwrap().occupier == Some(entity))
            } by {
                assert(grid.item_cell_ok(target_pos, offsets[k], Some(entity)));
            }
        } else {
            let k = choose|k: int| 0 <= k < offsets.len() && !#[trigger] grid.item_cell_ok(target_pos, offsets[k], Some(entity));
            assert(offsets[k] == rotated(shape[k], current_rotation as nat));
        }
    }
}

/// A refused drop puts the dragged item back where the drag started: its anchor, rotation
/// and storage flag are those recorded by `DragState::begin`, and nothing attached moves.
pub proof fn lemma_refused_drop_restores(
    grid: &InventoryGridState,
    drag: &DragState,
    entity: u64,
    shape: Seq<GridVec>,
    bag_slots: Option<Vec<GridVec>>,
    start_pos: GridVec,
    start_rotation: u8,
    start_in_storage: bool,
    current_pos: GridVec,
    current_rotation: u8,
    target_pos: GridVec,
    is_storage_drop: bool,
)
    requires
        drag.original_pos == Some(start_pos),
        drag.original_rotation == Some(start_rotation),
        drag.was_in_storage == start_in_storage,
        !drop_accepted(grid, entity, shape, bag_slots, current_rotation, target_pos, is_storage_drop),
    ensures
        ({
            let r = spec_resolve_drop(
                grid,
                drag,
                entity,
                shape,
                bag_slots,
                current_pos,
                current_rotation,
                target_pos,
                is_storage_drop,
            );
            &&& !r.valid
            &&& r.new_pos == start_pos
            &&& r.new_rotation == start_rotation
            &&& r.in_storage == start_in_storage
            &&& r.delta == gv(0, 0)
        }),
{
}

/// When a bag is dropped onto the grid, its attached items move by exactly the distance the
/// bag moved: the original anchor shifted by the delta is the target.
pub proof fn lemma_bag_drop_carries_items(
    grid: &InventoryGridState,
    drag: &DragState,
    entity: u64,
    shape: Seq<GridVec>,
    bag_slots: Vec<GridVec>,
    start_pos: GridVec,
    current_pos: GridVec,
    current_rotation: u8,
    target_pos: GridVec,
)
    requires
        drag.original_pos == Some(start_pos),
        drop_accepted(grid, entity, shape, Some(bag_slots), current_rotation, target_pos, false),
        fits_i32(target_pos.x - start_pos.x, target_pos.y - start_pos.y),
    ensures
        ({
            let r = spec_resolve_drop(
                grid,
                drag,
                entity,
                shape,
                Some(bag_slots),
                current_pos,
                current_rotation,
                target_pos,
                false,
            );
            &&& r.valid
            &&& r.new_pos == target_pos
            &&& plus(start_pos, r.delta) == target_pos
        }),
{
}


/// Combat statistics of a fighter, in thousandths.
#[derive(Debug, Clone, Copy, PartialEq, Eq, Structural)]
pub struct CombatStats {
    pub attack: i64,
    pub defense: i64,
    pub speed: i64,
    pub health: i64,
}

impl Default for CombatStats {
    /// All statistics zero.
    fn default() -> (s: Self)
        ensures
            s.attack == 0,
            s.defense == 0,
            s.speed == 0,
            s.health == 0,
    {
        CombatStats { attack: 0, defense: 0, speed: 0, health: 0 }
    }
}

impl CombatStats {
    /// The statistic `stat` of these stats.
    pub open spec fn stat(self, stat: StatType) -> int {
        match stat {
            StatType::Attack => self.attack as int,
            StatType::Defense => self.defense as int,
            StatType::Speed => self.speed as int,
            StatType::Health => self.health as int,
        }
    }
}

/// The base value of `stat` of definition `d` (definitions carry no health).
pub open spec fn base_stat(d: ItemDefinition, stat: StatType) -> int {
    match stat {
        StatType::Attack => d.attack as int,
        StatType::Defense => d.defense as int,
        StatType::Speed => d.speed as int,
        StatType::Health => 0,
    }
}

/// The sum of the base values of `stat` over the first `n` saved items whose id is known.
pub open spec fn base_total(items: Seq<SavedItem>, db: &ItemDatabase, n: int, stat: StatType) -> int
    decreases n,
{
    if n <= 0 {
        0
    } else {
        base_total(items, db, n - 1, stat) + match db.lookup(items[n - 1].item_id@) {
            Some(d) => base_stat(d, stat),
            None => 0,
        }
    }
}

/// The base totals of every stat over every prefix of `items` fit in `i64`: exactly the
/// inputs on which summing item by item never overflows.
pub open spec fn base_totals_fit(items: Seq<SavedItem>, db: &ItemDatabase) -> bool {
    forall|n: int, stat: StatType|
        0 <= n <= items.len() ==> i64::MIN <= #[trigger] base_total(items, db, n, stat) <= i64::MAX
}

/// The plain sum of the base stats of every saved item whose id is known; health starts at
/// 100 (100000 thousandths). Unknown ids are skipped.
pub fn calculate_combat_stats(inv: &PersistentInventory, db: &ItemDatabase) -> (stats: CombatStats)
    requires
        base_totals_fit(inv.items@, db),
    ensures
        stats.attack == base_total(inv.items@, db, inv.items@.len() as int, StatType::Attack),
        stats.defense == base_total(inv.items@, db, inv.items@.len() as int, StatType::Defense),
        stats.speed == base_total(inv.items@, db, inv.items@.len() as int, StatType::Speed),
        stats.health == 100_000,
{
    let mut stats = CombatStats { attack: 0, defense: 0, speed: 0, health: 100_000 };
    let mut i: usize = 0;
    while i < inv.items.len()
        invariant
            i <= inv.items@.len(),
            base_totals_fit(inv.items@, db),
            stats.attack == base_total(inv.items@, db, i as int, StatType::Attack),
            stats.defense == base_total(inv.items@, db, i as int, StatType::Defense),
            stats.speed == base_total(inv.items@, db, i as int, StatType::Speed),
            stats.health == 100_000,
        decreases inv.items.len() - i,
    {
        let ghost items = inv.items@;
        assert(i64::MIN <= base_total(items, db, i + 1, StatType::Attack) <= i64::MAX);
        assert(i64::MIN <= base_total(items, db, i + 1, StatType::Defense) <= i64::MAX);
        assert(i64::MIN <= base_total(items, db, i + 1, StatType::Speed) <= i64::MAX);
        match db.get(&inv.items[i].item_id) {
            Some(def) => {
                stats.attack = stats.attack + def.attack;
                stats.defense = stats.defense + def.defense;
                stats.speed = stats.speed + def.speed;
            },
            None => {},
        }
        i = i + 1;
    }
    stats
}

} // verus!
