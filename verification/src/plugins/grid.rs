//! The fixed-size rectangular inventory: each cell of a `width` x `height` grid holds at
//! most one item, and rectangular items are dragged from one position to another.
use vstd::prelude::*;
use std::collections::HashMap;

use crate::plugins::geometry::{cell_key, cell_key_of, fits_i32, gv, lemma_cell_key_injective, GridVec};

verus! {

broadcast use vstd::std_specs::hash::group_hash_axioms;

/// The width of the grid that the inventory screen sets up.
pub const GRID_WIDTH: i32 = 10;

/// The height of the grid that the inventory screen sets up.
pub const GRID_HEIGHT: i32 = 8;

/// The anchor (top-left cell) of an item on the grid.
#[derive(Debug, Clone, Copy, PartialEq, Eq, Hash, Structural)]
pub struct GridPosition {
    pub x: i32,
    pub y: i32,
}

/// The size of a rectangular item, in cells.
#[derive(Debug, Clone, Copy, PartialEq, Eq, Structural)]
pub struct ItemSize {
    pub width: i32,
    pub height: i32,
}

/// A cell of the inventory screen.
#[derive(Debug, Clone, Copy, PartialEq, Eq, Structural)]
pub struct InventorySlot {
    pub x: i32,
    pub y: i32,
}

/// The occupancy of the grid: which item holds each cell.
pub struct InventoryGridState {
    /// Occupied cells, keyed by `cell_key` of the cell, mapped to the item's entity.
    pub cells: HashMap<i64, u64>,
    pub width: i32,
    pub height: i32,
}

/// The hash-map key of a cell.
pub open spec fn key_of(c: GridVec) -> i64 {
    cell_key(c) as i64
}

/// `true` when cell `c` belongs to the `size` rectangle anchored at `pos`.
pub open spec fn in_area(pos: GridVec, size: ItemSize, c: GridVec) -> bool {
    pos.x <= c.x < pos.x + size.width && pos.y <= c.y < pos.y + size.height
}

impl InventoryGridState {
    /// The item holding cell `c`.
    pub open spec fn occupant(&self, c: GridVec) -> Option<u64> {
        if self.cells@.contains_key(key_of(c)) {
            Some(self.cells@[key_of(c)])
        } else {
            None
        }
    }

    /// The `size` rectangle at `pos` lies inside the grid.
    pub open spec fn area_in_bounds(&self, pos: GridVec, size: ItemSize) -> bool {
        pos.x >= 0 && pos.y >= 0 && pos.x + size.width <= self.width && pos.y + size.height
            <= self.height
    }

    /// The bounds test of `is_area_free` is computed without overflow.
    pub open spec fn area_check_computable(&self, pos: GridVec, size: ItemSize) -> bool {
        (pos.x >= 0 && pos.y >= 0) ==> (pos.x + size.width <= i32::MAX && (pos.x + size.width
            <= self.width ==> pos.y + size.height <= i32::MAX))
    }

    /// Inside the grid, and no cell of the rectangle held by an item other than `exclude`.
    pub open spec fn spec_area_free(&self, pos: GridVec, size: ItemSize, exclude: Option<u64>) -> bool {
        &&& self.area_in_bounds(pos, size)
        &&& forall|c: GridVec|
            in_area(pos, size, c) ==> match #[trigger] self.occupant(c) {
                None => true,
                Some(o) => Some(o) == exclude,
            }
    }

    /// The occupant of cell `c`.
    pub fn get_cell(&self, c: GridVec) -> (r: Option<u64>)
        ensures
            r == self.occupant(c),
    {
        let k = cell_key_of(c);
        match self.cells.get(&k) {
            Some(e) => Some(*e),
            None => None,
        }
    }

    /// Marks cell `c` as held by `entity`.
    pub fn set_cell(&mut self, c: GridVec, entity: u64)
        ensures
            final(self).width == old(self).width,
            final(self).height == old(self).height,
            forall|d: GridVec| #[trigger]
                final(self).occupant(d) == if d == c {
                    Some(entity)
                } else {
                    old(self).occupant(d)
                },
    {
        let k = cell_key_of(c);
        self.cells.insert(k, entity);
        proof {
            assert forall|d: GridVec| #[trigger]
                self.occupant(d) == if d == c {
                    Some(entity)
                } else {
                    old(self).occupant(d)
                } by {
                lemma_cell_key_injective(d, c);
            }
        }
    }

    /// Frees cell `c`.
    pub fn clear_cell(&mut self, c: GridVec)
        ensures
            final(self).width == old(self).width,
            final(self).height == old(self).height,
            forall|d: GridVec| #[trigger]
                final(self).occupant(d) == if d == c {
                    None
                } else {
                    old(self).occupant(d)
                },
    {
        let k = cell_key_of(c);
        self.cells.remove(&k);
        proof {
            assert forall|d: GridVec| #[trigger]
                self.occupant(d) == if d == c {
                    None
                } else {
                    old(self).occupant(d)
                } by {
                lemma_cell_key_injective(d, c);
            }
        }
    }

    /// Whether the `size` rectangle at `pos` lies inside the grid with every cell free or held
    /// by `exclude`.
    pub fn is_area_free(&self, pos: GridVec, size: ItemSize, exclude: Option<u64>) -> (r: bool)
        requires
            self.area_check_computable(pos, size),
        ensures
            r == self.spec_area_free(pos, size, exclude),
    {
        if !(pos.x >= 0 && pos.y >= 0 && pos.x + size.width <= self.width && pos.y + size.height
            <= self.height) {
            return false;
        }
        let mut i: i32 = 0;
        while i < size.width
            invariant
                0 <= i,
                i <= size.width || i == 0,
                self.area_in_bounds(pos, size),
                forall|c: GridVec|
                    pos.x <= c.x < pos.x + i && pos.y <= c.y < pos.y + size.height ==> match #[trigger] self.occupant(
                        c,
                    ) {
                        None => true,
                        Some(o) => Some(o) == exclude,
                    },
            decreases size.width - i,
        {
            let mut j: i32 = 0;
            while j < size.height
                invariant
                    0 <= i < size.width,
                    0 <= j,
                    j <= size.height || j == 0,
                    self.area_in_bounds(pos, size),
                    forall|c: GridVec|
                        ((pos.x <= c.x < pos.x + i && pos.y <= c.y < pos.y + size.height) || (c.x
                            == pos.x + i && pos.y <= c.y < pos.y + j)) ==> match #[trigger] self.occupant(
                            c,
                        ) {
                            None => true,
                            Some(o) => Some(o) == exclude,
                        },
                decreases size.height - j,
            {
                let c = GridVec { x: pos.x + i, y: pos.y + j };
                match self.get_cell(c) {
                    Some(occupier) => {
                        let same = match exclude {
                            Some(e) => e == occupier,
                            None => false,
                        };
                        if !same {
                            assert(in_area(pos, size, c));
                            return false;
                        }
                    },
                    None => {},
                }
                j = j + 1;
            }
            i = i + 1;
        }
        true
    }

    /// A position that `find_free_spot` scans: a cell of the grid.
    pub open spec fn scanned(&self, q: GridVec) -> bool {
        0 <= q.x < self.width && 0 <= q.y < self.height
    }

    /// The first cell of the grid, scanning rows top to bottom and each row left to right,
    /// where a free `size` rectangle fits; `None` when there is none.
    pub fn find_free_spot(&self, size: ItemSize) -> (r: Option<GridVec>)
        requires
            self.width + size.width <= i32::MAX,
            self.height + size.height <= i32::MAX,
        ensures
            match r {
                Some(p) => {
                    &&& self.scanned(p)
                    &&& self.spec_area_free(p, size, None)
                    &&& forall|q: GridVec|
                        self.scanned(q) && (q.y < p.y || (q.y == p.y && q.x < p.x))
                            ==> !#[trigger] self.spec_area_free(q, size, None)
                },
                None => forall|q: GridVec|
                    self.scanned(q) ==> !#[trigger] self.spec_area_free(q, size, None),
            },
    {
        let mut y: i32 = 0;
        while y < self.height
            invariant
                0 <= y,
                y <= self.height || y == 0,
                self.width + size.width <= i32::MAX,
                self.height + size.height <= i32::MAX,
                forall|q: GridVec|
                    self.scanned(q) && q.y < y ==> !#[trigger] self.spec_area_free(q, size, None),
            decreases self.height - y,
        {
            let mut x: i32 = 0;
            while x < self.width
                invariant
                    0 <= y < self.height,
                    0 <= x,
                    x <= self.width || x == 0,
                    self.width + size.width <= i32::MAX,
                    self.height + size.height <= i32::MAX,
                    forall|q: GridVec|
                        self.scanned(q) && (q.y < y || (q.y == y && q.x < x))
                            ==> !#[trigger] self.spec_area_free(q, size, None),
                decreases self.width - x,
            {
                let pos = GridVec { x, y };
                if self.is_area_free(pos, size, None) {
                    return Some(pos);
                }
                x = x + 1;
                assert forall|q: GridVec|
                    self.scanned(q) && (q.y < y || (q.y == y && q.x < x)) implies !#[trigger] self.spec_area_free(
                    q,
                    size,
                    None,
                ) by {
                    if q.y == y && q.x == x - 1 {
                        assert(q == pos);
                    }
                }
            }
            y = y + 1;
            assert forall|q: GridVec| self.scanned(q) && q.y < y implies !#[trigger] self.spec_area_free(
                q,
                size,
                None,
            ) by {}
        }
        None
    }

    /// The cells of the `size` rectangle at `pos` can be computed without overflow.
    pub open spec fn area_addable(pos: GridVec, size: ItemSize) -> bool {
        (size.width > 0 ==> pos.x + size.width - 1 <= i32::MAX) && (size.height > 0 ==> pos.y
            + size.height - 1 <= i32::MAX)
    }

    /// Marks every cell of the `size` rectangle at `pos` as held by `entity`.
    pub fn place_item(&mut self, entity: u64, pos: GridVec, size: ItemSize)
        requires
            Self::area_addable(pos, size),
        ensures
            final(self).width == old(self).width,
            final(self).height == old(self).height,
            forall|c: GridVec| #[trigger]
                final(self).occupant(c) == if in_area(pos, size, c) {
                    Some(entity)
                } else {
                    old(self).occupant(c)
                },
    {
        let mut i: i32 = 0;
        while i < size.width
            invariant
                0 <= i,
                i <= size.width || i == 0,
                Self::area_addable(pos, size),
                self.width == old(self).width,
                self.height == old(self).height,
                forall|c: GridVec| #[trigger]
                    self.occupant(c) == if pos.x <= c.x < pos.x + i && pos.y <= c.y < pos.y
                        + size.height {
                        Some(entity)
                    } else {
                        old(self).occupant(c)
                    },
            decreases size.width - i,
        {
            let mut j: i32 = 0;
            while j < size.height
                invariant
                    0 <= i < size.width,
                    0 <= j,
                    j <= size.height || j == 0,
                    Self::area_addable(pos, size),
                    self.width == old(self).width,
                    self.height == old(self).height,
                    forall|c: GridVec| #[trigger]
                        self.occupant(c) == if (pos.x <= c.x < pos.x + i && pos.y <= c.y < pos.y
                            + size.height) || (c.x == pos.x + i && pos.y <= c.y < pos.y + j) {
                            Some(entity)
                        } else {
                            old(self).occupant(c)
                        },
                decreases size.height - j,
            {
                self.set_cell(GridVec { x: pos.x + i, y: pos.y + j }, entity);
                j = j + 1;
            }
            i = i + 1;
        }
    }

    /// Frees the cells of the `size` rectangle at `pos` that `entity` holds.
    pub fn remove_item(&mut self, entity: u64, pos: GridVec, size: ItemSize)
        requires
            Self::area_addable(pos, size),
        ensures
            final(self).width == old(self).width,
            final(self).height == old(self).height,
            forall|c: GridVec| #[trigger]
                final(self).occupant(c) == if in_area(pos, size, c) && old(self).occupant(c) == Some(
                    entity,
                ) {
                    None
                } else {
                    old(self).occupant(c)
                },
    {
        let mut i: i32 = 0;
        while i < size.width
            invariant
                0 <= i,
                i <= size.width || i == 0,
                Self::area_addable(pos, size),
                self.width == old(self).width,
                self.height == old(self).height,
                forall|c: GridVec| #[trigger]
                    self.occupant(c) == if pos.x <= c.x < pos.x + i && pos.y <= c.y < pos.y
                        + size.height && old(self).occupant(c) == Some(entity) {
                        None
                    } else {
                        old(self).occupant(c)
                    },
            decreases size.width - i,
        {
            let mut j: i32 = 0;
            while j < size.height
                invariant
                    0 <= i < size.width,
                    0 <= j,
                    j <= size.height || j == 0,
                    Self::area_addable(pos, size),
                    self.width == old(self).width,
                    self.height == old(self).height,
                    forall|c: GridVec| #[trigger]
                        self.occupant(c) == if ((pos.x <= c.x < pos.x + i && pos.y <= c.y < pos.y
                            + size.height) || (c.x == pos.x + i && pos.y <= c.y < pos.y + j))
                            && old(self).occupant(c) == Some(entity) {
                            None
                        } else {
                            old(self).occupant(c)
                        },
                decreases size.height - j,
            {
                let c = GridVec { x: pos.x + i, y: pos.y + j };
                match self.get_cell(c) {
                    Some(owner) => {
                        if owner == entity {
                            self.clear_cell(c);
                        }
                    },
                    None => {},
                }
                j = j + 1;
            }
            i = i + 1;
        }
    }

    /// Drops the item `entity` of `size`, dragged from `original`, at `new_pos`: when the new
    /// area is inside the grid and free (cells of `entity` itself count as free), the item's
    /// old cells are freed and the new ones taken, and `true` is returned; otherwise nothing
    /// changes and `false` is returned.
    pub fn move_item(&mut self, entity: u64, original: GridVec, new_pos: GridVec, size: ItemSize) -> (r: bool)
        requires
            old(self).area_check_computable(new_pos, size),
            Self::area_addable(original, size),
        ensures
            r == old(self).spec_area_free(new_pos, size, Some(entity)),
            final(self).width == old(self).width,
            final(self).height == old(self).height,
            r ==> forall|c: GridVec| #[trigger]
                final(self).occupant(c) == if in_area(new_pos, size, c) {
                    Some(entity)
                } else if in_area(original, size, c) && old(self).occupant(c) == Some(entity) {
                    None
                } else {
                    old(self).occupant(c)
                },
            !r ==> forall|c: GridVec| #[trigger] final(self).occupant(c) == old(self).occupant(c),
    {
        if !self.is_area_free(new_pos, size, Some(entity)) {
            return false;
        }
        self.remove_item(entity, original, size);
        assert(Self::area_addable(new_pos, size));
        self.place_item(entity, new_pos, size);
        true
    }

    /// Sets the grid to the default `GRID_WIDTH` x `GRID_HEIGHT` and registers the starting
    /// 2x2 item `item_entity` at the top-left corner.
    pub fn setup_default(&mut self, item_entity: u64)
        ensures
            final(self).width == GRID_WIDTH,
            final(self).height == GRID_HEIGHT,
            forall|c: GridVec| #[trigger]
                final(self).occupant(c) == if in_area(gv(0, 0), ItemSize { width: 2, height: 2 }, c) {
                    Some(item_entity)
                } else {
                    old(self).occupant(c)
                },
    {
        self.width = GRID_WIDTH;
        self.height = GRID_HEIGHT;
        self.place_item(item_entity, GridVec { x: 0, y: 0 }, ItemSize { width: 2, height: 2 });
    }

    /// Gives an unsized grid (width 0) the demo size of 10 x 10; a sized grid is kept.
    pub fn ensure_demo_size(&mut self)
        ensures
            old(self).width == 0 ==> final(self).width == 10 && final(self).height == 10,
            old(self).width != 0 ==> final(self).width == old(self).width && final(self).height
                == old(self).height,
            forall|c: GridVec| #[trigger] final(self).occupant(c) == old(self).occupant(c),
    {
        if self.width == 0 {
            self.width = 10;
            self.height = 10;
        }
    }
}

impl Default for InventoryGridState {
    fn default() -> (s: Self)
        ensures
            s.width == 0,
            s.height == 0,
            forall|c: GridVec| #[trigger] s.occupant(c) is None,
    {
        InventoryGridState { cells: HashMap::new(), width: 0, height: 0 }
    }
}

/// After an accepted move the item can be dropped on the same spot again: its new area is
/// inside the grid and free for it, and it holds every cell of that area.
pub proof fn lemma_moved_item_fits_again(
    before: &InventoryGridState,
    after: &InventoryGridState,
    entity: u64,
    original: GridVec,
    new_pos: GridVec,
    size: ItemSize,
)
    requires
        before.spec_area_free(new_pos, size, Some(entity)),
        after.width == before.width,
        after.height == before.height,
        forall|c: GridVec| #[trigger]
            after.occupant(c) == if in_area(new_pos, size, c) {
                Some(entity)
            } else if in_area(original, size, c) && before.occupant(c) == Some(entity) {
                None
            } else {
                before.occupant(c)
            },
    ensures
        after.spec_area_free(new_pos, size, Some(entity)),
        forall|c: GridVec| in_area(new_pos, size, c) ==> #[trigger] after.occupant(c) == Some(entity),
        forall|c: GridVec|
            !in_area(new_pos, size, c) && #[trigger] after.occupant(c) == Some(entity) ==> before.occupant(c)
                == Some(entity) && !in_area(original, size, c),
{
}

} // verus!
