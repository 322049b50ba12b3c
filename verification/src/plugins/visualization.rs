//! What the evening overlay draws: lines between items whose synergies are active, and the
//! adjacency test used for recipe hints.
use vstd::prelude::*;

use crate::plugins::geometry::{
    abs_int, can_add, can_place_at, can_rotate, cell_key_of, placed_cells, placed_cells_of, plus,
    rotate_vector, rotated, GridVec,
};
use crate::plugins::inventory::{GridPosition, InventoryGridState, ItemRotation};
use crate::plugins::inventory_utils::{any_tag_matches, tags_match};
use crate::plugins::items::{ItemDefinition, SynergyDefinition};

verus! {

/// Two cells share an edge.
pub open spec fn cells_adjacent(a: GridVec, b: GridVec) -> bool {
    abs_int(a.x - b.x) + abs_int(a.y - b.y) == 1
}

/// Some cell of `ca` shares an edge with some cell of `cb`.
pub open spec fn shapes_adjacent(ca: Seq<GridVec>, cb: Seq<GridVec>) -> bool {
    exists|i: int, j: int| 0 <= i < ca.len() && 0 <= j < cb.len() && #[trigger] cells_adjacent(ca[i], cb[j])
}

/// Whether item A (definition `def_a` at `pos_a`, turned by `rot_a`) touches item B along an
/// edge: some cell of A is at distance exactly 1 (horizontally or vertically) from some cell
/// of B.
pub fn are_adjacent(
    pos_a: &GridPosition,
    rot_a: &ItemRotation,
    def_a: &ItemDefinition,
    pos_b: &GridPosition,
    rot_b: &ItemRotation,
    def_b: &ItemDefinition,
) -> (r: bool)
    requires
        can_place_at(pos_a.0, def_a.shape@, rot_a.0 as nat),
        can_place_at(pos_b.0, def_b.shape@, rot_b.0 as nat),
    ensures
        r == shapes_adjacent(
            placed_cells(pos_a.0, def_a.shape@, rot_a.0 as nat),
            placed_cells(pos_b.0, def_b.shape@, rot_b.0 as nat),
        ),
{
    let cells_a = placed_cells_of(pos_a.0, &def_a.shape, rot_a.0);
    let cells_b = placed_cells_of(pos_b.0, &def_b.shape, rot_b.0);
    let mut i: usize = 0;
    while i < cells_a.len()
        invariant
            i <= cells_a@.len(),
            cells_a@ == placed_cells(pos_a.0, def_a.shape@, rot_a.0 as nat),
            cells_b@ == placed_cells(pos_b.0, def_b.shape@, rot_b.0 as nat),
            forall|x: int, y: int| 0 <= x < i && 0 <= y < cells_b@.len() ==> !#[trigger] cells_adjacent(cells_a@[x], cells_b@[y]),
        decreases cells_a.len() - i,
    {
        let mut j: usize = 0;
        while j < cells_b.len()
            invariant
                i < cells_a@.len(),
                j <= cells_b@.len(),
                cells_a@ == placed_cells(pos_a.0, def_a.shape@, rot_a.0 as nat),
                cells_b@ == placed_cells(pos_b.0, def_b.shape@, rot_b.0 as nat),
                forall|x: int, y: int| 0 <= x < i && 0 <= y < cells_b@.len() ==> !#[trigger] cells_adjacent(cells_a@[x], cells_b@[y]),
                forall|y: int| 0 <= y < j ==> !#[trigger] cells_adjacent(cells_a@[i as int], cells_b@[y]),
            decreases cells_b.len() - j,
        {
            let ca = cells_a[i];
            let cb = cells_b[j];
            let ddx: i64 = ca.x as i64 - cb.x as i64;
            let ddy: i64 = ca.y as i64 - cb.y as i64;
            let dx: i64 = if ddx < 0 { -ddx } else { ddx };
            let dy: i64 = if ddy < 0 { -ddy } else { ddy };
            if dx + dy == 1 {
                assert(cells_adjacent(cells_a@[i as int], cells_b@[j as int]));
                return true;
            }
            j = j + 1;
        }
        i = i + 1;
    }
    false
}

/// An item on the grid as the overlay sees it.
#[derive(Debug)]
pub struct ItemOnGrid {
    pub entity: u64,
    pub pos: GridPosition,
    pub rot: ItemRotation,
    pub def: ItemDefinition,
}

/// The index of the first item of entity `e`.
pub open spec fn index_of_entity(items: Seq<ItemOnGrid>, e: u64) -> Option<int>
    decreases items.len(),
{
    if items.len() == 0 {
        None
    } else {
        match index_of_entity(items.drop_last(), e) {
            Some(i) => Some(i),
            None => if items.last().entity == e {
                Some(items.len() - 1)
            } else {
                None
            },
        }
    }
}

/// The entity that synergy `s` of item `it` links to: the occupier of the slot at the
/// synergy's (turned) offset, when that occupier is a listed item carrying a wanted tag.
pub open spec fn synergy_link(grid: &InventoryGridState, items: Seq<ItemOnGrid>, it: ItemOnGrid, s: SynergyDefinition) -> Option<u64> {
    match grid.slot_at(plus(it.pos.0, rotated(s.offset, it.rot.0 as nat))) {
        Some(slot) => match slot.occupier {
            Some(te) => match index_of_entity(items, te) {
                Some(t) => if tags_match(s.target_tags@, items[t].def.tags@) {
                    Some(te)
                } else {
                    None
                },
                None => None,
            },
            None => None,
        },
        None => None,
    }
}

/// The links of item `it` through the synergies `syns`, in order.
pub open spec fn links_of(grid: &InventoryGridState, items: Seq<ItemOnGrid>, it: ItemOnGrid, syns: Seq<SynergyDefinition>) -> Seq<(u64, u64)>
    decreases syns.len(),
{
    if syns.len() == 0 {
        Seq::empty()
    } else {
        let prev = links_of(grid, items, it, syns.drop_last());
        match synergy_link(grid, items, it, syns.last()) {
            Some(te) => prev.push((it.entity, te)),
            None => prev,
        }
    }
}

/// The links of the first `n` items, in order.
pub open spec fn all_links(grid: &InventoryGridState, items: Seq<ItemOnGrid>, n: int) -> Seq<(u64, u64)>
    decreases n,
{
    if n <= 0 {
        Seq::empty()
    } else {
        all_links(grid, items, n - 1) + links_of(grid, items, items[n - 1], items[n - 1].def.synergies@)
    }
}

/// Every synergy target of every item can be computed without overflow.
pub open spec fn targets_computable(items: Seq<ItemOnGrid>) -> bool {
    forall|i: int, k: int| 0 <= i < items.len() && 0 <= k < items[i].def.synergies@.len() ==> {
        &&& can_rotate((#[trigger] items[i].def.synergies@[k]).offset, items[i].rot.0 as nat)
        &&& can_add(items[i].pos.0, rotated(items[i].def.synergies@[k].offset, items[i].rot.0 as nat))
    }
}

/// The index of the first item of entity `e`.
fn find_entity(items: &Vec<ItemOnGrid>, e: u64) -> (r: Option<usize>)
    ensures
        match r {
            Some(t) => t < items@.len() && index_of_entity(items@, e) == Some(t as int),
            None => index_of_entity(items@, e) is None,
        },
{
    proof {
        lemma_index_of_entity_bound(items@, e);
    }
    let mut i: usize = 0;
    while i < items.len()
        invariant
            i <= items@.len(),
            index_of_entity(items@.take(i as int), e) is None,
        decreases items.len() - i,
    {
        let ghost ti = items@.take(i + 1);
        assert(ti.drop_last() =~= items@.take(i as int));
        if items[i].entity == e {
            assert(index_of_entity(ti, e) == Some(i as int));
            proof {
                lemma_index_of_entity_prefix(items@, e, i + 1);
            }
            return Some(i);
        }
        i = i + 1;
    }
    assert(items@.take(i as int) =~= items@);
    None
}

/// Once found in a prefix, an entity is found at the same index in the whole list.
proof fn lemma_index_of_entity_prefix(items: Seq<ItemOnGrid>, e: u64, n: int)
    requires
        0 <= n <= items.len(),
        index_of_entity(items.take(n), e) is Some,
    ensures
        index_of_entity(items, e) == index_of_entity(items.take(n), e),
        0 <= index_of_entity(items, e).unwrap() < n,
    decreases items.len() - n,
{
    lemma_index_of_entity_bound(items.take(n), e);
    if n < items.len() {
        assert(items.take(n + 1).drop_last() =~= items.take(n));
        lemma_index_of_entity_prefix(items, e, n + 1);
    } else {
        assert(items.take(n) =~= items);
    }
}

/// A found index lies within the list.
proof fn lemma_index_of_entity_bound(items: Seq<ItemOnGrid>, e: u64)
    ensures
        index_of_entity(items, e) is Some ==> 0 <= index_of_entity(items, e).unwrap() < items.len()
            && items[index_of_entity(items, e).unwrap()].entity == e,
    decreases items.len(),
{
    if items.len() > 0 {
        lemma_index_of_entity_bound(items.drop_last(), e);
        if index_of_entity(items.drop_last(), e) is Some {
            assert(items.drop_last()[index_of_entity(items.drop_last(), e).unwrap()] == items[index_of_entity(items.drop_last(), e).unwrap()]);
        }
    }
}

/// The synergy lines to draw: for each item in order, for each of its synergies in order,
/// a pair (item, target) when the slot at the synergy's turned offset is occupied by a listed
/// item that carries one of the wanted tags.
pub fn synergy_links(grid_state: &InventoryGridState, items: &Vec<ItemOnGrid>) -> (links: Vec<(u64, u64)>)
    requires
        targets_computable(items@),
    ensures
        links@ == all_links(grid_state, items@, items@.len() as int),
{
    let mut links: Vec<(u64, u64)> = Vec::new();
    let mut i: usize = 0;
    while i < items.len()
        invariant
            i <= items@.len(),
            targets_computable(items@),
            links@ == all_links(grid_state, items@, i as int),
        decreases items.len() - i,
    {
        let item = &items[i];
        let ghost base = links@;
        let ghost syns = item.def.synergies@;
        assert(syns.take(0) =~= Seq::<SynergyDefinition>::empty());
        let mut k: usize = 0;
        while k < item.def.synergies.len()
            invariant
                i < items@.len(),
                k <= syns.len(),
                *item == items@[i as int],
                syns == item.def.synergies@,
                targets_computable(items@),
                links@ == base + links_of(grid_state, items@, *item, syns.take(k as int)),
            decreases syns.len() - k,
        {
            let syn = &item.def.synergies[k];
            assert(can_rotate(items@[i as int].def.synergies@[k as int].offset, items@[i as int].rot.0 as nat));
            let off = rotate_vector(syn.offset, item.rot.0);
            let target = item.pos.0.offset_by(off);
            let ghost link = synergy_link(grid_state, items@, *item, *syn);
            assert(*syn == syns[k as int]);
            assert(target == plus(item.pos.0, rotated(syn.offset, item.rot.0 as nat)));
            let ghost before = links@;
            let slot = grid_state.get_slot(target);
            let found: Option<u64> = match slot {
                Some(sl) => match sl.occupier {
                    Some(te) => match find_entity(items, te) {
                        Some(t) => {
                            let hit = any_tag_matches(&syn.target_tags, &items[t].def.tags);
                            assert(hit == tags_match(syn.target_tags@, items@[t as int].def.tags@));
                            if hit {
                                Some(te)
                            } else {
                                None
                            }
                        },
                        None => None,
                    },
                    None => None,
                },
                None => None,
            };
            assert(found == link);
            match found {
                Some(te) => links.push((item.entity, te)),
                None => {},
            }
            k = k + 1;
            proof {
                let tk = syns.take(k as int);
                assert(tk.drop_last() =~= syns.take(k - 1));
                assert(tk.last() == *syn);
                assert(links@ =~= base + links_of(grid_state, items@, *item, tk));
            }
        }
        assert(syns.take(syns.len() as int) =~= syns);
        i = i + 1;
    }
    links
}

/// Adjacency of shapes does not depend on the order in which the two items are given.
pub proof fn lemma_adjacency_symmetric(ca: Seq<GridVec>, cb: Seq<GridVec>)
    ensures
        shapes_adjacent(ca, cb) == shapes_adjacent(cb, ca),
{
    if shapes_adjacent(ca, cb) {
        let (i, j) = choose|i: int, j: int| 0 <= i < ca.len() && 0 <= j < cb.len() && #[trigger] cells_adjacent(ca[i], cb[j]);
        assert(cells_adjacent(cb[j], ca[i]));
    }
    if shapes_adjacent(cb, ca) {
        let (i, j) = choose|i: int, j: int| 0 <= i < cb.len() && 0 <= j < ca.len() && #[trigger] cells_adjacent(cb[i], ca[j]);
        assert(cells_adjacent(ca[j], cb[i]));
    }
}

} // verus!
