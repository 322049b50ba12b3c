//! The hash tables the library keeps its data in: bevy's `HashMap` (hashbrown with a fixed
//! hasher). Bevy's map cannot be declared to Verus (its allocator bound is private to
//! hashbrown), so each table is a struct holding the map, its contents are named by a spec
//! function, and the methods below are the only calls into the map; their contracts say what
//! bevy's map does to the contents.
use vstd::prelude::*;
use bevy::utils::HashMap;

use crate::plugins::inventory::SlotData;
use crate::plugins::items::ItemDefinition;

verus! {

/// Slots keyed by the cell key of their cell.
#[verifier::external_body]
pub struct SlotTable {
    map: HashMap<i64, SlotData>,
}

/// What a slot table holds, key by key.
pub uninterp spec fn slot_table_contents(t: &SlotTable) -> Map<i64, SlotData>;

impl View for SlotTable {
    type V = Map<i64, SlotData>;

    open spec fn view(&self) -> Map<i64, SlotData> {
        slot_table_contents(self)
    }
}

impl SlotTable {
    /// `HashMap::default`: a table holding nothing.
    #[verifier::external_body]
    pub(crate) fn new() -> (t: Self)
        ensures
            slot_table_contents(&t) =~= Map::empty(),
    {
        SlotTable { map: HashMap::default() }
    }

    /// `HashMap::insert`: `k` now maps to `v`; the other keys keep their values.
    #[verifier::external_body]
    pub(crate) fn insert(&mut self, k: i64, v: SlotData)
        ensures
            slot_table_contents(final(self)) == slot_table_contents(old(self)).insert(k, v),
    {
        self.map.insert(k, v);
    }

    /// `HashMap::get`: the value of `k`, if `k` is in the table.
    #[verifier::external_body]
    pub(crate) fn get(&self, k: &i64) -> (r: Option<&SlotData>)
        ensures
            match r {
                Some(v) => slot_table_contents(self).contains_key(*k) && *v == slot_table_contents(self)[*k],
                None => !slot_table_contents(self).contains_key(*k),
            },
    {
        self.map.get(k)
    }

    /// `HashMap::clear`: the table holds nothing.
    #[verifier::external_body]
    pub(crate) fn clear(&mut self)
        ensures
            slot_table_contents(final(self)) =~= Map::empty(),
    {
        self.map.clear();
    }

    /// `HashMap::len`: the number of keys.
    #[verifier::external_body]
    pub(crate) fn len(&self) -> (n: usize)
        ensures
            n == slot_table_contents(self).dom().len(),
    {
        self.map.len()
    }

    /// `HashMap::values`, collected: each value of the table (in the table's own order, which
    /// is left unsaid).
    #[verifier::external_body]
    pub(crate) fn values(&self) -> (r: Vec<SlotData>)
        ensures
            forall|v: SlotData| r@.contains(v) == slot_table_contents(self).values().contains(v),
    {
        self.map.values().copied().collect()
    }
}

/// Item indices keyed by the cell key of a cell.
#[verifier::external_body]
pub struct IndexTable {
    map: HashMap<i64, usize>,
}

/// What an index table holds, key by key.
pub uninterp spec fn index_table_contents(t: &IndexTable) -> Map<i64, usize>;

impl View for IndexTable {
    type V = Map<i64, usize>;

    open spec fn view(&self) -> Map<i64, usize> {
        index_table_contents(self)
    }
}

impl IndexTable {
    /// `HashMap::default`: a table holding nothing.
    #[verifier::external_body]
    pub(crate) fn new() -> (t: Self)
        ensures
            index_table_contents(&t) =~= Map::empty(),
    {
        IndexTable { map: HashMap::default() }
    }

    /// `HashMap::insert`: `k` now maps to `v`; the other keys keep their values.
    #[verifier::external_body]
    pub(crate) fn insert(&mut self, k: i64, v: usize)
        ensures
            index_table_contents(final(self)) == index_table_contents(old(self)).insert(k, v),
    {
        self.map.insert(k, v);
    }

    /// `HashMap::get`: the value of `k`, if `k` is in the table.
    #[verifier::external_body]
    pub(crate) fn get(&self, k: &i64) -> (r: Option<&usize>)
        ensures
            match r {
                Some(v) => index_table_contents(self).contains_key(*k) && *v == index_table_contents(self)[*k],
                None => !index_table_contents(self).contains_key(*k),
            },
    {
        self.map.get(k)
    }
}

/// Item definitions keyed by their id.
#[verifier::external_body]
pub struct DefTable {
    map: HashMap<String, ItemDefinition>,
}

/// What a definition table holds, by the text of each id.
pub uninterp spec fn def_table_contents(t: &DefTable) -> Map<Seq<char>, ItemDefinition>;

impl View for DefTable {
    type V = Map<Seq<char>, ItemDefinition>;

    open spec fn view(&self) -> Map<Seq<char>, ItemDefinition> {
        def_table_contents(self)
    }
}

impl DefTable {
    /// `HashMap::default`: a table holding nothing.
    #[verifier::external_body]
    pub(crate) fn new() -> (t: Self)
        ensures
            def_table_contents(&t) =~= Map::empty(),
    {
        DefTable { map: HashMap::default() }
    }

    /// `HashMap::insert`: id `k` now maps to `v`; the other ids keep their values (string keys
    /// are equal exactly when their texts are).
    #[verifier::external_body]
    pub(crate) fn insert(&mut self, k: String, v: ItemDefinition)
        ensures
            def_table_contents(final(self)) == def_table_contents(old(self)).insert(k@, v),
    {
        self.map.insert(k, v);
    }

    /// `HashMap::get`: the definition of id `k`, if present.
    #[verifier::external_body]
    pub(crate) fn get(&self, k: &String) -> (r: Option<&ItemDefinition>)
        ensures
            match r {
                Some(v) => def_table_contents(self).contains_key(k@) && *v == def_table_contents(self)[k@],
                None => !def_table_contents(self).contains_key(k@),
            },
    {
        self.map.get(k)
    }

    /// `HashMap::len`: the number of ids.
    #[verifier::external_body]
    pub(crate) fn len(&self) -> (n: usize)
        ensures
            n == def_table_contents(self).dom().len(),
    {
        self.map.len()
    }

    /// `HashMap::keys`, cloned: every id once (in the table's own order, which is left unsaid).
    #[verifier::external_body]
    pub(crate) fn keys(&self) -> (r: Vec<String>)
        ensures
            forall|id: Seq<char>| (exists|j: int| 0 <= j < r@.len() && #[trigger] r@[j]@ == id) == def_table_contents(self).contains_key(id),
            forall|i: int, j: int| 0 <= i < j < r@.len() ==> r@[i]@ != r@[j]@,
    {
        self.map.keys().cloned().collect()
    }
}

} // verus!
