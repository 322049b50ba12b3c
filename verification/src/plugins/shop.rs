//! The evening shop: five offers rolled by rarity, rerolls, locks and purchases.
//!
//! Random draws come from `rand`'s thread-local generator (see `random`); the rules that turn the draws
//! into offers are stated for every possible draw.
use vstd::prelude::*;
use rand::rngs::ThreadRng;

use crate::plugins::geometry::GridVec;
use crate::plugins::inventory::InventoryGridState;
use crate::plugins::items::{ItemDatabase, ItemDefinition, ItemRarity};
use crate::plugins::metagame::{PendingItems, PlayerStats};
use crate::plugins::random::{new_thread_rng, random_below, random_ratio};

verus! {

/// The number of offers the shop shows.
pub const SHOP_SIZE: usize = 5;

/// An offer of the shop.
#[derive(Debug)]
pub struct ShopItem {
    pub item_id: String,
    pub price: u32,
    pub is_locked: bool,
    pub is_discounted: bool,
    pub is_sold: bool,
}

impl Clone for ShopItem {
    fn clone(&self) -> (r: Self)
        ensures
            r == *self,
    {
        ShopItem {
            item_id: self.item_id.clone(),
            price: self.price,
            is_locked: self.is_locked,
            is_discounted: self.is_discounted,
            is_sold: self.is_sold,
        }
    }
}

/// Where a bought item goes.
#[derive(Debug, Clone, Copy, PartialEq, Eq, Structural)]
pub enum Purchase {
    /// Onto the grid, at this anchor.
    Placed(GridVec),
    /// Among the pending items, the grid having no room for it.
    Pending,
}

/// The offers, and the price and number of rerolls this evening.
#[derive(Debug)]
pub struct ShopState {
    pub items: Vec<ShopItem>,
    pub reroll_cost: u32,
    pub reroll_count: u32,
}

impl Default for ShopState {
    fn default() -> (s: Self)
        ensures
            s.items@.len() == 0,
            s.reroll_cost == 0,
            s.reroll_count == 0,
    {
        ShopState { items: Vec::new(), reroll_cost: 0, reroll_count: 0 }
    }
}

/// Half of `price`, rounded up (the discounted price).
pub open spec fn half_up(price: u32) -> u32 {
    ((price as int + 1) / 2) as u32
}

/// The chances, in percent, of (common, rare, epic, legendary, godly) in `round`.
pub open spec fn rarity_weights(round: u32) -> (int, int, int, int, int) {
    if round <= 3 {
        (80, 20, 0, 0, 0)
    } else if round <= 7 {
        (60, 30, 10, 0, 0)
    } else if round <= 10 {
        (40, 30, 25, 5, 0)
    } else {
        (20, 30, 30, 15, 5)
    }
}

/// The rarity that a roll in `0..100` gives in `round`.
pub open spec fn spec_rarity_for_roll(round: u32, roll: int) -> ItemRarity {
    let (c, r, e, l, _g) = rarity_weights(round);
    if roll < c {
        ItemRarity::Common
    } else if roll < c + r {
        ItemRarity::Rare
    } else if roll < c + r + e {
        ItemRarity::Epic
    } else if roll < c + r + e + l {
        ItemRarity::Legendary
    } else {
        ItemRarity::Godly
    }
}

/// The rarity table, threshold by threshold, for every round and every roll in `0..100`:
/// up to round 3 rolls below 80 are common and the rest rare; in rounds 4 to 7, below 60
/// common, below 90 rare, the rest epic; in rounds 8 to 10, below 40 common, below 70 rare,
/// below 95 epic, the rest legendary; after round 10, below 20 common, below 50 rare, below
/// 80 epic, below 95 legendary, the rest godly.
pub proof fn lemma_rarity_thresholds(round: u32, roll: int)
    requires
        0 <= roll < 100,
    ensures
        round <= 3 ==> spec_rarity_for_roll(round, roll) == (if roll < 80 {
            ItemRarity::Common
        } else {
            ItemRarity::Rare
        }),
        4 <= round <= 7 ==> spec_rarity_for_roll(round, roll) == (if roll < 60 {
            ItemRarity::Common
        } else if roll < 90 {
            ItemRarity::Rare
        } else {
            ItemRarity::Epic
        }),
        8 <= round <= 10 ==> spec_rarity_for_roll(round, roll) == (if roll < 40 {
            ItemRarity::Common
        } else if roll < 70 {
            ItemRarity::Rare
        } else if roll < 95 {
            ItemRarity::Epic
        } else {
            ItemRarity::Legendary
        }),
        round > 10 ==> spec_rarity_for_roll(round, roll) == (if roll < 20 {
            ItemRarity::Common
        } else if roll < 50 {
            ItemRarity::Rare
        } else if roll < 80 {
            ItemRarity::Epic
        } else if roll < 95 {
            ItemRarity::Legendary
        } else {
            ItemRarity::Godly
        }),
{
}

/// The rarity for `roll` (in `0..100`) in `round`: the weights grow towards rarer items
/// with the rounds (up to 3, 7, 10, and beyond).
pub fn rarity_for_roll(round: u32, roll: usize) -> (r: ItemRarity)
    requires
        roll < 100,
    ensures
        r == spec_rarity_for_roll(round, roll as int),
{
    let (common, rare, epic, legendary): (usize, usize, usize, usize) = if round <= 3 {
        (80, 20, 0, 0)
    } else if round <= 7 {
        (60, 30, 10, 0)
    } else if round <= 10 {
        (40, 30, 25, 5)
    } else {
        (20, 30, 30, 15)
    };
    if roll < common {
        ItemRarity::Common
    } else if roll < common + rare {
        ItemRarity::Rare
    } else if roll < common + rare + epic {
        ItemRarity::Epic
    } else if roll < common + rare + epic + legendary {
        ItemRarity::Legendary
    } else {
        ItemRarity::Godly
    }
}

/// `r` can come out of `roll_rarity(round, _, is_start_of_round)`: a unique (chance 2 in 100,
/// only at the start of round 4 or later), or the rarity of some roll in `0..100`.
pub open spec fn possible_rarity(round: u32, is_start_of_round: bool, r: ItemRarity) -> bool {
    (r == ItemRarity::Unique && is_start_of_round && round >= 4) || exists|roll: int|
        0 <= roll < 100 && r == #[trigger] spec_rarity_for_roll(round, roll)
}

/// The rarity that the two draws of a slot give: a unique when the unique draw came up (it
/// is only taken at the start of round 4 or later), otherwise the rarity of `roll`.
pub open spec fn spec_rarity_for_draws(round: u32, is_start_of_round: bool, unique_drawn: bool, roll: int) -> ItemRarity {
    if is_start_of_round && round >= 4 && unique_drawn {
        ItemRarity::Unique
    } else {
        spec_rarity_for_roll(round, roll)
    }
}

/// A slot's draws give a unique exactly when the unique draw came up at the start of round 4
/// or later; otherwise the roll decides, never giving a unique.
pub proof fn lemma_unique_only_from_its_draw(round: u32, is_start_of_round: bool, unique_drawn: bool, roll: int)
    requires
        0 <= roll < 100,
    ensures
        (spec_rarity_for_draws(round, is_start_of_round, unique_drawn, roll) == ItemRarity::Unique) <==> (
        is_start_of_round && round >= 4 && unique_drawn),
        !(is_start_of_round && round >= 4 && unique_drawn) ==> spec_rarity_for_draws(
            round,
            is_start_of_round,
            unique_drawn,
            roll,
        ) == spec_rarity_for_roll(round, roll),
{
    lemma_rarity_thresholds(round, roll);
}

/// The rarity of an offer from its draws: the unique draw (a chance of 2 in 100) and the
/// roll in `0..100` (only looked at when no unique came up).
pub fn rarity_for_draws(round: u32, is_start_of_round: bool, unique_drawn: bool, roll: usize) -> (r: ItemRarity)
    requires
        roll < 100,
    ensures
        r == spec_rarity_for_draws(round, is_start_of_round, unique_drawn, roll as int),
{
    if is_start_of_round && round >= 4 && unique_drawn {
        ItemRarity::Unique
    } else {
        rarity_for_roll(round, roll)
    }
}

/// Rolls the rarity of an offer: at the start of round 4 or later a unique with chance 2 in
/// 100, otherwise (or when that draw fails) by a roll in `0..100`.
pub fn roll_rarity(round: u32, rng: &mut ThreadRng, is_start_of_round: bool) -> (r: ItemRarity)
    ensures
        exists|unique_drawn: bool, roll: int|
            0 <= roll < 100 && r == #[trigger] spec_rarity_for_draws(round, is_start_of_round, unique_drawn, roll),
        possible_rarity(round, is_start_of_round, r),
{
    let unique_drawn = if is_start_of_round && round >= 4 {
        random_ratio(rng, 2, 100)
    } else {
        false
    };
    let roll = if unique_drawn {
        0
    } else {
        random_below(rng, 100)
    };
    let r = rarity_for_draws(round, is_start_of_round, unique_drawn, roll);
    proof {
        if !(is_start_of_round && round >= 4 && unique_drawn) {
            assert(r == spec_rarity_for_roll(round, roll as int));
        }
    }
    r
}

/// An element of `list` picked at random; `None` when `list` is empty.
pub fn pick_random<'a, T>(list: &'a Vec<T>, rng: &mut ThreadRng) -> (r: Option<&'a T>)
    ensures
        r is None <==> list@.len() == 0,
        r is Some ==> list@.contains(*r.unwrap()),
{
    if list.len() == 0 {
        return None;
    }
    let idx = random_below(rng, list.len());
    let x = &list[idx];
    assert(list@[idx as int] == *x);
    Some(x)
}

/// `it` offers definition `d`: at half price (rounded up) when discounted, not locked, not sold.
pub open spec fn offer_from(it: ShopItem, d: ItemDefinition) -> bool {
    &&& it.item_id@ == d.id@
    &&& it.price == (if it.is_discounted {
        half_up(d.price)
    } else {
        d.price
    })
    &&& !it.is_locked
    &&& !it.is_sold
}

/// `it` offers some definition of `db`.
pub open spec fn valid_offer(db: &ItemDatabase, it: ShopItem) -> bool {
    exists|id: Seq<char>| db.items@.contains_key(id) && #[trigger] offer_from(it, db.items@[id])
}

/// In a database that keeps each definition under its own id, every valid offer names a
/// definition of the database.
pub proof fn lemma_valid_offer_is_known(db: &ItemDatabase, it: ShopItem)
    requires
        db.keys_match_ids(),
        valid_offer(db, it),
    ensures
        db.items@.contains_key(it.item_id@),
{
    let id = choose|id: Seq<char>| db.items@.contains_key(id) && #[trigger] offer_from(it, db.items@[id]);
    assert(db.items@[id].id@ == id);
}

/// `db` holds a common item (the fallback when no item of the rolled rarity exists).
pub open spec fn has_common(db: &ItemDatabase) -> bool {
    exists|id: Seq<char>| #[trigger] db.items@.contains_key(id) && db.items@[id].rarity == ItemRarity::Common
}

/// The offer of definition `d`: at half price (rounded up) when discounted, neither locked
/// nor sold.
pub open spec fn spec_offer(d: ItemDefinition, discounted: bool) -> ShopItem {
    ShopItem {
        item_id: d.id,
        price: if discounted {
            half_up(d.price)
        } else {
            d.price
        },
        is_locked: false,
        is_discounted: discounted,
        is_sold: false,
    }
}

/// `r` is an offer the shop may fall back on: when `db` holds a common item, the full-price
/// offer of one of them; otherwise none.
pub open spec fn fallback_of(db: &ItemDatabase, r: Option<ShopItem>) -> bool {
    &&& r is Some <==> has_common(db)
    &&& r is Some ==> exists|id: Seq<char>|
        #![trigger db.items@[id]]
        db.items@.contains_key(id) && db.items@[id].rarity == ItemRarity::Common && r.unwrap() == spec_offer(
            db.items@[id],
            false,
        )
}

/// The offer of `def`, discounted or not.
pub fn offer_for(def: &ItemDefinition, discounted: bool) -> (it: ShopItem)
    ensures
        it == spec_offer(*def, discounted),
        offer_from(it, *def),
        it.is_discounted == discounted,
{
    let price = if discounted {
        def.price / 2 + def.price % 2
    } else {
        def.price
    };
    ShopItem {
        item_id: def.id.clone(),
        price,
        is_locked: false,
        is_discounted: discounted,
        is_sold: false,
    }
}

/// The ids of the definitions of `rarity`, each once, in the database's own order.
pub fn candidates_of(db: &ItemDatabase, rarity: ItemRarity) -> (r: Vec<String>)
    ensures
        forall|k: int| 0 <= k < r@.len() ==> db.items@.contains_key((#[trigger] r@[k])@) && db.items@[r@[k]@].rarity == rarity,
        forall|id: Seq<char>|
            #[trigger] db.items@.contains_key(id) && db.items@[id].rarity == rarity ==> exists|k: int| 0 <= k < r@.len() && r@[k]@ == id,
        forall|i: int, j: int| 0 <= i < j < r@.len() ==> r@[i]@ != r@[j]@,
{
    let ids = db.ids();
    let mut r: Vec<String> = Vec::new();
    let ghost mut taken: Seq<int> = Seq::empty();
    let mut i: usize = 0;
    while i < ids.len()
        invariant
            i <= ids@.len(),
            forall|id: Seq<char>| (exists|j: int| 0 <= j < ids@.len() && #[trigger] ids@[j]@ == id) == db.items@.contains_key(id),
            forall|x: int, y: int| 0 <= x < y < ids@.len() ==> ids@[x]@ != ids@[y]@,
            taken.len() == r@.len(),
            forall|k: int| 0 <= k < r@.len() ==> 0 <= #[trigger] taken[k] < i && r@[k]@ == ids@[taken[k]]@,
            forall|x: int, y: int| 0 <= x < y < taken.len() ==> taken[x] < taken[y],
            forall|k: int| 0 <= k < r@.len() ==> db.items@.contains_key((#[trigger] r@[k])@) && db.items@[r@[k]@].rarity == rarity,
            forall|j: int|
                0 <= j < i && db.items@.contains_key(#[trigger] ids@[j]@) && db.items@[ids@[j]@].rarity == rarity ==> exists|k: int|
                    0 <= k < r@.len() && r@[k]@ == ids@[j]@,
        decreases ids.len() - i,
    {
        let id = &ids[i];
        let ghost before = r@;
        match db.get(id) {
            Some(def) => {
                if def.rarity == rarity {
                    r.push(id.clone());
                    proof {
                        taken = taken.push(i as int);
                        assert(r@[r@.len() - 1]@ == ids@[i as int]@);
                        assert forall|j: int|
                            0 <= j < i + 1 && db.items@.contains_key(#[trigger] ids@[j]@) && db.items@[ids@[j]@].rarity == rarity implies exists|k: int|
                                0 <= k < r@.len() && r@[k]@ == ids@[j]@ by {
                            if j < i {
                                let k = choose|k: int| 0 <= k < before.len() && before[k]@ == ids@[j]@;
                                assert(r@[k] == before[k]);
                            } else {
                                assert(r@[r@.len() - 1]@ == ids@[j]@);
                            }
                        }
                    }
                }
            },
            None => {},
        }
        i = i + 1;
    }
    proof {
        assert forall|id: Seq<char>|
            #[trigger] db.items@.contains_key(id) && db.items@[id].rarity == rarity implies exists|k: int| 0 <= k < r@.len() && r@[k]@ == id by {
            let j = choose|j: int| 0 <= j < ids@.len() && #[trigger] ids@[j]@ == id;
            assert(db.items@.contains_key(ids@[j]@));
        }
        assert forall|x: int, y: int| 0 <= x < y < r@.len() implies r@[x]@ != r@[y]@ by {
            assert(taken[x] < taken[y]);
        }
    }
    r
}

/// The offer used when no item of the rolled rarity exists: a common item (the first the
/// database's own order gives) at full price, if any.
pub fn fallback_offer(db: &ItemDatabase) -> (r: Option<ShopItem>)
    ensures
        fallback_of(db, r),
{
    let ids = db.ids();
    let mut i: usize = 0;
    while i < ids.len()
        invariant
            i <= ids@.len(),
            forall|id: Seq<char>| (exists|j: int| 0 <= j < ids@.len() && #[trigger] ids@[j]@ == id) == db.items@.contains_key(id),
            forall|j: int| 0 <= j < i ==> #[trigger] db.lookup(ids@[j]@) is Some ==> db.lookup(ids@[j]@).unwrap().rarity != ItemRarity::Common,
        decreases ids.len() - i,
    {
        match db.get(&ids[i]) {
            Some(def) => {
                if def.rarity == ItemRarity::Common {
                    let it = offer_for(def, false);
                    proof {
                        assert(db.items@.contains_key(ids@[i as int]@));
                        assert(has_common(db));
                    }
                    return Some(it);
                }
            },
            None => {},
        }
        i = i + 1;
    }
    proof {
        if has_common(db) {
            let id = choose|id: Seq<char>| #[trigger] db.items@.contains_key(id) && db.items@[id].rarity == ItemRarity::Common;
            let j = choose|j: int| 0 <= j < ids@.len() && #[trigger] ids@[j]@ == id;
            assert(db.lookup(ids@[j]@) is Some);
        }
    }
    None
}

/// The offer that the draws of one shop slot give: the picked definition (by id, among those
/// of the rolled rarity), discounted or not; when nothing could be picked, the fallback offer.
pub fn offer_from_draws(db: &ItemDatabase, picked: Option<&String>, discounted: bool) -> (r: Option<ShopItem>)
    requires
        picked matches Some(id) ==> db.items@.contains_key(id@),
    ensures
        match picked {
            Some(id) => r == Some(spec_offer(db.items@[id@], discounted)),
            None => fallback_of(db, r),
        },
{
    match picked {
        Some(id) => match db.get(id) {
            Some(def) => Some(offer_for(def, discounted)),
            None => None,
        },
        None => fallback_offer(db),
    }
}

/// `it` offers a definition of `db` whose rarity a roll in `round` can give.
pub open spec fn rolled_offer(db: &ItemDatabase, round: u32, is_start_of_round: bool, it: ShopItem) -> bool {
    exists|id: Seq<char>|
        #![trigger db.items@[id]]
        db.items@.contains_key(id) && possible_rarity(round, is_start_of_round, db.items@[id].rarity) && it
            == spec_offer(db.items@[id], it.is_discounted)
}

/// Rolls `count` offers: each rolls a rarity, then an item of that rarity at random,
/// discounted to half price with chance 10 in 100; when no item has the rarity, a common item
/// at full price is offered, and when there is none either, that offer is left out.
pub fn generate_shop_items(item_db: &ItemDatabase, round: u32, count: usize, is_start_of_round: bool) -> (r: Vec<ShopItem>)
    ensures
        r@.len() <= count,
        has_common(item_db) ==> r@.len() == count,
        forall|k: int| 0 <= k < r@.len() ==> valid_offer(item_db, #[trigger] r@[k]),
        forall|k: int| 0 <= k < r@.len() ==> rolled_offer(item_db, round, is_start_of_round, #[trigger] r@[k]),
{
    let mut rng = new_thread_rng();
    let mut results: Vec<ShopItem> = Vec::new();
    let mut n: usize = 0;
    while n < count
        invariant
            n <= count,
            results@.len() <= n,
            has_common(item_db) ==> results@.len() == n,
            forall|k: int| 0 <= k < results@.len() ==> valid_offer(item_db, #[trigger] results@[k]),
            forall|k: int| 0 <= k < results@.len() ==> rolled_offer(item_db, round, is_start_of_round, #[trigger] results@[k]),
        decreases count - n,
    {
        let rarity = roll_rarity(round, &mut rng, is_start_of_round);
        let candidates = candidates_of(item_db, rarity);
        let picked = pick_random(&candidates, &mut rng);
        let is_discounted = match picked {
            Some(_) => random_ratio(&mut rng, 10, 100),
            None => false,
        };
        proof {
            if picked is Some {
                let w = choose|w: int| 0 <= w < candidates@.len() && candidates@[w] == *picked.unwrap();
                assert(item_db.items@.contains_key(candidates@[w]@));
            }
        }
        match offer_from_draws(item_db, picked, is_discounted) {
            Some(it) => {
                proof {
                    match picked {
                        Some(id) => {
                            assert(offer_from(it, item_db.items@[id@]));
                            let w = choose|w: int| 0 <= w < candidates@.len() && candidates@[w] == *id;
                            assert(item_db.items@[candidates@[w]@].rarity == rarity);
                            assert(rolled_offer(item_db, round, is_start_of_round, it));
                        },
                        None => {
                            let id = choose|id: Seq<char>|
                                #![trigger item_db.items@[id]]
                                item_db.items@.contains_key(id) && item_db.items@[id].rarity == ItemRarity::Common && it
                                    == spec_offer(item_db.items@[id], false);
                            assert(offer_from(it, item_db.items@[id]));
                            assert(spec_rarity_for_roll(round, 0) == ItemRarity::Common);
                            assert(possible_rarity(round, is_start_of_round, ItemRarity::Common));
                            assert(rolled_offer(item_db, round, is_start_of_round, it));
                        },
                    }
                }
                results.push(it);
            },
            None => {},
        }
        n = n + 1;
    }
    results
}

/// The offers kept across a reroll: locked and not yet sold, in order.
pub open spec fn kept_offers(items: Seq<ShopItem>) -> Seq<ShopItem>
    decreases items.len(),
{
    if items.len() == 0 {
        Seq::empty()
    } else {
        let prev = kept_offers(items.drop_last());
        if items.last().is_locked && !items.last().is_sold {
            prev.push(items.last())
        } else {
            prev
        }
    }
}

/// The kept offers are at most as many as the offers.
pub proof fn lemma_kept_offers_len(items: Seq<ShopItem>)
    ensures
        kept_offers(items).len() <= items.len(),
    decreases items.len(),
{
    if items.len() > 0 {
        lemma_kept_offers_len(items.drop_last());
    }
}

/// The locked offers that are not sold, in order.
pub fn keep_locked(items: &Vec<ShopItem>) -> (r: Vec<ShopItem>)
    ensures
        r@ == kept_offers(items@),
{
    let mut r: Vec<ShopItem> = Vec::new();
    let mut i: usize = 0;
    while i < items.len()
        invariant
            i <= items@.len(),
            r@ == kept_offers(items@.take(i as int)),
        decreases items.len() - i,
    {
        assert(items@.take(i + 1).drop_last() =~= items@.take(i as int));
        if items[i].is_locked && !items[i].is_sold {
            r.push(items[i].clone());
        }
        i = i + 1;
    }
    assert(items@.take(items@.len() as int) =~= items@);
    r
}

/// `items` are the kept offers `kept` followed by offers freshly rolled in `round` (with the
/// unique chance of a round's start when `is_start_of_round`): at most the shop's size,
/// exactly the shop's size when a common item exists.
pub open spec fn refilled(
    db: &ItemDatabase,
    round: u32,
    is_start_of_round: bool,
    kept: Seq<ShopItem>,
    items: Seq<ShopItem>,
) -> bool {
    &&& items.len() <= SHOP_SIZE
    &&& items.take(kept.len() as int) == kept
    &&& has_common(db) ==> items.len() == SHOP_SIZE
    &&& forall|k: int| kept.len() <= k < items.len() ==> valid_offer(db, #[trigger] items[k])
    &&& forall|k: int| kept.len() <= k < items.len() ==> rolled_offer(db, round, is_start_of_round, #[trigger] items[k])
}

impl ShopState {
    /// The kept offers followed by enough fresh ones to fill the shop.
    fn refill(&mut self, item_db: &ItemDatabase, round: u32, is_start_of_round: bool)
        requires
            kept_offers(old(self).items@).len() <= SHOP_SIZE,
        ensures
            refilled(item_db, round, is_start_of_round, kept_offers(old(self).items@), final(self).items@),
            final(self).reroll_cost == old(self).reroll_cost,
            final(self).reroll_count == old(self).reroll_count,
    {
        let mut new_items = keep_locked(&self.items);
        let ghost kept = new_items@;
        let needed = SHOP_SIZE - new_items.len();
        if needed > 0 {
            let generated = generate_shop_items(item_db, round, needed, is_start_of_round);
            let ghost gen = generated@;
            let mut g = generated;
            new_items.append(&mut g);
            assert(new_items@ == kept + gen);
            assert(new_items@.take(kept.len() as int) =~= kept);
            assert forall|k: int| kept.len() <= k < new_items@.len() implies valid_offer(item_db, #[trigger] new_items@[k]) by {
                assert(new_items@[k] == gen[k - kept.len()]);
            }
            assert forall|k: int| kept.len() <= k < new_items@.len() implies rolled_offer(
                item_db,
                round,
                is_start_of_round,
                #[trigger] new_items@[k],
            ) by {
                assert(new_items@[k] == gen[k - kept.len()]);
            }
        } else {
            assert(new_items@.take(kept.len() as int) =~= kept);
        }
        self.items = new_items;
    }

    /// Opens the shop for the evening of day `round`: the reroll price is 1 and no rerolls
    /// were made; the locked, unsold offers stay and fresh offers fill the rest.
    pub fn on_enter_shop(&mut self, item_db: &ItemDatabase, round: u32)
        requires
            kept_offers(old(self).items@).len() <= SHOP_SIZE,
        ensures
            final(self).reroll_cost == 1,
            final(self).reroll_count == 0,
            refilled(item_db, round, true, kept_offers(old(self).items@), final(self).items@),
    {
        self.reroll_cost = 1;
        self.reroll_count = 0;
        self.refill(item_db, round, true);
    }

    /// The reroll button: when the player can pay the reroll price, they pay it, one more
    /// reroll is counted (from the fourth on each costs 2, before that 1), and the offers are
    /// rolled again keeping the locked, unsold ones. Returns whether the reroll happened;
    /// otherwise nothing changes.
    pub fn reroll(&mut self, player_stats: &mut PlayerStats, item_db: &ItemDatabase, day: u32) -> (done: bool)
        requires
            old(self).reroll_count < u32::MAX,
            kept_offers(old(self).items@).len() <= SHOP_SIZE,
        ensures
            done == (old(player_stats).thalers >= old(self).reroll_cost),
            done ==> {
                &&& final(player_stats).thalers == old(player_stats).thalers - old(self).reroll_cost
                &&& final(player_stats).reputation == old(player_stats).reputation
                &&& final(player_stats).infection == old(player_stats).infection
                &&& final(self).reroll_count == old(self).reroll_count + 1
                &&& final(self).reroll_cost == (if old(self).reroll_count + 1 >= 4 { 2u32 } else { 1u32 })
                &&& refilled(item_db, day, false, kept_offers(old(self).items@), final(self).items@)
            },
            !done ==> *final(player_stats) == *old(player_stats) && final(self).items@ == old(self).items@
                && final(self).reroll_cost == old(self).reroll_cost && final(self).reroll_count == old(self).reroll_count,
    {
        if player_stats.thalers >= self.reroll_cost {
            player_stats.thalers = player_stats.thalers - self.reroll_cost;
            self.reroll_count = self.reroll_count + 1;
            if self.reroll_count >= 4 {
                self.reroll_cost = 2;
            } else {
                self.reroll_cost = 1;
            }
            self.refill(item_db, day, false);
            true
        } else {
            false
        }
    }

    /// The lock button of offer `index`: toggles whether it is kept across rerolls.
    pub fn toggle_lock(&mut self, index: usize)
        ensures
            final(self).reroll_cost == old(self).reroll_cost,
            final(self).reroll_count == old(self).reroll_count,
            index < old(self).items@.len() ==> final(self).items@ == old(self).items@.update(
                index as int,
                ShopItem { is_locked: !old(self).items@[index as int].is_locked, ..old(self).items@[index as int] },
            ),
            index >= old(self).items@.len() ==> final(self).items@ == old(self).items@,
    {
        if index < self.items.len() {
            let mut it = self.items[index].clone();
            it.is_locked = !it.is_locked;
            self.items.set(index, it);
        }
    }

    /// The buy button of offer `index`: when the offer is not sold, the player can pay its
    /// price and its item is known, the player pays and the offer is marked sold. The item goes
    /// to the first free spot of the inventory when there is one (`Placed`); otherwise it waits
    /// among the pending items (`Pending`). Otherwise nothing changes and `None` is returned.
    pub fn buy(
        &mut self,
        index: usize,
        player_stats: &mut PlayerStats,
        grid_state: &InventoryGridState,
        item_db: &ItemDatabase,
        pending_items: &mut PendingItems,
    ) -> (r: Option<Purchase>)
        requires
            forall|id: Seq<char>| #[trigger] item_db.items@.contains_key(id) ==> grid_state.spot_search_safe(item_db.items@[id].shape@),
        ensures
            ({
                let it = old(self).items@[index as int];
                let found = item_db.lookup(it.item_id@);
                let payable = index < old(self).items@.len() && !it.is_sold && old(player_stats).thalers >= it.price && found is Some;
                &&& payable <==> r is Some
                &&& payable ==> match r {
                    Some(Purchase::Placed(p)) => grid_state.is_first_free_spot(found.unwrap().shape@, p)
                        && final(pending_items).0@ == old(pending_items).0@,
                    Some(Purchase::Pending) => grid_state.no_free_spot(found.unwrap().shape@)
                        && final(pending_items).0@.len() == old(pending_items).0@.len() + 1
                        && final(pending_items).0@.drop_last() == old(pending_items).0@
                        && final(pending_items).0@.last()@ == it.item_id@,
                    None => false,
                }
                &&& payable ==> {
                    &&& final(player_stats).thalers == old(player_stats).thalers - it.price
                    &&& final(player_stats).reputation == old(player_stats).reputation
                    &&& final(player_stats).infection == old(player_stats).infection
                    &&& final(self).items@ == old(self).items@.update(index as int, ShopItem { is_sold: true, ..it })
                }
                &&& !payable ==> {
                    &&& *final(player_stats) == *old(player_stats)
                    &&& final(self).items@ == old(self).items@
                    &&& final(pending_items).0@ == old(pending_items).0@
                }
            }),
            final(self).reroll_cost == old(self).reroll_cost,
            final(self).reroll_count == old(self).reroll_count,
    {
        if index >= self.items.len() {
            return None;
        }
        let it = self.items[index].clone();
        if it.is_sold || player_stats.thalers < it.price {
            return None;
        }
        match item_db.get(&it.item_id) {
            Some(def) => {
                let spot = grid_state.find_free_spot(def);
                player_stats.thalers = player_stats.thalers - it.price;
                let id = it.item_id.clone();
                let mut sold = it;
                sold.is_sold = true;
                self.items.set(index, sold);
                match spot {
                    Some(pos) => Some(Purchase::Placed(pos)),
                    None => {
                        pending_items.0.push(id);
                        assert(pending_items.0@.drop_last() =~= old(pending_items).0@);
                        Some(Purchase::Pending)
                    },
                }
            },
            None => None,
        }
    }
}

/// The reroll price never drops once four rerolls were made, and is never above 2.
pub proof fn lemma_reroll_cost_schedule(count: u32)
    ensures
        (if count + 1 >= 4 { 2u32 } else { 1u32 }) <= 2,
        count + 1 >= 4 ==> (if count + 2 >= 4 { 2u32 } else { 1u32 }) == 2,
{
}

/// The offers kept across a reroll are exactly the locked, unsold ones, in order: each kept
/// offer was locked and unsold, and every locked, unsold offer is kept.
pub proof fn lemma_kept_offers_are_the_locked_ones(items: Seq<ShopItem>)
    ensures
        forall|k: int| 0 <= k < kept_offers(items).len() ==> (#[trigger] kept_offers(items)[k]).is_locked && !kept_offers(items)[k].is_sold && items.contains(kept_offers(items)[k]),
        forall|i: int| 0 <= i < items.len() && (#[trigger] items[i]).is_locked && !items[i].is_sold ==> kept_offers(items).contains(items[i]),
    decreases items.len(),
{
    if items.len() > 0 {
        let prev = items.drop_last();
        lemma_kept_offers_are_the_locked_ones(prev);
        assert forall|k: int| 0 <= k < kept_offers(items).len() implies (#[trigger] kept_offers(items)[k]).is_locked && !kept_offers(items)[k].is_sold && items.contains(kept_offers(items)[k]) by {
            if k < kept_offers(prev).len() {
                assert(kept_offers(items)[k] == kept_offers(prev)[k]);
                let w = choose|w: int| 0 <= w < prev.len() && prev[w] == kept_offers(prev)[k];
                assert(items[w] == prev[w]);
            } else {
                assert(items[items.len() - 1] == items.last());
            }
        }
        assert forall|i: int| 0 <= i < items.len() && (#[trigger] items[i]).is_locked && !items[i].is_sold implies kept_offers(items).contains(items[i]) by {
            if i < items.len() - 1 {
                assert(items[i] == prev[i]);
                let w = choose|w: int| 0 <= w < kept_offers(prev).len() && kept_offers(prev)[w] == prev[i];
                assert(kept_offers(items)[w] == kept_offers(prev)[w]);
            } else {
                assert(kept_offers(items)[kept_offers(items).len() - 1] == items[i]);
            }
        }
    }
}

} // verus!
