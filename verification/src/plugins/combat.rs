//! The night battle: material efficiencies, the damage formula, action meters, stamina,
//! and the resolution of one combat turn.
//!
//! Quantities (damage, defense, health, speed, meters, stamina) are fixed-point numbers
//! in thousandths: `1000` stands for `1.0`.
use vstd::prelude::*;

use crate::plugins::inventory::CombatStats;
use crate::plugins::items;
use crate::plugins::phases::GameState;

verus! {

/// The side a unit fights on.
#[derive(Debug, Clone, Copy, PartialEq, Eq, Structural)]
pub enum Team {
    Player,
    Enemy,
}

/// What a weapon is made of.
#[derive(Debug, Clone, Copy, PartialEq, Eq, Structural)]
pub enum MaterialType {
    Steel,
    Silver,
    Flesh,
}

/// The kind of creature that is hit.
#[derive(Debug, Clone, Copy, PartialEq, Eq, Structural)]
pub enum UnitType {
    Human,
    Monster,
    Ethereal,
}

/// Current and maximum health.
#[derive(Debug, Clone, Copy, PartialEq, Eq, Structural)]
pub struct Health {
    pub current: i64,
    pub max: i64,
}

/// Damage dealt per action.
#[derive(Debug, Clone, Copy, PartialEq, Eq, Structural)]
pub struct Attack {
    pub value: i64,
}

/// Damage absorbed.
#[derive(Debug, Clone, Copy, PartialEq, Eq, Structural)]
pub struct Defense {
    pub value: i64,
}

/// How much the action meter fills each tick.
#[derive(Debug, Clone, Copy, PartialEq, Eq, Structural)]
pub struct Speed {
    pub value: i64,
}

/// A unit acts when `value` reaches `threshold`.
#[derive(Debug, Clone, Copy, PartialEq, Eq, Structural)]
pub struct ActionMeter {
    pub value: i64,
    pub threshold: i64,
}

/// Stamina that item attacks spend; it regenerates each tick.
#[derive(Debug, Clone, Copy, PartialEq, Eq, Structural)]
pub struct Stamina {
    pub current: i64,
    pub max: i64,
}

/// Combat data of an item used as a weapon.
#[derive(Debug, Clone, Copy, PartialEq, Eq, Structural)]
pub struct CombatItemTag {
    pub accuracy: i64,
    pub stamina_cost: i64,
}

impl Default for ActionMeter {
    /// An empty meter with the default threshold of 1000.0.
    fn default() -> (m: Self)
        ensures
            m.value == 0,
            m.threshold == 1_000_000,
    {
        ActionMeter { value: 0, threshold: 1_000_000 }
    }
}

/// The efficiency of `material` against `target`, in thousandths.
pub open spec fn spec_efficiency(material: MaterialType, target: UnitType) -> i64 {
    match (material, target) {
        (MaterialType::Steel, UnitType::Human) => 1500,
        (MaterialType::Steel, UnitType::Monster) => 800,
        (MaterialType::Steel, UnitType::Ethereal) => 0,
        (MaterialType::Silver, UnitType::Human) => 700,
        (MaterialType::Silver, UnitType::Monster) => 2000,
        (MaterialType::Silver, UnitType::Ethereal) => 3000,
        (MaterialType::Flesh, UnitType::Human) => 1200,
        (MaterialType::Flesh, UnitType::Monster) => 1200,
        (MaterialType::Flesh, UnitType::Ethereal) => 500,
    }
}

impl MaterialType {
    /// The damage multiplier of this material against `target`, in thousandths
    /// (steel suits humans, silver the supernatural, flesh is middling).
    pub fn efficiency(&self, target: UnitType) -> (m: i64)
        ensures
            m == spec_efficiency(*self, target),
    {
        match (self, target) {
            (MaterialType::Steel, UnitType::Human) => 1500,
            (MaterialType::Steel, UnitType::Monster) => 800,
            (MaterialType::Steel, UnitType::Ethereal) => 0,
            (MaterialType::Silver, UnitType::Human) => 700,
            (MaterialType::Silver, UnitType::Monster) => 2000,
            (MaterialType::Silver, UnitType::Ethereal) => 3000,
            (MaterialType::Flesh, UnitType::Human) => 1200,
            (MaterialType::Flesh, UnitType::Monster) => 1200,
            (MaterialType::Flesh, UnitType::Ethereal) => 500,
        }
    }
}

/// `a / b` rounded towards zero (as integer division in Rust), for `b > 0`.
pub open spec fn div_toward_zero(a: int, b: int) -> int {
    if a >= 0 {
        a / b
    } else {
        -((-a) / b)
    }
}

/// The final damage of a hit with raw damage `raw` on defense `defense`: when the raw damage
/// reaches the defense it pierces, `2 * raw - defense` (not below zero); otherwise it is
/// absorbed quadratically, `raw^2 / defense` (rounded down); with no positive defense, `raw`.
pub open spec fn spec_final_damage(raw: int, defense: int) -> int {
    if raw >= defense {
        if 2 * raw - defense >= 0 {
            2 * raw - defense
        } else {
            0
        }
    } else if defense > 0 {
        (raw * raw) / defense
    } else {
        raw
    }
}

/// The raw damage of a weapon against `target`: the weapon damage times the efficiency.
pub open spec fn spec_raw_damage(weapon_damage: int, material: MaterialType, target: UnitType) -> int {
    div_toward_zero(weapon_damage * spec_efficiency(material, target), 1000)
}

/// The damage of `weapon_damage` of `material` on a `target_unit_type` with `target_defense`.
pub open spec fn spec_damage(
    weapon_damage: int,
    material: MaterialType,
    target_unit_type: UnitType,
    target_defense: int,
) -> int {
    spec_final_damage(spec_raw_damage(weapon_damage, material, target_unit_type), target_defense)
}

/// The final damage for a raw damage that may lie beyond `i64` (a weapon damage times an
/// efficiency of up to three), when the result fits in `i64`.
fn final_damage_wide(raw: i128, defense: i64) -> (d: i64)
    requires
        3 * (i64::MIN as int) <= raw <= 3 * (i64::MAX as int),
        i64::MIN <= spec_final_damage(raw as int, defense as int) <= i64::MAX,
    ensures
        d == spec_final_damage(raw as int, defense as int),
{
    let def = defense as i128;
    if raw >= def {
        let v = 2 * raw - def;
        if v >= 0 {
            v as i64
        } else {
            0
        }
    } else if defense > 0 {
        proof {
            let r = raw as int;
            let dd = defense as int;
            let q = (r * r) / dd;
            assert(r * r >= 0) by (nonlinear_arith);
            vstd::arithmetic::div_mod::lemma_fundamental_div_mod(r * r, dd);
            vstd::arithmetic::div_mod::lemma_mod_bound(r * r, dd);
            assert(r * r < dd * (q + 1)) by (nonlinear_arith)
                requires
                    r * r == dd * q + (r * r) % dd,
                    (r * r) % dd < dd,
            ;
            assert(dd * (q + 1) <= (i64::MAX as int) * (i64::MAX as int + 1)) by (nonlinear_arith)
                requires
                    1 <= dd <= i64::MAX,
                    0 <= q <= i64::MAX,
            ;
        }
        let sq: i128 = raw * raw;
        let q = sq / def;
        q as i64
    } else {
        raw as i64
    }
}

/// The final damage for raw damage `raw` against `defense` (see `spec_final_damage`), for
/// every pair whose result fits in `i64`.
pub fn calculate_final_damage(raw: i64, defense: i64) -> (d: i64)
    requires
        spec_final_damage(raw as int, defense as int) <= i64::MAX,
    ensures
        d == spec_final_damage(raw as int, defense as int),
{
    proof {
        if raw < defense && defense > 0 {
            assert((raw as int) * (raw as int) >= 0) by (nonlinear_arith);
            assert(((raw as int) * (raw as int)) / (defense as int) >= 0) by (nonlinear_arith)
                requires
                    (raw as int) * (raw as int) >= 0,
                    defense > 0,
            ;
        }
    }
    final_damage_wide(raw as i128, defense)
}

/// The damage of a weapon hit: the weapon damage scaled by the material's efficiency
/// against the target, then through the defense formula; for every input whose damage
/// fits in `i64`.
pub fn calculate_damage(
    weapon_damage: i64,
    material: MaterialType,
    target_unit_type: UnitType,
    target_defense: i64,
) -> (d: i64)
    requires
        i64::MIN <= spec_damage(weapon_damage as int, material, target_unit_type, target_defense as int)
            <= i64::MAX,
    ensures
        d == spec_damage(weapon_damage as int, material, target_unit_type, target_defense as int),
{
    let modifier = material.efficiency(target_unit_type);
    assert(0 <= modifier <= 3000);
    let product: i128 = (weapon_damage as i128) * (modifier as i128);
    assert(3000 * (i64::MIN as int) <= product <= 3000 * (i64::MAX as int)) by (nonlinear_arith)
        requires
            product == (weapon_damage as int) * (modifier as int),
            0 <= modifier <= 3000,
            i64::MIN <= weapon_damage <= i64::MAX,
    ;
    let raw: i128 = if product >= 0 {
        product / 1000
    } else {
        -((-product) / 1000)
    };
    assert(3 * (i64::MIN as int) <= raw <= 3 * (i64::MAX as int));
    final_damage_wide(raw, target_defense)
}

/// `stamina` after one tick of regeneration: below its maximum it gains 0.05, capped there.
pub open spec fn spec_regen(stamina: Stamina) -> Stamina {
    if stamina.current < stamina.max {
        Stamina {
            current: if stamina.current + 50 <= stamina.max {
                (stamina.current + 50) as i64
            } else {
                stamina.max
            },
            max: stamina.max,
        }
    } else {
        stamina
    }
}

/// Fills `meter` by `speed` (one fixed tick).
pub fn tick_meter(meter: &mut ActionMeter, speed: Speed)
    requires
        i64::MIN <= old(meter).value + speed.value <= i64::MAX,
    ensures
        final(meter).value == old(meter).value + speed.value,
        final(meter).threshold == old(meter).threshold,
{
    meter.value = meter.value + speed.value;
}

/// Regenerates `stamina` by one tick (see `spec_regen`).
pub fn regen_stamina(stamina: &mut Stamina)
    requires
        old(stamina).current < old(stamina).max ==> old(stamina).current + 50 <= i64::MAX,
    ensures
        *final(stamina) == spec_regen(*old(stamina)),
{
    if stamina.current < stamina.max {
        let next = stamina.current + 50;
        stamina.current = if next <= stamina.max {
            next
        } else {
            stamina.max
        };
    }
}

/// One fixed tick of combat time: each action meter fills by its unit's speed, and each
/// stamina pool regenerates.
pub fn tick_timer_system(meters: &mut Vec<(Speed, ActionMeter)>, staminas: &mut Vec<Stamina>)
    requires
        forall|i: int|
            0 <= i < old(meters).len() ==> i64::MIN <= #[trigger] old(meters)[i].1.value + old(
                meters,
            )[i].0.value <= i64::MAX,
        forall|i: int|
            0 <= i < old(staminas).len() ==> (#[trigger] old(staminas)[i]).current < old(
                staminas,
            )[i].max ==> old(staminas)[i].current + 50 <= i64::MAX,
    ensures
        final(meters).len() == old(meters).len(),
        forall|i: int|
            0 <= i < final(meters).len() ==> (#[trigger] final(meters)[i]).0 == old(meters)[i].0
                && final(meters)[i].1 == (ActionMeter {
                value: (old(meters)[i].1.value + old(meters)[i].0.value) as i64,
                threshold: old(meters)[i].1.threshold,
            }),
        final(staminas).len() == old(staminas).len(),
        forall|i: int|
            0 <= i < final(staminas).len() ==> #[trigger] final(staminas)[i] == spec_regen(
                old(staminas)[i],
            ),
{
    let mut i: usize = 0;
    while i < meters.len()
        invariant
            i <= meters.len(),
            meters.len() == old(meters).len(),
            forall|j: int|
                0 <= j < old(meters).len() ==> i64::MIN <= #[trigger] old(meters)[j].1.value + old(
                    meters,
                )[j].0.value <= i64::MAX,
            forall|j: int| i <= j < meters.len() ==> #[trigger] meters[j] == old(meters)[j],
            forall|j: int|
                0 <= j < i ==> (#[trigger] meters[j]).0 == old(meters)[j].0 && meters[j].1 == (
                ActionMeter {
                    value: (old(meters)[j].1.value + old(meters)[j].0.value) as i64,
                    threshold: old(meters)[j].1.threshold,
                }),
        decreases meters.len() - i,
    {
        let (speed, meter) = meters[i];
        let mut m = meter;
        tick_meter(&mut m, speed);
        meters.set(i, (speed, m));
        i = i + 1;
    }
    let mut k: usize = 0;
    while k < staminas.len()
        invariant
            k <= staminas.len(),
            staminas.len() == old(staminas).len(),
            forall|j: int|
                0 <= j < old(staminas).len() ==> (#[trigger] old(staminas)[j]).current < old(
                    staminas,
                )[j].max ==> old(staminas)[j].current + 50 <= i64::MAX,
            forall|j: int| k <= j < staminas.len() ==> #[trigger] staminas[j] == old(staminas)[j],
            forall|j: int| 0 <= j < k ==> #[trigger] staminas[j] == spec_regen(old(staminas)[j]),
        decreases staminas.len() - k,
    {
        let mut st = staminas[k];
        regen_stamina(&mut st);
        staminas.set(k, st);
        k = k + 1;
    }
}

/// A unit or weapon item that acts when its meter is full.
#[derive(Debug, Clone, Copy, PartialEq, Eq, Structural)]
pub struct Mover {
    pub entity: u64,
    pub meter: ActionMeter,
    pub attack: Attack,
    pub speed: Speed,
    pub team: Team,
    pub material: Option<MaterialType>,
    /// Present for weapon items, which spend stamina of their owner.
    pub tag: Option<CombatItemTag>,
    /// The owner of a weapon item.
    pub parent: Option<u64>,
}

/// A unit that can be hit.
#[derive(Debug, Clone, Copy, PartialEq, Eq, Structural)]
pub struct Combatant {
    pub entity: u64,
    pub team: Team,
    pub health: Health,
    pub defense: Defense,
    pub unit_type: UnitType,
}

/// The stamina of a unit that owns weapon items.
#[derive(Debug, Clone, Copy, PartialEq, Eq, Structural)]
pub struct StaminaPool {
    pub entity: u64,
    pub stamina: Stamina,
}

/// The state that a combat turn changes.
pub struct TurnState {
    pub movers: Seq<Mover>,
    pub targets: Seq<Combatant>,
    pub pools: Seq<StaminaPool>,
}

/// The index of the first target that is not on `team`.
pub open spec fn first_opponent(ts: Seq<Combatant>, team: Team) -> Option<int>
    decreases ts.len(),
{
    if ts.len() == 0 {
        None
    } else if ts[0].team != team {
        Some(0)
    } else {
        match first_opponent(ts.drop_first(), team) {
            Some(i) => Some(i + 1),
            None => None,
        }
    }
}

/// The index of the first stamina pool of `entity`.
pub open spec fn find_pool(ps: Seq<StaminaPool>, entity: u64) -> Option<int>
    decreases ps.len(),
{
    if ps.len() == 0 {
        None
    } else if ps[0].entity == entity {
        Some(0)
    } else {
        match find_pool(ps.drop_first(), entity) {
            Some(i) => Some(i + 1),
            None => None,
        }
    }
}

/// The meter of `m` is full.
pub open spec fn ready(m: Mover) -> bool {
    m.meter.value >= m.meter.threshold
}

/// The stamina pool that pays for the action of `m`, if any.
pub open spec fn paying_pool(st: TurnState, m: Mover) -> Option<int> {
    match (m.tag, m.parent) {
        (Some(_), Some(p)) => find_pool(st.pools, p),
        _ => None,
    }
}

/// The damage that `m` deals to target `t` (steel when the material is unknown).
pub open spec fn hit_damage(m: Mover, t: Combatant) -> int {
    spec_damage(
        m.attack.value as int,
        match m.material {
            Some(x) => x,
            None => MaterialType::Steel,
        },
        t.unit_type,
        t.defense.value as int,
    )
}

/// The action of mover `i`: a weapon whose owner lacks stamina waits (nothing changes);
/// otherwise its owner pays the stamina cost, its meter drops by its threshold, and the
/// first target of another team loses the damage of the hit.
pub open spec fn act(st: TurnState, i: int) -> TurnState {
    let m = st.movers[i];
    let pool = paying_pool(st, m);
    if pool is Some && st.pools[pool.unwrap()].stamina.current < m.tag.unwrap().stamina_cost {
        st
    } else {
        let pools = match pool {
            Some(p) => st.pools.update(
                p,
                StaminaPool {
                    stamina: Stamina {
                        current: (st.pools[p].stamina.current - m.tag.unwrap().stamina_cost) as i64,
                        ..st.pools[p].stamina
                    },
                    ..st.pools[p]
                },
            ),
            None => st.pools,
        };
        let movers = st.movers.update(
            i,
            Mover {
                meter: ActionMeter {
                    value: (m.meter.value - m.meter.threshold) as i64,
                    ..m.meter
                },
                ..m
            },
        );
        let targets = match first_opponent(st.targets, m.team) {
            Some(t) => st.targets.update(
                t,
                Combatant {
                    health: Health {
                        current: (st.targets[t].health.current - hit_damage(
                            m,
                            st.targets[t],
                        )) as i64,
                        ..st.targets[t].health
                    },
                    ..st.targets[t]
                },
            ),
            None => st.targets,
        };
        TurnState { movers, targets, pools }
    }
}

/// The state after the movers `0..k`, in order, each act if their meter is full.
pub open spec fn run_actions(st: TurnState, k: nat) -> TurnState
    decreases k,
{
    if k == 0 {
        st
    } else {
        let prev = run_actions(st, (k - 1) as nat);
        if ready(prev.movers[k - 1]) {
            act(prev, k - 1)
        } else {
            prev
        }
    }
}

/// The battle is over when one team has no unit with health left; the game then returns
/// to the day phase.
pub open spec fn battle_outcome(targets: Seq<Combatant>) -> Option<GameState> {
    if !(exists|t: int| 0 <= t < targets.len() && #[trigger] targets[t].team == Team::Player
        && targets[t].health.current > 0) || !(exists|t: int|
        0 <= t < targets.len() && #[trigger] targets[t].team == Team::Enemy
            && targets[t].health.current > 0) {
        Some(GameState::DayPhase)
    } else {
        None
    }
}

/// `v` fits in `i64`.
pub open spec fn fits_i64(v: int) -> bool {
    i64::MIN <= v <= i64::MAX
}

/// The action of mover `i` on `st` computes nothing beyond `i64`: when it acts, the stamina
/// left, the meter left, the damage of its hit and the health left all fit.
pub open spec fn act_fits(st: TurnState, i: int) -> bool {
    let m = st.movers[i];
    let pool = paying_pool(st, m);
    ||| pool is Some && st.pools[pool.unwrap()].stamina.current < m.tag.unwrap().stamina_cost
    ||| {
        &&& pool is Some ==> fits_i64(st.pools[pool.unwrap()].stamina.current - m.tag.unwrap().stamina_cost)
        &&& fits_i64(m.meter.value - m.meter.threshold)
        &&& first_opponent(st.targets, m.team) is Some ==> {
            let t = first_opponent(st.targets, m.team).unwrap();
            &&& fits_i64(hit_damage(m, st.targets[t]))
            &&& fits_i64(st.targets[t].health.current - hit_damage(m, st.targets[t]))
        }
    }
}

/// No action of the turn that starts from `st` goes beyond `i64`: exactly the turns whose
/// arithmetic never overflows.
pub open spec fn turn_fits(st: TurnState) -> bool {
    forall|k: nat|
        k < st.movers.len() && ready((#[trigger] run_actions(st, k)).movers[k as int]) ==> act_fits(
            run_actions(st, k),
            k as int,
        )
}

/// The first opponent is a target of another team, and all targets before it are on `team`.
pub proof fn lemma_first_opponent(ts: Seq<Combatant>, team: Team)
    ensures
        match first_opponent(ts, team) {
            Some(t) => 0 <= t < ts.len() && ts[t].team != team && forall|u: int|
                0 <= u < t ==> #[trigger] ts[u].team == team,
            None => forall|u: int| 0 <= u < ts.len() ==> #[trigger] ts[u].team == team,
        },
    decreases ts.len(),
{
    if ts.len() > 0 {
        lemma_first_opponent(ts.drop_first(), team);
        assert forall|u: int| 1 <= u < ts.len() implies ts[u] == ts.drop_first()[u - 1] by {}
    }
}

/// The pool found for an entity belongs to it, and no earlier pool does.
pub proof fn lemma_find_pool(ps: Seq<StaminaPool>, entity: u64)
    ensures
        match find_pool(ps, entity) {
            Some(p) => 0 <= p < ps.len() && ps[p].entity == entity && forall|u: int|
                0 <= u < p ==> #[trigger] ps[u].entity != entity,
            None => forall|u: int| 0 <= u < ps.len() ==> #[trigger] ps[u].entity != entity,
        },
    decreases ps.len(),
{
    if ps.len() > 0 {
        lemma_find_pool(ps.drop_first(), entity);
        assert forall|u: int| 1 <= u < ps.len() implies ps[u] == ps.drop_first()[u - 1] by {}
    }
}

/// An index moved by `d`.
pub open spec fn shift_index(o: Option<int>, d: int) -> Option<int> {
    match o {
        Some(j) => Some(j + d),
        None => None,
    }
}

/// The index of the first target that is not on `team`.
fn first_opponent_index(targets: &Vec<Combatant>, team: Team) -> (r: Option<usize>)
    ensures
        r matches Some(t) ==> t < targets.len(),
        match first_opponent(targets@, team) {
            Some(t) => 0 <= t < targets.len() && r == Some(t as usize),
            None => r is None,
        },
{
    proof {
        lemma_first_opponent(targets@, team);
    }
    let mut i: usize = 0;
    assert(targets@.skip(0) =~= targets@);
    while i < targets.len()
        invariant
            i <= targets.len(),
            first_opponent(targets@, team) == shift_index(
                first_opponent(targets@.skip(i as int), team),
                i as int,
            ),
        decreases targets.len() - i,
    {
        assert(targets@.skip(i as int).drop_first() =~= targets@.skip(i + 1));
        if targets[i].team != team {
            return Some(i);
        }
        i = i + 1;
    }
    None
}

/// The index of the first stamina pool of `entity`.
fn find_pool_index(pools: &Vec<StaminaPool>, entity: u64) -> (r: Option<usize>)
    ensures
        r matches Some(p) ==> p < pools.len(),
        match find_pool(pools@, entity) {
            Some(p) => 0 <= p < pools.len() && r == Some(p as usize),
            None => r is None,
        },
{
    proof {
        lemma_find_pool(pools@, entity);
    }
    let mut i: usize = 0;
    assert(pools@.skip(0) =~= pools@);
    while i < pools.len()
        invariant
            i <= pools.len(),
            find_pool(pools@, entity) == shift_index(find_pool(pools@.skip(i as int), entity), i as int),
        decreases pools.len() - i,
    {
        assert(pools@.skip(i as int).drop_first() =~= pools@.skip(i + 1));
        if pools[i].entity == entity {
            return Some(i);
        }
        i = i + 1;
    }
    None
}

/// Resolves one combat turn: each mover whose meter is full acts, in order (see `act`);
/// then, when one team has no unit with health left, the battle ends and the game returns to
/// the day phase (`Some(GameState::DayPhase)`); otherwise `None`.
pub fn combat_turn_system(
    movers: &mut Vec<Mover>,
    targets: &mut Vec<Combatant>,
    pools: &mut Vec<StaminaPool>,
) -> (next: Option<GameState>)
    requires
        turn_fits(TurnState { movers: old(movers)@, targets: old(targets)@, pools: old(pools)@ }),
    ensures
        ({
            let st = run_actions(
                TurnState { movers: old(movers)@, targets: old(targets)@, pools: old(pools)@ },
                old(movers)@.len(),
            );
            &&& final(movers)@ == st.movers
            &&& final(targets)@ == st.targets
            &&& final(pools)@ == st.pools
            &&& next == battle_outcome(st.targets)
        }),
{
    let ghost init = TurnState { movers: movers@, targets: targets@, pools: pools@ };
    let ghost m0 = movers@;
    let ghost t0 = targets@;
    let n = movers.len();
    let mut i: usize = 0;
    while i < n
        invariant
            n == movers.len(),
            n == m0.len(),
            i <= n,
            targets.len() == t0.len(),
            pools.len() == init.pools.len(),
            init.movers == m0,
            init.targets == t0,
            turn_fits(init),
            run_actions(init, i as nat).movers == movers@,
            run_actions(init, i as nat).targets == targets@,
            run_actions(init, i as nat).pools == pools@,
            forall|j: int|
                0 <= j < n ==> {
                    &&& (#[trigger] movers@[j]).entity == m0[j].entity
                    &&& movers@[j].attack == m0[j].attack
                    &&& movers@[j].speed == m0[j].speed
                    &&& movers@[j].team == m0[j].team
                    &&& movers@[j].material == m0[j].material
                    &&& movers@[j].tag == m0[j].tag
                    &&& movers@[j].parent == m0[j].parent
                    &&& movers@[j].meter.threshold == m0[j].meter.threshold
                },
            forall|j: int| i <= j < n ==> #[trigger] movers@[j] == m0[j],
            forall|t: int|
                0 <= t < targets.len() ==> {
                    &&& (#[trigger] targets@[t]).entity == t0[t].entity
                    &&& targets@[t].team == t0[t].team
                    &&& targets@[t].defense == t0[t].defense
                    &&& targets@[t].unit_type == t0[t].unit_type
                },
        decreases n - i,
    {
        let ghost prev = run_actions(init, i as nat);
        let m = movers[i];
        assert(m == m0[i as int]);
        if m.meter.value >= m.meter.threshold {
            assert(act_fits(prev, i as int));
            let mut skip = false;
            let mut pool_index: Option<usize> = None;
            match (m.tag, m.parent) {
                (Some(tag), Some(parent)) => {
                    match find_pool_index(pools, parent) {
                        Some(p) => {
                            if pools[p].stamina.current < tag.stamina_cost {
                                skip = true;
                            } else {
                                pool_index = Some(p);
                            }
                        },
                        None => {},
                    }
                },
                _ => {},
            }
            if !skip {
                match pool_index {
                    Some(p) => {
                        let pool = pools[p];
                        let cost = m.tag.unwrap().stamina_cost;
                        pools.set(
                            p,
                            StaminaPool {
                                stamina: Stamina {
                                    current: pool.stamina.current - cost,
                                    max: pool.stamina.max,
                                },
                                entity: pool.entity,
                            },
                        );
                    },
                    None => {},
                }
                movers.set(
                    i,
                    Mover {
                        meter: ActionMeter {
                            value: m.meter.value - m.meter.threshold,
                            threshold: m.meter.threshold,
                        },
                        ..m
                    },
                );
                match first_opponent_index(targets, m.team) {
                    Some(t) => {
                        let target = targets[t];
                        let material = match m.material {
                            Some(x) => x,
                            None => MaterialType::Steel,
                        };
                        let dmg = calculate_damage(
                            m.attack.value,
                            material,
                            target.unit_type,
                            target.defense.value,
                        );
                        targets.set(
                            t,
                            Combatant {
                                health: Health {
                                    current: target.health.current - dmg,
                                    max: target.health.max,
                                },
                                ..target
                            },
                        );
                    },
                    None => {},
                }
            }
        }
        i = i + 1;
        proof {
            assert(run_actions(init, i as nat) == (if ready(prev.movers[i - 1]) {
                act(prev, i - 1)
            } else {
                prev
            }));
            if ready(prev.movers[i - 1]) {
                assert(act(prev, i - 1).movers =~= movers@);
                assert(act(prev, i - 1).targets =~= targets@);
            }
        }
    }
    let mut player_hp: i64 = 0;
    let mut enemy_hp: i64 = 0;
    let mut t: usize = 0;
    while t < targets.len()
        invariant
            t <= targets.len(),
            player_hp >= 0,
            enemy_hp >= 0,
            (player_hp > 0) == (exists|u: int|
                0 <= u < t && #[trigger] targets@[u].team == Team::Player
                    && targets@[u].health.current > 0),
            (enemy_hp > 0) == (exists|u: int|
                0 <= u < t && #[trigger] targets@[u].team == Team::Enemy
                    && targets@[u].health.current > 0),
        decreases targets.len() - t,
    {
        let target = targets[t];
        if target.health.current > 0 {
            match target.team {
                Team::Player => {
                    player_hp = target.health.current;
                },
                Team::Enemy => {
                    enemy_hp = target.health.current;
                },
            }
        }
        t = t + 1;
    }
    if player_hp <= 0 {
        Some(GameState::DayPhase)
    } else if enemy_hp <= 0 {
        Some(GameState::DayPhase)
    } else {
        None
    }
}

/// Against a non-negative defense, a non-negative raw damage never heals.
pub proof fn lemma_damage_not_negative(raw: int, defense: int)
    requires
        raw >= 0,
        defense >= 0,
    ensures
        spec_final_damage(raw, defense) >= 0,
{
    if raw < defense {
        assert(raw * raw >= 0) by (nonlinear_arith);
    }
}

/// The two branches of the damage formula meet at the threshold: a raw damage equal to the
/// (non-negative) defense deals exactly itself.
pub proof fn lemma_damage_continuous_at_defense(d: int)
    requires
        d >= 0,
    ensures
        spec_final_damage(d, d) == d,
{
}

/// A hit that does not pierce the defense deals at most its raw damage.
pub proof fn lemma_absorbed_hit_at_most_raw(raw: int, defense: int)
    requires
        0 <= raw < defense,
    ensures
        spec_final_damage(raw, defense) <= raw,
{
    assert((raw * raw) / defense <= raw) by (nonlinear_arith)
        requires
            0 <= raw < defense,
    ;
}

/// More raw damage never deals less final damage (for non-negative values).
pub proof fn lemma_damage_monotonic(r1: int, r2: int, defense: int)
    requires
        0 <= r1 <= r2,
        defense >= 0,
    ensures
        spec_final_damage(r1, defense) <= spec_final_damage(r2, defense),
{
    if r2 < defense {
        assert((r1 * r1) / defense <= (r2 * r2) / defense) by (nonlinear_arith)
            requires
                0 <= r1 <= r2,
                defense > 0,
        ;
    } else if r1 < defense {
        lemma_absorbed_hit_at_most_raw(r1, defense);
    }
}

/// More defense never lets more damage through (for a non-negative raw damage and defense).
pub proof fn lemma_damage_antitone_in_defense(raw: int, d1: int, d2: int)
    requires
        raw >= 0,
        0 <= d1 <= d2,
    ensures
        spec_final_damage(raw, d2) <= spec_final_damage(raw, d1),
{
    if raw >= d2 {
    } else if raw >= d1 {
        lemma_absorbed_hit_at_most_raw(raw, d2);
    } else {
        assert(raw * raw >= 0) by (nonlinear_arith);
        vstd::arithmetic::div_mod::lemma_div_is_ordered_by_denominator(raw * raw, d1, d2);
    }
}

/// The raw damage of a non-negative weapon damage is non-negative, and grows with the
/// weapon damage.
pub proof fn lemma_raw_damage_monotonic(w1: int, w2: int, material: MaterialType, target: UnitType)
    requires
        0 <= w1 <= w2,
    ensures
        0 <= spec_raw_damage(w1, material, target) <= spec_raw_damage(w2, material, target),
{
    let e = spec_efficiency(material, target) as int;
    assert(0 <= e);
    assert(0 <= w1 * e <= w2 * e) by (nonlinear_arith)
        requires
            0 <= w1 <= w2,
            0 <= e,
    ;
    vstd::arithmetic::div_mod::lemma_div_is_ordered(w1 * e, w2 * e, 1000);
    vstd::arithmetic::div_mod::lemma_div_pos_is_pos(w1 * e, 1000);
}

/// A weapon hit never heals: a non-negative weapon damage against a non-negative defense
/// deals non-negative damage, whatever the material and the target.
pub proof fn lemma_hit_not_negative(
    weapon_damage: int,
    material: MaterialType,
    target: UnitType,
    defense: int,
)
    requires
        weapon_damage >= 0,
        defense >= 0,
    ensures
        spec_damage(weapon_damage, material, target, defense) >= 0,
{
    lemma_raw_damage_monotonic(weapon_damage, weapon_damage, material, target);
    lemma_damage_not_negative(spec_raw_damage(weapon_damage, material, target), defense);
}

/// The damage of a hit never falls as the weapon damage rises or as the target's defense
/// falls (for non-negative weapon damages and defenses).
pub proof fn lemma_hit_monotonic(
    w1: int,
    w2: int,
    material: MaterialType,
    target: UnitType,
    d1: int,
    d2: int,
)
    requires
        0 <= w1 <= w2,
        0 <= d2 <= d1,
    ensures
        spec_damage(w1, material, target, d1) <= spec_damage(w2, material, target, d2),
{
    lemma_raw_damage_monotonic(w1, w2, material, target);
    let r1 = spec_raw_damage(w1, material, target);
    let r2 = spec_raw_damage(w2, material, target);
    lemma_damage_monotonic(r1, r2, d1);
    lemma_damage_antitone_in_defense(r2, d2, d1);
}

/// Regeneration never lifts stamina above its maximum, nor lowers it.
pub proof fn lemma_regen_capped(stamina: Stamina)
    ensures
        stamina.current <= stamina.max ==> spec_regen(stamina).current <= stamina.max,
        spec_regen(stamina).current >= stamina.current,
        spec_regen(stamina).max == stamina.max,
{
}

/// No weapon attacks with a negative value and no target has a negative defense.
pub open spec fn non_negative_combat(st: TurnState) -> bool {
    &&& forall|i: int| 0 <= i < st.movers.len() ==> (#[trigger] st.movers[i]).attack.value >= 0
    &&& forall|t: int| 0 <= t < st.targets.len() ==> (#[trigger] st.targets[t]).defense.value >= 0
}

/// After the first `k` actions of a turn: the lists keep their lengths, movers keep their
/// attack and material, targets keep everything but their health, and no target gained
/// health.
proof fn lemma_actions_never_heal(st: TurnState, k: nat)
    requires
        turn_fits(st),
        non_negative_combat(st),
        k <= st.movers.len(),
    ensures
        run_actions(st, k).movers.len() == st.movers.len(),
        run_actions(st, k).targets.len() == st.targets.len(),
        run_actions(st, k).pools.len() == st.pools.len(),
        forall|j: int| 0 <= j < st.movers.len() ==> {
            &&& (#[trigger] run_actions(st, k).movers[j]).attack == st.movers[j].attack
            &&& run_actions(st, k).movers[j].material == st.movers[j].material
            &&& run_actions(st, k).movers[j].team == st.movers[j].team
        },
        forall|t: int| 0 <= t < st.targets.len() ==> {
            &&& (#[trigger] run_actions(st, k).targets[t]).entity == st.targets[t].entity
            &&& run_actions(st, k).targets[t].team == st.targets[t].team
            &&& run_actions(st, k).targets[t].defense == st.targets[t].defense
            &&& run_actions(st, k).targets[t].unit_type == st.targets[t].unit_type
            &&& run_actions(st, k).targets[t].health.max == st.targets[t].health.max
            &&& run_actions(st, k).targets[t].health.current <= st.targets[t].health.current
        },
    decreases k,
{
    if k > 0 {
        lemma_actions_never_heal(st, (k - 1) as nat);
        let prev = run_actions(st, (k - 1) as nat);
        let i = k - 1;
        if ready(prev.movers[i]) {
            assert(act_fits(prev, i as int));
            let m = prev.movers[i];
            let pool = paying_pool(prev, m);
            if !(pool is Some && prev.pools[pool.unwrap()].stamina.current < m.tag.unwrap().stamina_cost) {
                lemma_first_opponent(prev.targets, m.team);
                match first_opponent(prev.targets, m.team) {
                    Some(t) => {
                        assert(hit_damage(m, prev.targets[t]) == hit_damage(st.movers[i], st.targets[t]));
                        lemma_raw_not_negative(st.movers[i], st.targets[t]);
                    },
                    None => {},
                }
                match pool {
                    Some(p) => {
                        lemma_find_pool(prev.pools, m.parent.unwrap());
                    },
                    None => {},
                }
            }
        }
    }
}

/// A hit of a non-negative attack on a non-negative defense deals no negative damage.
proof fn lemma_raw_not_negative(m: Mover, t: Combatant)
    requires
        m.attack.value >= 0,
        t.defense.value >= 0,
    ensures
        hit_damage(m, t) >= 0,
{
    let mat = match m.material {
        Some(x) => x,
        None => MaterialType::Steel,
    };
    let e = spec_efficiency(mat, t.unit_type);
    assert(m.attack.value * e >= 0) by (nonlinear_arith)
        requires
            m.attack.value >= 0,
            e >= 0,
    ;
    lemma_damage_not_negative(spec_raw_damage(m.attack.value as int, mat, t.unit_type), t.defense.value as int);
}

/// A combat turn never heals: when no weapon has a negative attack and no target a negative
/// defense, every target ends the turn with at most the health it started with, and keeps its
/// entity, team, defense, kind and maximum health.
pub proof fn lemma_turn_never_heals(st: TurnState)
    requires
        turn_fits(st),
        non_negative_combat(st),
    ensures
        run_actions(st, st.movers.len()).targets.len() == st.targets.len(),
        forall|t: int| 0 <= t < st.targets.len() ==> {
            &&& (#[trigger] run_actions(st, st.movers.len()).targets[t]).health.current <= st.targets[t].health.current
            &&& run_actions(st, st.movers.len()).targets[t].entity == st.targets[t].entity
            &&& run_actions(st, st.movers.len()).targets[t].team == st.targets[t].team
            &&& run_actions(st, st.movers.len()).targets[t].defense == st.targets[t].defense
            &&& run_actions(st, st.movers.len()).targets[t].unit_type == st.targets[t].unit_type
            &&& run_actions(st, st.movers.len()).targets[t].health.max == st.targets[t].health.max
        },
{
    lemma_actions_never_heal(st, st.movers.len());
}

/// How a turn ends, for every list of targets: when no Player-team target has health left,
/// or no Enemy-team target has, the game returns to the day phase; while some target of
/// each team still has health, the battle goes on.
pub proof fn lemma_battle_ends_when_a_side_falls(targets: Seq<Combatant>)
    ensures
        (forall|t: int| 0 <= t < targets.len() && #[trigger] targets[t].team == Team::Player
            ==> targets[t].health.current <= 0) ==> battle_outcome(targets) == Some(GameState::DayPhase),
        (forall|t: int| 0 <= t < targets.len() && #[trigger] targets[t].team == Team::Enemy
            ==> targets[t].health.current <= 0) ==> battle_outcome(targets) == Some(GameState::DayPhase),
        (exists|a: int, b: int|
            0 <= a < targets.len() && 0 <= b < targets.len() && #[trigger] targets[a].team == Team::Player
                && targets[a].health.current > 0 && #[trigger] targets[b].team == Team::Enemy
                && targets[b].health.current > 0) ==> battle_outcome(targets) is None,
        battle_outcome(targets) is None || battle_outcome(targets) == Some(GameState::DayPhase),
{
    if exists|a: int, b: int|
        0 <= a < targets.len() && 0 <= b < targets.len() && #[trigger] targets[a].team == Team::Player
            && targets[a].health.current > 0 && #[trigger] targets[b].team == Team::Enemy
            && targets[b].health.current > 0 {
        let (a, b) = choose|a: int, b: int|
            0 <= a < targets.len() && 0 <= b < targets.len() && #[trigger] targets[a].team == Team::Player
                && targets[a].health.current > 0 && #[trigger] targets[b].team == Team::Enemy
                && targets[b].health.current > 0;
        assert(targets[a].team == Team::Player);
        assert(targets[b].team == Team::Enemy);
    }
}

/// The components a fighter enters the arena with.
#[derive(Debug, Clone, Copy, PartialEq, Eq, Structural)]
pub struct FighterSetup {
    pub health: Health,
    pub attack: Attack,
    pub defense: Defense,
    pub speed: Speed,
    pub meter: ActionMeter,
    pub unit_type: UnitType,
    pub material: MaterialType,
    pub team: Team,
    /// Only the player carries stamina (which its items spend).
    pub stamina: Option<Stamina>,
}

/// The combat material of an item's material.
pub fn combat_material(m: items::MaterialType) -> (r: MaterialType)
    ensures
        r == match m {
            items::MaterialType::Steel => MaterialType::Steel,
            items::MaterialType::Silver => MaterialType::Silver,
            items::MaterialType::Flesh => MaterialType::Flesh,
        },
{
    match m {
        items::MaterialType::Steel => MaterialType::Steel,
        items::MaterialType::Silver => MaterialType::Silver,
        items::MaterialType::Flesh => MaterialType::Flesh,
    }
}

/// The two sides of a battle. The player, a steel-clad human, has 100 health plus the
/// inventory's health bonus (full), the inventory's defense, no attack or speed of its own
/// (its items fight), an empty meter and 10 of 10 stamina. The enemy is a flesh monster with
/// 150 of 150 health, attack 15, defense 2, speed 10 and an empty meter.
pub fn arena_fighters(stats: &CombatStats) -> (r: (FighterSetup, FighterSetup))
    requires
        stats.health <= i64::MAX - 100_000,
    ensures
        r.0.health.current == 100_000 + stats.health,
        r.0.health.max == 100_000 + stats.health,
        r.0.attack.value == 0,
        r.0.defense.value == stats.defense,
        r.0.speed.value == 0,
        r.0.meter == (ActionMeter { value: 0, threshold: 1_000_000 }),
        r.0.unit_type == UnitType::Human,
        r.0.material == MaterialType::Steel,
        r.0.team == Team::Player,
        r.0.stamina == Some(Stamina { current: 10_000, max: 10_000 }),
        r.1.health == (Health { current: 150_000, max: 150_000 }),
        r.1.attack.value == 15_000,
        r.1.defense.value == 2_000,
        r.1.speed.value == 10_000,
        r.1.meter == (ActionMeter { value: 0, threshold: 1_000_000 }),
        r.1.unit_type == UnitType::Monster,
        r.1.material == MaterialType::Flesh,
        r.1.team == Team::Enemy,
        r.1.stamina is None,
{
    let final_hp = 100_000 + stats.health;
    let player = FighterSetup {
        health: Health { current: final_hp, max: final_hp },
        attack: Attack { value: 0 },
        defense: Defense { value: stats.defense },
        speed: Speed { value: 0 },
        meter: ActionMeter::default(),
        unit_type: UnitType::Human,
        material: MaterialType::Steel,
        team: Team::Player,
        stamina: Some(Stamina { current: 10_000, max: 10_000 }),
    };
    let enemy = FighterSetup {
        health: Health { current: 150_000, max: 150_000 },
        attack: Attack { value: 15_000 },
        defense: Defense { value: 2_000 },
        speed: Speed { value: 10_000 },
        meter: ActionMeter::default(),
        unit_type: UnitType::Monster,
        material: MaterialType::Flesh,
        team: Team::Enemy,
        stamina: None,
    };
    (player, enemy)
}

} // verus!
