use cursed_warden::plugins::combat::{arena_fighters, combat_material};
use cursed_warden::plugins::inventory::CombatStats;
use cursed_warden::plugins::items;
use cursed_warden::plugins::combat::{
    calculate_damage, calculate_final_damage, combat_turn_system, regen_stamina, tick_timer_system,
    ActionMeter, Attack, Combatant, CombatItemTag, Defense, Health, MaterialType, Mover, Speed,
    Stamina, StaminaPool, Team, UnitType,
};
use cursed_warden::plugins::phases::GameState;

/// Fixed-point value (thousandths) of a game quantity.
fn milli(v: f32) -> i64 {
    (v * 1000.0).round() as i64
}

#[test]
fn test_material_efficiency() {
    assert_eq!(MaterialType::Steel.efficiency(UnitType::Human), milli(1.5));
    assert_eq!(MaterialType::Steel.efficiency(UnitType::Ethereal), milli(0.0));
    assert_eq!(MaterialType::Silver.efficiency(UnitType::Monster), milli(2.0));
    assert_eq!(MaterialType::Flesh.efficiency(UnitType::Human), milli(1.2));
}

#[test]
fn test_damage_formula_high_pierce() {
    let damage = milli(10.0);
    let defense = milli(5.0);
    // Steel vs Human is 1.5x. Raw = 15. Final = 2*15 - 5 = 25.
    let calculated = calculate_damage(damage, MaterialType::Steel, UnitType::Human, defense);
    assert_eq!(calculated, milli(25.0));
}

#[test]
fn test_damage_formula_low_pierce() {
    // Steel (0.8) vs Monster: Raw = 10 * 0.8 = 8.0 < 20; Final = 8^2 / 20 = 3.2
    let weapon_damage = milli(10.0);
    let material = MaterialType::Steel;
    let unit_type = UnitType::Monster;
    let defense = milli(20.0);
    let calculated = calculate_damage(weapon_damage, material, unit_type, defense);
    assert_eq!(calculated, milli(3.2));
}

#[test]
fn combat_test_action_meter_tick() {
    let mut meters = vec![(Speed { value: milli(50.0) }, ActionMeter { value: milli(0.0), threshold: milli(1000.0) })];
    let mut staminas: Vec<Stamina> = Vec::new();
    tick_timer_system(&mut meters, &mut staminas);
    assert_eq!(meters[0].1.value, milli(50.0));
}

#[test]
fn test_damage_formula_high_raw() {
    let raw = milli(10.0);
    let defense = milli(5.0);
    // Raw >= Defense: 2 * 10 - 5 = 15
    assert_eq!(calculate_final_damage(raw, defense), milli(15.0));
}

#[test]
fn test_damage_formula_low_raw() {
    let raw = milli(4.0);
    let defense = milli(8.0);
    // Raw < Defense: 4^2 / 8 = 16 / 8 = 2
    assert_eq!(calculate_final_damage(raw, defense), milli(2.0));
}

#[test]
fn test_damage_formula_equal() {
    let raw = milli(5.0);
    let defense = milli(5.0);
    // Raw >= Defense: 2 * 5 - 5 = 5
    assert_eq!(calculate_final_damage(raw, defense), milli(5.0));
}

#[test]
fn test_material_modifiers() {
    let steel = MaterialType::Steel;
    assert_eq!(steel.efficiency(UnitType::Human), milli(1.5));
    assert_eq!(steel.efficiency(UnitType::Monster), milli(0.8));
    assert_eq!(steel.efficiency(UnitType::Ethereal), milli(0.0));

    let silver = MaterialType::Silver;
    assert_eq!(silver.efficiency(UnitType::Human), milli(0.7));
    assert_eq!(silver.efficiency(UnitType::Monster), milli(2.0));
    assert_eq!(silver.efficiency(UnitType::Ethereal), milli(3.0));

    let flesh = MaterialType::Flesh;
    assert_eq!(flesh.efficiency(UnitType::Human), milli(1.2));
    assert_eq!(flesh.efficiency(UnitType::Monster), milli(1.2));
    assert_eq!(flesh.efficiency(UnitType::Ethereal), milli(0.5));
}

#[test]
fn tests_test_action_meter_tick() {
    let mut meters = vec![(Speed { value: milli(10.0) }, ActionMeter { value: milli(0.0), threshold: milli(100.0) })];
    let mut staminas: Vec<Stamina> = Vec::new();
    tick_timer_system(&mut meters, &mut staminas);
    assert_eq!(meters[0].1.value, milli(10.0));
    tick_timer_system(&mut meters, &mut staminas);
    assert_eq!(meters[0].1.value, milli(20.0));
}

#[test]
fn damage_without_defense_doubles_raw() {
    assert_eq!(calculate_final_damage(milli(7.0), 0), milli(14.0));
    // a negative raw damage against no defense is taken as is
    assert_eq!(calculate_final_damage(milli(-3.0), milli(-1.0)), milli(-3.0));
    // piercing never goes below zero
    assert_eq!(calculate_final_damage(milli(-3.0), milli(-5.0)), 0);
}

#[test]
fn stamina_regenerates_up_to_max() {
    let mut s = Stamina { current: milli(9.98), max: milli(10.0) };
    regen_stamina(&mut s);
    assert_eq!(s.current, milli(10.0));
    regen_stamina(&mut s);
    assert_eq!(s.current, milli(10.0));
    let mut low = Stamina { current: milli(1.0), max: milli(10.0) };
    regen_stamina(&mut low);
    assert_eq!(low.current, milli(1.05));
}

fn weapon(entity: u64, value: i64, cost: i64) -> Mover {
    Mover {
        entity,
        meter: ActionMeter { value, threshold: milli(1000.0) },
        attack: Attack { value: milli(10.0) },
        speed: Speed { value: milli(10.0) },
        team: Team::Player,
        material: Some(MaterialType::Silver),
        tag: Some(CombatItemTag { accuracy: milli(1.0), stamina_cost: cost }),
        parent: Some(1),
    }
}

#[test]
fn combat_turn_hits_first_enemy_and_spends_stamina() {
    let mut movers = vec![weapon(10, milli(1000.0), milli(3.0)), weapon(11, milli(999.0), milli(3.0))];
    let mut targets = vec![
        Combatant { entity: 1, team: Team::Player, health: Health { current: milli(100.0), max: milli(100.0) }, defense: Defense { value: 0 }, unit_type: UnitType::Human },
        Combatant { entity: 2, team: Team::Enemy, health: Health { current: milli(150.0), max: milli(150.0) }, defense: Defense { value: milli(2.0) }, unit_type: UnitType::Monster },
    ];
    let mut pools = vec![StaminaPool { entity: 1, stamina: Stamina { current: milli(10.0), max: milli(10.0) } }];
    let next = combat_turn_system(&mut movers, &mut targets, &mut pools);
    // silver vs monster: raw 20 >= 2, damage 2 * 20 - 2 = 38
    assert_eq!(targets[1].health.current, milli(150.0 - 38.0));
    assert_eq!(targets[0].health.current, milli(100.0));
    assert_eq!(pools[0].stamina.current, milli(7.0));
    assert_eq!(movers[0].meter.value, 0);
    assert_eq!(movers[1].meter.value, milli(999.0));
    assert_eq!(next, None);
}

#[test]
fn combat_turn_waits_for_stamina_and_ends_battle() {
    let mut movers = vec![weapon(10, milli(1000.0), milli(30.0))];
    let mut targets = vec![
        Combatant { entity: 1, team: Team::Player, health: Health { current: milli(100.0), max: milli(100.0) }, defense: Defense { value: 0 }, unit_type: UnitType::Human },
        Combatant { entity: 2, team: Team::Enemy, health: Health { current: 0, max: milli(150.0) }, defense: Defense { value: 0 }, unit_type: UnitType::Monster },
    ];
    let mut pools = vec![StaminaPool { entity: 1, stamina: Stamina { current: milli(10.0), max: milli(10.0) } }];
    let next = combat_turn_system(&mut movers, &mut targets, &mut pools);
    // not enough stamina: the weapon waits with a full meter
    assert_eq!(movers[0].meter.value, milli(1000.0));
    assert_eq!(pools[0].stamina.current, milli(10.0));
    // the enemy has no health left: back to the day phase
    assert_eq!(next, Some(GameState::DayPhase));
}

#[test]
fn arena_sides() {
    let stats = CombatStats { attack: milli(30.0), defense: milli(4.0), speed: milli(1.0), health: milli(25.0) };
    let (player, enemy) = arena_fighters(&stats);
    assert_eq!(player.health, Health { current: milli(125.0), max: milli(125.0) });
    assert_eq!(player.defense.value, milli(4.0));
    assert_eq!(player.attack.value, 0);
    assert_eq!(player.team, Team::Player);
    assert_eq!(player.stamina, Some(Stamina { current: milli(10.0), max: milli(10.0) }));
    assert_eq!(player.meter, ActionMeter { value: 0, threshold: milli(1000.0) });
    assert_eq!(enemy.health, Health { current: milli(150.0), max: milli(150.0) });
    assert_eq!((enemy.attack.value, enemy.defense.value, enemy.speed.value), (milli(15.0), milli(2.0), milli(10.0)));
    assert_eq!((enemy.unit_type, enemy.material, enemy.team), (UnitType::Monster, MaterialType::Flesh, Team::Enemy));
    assert_eq!(enemy.stamina, None);
    assert_eq!(combat_material(items::MaterialType::Silver), MaterialType::Silver);
    assert_eq!(combat_material(items::MaterialType::Flesh), MaterialType::Flesh);
}

#[test]
fn damage_beyond_a_trillion_units() {
    // Raw 4.5e18 absorbed by a defense of 9e18: 4.5e18^2 / 9e18.
    assert_eq!(
        calculate_damage(3_000_000_000_000_000_000, MaterialType::Steel, UnitType::Human, 9_000_000_000_000_000_000),
        2_250_000_000_000_000_000
    );
    assert_eq!(calculate_final_damage(4_611_686_018_427_387_903, 1), 9_223_372_036_854_775_805);
    assert_eq!(calculate_final_damage(-5, 0), -5);
}

#[test]
fn more_defense_lets_less_through() {
    let low = calculate_damage(milli(10.0), MaterialType::Silver, UnitType::Monster, milli(5.0));
    let mid = calculate_damage(milli(10.0), MaterialType::Silver, UnitType::Monster, milli(20.0));
    let high = calculate_damage(milli(10.0), MaterialType::Silver, UnitType::Monster, milli(40.0));
    assert_eq!(low, milli(35.0));
    assert_eq!(mid, milli(20.0));
    assert_eq!(high, milli(10.0));
    assert!(low >= mid && mid >= high && high >= 0);
}
