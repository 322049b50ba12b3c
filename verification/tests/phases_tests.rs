use cursed_warden::plugins::phases::{hud_combat_button, DaySubState};
use cursed_warden::plugins::phases::{debug_next_state, GameState};

#[test]
fn debug_transition_cycles_day_evening_night() {
    assert_eq!(debug_next_state(GameState::DayPhase), GameState::EveningPhase);
    assert_eq!(debug_next_state(GameState::EveningPhase), GameState::NightPhase);
    assert_eq!(debug_next_state(GameState::NightPhase), GameState::DayPhase);
    assert_eq!(debug_next_state(GameState::MainMenu), GameState::DayPhase);
}

#[test]
fn combat_button_only_in_the_evening() {
    assert_eq!(hud_combat_button(GameState::EveningPhase, false), (true, None));
    assert_eq!(hud_combat_button(GameState::EveningPhase, true), (true, Some(GameState::NightPhase)));
    assert_eq!(hud_combat_button(GameState::DayPhase, true), (false, None));
    assert_eq!(hud_combat_button(GameState::NightPhase, false), (false, None));
}

#[test]
fn default_states() {
    assert_eq!(GameState::default(), GameState::AssetLoading);
    assert_eq!(DaySubState::default(), DaySubState::Idle);
}
