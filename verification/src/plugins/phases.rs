//! The phases of a game day and the transitions between them.
use vstd::prelude::*;

verus! {

/// The top-level phases of a game day.
#[derive(Debug, Clone, Copy, PartialEq, Eq, Hash, Structural)]
pub enum GameState {
    AssetLoading,
    MainMenu,
    DayPhase,
    EveningPhase,
    NightPhase,
    EventResolution,
    GameOver,
}

impl Default for GameState {
    /// The game starts by loading its assets.
    fn default() -> (s: Self)
        ensures
            s == GameState::AssetLoading,
    {
        GameState::AssetLoading
    }
}

/// What the player does during the day phase.
#[derive(Debug, Clone, Copy, PartialEq, Eq, Hash, Structural)]
pub enum DaySubState {
    Idle,
    Trading,
    MapTravel,
}

impl Default for DaySubState {
    /// A day starts idle.
    fn default() -> (s: Self)
        ensures
            s == DaySubState::Idle,
    {
        DaySubState::Idle
    }
}

/// The start-combat button of the HUD: it is shown only in the evening phase, and pressing
/// it there starts the night phase. Returns whether the button is visible and the state to
/// switch to, if any.
pub fn hud_combat_button(state: GameState, pressed: bool) -> (r: (bool, Option<GameState>))
    ensures
        r.0 == (state == GameState::EveningPhase),
        r.1 == if state == GameState::EveningPhase && pressed {
            Some(GameState::NightPhase)
        } else {
            None
        },
{
    let show_button = state == GameState::EveningPhase;
    if show_button && pressed {
        (true, Some(GameState::NightPhase))
    } else {
        (show_button, None)
    }
}

/// The phase that follows `state` when the debug transition key is pressed.
pub open spec fn spec_debug_next_state(state: GameState) -> GameState {
    match state {
        GameState::DayPhase => GameState::EveningPhase,
        GameState::EveningPhase => GameState::NightPhase,
        _ => GameState::DayPhase,
    }
}

/// Cycles Day -> Evening -> Night -> Day; any other state goes to the day phase.
pub fn debug_next_state(state: GameState) -> (next: GameState)
    ensures
        next == spec_debug_next_state(state),
{
    match state {
        GameState::DayPhase => GameState::EveningPhase,
        GameState::EveningPhase => GameState::NightPhase,
        _ => GameState::DayPhase,
    }
}

} // verus!
