//! The game's top-level states and how the main menu moves between them.
use vstd::prelude::*;

verus! {

/// Where the game is.
#[derive(Clone, Copy, PartialEq, Eq, Structural)]
pub enum GameState {
    MainMenu,
    InGame,
    Settings,
}

impl Default for GameState {
    fn default() -> (s: Self)
        ensures
            s == GameState::MainMenu,
    {
        GameState::MainMenu
    }
}

/// What a main menu button asks for.
#[derive(Clone, Copy, PartialEq, Eq, Structural)]
pub enum MainMenuStates {
    NewGame,
    Tutorial,
    Settings,
}

/// Where a main menu choice leads, and whether the tutorial is to be
/// shown there.
pub fn changing_states(move_to_where: MainMenuStates) -> (r: (GameState, bool))
    ensures
        r == match move_to_where {
            MainMenuStates::NewGame => (GameState::InGame, false),
            MainMenuStates::Tutorial => (GameState::InGame, true),
            MainMenuStates::Settings => (GameState::Settings, false),
        },
{
    match move_to_where {
        MainMenuStates::NewGame => (GameState::InGame, false),
        MainMenuStates::Tutorial => (GameState::InGame, true),
        MainMenuStates::Settings => (GameState::Settings, false),
    }
}

} // verus!
