//! The two top-level game states and the toggle between them.

use vstd::prelude::*;

verus! {

/// Whether the menu or the running game is shown.
#[derive(Clone, Copy, Debug, PartialEq, Eq, Hash, Structural)]
pub enum GameState {
    MENU,
    GAME,
}

impl Default for GameState {
    fn default() -> (r: Self)
        ensures
            r == GameState::GAME,
    {
        GameState::GAME
    }
}

/// The state to switch to on this update: the other state when the toggle
/// key was just pressed, else `None` (stay).
pub fn change_game_state(game_state: &GameState, toggle_just_pressed: bool) -> (r: Option<GameState>)
    ensures
        !toggle_just_pressed ==> r is None,
        toggle_just_pressed && *game_state == GameState::GAME ==> r == Some(GameState::MENU),
        toggle_just_pressed && *game_state == GameState::MENU ==> r == Some(GameState::GAME),
{
    if !toggle_just_pressed {
        return None;
    }
    let new = match game_state {
        GameState::GAME => GameState::MENU,
        GameState::MENU => GameState::GAME,
    };
    Some(new)
}

} // verus!
