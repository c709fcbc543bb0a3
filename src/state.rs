//! The top-level game state machine.
use vstd::prelude::*;

verus! {

/// The current top-level state.
#[derive(Clone, Copy, Debug, PartialEq, Eq, Structural)]
pub enum GameState {
    Playing,
    End,
    MainMenu,
}

/// The state after a tick: a confirm starts a session from the menu or the
/// end screen; a game over ends a session.
pub open spec fn next_state_spec(s: GameState, confirm: bool, game_over: bool) -> GameState {
    match s {
        GameState::MainMenu => if confirm { GameState::Playing } else { s },
        GameState::End => if confirm { GameState::Playing } else { s },
        GameState::Playing => if game_over { GameState::End } else { s },
    }
}

pub fn next_state(s: GameState, confirm: bool, game_over: bool) -> (r: GameState)
    ensures
        r == next_state_spec(s, confirm, game_over),
{
    match s {
        GameState::MainMenu | GameState::End => if confirm { GameState::Playing } else { s },
        GameState::Playing => if game_over { GameState::End } else { s },
    }
}

} // verus!
