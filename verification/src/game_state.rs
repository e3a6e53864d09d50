use vstd::prelude::*;

verus! {

/// The phase the game is in.
#[derive(Debug, Clone, Copy, PartialEq, Eq, Structural, Hash)]
pub enum GameState {
    Menu,
    Loading,
    Playing,
    GameOver,
}

impl Default for GameState {
    /// The game starts in the menu.
    fn default() -> (r: GameState)
        ensures
            r == GameState::Menu,
    {
        GameState::Menu
    }
}

/// Whether the next `Playing` phase starts a new game (not a loaded one).
#[derive(Debug, Clone, Copy, Default)]
pub struct IsFreshGame(pub bool);

/// What one frame of the global keys asks for.
#[derive(Debug, Clone, Copy, PartialEq, Eq, Structural)]
pub struct Transition {
    /// Leave the build mode.
    pub clear_build_mode: bool,
    /// Mark the next game as a fresh one.
    pub fresh_game: bool,
    /// The phase to switch to.
    pub next_state: Option<GameState>,
}

/// The global keys: while playing, `cancel` leaves the build mode; after a
/// game over, `restart` starts a fresh game and `cancel` returns to the menu.
pub open spec fn spec_transition(state: GameState, build_mode_active: bool, cancel: bool, restart: bool) -> Transition {
    match state {
        GameState::Playing => Transition {
            clear_build_mode: build_mode_active && cancel,
            fresh_game: false,
            next_state: None,
        },
        GameState::GameOver => if restart {
            Transition { clear_build_mode: false, fresh_game: true, next_state: Some(GameState::Playing) }
        } else if cancel {
            Transition { clear_build_mode: false, fresh_game: false, next_state: Some(GameState::Menu) }
        } else {
            Transition { clear_build_mode: false, fresh_game: false, next_state: None }
        },
        _ => Transition { clear_build_mode: false, fresh_game: false, next_state: None },
    }
}

/// Decides what the global keys do in the current phase.
pub fn game_state_transition(state: GameState, build_mode_active: bool, cancel: bool, restart: bool) -> (r: Transition)
    ensures
        r == spec_transition(state, build_mode_active, cancel, restart),
{
    match state {
        GameState::Playing => Transition {
            clear_build_mode: build_mode_active && cancel,
            fresh_game: false,
            next_state: None,
        },
        GameState::GameOver => {
            if restart {
                Transition { clear_build_mode: false, fresh_game: true, next_state: Some(GameState::Playing) }
            } else if cancel {
                Transition { clear_build_mode: false, fresh_game: false, next_state: Some(GameState::Menu) }
            } else {
                Transition { clear_build_mode: false, fresh_game: false, next_state: None }
            }
        },
        _ => Transition { clear_build_mode: false, fresh_game: false, next_state: None },
    }
}

/// Without a key press nothing changes, whatever the phase.
pub proof fn law_no_key_no_transition(state: GameState, build_mode_active: bool)
    ensures
        spec_transition(state, build_mode_active, false, false) == (Transition {
            clear_build_mode: false,
            fresh_game: false,
            next_state: None,
        }),
{
}

/// Cancelling while playing never leaves the game: it only leaves the build
/// mode, and only when the build mode is on.
pub proof fn law_cancel_while_playing_stays(build_mode_active: bool, restart: bool)
    ensures
        spec_transition(GameState::Playing, build_mode_active, true, restart).next_state is None,
        spec_transition(GameState::Playing, build_mode_active, true, restart).clear_build_mode
            == build_mode_active,
{
}

} // verus!
