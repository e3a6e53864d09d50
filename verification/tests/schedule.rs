use siege_factory::game_state::{game_state_transition, GameState};

#[test]
fn initial_state_is_menu() {
    assert_eq!(GameState::default(), GameState::Menu);
}

#[test]
fn no_keypress_no_transition() {
    let t = game_state_transition(GameState::Menu, false, false, false);
    assert_eq!(t.next_state, None);
    assert!(!t.clear_build_mode);
    assert!(!t.fresh_game);
    let t = game_state_transition(GameState::Playing, true, false, false);
    assert_eq!(t.next_state, None);
    assert!(!t.clear_build_mode);
}

#[test]
fn escape_cancels_build_mode_before_forfeit() {
    let t = game_state_transition(GameState::Playing, true, true, false);
    assert!(t.clear_build_mode);
    assert_eq!(t.next_state, None);
}

#[test]
fn cancel_without_build_mode_keeps_playing() {
    let t = game_state_transition(GameState::Playing, false, true, false);
    assert!(!t.clear_build_mode);
    assert_eq!(t.next_state, None);
}

#[test]
fn game_over_restart_starts_fresh_game() {
    let t = game_state_transition(GameState::GameOver, false, true, true);
    assert!(t.fresh_game);
    assert_eq!(t.next_state, Some(GameState::Playing));
}

#[test]
fn game_over_cancel_returns_to_menu() {
    let t = game_state_transition(GameState::GameOver, false, true, false);
    assert!(!t.fresh_game);
    assert_eq!(t.next_state, Some(GameState::Menu));
}

#[test]
fn nextstate_set_triggers_transition() {
    // The game is put in `Playing` from outside (the state machine applies the
    // request); on the next frame with no key pressed the rules keep it there.
    let state = GameState::Playing;
    let t = game_state_transition(state, false, false, false);
    assert_eq!(t.next_state, None);
    let after = t.next_state.unwrap_or(state);
    assert_eq!(after, GameState::Playing);
}
