use bloatware::audio::{AudioPlugin, SoundEffect};
use bloatware::debug::DebugOptions;
use bloatware::game::{clock_parts, Game, GameState};

#[test]
fn new_game_starts_at_menu() {
    let g = Game::new();
    assert_eq!(g.state, GameState::Menu);
    assert_eq!(g.score, 0);
    assert!(!g.is_playing());
}

#[test]
fn space_starts_run_from_menu() {
    let mut g = Game::new();
    assert!(g.handle_state_transitions(true));
    assert_eq!(g, Game { state: GameState::Playing, score: 0 });
    assert!(g.is_playing());
}

#[test]
fn space_not_pressed_changes_nothing() {
    let mut g = Game::new();
    assert!(!g.handle_state_transitions(false));
    assert_eq!(g.state, GameState::Menu);
}

#[test]
fn space_restarts_after_game_over_and_resets_score() {
    let mut g = Game { state: GameState::GameOver, score: 17 };
    assert!(g.handle_state_transitions(true));
    assert_eq!(g, Game { state: GameState::Playing, score: 0 });
}

#[test]
fn space_ignored_while_playing_or_paused() {
    let mut g = Game { state: GameState::Playing, score: 4 };
    assert!(!g.handle_state_transitions(true));
    assert_eq!(g, Game { state: GameState::Playing, score: 4 });
    let mut p = Game { state: GameState::Paused, score: 4 };
    assert!(!p.handle_state_transitions(true));
    assert_eq!(p, Game { state: GameState::Paused, score: 4 });
}

#[test]
fn escape_toggles_pause_and_back() {
    let mut g = Game { state: GameState::Playing, score: 3 };
    g.handle_pause(true);
    assert_eq!(g, Game { state: GameState::Paused, score: 3 });
    g.handle_pause(false);
    assert_eq!(g.state, GameState::Paused);
    g.handle_pause(true);
    assert_eq!(g, Game { state: GameState::Playing, score: 3 });
}

#[test]
fn escape_ignored_at_menu_and_game_over() {
    let mut g = Game::new();
    g.handle_pause(true);
    assert_eq!(g.state, GameState::Menu);
    let mut o = Game { state: GameState::GameOver, score: 2 };
    o.handle_pause(true);
    assert_eq!(o, Game { state: GameState::GameOver, score: 2 });
}

#[test]
fn enemy_contact_ends_running_game_only() {
    let mut g = Game { state: GameState::Playing, score: 9 };
    g.player_caught();
    assert_eq!(g, Game { state: GameState::GameOver, score: 9 });
    let mut p = Game { state: GameState::Paused, score: 9 };
    p.player_caught();
    assert_eq!(p.state, GameState::Paused);
    let mut m = Game::new();
    m.player_caught();
    assert_eq!(m.state, GameState::Menu);
}

#[test]
fn destroyed_enemy_scores_while_playing() {
    let mut g = Game { state: GameState::Playing, score: 0 };
    g.enemy_destroyed();
    g.enemy_destroyed();
    assert_eq!(g, Game { state: GameState::Playing, score: 2 });
    let mut p = Game { state: GameState::Paused, score: 5 };
    p.enemy_destroyed();
    assert_eq!(p.score, 5);
    let mut top = Game { state: GameState::GameOver, score: u32::MAX };
    top.enemy_destroyed();
    assert_eq!(top.score, u32::MAX);
}

#[test]
fn full_session_sequence() {
    let mut g = Game::new();
    g.handle_state_transitions(true);
    g.enemy_destroyed();
    g.handle_pause(true);
    g.enemy_destroyed();
    g.handle_pause(true);
    g.enemy_destroyed();
    g.player_caught();
    assert_eq!(g, Game { state: GameState::GameOver, score: 2 });
    g.handle_state_transitions(true);
    assert_eq!(g, Game { state: GameState::Playing, score: 0 });
}

#[test]
fn clock_splits_minutes_and_seconds() {
    assert_eq!(clock_parts(0), (0, 0));
    assert_eq!(clock_parts(59), (0, 59));
    assert_eq!(clock_parts(60), (1, 0));
    assert_eq!(clock_parts(125), (2, 5));
    assert_eq!(clock_parts(u32::MAX), (71582788, 15));
}

#[test]
fn debug_defaults_and_toggles() {
    let mut d = DebugOptions::default();
    assert!(!d.show_collisions);
    assert!(d.show_sprites);
    d.toggle_debug(true, false);
    assert!(d.show_collisions);
    assert!(d.show_sprites);
    d.toggle_debug(false, true);
    assert!(d.show_collisions);
    assert!(!d.show_sprites);
    d.toggle_debug(true, true);
    assert_eq!(d, DebugOptions { show_collisions: false, show_sprites: true });
}

#[test]
fn debug_keys_twice_restore() {
    let start = DebugOptions { show_collisions: true, show_sprites: false };
    let mut d = start;
    d.toggle_debug(true, true);
    d.toggle_debug(true, true);
    assert_eq!(d, start);
}

#[test]
fn sound_effects_load_their_files() {
    assert_eq!(AudioPlugin::asset_path(SoundEffect::Shoot), "audio/shoot.ogg");
    assert_eq!(AudioPlugin::asset_path(SoundEffect::Dash), "audio/dash.ogg");
    assert_eq!(AudioPlugin::asset_path(SoundEffect::Hit), "audio/hit.ogg");
    assert_eq!(AudioPlugin::asset_path(SoundEffect::Step), "audio/step.ogg");
}
