//! Roster and round-advance behavior of the game state.

use draw_guess::{Color, DrawCanvas, GameState, Player};

fn player(name: &str) -> Player {
    Player { username: name.to_string(), active: false }
}

#[test]
fn first_player_becomes_drawer() {
    let mut g = GameState::new();
    assert!(g.add_player(player("ann")));
    assert_eq!(g.players.len(), 1);
    assert_eq!(g.players[0].username, "ann");
    assert!(g.players[0].active);
}

#[test]
fn second_player_joins_as_guesser() {
    let mut g = GameState::new();
    assert!(g.add_player(player("ann")));
    assert!(g.add_player(player("bo")));
    assert_eq!(g.players.len(), 2);
    assert!(g.players[0].active);
    assert!(!g.players[1].active);
}

#[test]
fn joining_twice_is_refused_and_changes_nothing() {
    let mut g = GameState::new();
    assert!(g.add_player(player("ann")));
    assert!(g.add_player(player("bo")));
    // same username, even with a different active flag, is the same player
    let again = Player { username: "ann".to_string(), active: true };
    assert!(!g.add_player(again));
    assert_eq!(g.players.len(), 2);
    assert_eq!(g.players[0].username, "ann");
    assert!(g.players[0].active);
    assert_eq!(g.players[1].username, "bo");
    assert!(!g.players[1].active);
}

#[test]
fn remove_player_reports_whether_drawer_left() {
    let mut g = GameState::new();
    g.add_player(player("ann"));
    g.add_player(player("bo"));
    assert!(g.remove_player(player("ann")));
    assert!(!g.remove_player(player("bo")));
    assert!(!g.remove_player(player("cy")));
    // reporting alone does not change the roster
    assert_eq!(g.players.len(), 2);
}

#[test]
fn new_round_rotates_drawer_and_resets() {
    let mut g = GameState::new();
    g.add_player(player("ann"));
    g.add_player(player("bo"));
    g.canvas.set_pixel(5, Color::Red);
    let old_prompt = g.prompt.clone();
    g.new_round();
    assert_eq!(g.players.len(), 2);
    assert_eq!(g.players[0].username, "ann");
    assert!(!g.players[0].active);
    assert_eq!(g.players[1].username, "bo");
    assert!(g.players[1].active);
    assert_ne!(g.prompt, old_prompt);
    assert!(g.canvas.grid.iter().all(|c| *c == Color::White));
}

#[test]
fn new_round_single_player_keeps_drawer() {
    let mut g = GameState::new();
    g.add_player(player("ann"));
    let old_prompt = g.prompt.clone();
    g.new_round();
    assert_eq!(g.players.len(), 1);
    assert_eq!(g.players[0].username, "ann");
    assert!(g.players[0].active);
    assert_ne!(g.prompt, old_prompt);
    assert!(g.canvas.grid.iter().all(|c| *c == Color::White));
}

#[test]
fn new_round_wraps_around_roster() {
    let mut g = GameState::new();
    g.add_player(player("ann"));
    g.add_player(player("bo"));
    g.add_player(player("cy"));
    g.new_round();
    assert!(!g.players[0].active && g.players[1].active && !g.players[2].active);
    g.new_round();
    assert!(!g.players[0].active && !g.players[1].active && g.players[2].active);
    g.new_round();
    assert!(g.players[0].active && !g.players[1].active && !g.players[2].active);
}

#[test]
fn fresh_state_has_blank_default_canvas_and_a_prompt() {
    let g = GameState::new();
    assert!(g.players.is_empty());
    assert_eq!(g.canvas.width, 12);
    assert_eq!(g.canvas.height, 12);
    assert_eq!(g.canvas.grid.len(), 144);
    assert!(g.canvas.grid.iter().all(|c| *c == Color::White));
    assert!(!g.prompt.is_empty());
    assert_eq!(g.prompt, g.prompt.to_lowercase());
}

#[test]
fn canvas_set_pixel_and_clear() {
    let mut c = DrawCanvas::default();
    c.set_pixel(0, Color::Magenta);
    c.set_pixel(143, Color::Black);
    assert_eq!(c.grid[0], Color::Magenta);
    assert_eq!(c.grid[143], Color::Black);
    assert_eq!(c.grid[1], Color::White);
    c.clear();
    assert!(c.grid.iter().all(|x| *x == Color::White));
    assert_eq!(c.grid.len(), 144);
}

#[test]
fn player_equality_goes_by_username_only() {
    let a = Player { username: "ann".to_string(), active: true };
    let b = Player { username: "ann".to_string(), active: false };
    let c = Player { username: "bo".to_string(), active: true };
    assert!(a == b);
    assert!(a != c);
}
