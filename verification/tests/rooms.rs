//! Room lifecycle, the session-facing operations, and per-viewer rendering.

use draw_guess::api::{
    join_announcement, render_canvas_payload, render_chat_payload, render_game_info, ApiStatus,
};
use draw_guess::notify::SignalQueue;
use draw_guess::text::{check_guess, mask_prompt};
use draw_guess::{Color, RoomRegistry, SessionPlayer, SetPixelPost};

fn session(name: &str, room: u32) -> SessionPlayer {
    SessionPlayer { username: name.to_string(), room }
}

#[test]
fn create_and_resolve_room() {
    let mut reg = RoomRegistry::new();
    let code = reg.create_room();
    let room = reg.get_room(code).expect("a created room resolves");
    assert_eq!(room.room_id, code.to_string());
    assert!(room.game_state.players.is_empty());
    assert!(reg.get_room(code.wrapping_add(1)).is_none());
}

#[test]
fn unauthorized_and_not_found() {
    let mut reg = RoomRegistry::new();
    let post = SetPixelPost { pixel_id: 0, color: Color::Red };
    let (st, eff) = reg.set_pixel_request(None, &post);
    assert_eq!(st, ApiStatus::Unauthorized);
    assert!(!eff.canvas_changed && !eff.game_changed && eff.chat.is_empty());
    let ghost_session = session("ann", 7);
    let (st, _) = reg.set_pixel_request(Some(&ghost_session), &post);
    assert_eq!(st, ApiStatus::NotFound);
    let (st, _) = reg.clear_canvas_request(Some(&ghost_session));
    assert_eq!(st, ApiStatus::NotFound);
    let (st, _) = reg.chat_request(Some(&ghost_session), "hi".to_string());
    assert_eq!(st, ApiStatus::NotFound);
    let (st, _) = reg.chat_request(None, "hi".to_string());
    assert_eq!(st, ApiStatus::Unauthorized);
}

#[test]
fn set_pixel_touches_one_cell_and_signals_canvas() {
    let mut reg = RoomRegistry::new();
    let code = reg.create_room();
    let s = session("ann", code);
    reg.connect_stream(code, Some(&"ann".to_string()));
    let post = SetPixelPost { pixel_id: 9, color: Color::Blue };
    let (st, eff) = reg.set_pixel_request(Some(&s), &post);
    assert_eq!(st, ApiStatus::Done);
    assert!(eff.canvas_changed && !eff.game_changed && eff.chat.is_empty());
    let room = reg.get_room(code).unwrap();
    assert_eq!(room.game_state.canvas.grid[9], Color::Blue);
    assert_eq!(room.game_state.canvas.grid[8], Color::White);
}

#[test]
fn wrong_guess_is_relayed_and_changes_nothing() {
    let mut reg = RoomRegistry::new();
    let code = reg.create_room();
    reg.connect_stream(code, Some(&"ann".to_string()));
    let prompt_before = reg.get_room(code).unwrap().game_state.prompt.clone();
    let (st, eff) = reg.chat_request(Some(&session("ann", code)), "not the word".to_string());
    assert_eq!(st, ApiStatus::Done);
    assert!(!eff.canvas_changed && !eff.game_changed);
    assert_eq!(eff.chat.len(), 1);
    assert_eq!(eff.chat[0].username, "ann");
    assert_eq!(eff.chat[0].text, "not the word");
    assert_eq!(reg.get_room(code).unwrap().game_state.prompt, prompt_before);
}

#[test]
fn correct_guess_advances_round_and_announces() {
    // room created, Ann joins (drawer), prompt pinned to "banana", Bo joins
    let mut reg = RoomRegistry::new();
    let code = reg.create_room();
    reg.connect_stream(code, Some(&"ann".to_string()));
    reg.connect_stream(code, Some(&"bo".to_string()));
    {
        let room = reg.rooms.get_mut(&code).unwrap();
        room.game_state.prompt = "banana".to_string();
        room.game_state.canvas.set_pixel(3, Color::Green);
    }
    // Bo posts " Banana ": trimmed and lowercased it equals the prompt
    let (st, eff) = reg.chat_request(Some(&session("bo", code)), " Banana ".to_string());
    assert_eq!(st, ApiStatus::Done);
    assert!(eff.canvas_changed);
    assert!(eff.game_changed);
    assert_eq!(eff.chat.len(), 2);
    assert_eq!(eff.chat[0].username, "bo");
    assert_eq!(eff.chat[0].text, " Banana ");
    assert_eq!(eff.chat[1].username, "SYSTEM");
    assert_eq!(eff.chat[1].text, "bo guessed the right word!");
    let room = reg.get_room(code).unwrap();
    // canvas cleared, prompt fresh, drawing turn moved to Bo
    assert!(room.game_state.canvas.grid.iter().all(|c| *c == Color::White));
    assert_ne!(room.game_state.prompt, "banana");
    assert_eq!(room.game_state.players[0].username, "ann");
    assert!(!room.game_state.players[0].active);
    assert_eq!(room.game_state.players[1].username, "bo");
    assert!(room.game_state.players[1].active);
    // wiring the effects into the wake-up channels delivers exactly one
    // fresh push to a canvas-stream and a game-stream subscriber each
    let mut canvas_q = SignalQueue::new();
    let mut game_q = SignalQueue::new();
    let cs = canvas_q.subscribe();
    let gs = game_q.subscribe();
    if eff.canvas_changed {
        canvas_q.publish(true);
    }
    if eff.game_changed {
        game_q.publish(true);
    }
    assert_eq!(canvas_q.recv(cs), Some(true));
    assert_eq!(canvas_q.recv(cs), None);
    assert_eq!(game_q.recv(gs), Some(true));
    assert_eq!(game_q.recv(gs), None);
}

#[test]
fn leaving_without_membership_keeps_the_roster() {
    let mut reg = RoomRegistry::new();
    let code = reg.create_room();
    reg.connect_stream(code, Some(&"ann".to_string()));
    reg.connect_stream(code, Some(&"bo".to_string()));
    // "cy" has a session for the room but never joined its roster
    let (st, eff) = reg.leave_request(Some(&session("cy", code)));
    assert_eq!(st, ApiStatus::Done);
    assert!(eff.game_changed);
    let room = reg.get_room(code).unwrap();
    assert_eq!(room.game_state.players.len(), 2);
    assert!(room.game_state.players[0].active);
}

#[test]
fn joining_a_stream_is_idempotent() {
    let mut reg = RoomRegistry::new();
    let code = reg.create_room();
    let (st, eff) = reg.connect_stream(code, Some(&"ann".to_string()));
    assert_eq!(st, ApiStatus::Done);
    assert!(eff.game_changed);
    let (st, eff) = reg.connect_stream(code, Some(&"ann".to_string()));
    assert_eq!(st, ApiStatus::Done);
    assert!(!eff.game_changed);
    assert_eq!(reg.get_room(code).unwrap().game_state.players.len(), 1);
    let (st, eff) = reg.connect_stream(code, None);
    assert_eq!(st, ApiStatus::Done);
    assert!(!eff.game_changed);
    let (st, _) = reg.connect_stream(code.wrapping_add(1), Some(&"cy".to_string()));
    assert_eq!(st, ApiStatus::NotFound);
}

#[test]
fn last_player_leaving_destroys_the_room() {
    let mut reg = RoomRegistry::new();
    let code = reg.create_room();
    reg.connect_stream(code, Some(&"ann".to_string()));
    let (st, eff) = reg.leave_request(Some(&session("ann", code)));
    assert_eq!(st, ApiStatus::Done);
    assert!(!eff.game_changed);
    assert!(reg.get_room(code).is_none());
}

#[test]
fn drawer_leaving_advances_round_for_the_rest() {
    let mut reg = RoomRegistry::new();
    let code = reg.create_room();
    reg.connect_stream(code, Some(&"ann".to_string()));
    reg.connect_stream(code, Some(&"bo".to_string()));
    let (st, eff) = reg.leave_request(Some(&session("ann", code)));
    assert_eq!(st, ApiStatus::Done);
    assert!(eff.game_changed);
    let room = reg.get_room(code).unwrap();
    assert_eq!(room.game_state.players.len(), 1);
    assert_eq!(room.game_state.players[0].username, "bo");
    assert!(room.game_state.players[0].active);
}

#[test]
fn masking_hides_letters_and_keeps_spaces() {
    assert_eq!(mask_prompt("King Cobra"), "____ _____");
    assert_eq!(mask_prompt("bell pepper"), "____ ______");
    assert_eq!(mask_prompt("a-b c!"), "_-_ _!");
    assert_eq!(mask_prompt(""), "");
}

#[test]
fn guess_checking_trims_and_lowercases() {
    let prompt = "banana".to_string();
    assert!(check_guess(" banana ", &prompt));
    assert!(check_guess("BANANA", &prompt));
    assert!(check_guess("\tBaNaNa\n", &prompt));
    assert!(!check_guess("bananas", &prompt));
    assert!(!check_guess("", &prompt));
}

#[test]
fn game_stream_masks_for_guessers_only() {
    let mut reg = RoomRegistry::new();
    let code = reg.create_room();
    reg.connect_stream(code, Some(&"ann".to_string()));
    reg.connect_stream(code, Some(&"bo".to_string()));
    reg.rooms.get_mut(&code).unwrap().game_state.prompt = "sweet potato".to_string();
    let room = reg.get_room(code).unwrap();
    let for_ann = render_game_info(room, Some(&"ann".to_string()));
    assert_eq!(for_ann.prompt, "sweet potato");
    let for_bo = render_game_info(room, Some(&"bo".to_string()));
    assert_eq!(for_bo.prompt, "_____ ______");
    let for_stranger = render_game_info(room, None);
    assert_eq!(for_stranger.prompt, "_____ ______");
    assert_eq!(for_ann.room_id, code.to_string());
    assert_eq!(for_ann.players.len(), 2);
}

#[test]
fn stream_payloads_use_the_codec() {
    let mut reg = RoomRegistry::new();
    let code = reg.create_room();
    reg.connect_stream(code, Some(&"ann".to_string()));
    let room = reg.get_room(code).unwrap();
    let canvas_wire = render_canvas_payload(room);
    assert!(canvas_wire.starts_with("12 12 "));
    let m = join_announcement(&"ann".to_string());
    assert_eq!(m.username, "SYSTEM");
    assert_eq!(m.text, "ann joined!");
    assert_eq!(render_chat_payload(&m), "6 SYSTEM11 ann joined!");
}
