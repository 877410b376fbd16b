//! The wire codec: exact payload shapes and the canvas round trip.

use draw_guess::codec::{decode_canvas, encode_canvas, encode_chat_message, encode_game_info};
use draw_guess::{ChatMessage, Color, DrawCanvas, GameInfo, Player};

#[test]
fn canvas_payload_has_the_documented_shape() {
    let c = DrawCanvas { width: 2, height: 1, grid: vec![Color::Red, Color::White] };
    assert_eq!(encode_canvas(&c), "2 1 Red;White;");
}

#[test]
fn canvas_round_trip_reproduces_the_grid() {
    let mut c = DrawCanvas::default();
    c.set_pixel(0, Color::Magenta);
    c.set_pixel(77, Color::Lime);
    c.set_pixel(143, Color::Black);
    let wire = encode_canvas(&c);
    let d = decode_canvas(wire.as_str()).expect("an encoded canvas must decode");
    assert_eq!(d.width, c.width);
    assert_eq!(d.height, c.height);
    assert_eq!(d.grid.len(), c.grid.len());
    for i in 0..c.grid.len() {
        assert_eq!(d.grid[i], c.grid[i]);
    }
}

#[test]
fn every_color_survives_the_round_trip() {
    let palette = vec![
        Color::Red,
        Color::Orange,
        Color::Yellow,
        Color::Lime,
        Color::Green,
        Color::Blue,
        Color::Cyan,
        Color::Magenta,
        Color::Purple,
        Color::Black,
        Color::Gray,
        Color::White,
    ];
    let c = DrawCanvas { width: 12, height: 1, grid: palette.clone() };
    let d = decode_canvas(encode_canvas(&c).as_str()).unwrap();
    assert_eq!(d.grid, palette);
}

#[test]
fn empty_canvas_round_trips() {
    let c = DrawCanvas { width: 0, height: 5, grid: vec![] };
    let wire = encode_canvas(&c);
    assert_eq!(wire, "0 5 ");
    let d = decode_canvas(wire.as_str()).unwrap();
    assert_eq!(d.width, 0);
    assert_eq!(d.height, 5);
    assert!(d.grid.is_empty());
}

#[test]
fn malformed_payloads_are_rejected() {
    assert!(decode_canvas("").is_none());
    assert!(decode_canvas("garbage").is_none());
    assert!(decode_canvas("2 1 Red;").is_none()); // cell count does not match
    assert!(decode_canvas("2 1 Red;Pink;").is_none()); // unknown color
    assert!(decode_canvas("02 1 Red;White;").is_none()); // leading zero
    assert!(decode_canvas("2 1 Red;White").is_none()); // missing terminator
    assert!(decode_canvas("2  1 Red;White;").is_none()); // stray separator
}

#[test]
fn color_names_are_stable() {
    assert_eq!(Color::Red.name(), "Red");
    assert_eq!(Color::White.name(), "White");
    assert_eq!(Color::Magenta.name(), "Magenta");
}

#[test]
fn game_info_payload_counts_roster_and_marks_drawer() {
    let gi = GameInfo {
        room_id: "42".to_string(),
        prompt: "______".to_string(),
        players: vec![
            Player { username: "ann".to_string(), active: true },
            Player { username: "bo".to_string(), active: false },
        ],
    };
    assert_eq!(encode_game_info(&gi), "2 426 ______2 3 ann*2 bo-");
}

#[test]
fn chat_payload_is_two_length_prefixed_fields() {
    let m = ChatMessage { username: "ann".to_string(), text: "hi there".to_string() };
    assert_eq!(encode_chat_message(&m), "3 ann8 hi there");
}
