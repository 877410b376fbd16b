//! Room-based multiplayer drawing-and-guessing game core: the shared canvas,
//! the player roster with its rotating drawer, room lifecycle, prompt masking,
//! guess checking, snapshot encoding, and the bounded fan-out queues that wake
//! stream subscribers.

use vstd::prelude::*;

pub mod api;
pub mod canvas;
pub mod codec;
pub mod color;
pub mod game;
pub mod messages;
pub mod notify;
pub mod num;
pub mod player;
mod rng;
pub mod room;
pub mod text;
pub mod words;

pub use canvas::{CanvasV, DrawCanvas};
pub use color::Color;
pub use game::{GameState, GameStateV};
pub use messages::{ChatMessage, GameInfo, JoinLobbyPost, SessionPlayer, SetPixelPost};
pub use player::{Player, PlayerV};
pub use room::{RoomRegistry, RoomState};

verus! {

/// The fixed edge length of a fresh square canvas.
pub open spec fn default_canvas_side() -> nat {
    12
}

} // verus!
