//! The plain data shapes exchanged with the session layer and the clients:
//! chat lines, the authenticated session identity, mutation requests, and
//! the per-viewer game snapshot.

use vstd::prelude::*;

use crate::color::Color;
use crate::player::{Player, PlayerV};

verus! {

/// One chat line, relayed but never stored.
#[derive(Debug)]
pub struct ChatMessage {
    pub username: String,
    pub text: String,
}

/// The mathematical value of a [`ChatMessage`].
pub struct ChatMessageV {
    pub username: Seq<char>,
    pub text: Seq<char>,
}

impl View for ChatMessage {
    type V = ChatMessageV;

    open spec fn view(&self) -> ChatMessageV {
        ChatMessageV { username: self.username@, text: self.text@ }
    }
}

impl Clone for ChatMessage {
    fn clone(&self) -> (r: ChatMessage)
        ensures
            r@ == self@,
    {
        ChatMessage { username: self.username.clone(), text: self.text.clone() }
    }
}

impl PartialEq for ChatMessage {
    fn eq(&self, other: &ChatMessage) -> (r: bool)
        ensures
            r == (self@ == other@),
    {
        let same = self.username == other.username && self.text == other.text;
        proof {
            if same {
                assert(self@ =~= other@);
            }
        }
        same
    }
}

impl vstd::std_specs::cmp::PartialEqSpecImpl for ChatMessage {
    open spec fn obeys_eq_spec() -> bool {
        true
    }

    open spec fn eq_spec(&self, other: &ChatMessage) -> bool {
        self@ == other@
    }
}

/// The identity the session layer resolves for an authenticated request:
/// who is asking, and which room they belong to.
#[derive(Debug)]
pub struct SessionPlayer {
    pub username: String,
    pub room: u32,
}

/// The mathematical value of a [`SessionPlayer`].
pub struct SessionPlayerV {
    pub username: Seq<char>,
    pub room: u32,
}

impl View for SessionPlayer {
    type V = SessionPlayerV;

    open spec fn view(&self) -> SessionPlayerV {
        SessionPlayerV { username: self.username@, room: self.room }
    }
}

/// A request to overwrite one canvas cell.
#[derive(Debug)]
pub struct SetPixelPost {
    pub pixel_id: usize,
    pub color: Color,
}

/// A request to enter a lobby under a username.
#[derive(Debug)]
pub struct JoinLobbyPost {
    pub username: String,
}

/// The game snapshot pushed to one viewer: the room code's text, the prompt
/// as this viewer may see it, and the roster.
#[derive(Debug)]
pub struct GameInfo {
    pub room_id: String,
    pub prompt: String,
    pub players: Vec<Player>,
}

/// The mathematical value of a [`GameInfo`].
pub struct GameInfoV {
    pub room_id: Seq<char>,
    pub prompt: Seq<char>,
    pub players: Seq<PlayerV>,
}

impl View for GameInfo {
    type V = GameInfoV;

    open spec fn view(&self) -> GameInfoV {
        GameInfoV {
            room_id: self.room_id@,
            prompt: self.prompt@,
            players: self.players@.map_values(|p: Player| p@),
        }
    }
}

} // verus!
