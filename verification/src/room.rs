//! Rooms and the process-wide registry that owns them. A room couples a
//! code's text with one game state; the registry maps 32-bit room codes to
//! rooms, creates them under random codes, and is the place where a room is
//! destroyed once its roster empties.

use vstd::prelude::*;

use std::collections::HashMap;

use crate::canvas::CanvasV;
use crate::game::{GameState, GameStateV};
use crate::num::{dec_seq, dec_string};
use crate::rng::random_room_code;
use crate::words::is_prompt_word;

verus! {

broadcast use vstd::std_specs::hash::group_hash_axioms;

/// One live room: the text form of its code, and its game state. The
/// concurrency wrapper (a lock and the wake-up channels) lives with the
/// transport layer; everything it guards is here.
#[derive(Debug)]
pub struct RoomState {
    pub room_id: String,
    pub game_state: GameState,
}

/// The mathematical value of a [`RoomState`].
pub struct RoomStateV {
    pub room_id: Seq<char>,
    pub game: GameStateV,
}

impl View for RoomState {
    type V = RoomStateV;

    open spec fn view(&self) -> RoomStateV {
        RoomStateV { room_id: self.room_id@, game: self.game_state@ }
    }
}

/// A freshly created room under code `code`: its id is the decimal text of
/// the code, its game is new (empty roster, blank canvas, some prompt).
pub open spec fn fresh_room(r: RoomStateV, code: u32) -> bool {
    &&& r.room_id == dec_seq(code as nat)
    &&& r.game.wf()
    &&& r.game.players.len() == 0
    &&& r.game.canvas == CanvasV::blank(crate::default_canvas_side(), crate::default_canvas_side())
    &&& is_prompt_word(r.game.prompt)
}

impl RoomState {
    /// A fresh room for `code`.
    pub fn new(code: u32) -> (r: RoomState)
        ensures
            fresh_room(r@, code),
    {
        RoomState { room_id: dec_string(code as usize), game_state: GameState::new() }
    }
}

/// The process-wide map from room code to room, shared by every connection.
#[derive(Debug)]
pub struct RoomRegistry {
    pub rooms: HashMap<u32, RoomState>,
}

impl RoomRegistry {
    /// Every room the registry holds satisfies the game-state invariant.
    pub open spec fn wf(self) -> bool {
        forall|c: u32|
            self.rooms@.dom().contains(c) ==> (#[trigger] self.rooms@[c])@.game.wf()
    }

    /// An empty registry.
    pub fn new() -> (r: RoomRegistry)
        ensures
            r.wf(),
            r.rooms@.dom() =~= Set::<u32>::empty(),
    {
        RoomRegistry { rooms: HashMap::new() }
    }

    /// Allocate a random code, insert a fresh room under it, and return the
    /// code. A colliding code (astronomically unlikely) replaces the old
    /// room, exactly as an insert into the map does.
    pub fn create_room(&mut self) -> (code: u32)
        requires
            old(self).wf(),
        ensures
            final(self).wf(),
            final(self).rooms@.dom() =~= old(self).rooms@.dom().insert(code),
            fresh_room(final(self).rooms@[code]@, code),
            forall|c: u32|
                c != code && old(self).rooms@.dom().contains(c) ==> final(self).rooms@[c] == old(
                    self,
                ).rooms@[c],
    {
        let code = random_room_code();
        let room = RoomState::new(code);
        self.rooms.insert(code, room);
        proof {
            assert(self.rooms@ =~= old(self).rooms@.insert(code, self.rooms@[code]));
        }
        code
    }

    /// Look a room up by its code.
    pub fn get_room(&self, code: u32) -> (r: Option<&RoomState>)
        ensures
            (match r {
                Some(room) => self.rooms@.dom().contains(code) && *room == self.rooms@[code],
                None => !self.rooms@.dom().contains(code),
            }),
    {
        self.rooms.get(&code)
    }

    /// Drop the room under `code`, if any: called once its roster empties.
    pub fn remove_room(&mut self, code: u32)
        requires
            old(self).wf(),
        ensures
            final(self).wf(),
            final(self).rooms@ =~= old(self).rooms@.remove(code),
    {
        self.rooms.remove(&code);
        proof {
            assert(self.rooms@ =~= old(self).rooms@.remove(code));
        }
    }

    /// Take the room under `code` out of the map for mutation; the caller
    /// puts it back with [`RoomRegistry::put_room`].
    pub(crate) fn take_room(&mut self, code: u32) -> (r: Option<RoomState>)
        ensures
            (match r {
                Some(room) => old(self).rooms@.dom().contains(code) && room == old(
                    self,
                ).rooms@[code] && final(self).rooms@ =~= old(self).rooms@.remove(code),
                None => !old(self).rooms@.dom().contains(code) && final(self).rooms@ =~= old(
                    self,
                ).rooms@,
            }),
    {
        let r = self.rooms.remove(&code);
        proof {
            match r {
                Some(_) => {
                    assert(self.rooms@ =~= old(self).rooms@.remove(code));
                },
                None => {
                    assert(self.rooms@ =~= old(self).rooms@);
                },
            }
        }
        r
    }

    /// Put a (possibly mutated) room back under its code.
    pub(crate) fn put_room(&mut self, code: u32, room: RoomState)
        ensures
            final(self).rooms@ =~= old(self).rooms@.insert(code, room),
    {
        self.rooms.insert(code, room);
        proof {
            assert(self.rooms@ =~= old(self).rooms@.insert(code, room));
        }
    }
}

} // verus!
