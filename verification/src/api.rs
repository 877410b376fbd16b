//! The operations the session layer calls on behalf of an authenticated
//! player, and the snapshot rendering the stream tasks push. Each mutating
//! operation reports, besides its status, which notifications to publish;
//! the transport layer performs the sends and never decides anything.

use vstd::prelude::*;
use vstd::string::StringExecFns;

use crate::canvas::CanvasV;
use crate::codec::{
    encode_canvas, encode_canvas_spec, encode_chat_message, encode_chat_spec, encode_game_info,
    encode_game_info_spec,
};
use crate::game::{
    lemma_delete_preserves_wf, names_distinct, roster_has, spec_add_player,
    spec_delete_player, spec_new_round, spec_remove_player, GameStateV,
};
use crate::messages::{ChatMessage, ChatMessageV, GameInfo, GameInfoV, SessionPlayer, SetPixelPost};
use crate::player::{Player, PlayerV};
use crate::room::{RoomRegistry, RoomState, RoomStateV};
use crate::text::{check_guess, lower_of, mask_prompt, mask_spec, trim_spec};
use crate::words::is_prompt_word;

verus! {

/// Which live feed a stream connection asked for. A canvas or game stream
/// pushes a fresh snapshot on every wake-up; a chat stream relays each line
/// as it arrives.
#[derive(Debug, Clone, Copy, PartialEq, Eq, Structural)]
pub enum WsStreamType {
    Game,
    Canvas,
    Chat,
}

/// How a synchronous operation ended: done, no resolved identity, or an
/// unknown room code.
#[derive(Debug, Clone, Copy, PartialEq, Eq, Structural)]
pub enum ApiStatus {
    Done,
    Unauthorized,
    NotFound,
}

/// The notifications an operation asks the transport layer to publish:
/// wake-up signals for the canvas and game channels, and chat lines to
/// relay. Publishing never blocks and is a no-op without subscribers.
#[derive(Debug)]
pub struct Effects {
    pub canvas_changed: bool,
    pub game_changed: bool,
    pub chat: Vec<ChatMessage>,
}

/// The mathematical value of an [`Effects`].
pub struct EffectsV {
    pub canvas_changed: bool,
    pub game_changed: bool,
    pub chat: Seq<ChatMessageV>,
}

impl View for Effects {
    type V = EffectsV;

    open spec fn view(&self) -> EffectsV {
        EffectsV {
            canvas_changed: self.canvas_changed,
            game_changed: self.game_changed,
            chat: self.chat@.map_values(|m: ChatMessage| m@),
        }
    }
}

/// Nothing to publish.
pub open spec fn no_effects(e: EffectsV) -> bool {
    !e.canvas_changed && !e.game_changed && e.chat.len() == 0
}

impl Effects {
    /// The empty effect set.
    pub fn none() -> (e: Effects)
        ensures
            no_effects(e@),
    {
        let e = Effects { canvas_changed: false, game_changed: false, chat: Vec::new() };
        proof {
            assert(e@.chat =~= Seq::<ChatMessageV>::empty());
        }
        e
    }
}

/// Only the room under `code` may differ between the two registry maps.
pub open spec fn rooms_framed(
    old_m: Map<u32, RoomState>,
    new_m: Map<u32, RoomState>,
    code: u32,
) -> bool {
    &&& new_m.dom() == old_m.dom()
    &&& forall|c: u32| c != code && old_m.dom().contains(c) ==> new_m[c] == old_m[c]
}

impl RoomRegistry {
    /// Overwrite one canvas cell for the sender's room and ask for a canvas
    /// wake-up. The session layer validates the pixel index against the
    /// canvas before calling; an out-of-range index on an existing room is
    /// a caller-side error, not a recoverable condition.
    pub fn set_pixel_request(
        &mut self,
        session: Option<&SessionPlayer>,
        post: &SetPixelPost,
    ) -> (r: (ApiStatus, Effects))
        requires
            old(self).wf(),
            (match session {
                Some(p) => old(self).rooms@.dom().contains(p.room) ==> post.pixel_id < old(
                    self,
                ).rooms@[p.room]@.game.canvas.grid.len(),
                None => true,
            }),
        ensures
            final(self).wf(),
            (match session {
                None => r.0 == ApiStatus::Unauthorized && final(self).rooms@ =~= old(self).rooms@
                    && no_effects(r.1@),
                Some(p) => {
                    if !old(self).rooms@.dom().contains(p.room) {
                        r.0 == ApiStatus::NotFound && final(self).rooms@ =~= old(self).rooms@
                            && no_effects(r.1@)
                    } else {
                        let g0 = old(self).rooms@[p.room]@.game;
                        let g1 = final(self).rooms@[p.room]@.game;
                        &&& r.0 == ApiStatus::Done
                        &&& rooms_framed(old(self).rooms@, final(self).rooms@, p.room)
                        &&& final(self).rooms@[p.room]@.room_id == old(
                            self,
                        ).rooms@[p.room]@.room_id
                        &&& g1.prompt == g0.prompt
                        &&& g1.players == g0.players
                        &&& g1.canvas.width == g0.canvas.width
                        &&& g1.canvas.height == g0.canvas.height
                        &&& g1.canvas.grid == g0.canvas.grid.update(
                            post.pixel_id as int,
                            post.color,
                        )
                        &&& r.1@.canvas_changed && !r.1@.game_changed && r.1@.chat.len() == 0
                    }
                },
            }),
    {
        let p = match session {
            Some(p) => p,
            None => {
                return (ApiStatus::Unauthorized, Effects::none());
            },
        };
        let mut room = match self.take_room(p.room) {
            Some(r) => r,
            None => {
                return (ApiStatus::NotFound, Effects::none());
            },
        };
        room.game_state.canvas.set_pixel(post.pixel_id, post.color);
        self.put_room(p.room, room);
        let mut eff = Effects::none();
        eff.canvas_changed = true;
        (ApiStatus::Done, eff)
    }

    /// Wipe the sender's room canvas and ask for a canvas wake-up.
    pub fn clear_canvas_request(&mut self, session: Option<&SessionPlayer>) -> (r: (
        ApiStatus,
        Effects,
    ))
        requires
            old(self).wf(),
        ensures
            final(self).wf(),
            (match session {
                None => r.0 == ApiStatus::Unauthorized && final(self).rooms@ =~= old(self).rooms@
                    && no_effects(r.1@),
                Some(p) => {
                    if !old(self).rooms@.dom().contains(p.room) {
                        r.0 == ApiStatus::NotFound && final(self).rooms@ =~= old(self).rooms@
                            && no_effects(r.1@)
                    } else {
                        let g0 = old(self).rooms@[p.room]@.game;
                        let g1 = final(self).rooms@[p.room]@.game;
                        &&& r.0 == ApiStatus::Done
                        &&& rooms_framed(old(self).rooms@, final(self).rooms@, p.room)
                        &&& final(self).rooms@[p.room]@.room_id == old(
                            self,
                        ).rooms@[p.room]@.room_id
                        &&& g1.prompt == g0.prompt
                        &&& g1.players == g0.players
                        &&& g1.canvas == CanvasV::blank(g0.canvas.width, g0.canvas.height)
                        &&& r.1@.canvas_changed && !r.1@.game_changed && r.1@.chat.len() == 0
                    }
                },
            }),
    {
        let p = match session {
            Some(p) => p,
            None => {
                return (ApiStatus::Unauthorized, Effects::none());
            },
        };
        let mut room = match self.take_room(p.room) {
            Some(r) => r,
            None => {
                return (ApiStatus::NotFound, Effects::none());
            },
        };
        room.game_state.canvas.clear();
        self.put_room(p.room, room);
        let mut eff = Effects::none();
        eff.canvas_changed = true;
        (ApiStatus::Done, eff)
    }

    /// Relay a chat line; when it is a correct guess of the room's prompt,
    /// advance the round and ask for game and canvas wake-ups plus a system
    /// announcement naming the guesser.
    pub fn chat_request(&mut self, session: Option<&SessionPlayer>, text: String) -> (r: (
        ApiStatus,
        Effects,
    ))
        requires
            old(self).wf(),
        ensures
            final(self).wf(),
            (match session {
                None => r.0 == ApiStatus::Unauthorized && final(self).rooms@ =~= old(self).rooms@
                    && no_effects(r.1@),
                Some(p) => {
                    if !old(self).rooms@.dom().contains(p.room) {
                        r.0 == ApiStatus::NotFound && final(self).rooms@ =~= old(self).rooms@
                            && no_effects(r.1@)
                    } else {
                        let g0 = old(self).rooms@[p.room]@.game;
                        let g1 = final(self).rooms@[p.room]@.game;
                        let correct = lower_of(trim_spec(text@)) == g0.prompt;
                        let relayed = ChatMessageV { username: p@.username, text: text@ };
                        let announce = ChatMessageV {
                            username: "SYSTEM"@,
                            text: p@.username + " guessed the right word!"@,
                        };
                        &&& r.0 == ApiStatus::Done
                        &&& rooms_framed(old(self).rooms@, final(self).rooms@, p.room)
                        &&& final(self).rooms@[p.room]@.room_id == old(
                            self,
                        ).rooms@[p.room]@.room_id
                        &&& (correct ==> g1 == spec_new_round(g0, g1.prompt) && is_prompt_word(
                            g1.prompt,
                        ) && g1.prompt != g0.prompt)
                        &&& (!correct ==> g1 == g0)
                        &&& r.1@.canvas_changed == correct
                        &&& r.1@.game_changed == correct
                        &&& (correct ==> r.1@.chat =~= seq![relayed, announce])
                        &&& (!correct ==> r.1@.chat =~= seq![relayed])
                    }
                },
            }),
    {
        let p = match session {
            Some(p) => p,
            None => {
                return (ApiStatus::Unauthorized, Effects::none());
            },
        };
        let mut room = match self.take_room(p.room) {
            Some(r) => r,
            None => {
                return (ApiStatus::NotFound, Effects::none());
            },
        };
        let correct = check_guess(text.as_str(), &room.game_state.prompt);
        let mut chat: Vec<ChatMessage> = Vec::new();
        chat.push(ChatMessage { username: p.username.clone(), text });
        if correct {
            room.game_state.new_round();
            let mut announce_text = p.username.clone();
            announce_text.append(" guessed the right word!");
            chat.push(ChatMessage { username: String::from_str("SYSTEM"), text: announce_text });
        }
        self.put_room(p.room, room);
        (ApiStatus::Done, Effects { canvas_changed: correct, game_changed: correct, chat })
    }

    /// The sender leaves their room: their roster entry is deleted; a room
    /// whose roster empties is destroyed; if the leaver held the drawing
    /// turn, the round advances; a surviving room gets a game wake-up.
    pub fn leave_request(&mut self, session: Option<&SessionPlayer>) -> (r: (ApiStatus, Effects))
        requires
            old(self).wf(),
        ensures
            final(self).wf(),
            (match session {
                None => r.0 == ApiStatus::Unauthorized && final(self).rooms@ =~= old(self).rooms@
                    && no_effects(r.1@),
                Some(p) => {
                    if !old(self).rooms@.dom().contains(p.room) {
                        r.0 == ApiStatus::NotFound && final(self).rooms@ =~= old(self).rooms@
                            && no_effects(r.1@)
                    } else {
                        let g0 = old(self).rooms@[p.room]@.game;
                        let shrunk = spec_delete_player(g0.players, p@.username);
                        let advance = spec_remove_player(
                            g0,
                            PlayerV { name: p@.username, active: false },
                        );
                        if shrunk.len() == 0 {
                            r.0 == ApiStatus::Done && final(self).rooms@ =~= old(
                                self,
                            ).rooms@.remove(p.room) && no_effects(r.1@)
                        } else {
                            let g1 = final(self).rooms@[p.room]@.game;
                            let gmid = GameStateV { players: shrunk, ..g0 };
                            &&& r.0 == ApiStatus::Done
                            &&& rooms_framed(old(self).rooms@, final(self).rooms@, p.room)
                            &&& final(self).rooms@[p.room]@.room_id == old(
                                self,
                            ).rooms@[p.room]@.room_id
                            &&& (advance ==> g1 == spec_new_round(gmid, g1.prompt)
                                && is_prompt_word(g1.prompt) && g1.prompt != g0.prompt)
                            &&& (!advance ==> g1 == gmid)
                            &&& !r.1@.canvas_changed && r.1@.game_changed && r.1@.chat.len() == 0
                        }
                    }
                },
            }),
    {
        let p = match session {
            Some(p) => p,
            None => {
                return (ApiStatus::Unauthorized, Effects::none());
            },
        };
        let mut room = match self.take_room(p.room) {
            Some(r) => r,
            None => {
                return (ApiStatus::NotFound, Effects::none());
            },
        };
        let probe = Player { username: p.username.clone(), active: false };
        let advance = room.game_state.remove_player(probe);
        let n = room.game_state.players.len();
        let mut k: usize = 0;
        let mut at: Option<usize> = None;
        while k < n
            invariant
                n == room.game_state.players.len(),
                k <= n,
                (match at {
                    Some(j) => j < k && room.game_state@.players[j as int].name == p@.username,
                    None => forall|m: int|
                        0 <= m < k ==> room.game_state@.players[m].name != p@.username,
                }),
            decreases n - k,
        {
            if at.is_none() && room.game_state.players[k].username == p.username {
                at = Some(k);
            }
            k = k + 1;
        }
        let ghost g0 = room.game_state@;
        proof {
            assert(old(self).wf());
            assert(g0.wf());
        }
        match at {
            Some(j) => {
                proof {
                    assert(roster_has(g0.players, p@.username));
                    let i = choose|i: int|
                        0 <= i < g0.players.len() && g0.players[i].name == p@.username;
                    assert(names_distinct(g0.players));
                    assert(i == j as int);
                }
                room.game_state.players.remove(j);
                proof {
                    assert(room.game_state@.players =~= spec_delete_player(
                        g0.players,
                        p@.username,
                    ));
                    lemma_delete_preserves_wf(g0.players, p@.username);
                    assert(room.game_state@.wf());
                }
            },
            None => {
                proof {
                    assert(!roster_has(g0.players, p@.username));
                    assert(room.game_state@.players =~= spec_delete_player(
                        g0.players,
                        p@.username,
                    ));
                }
            },
        }
        if room.game_state.players.len() == 0 {
            return (ApiStatus::Done, Effects::none());
        }
        if advance {
            room.game_state.new_round();
        }
        self.put_room(p.room, room);
        let mut eff = Effects::none();
        eff.game_changed = true;
        (ApiStatus::Done, eff)
    }

    /// A stream connection resolved its room: a known identity joins the
    /// roster (idempotently), and a genuinely new player earns a game
    /// wake-up so every roster view updates.
    pub fn connect_stream(&mut self, room_code: u32, username: Option<&String>) -> (r: (
        ApiStatus,
        Effects,
    ))
        requires
            old(self).wf(),
        ensures
            final(self).wf(),
            (if !old(self).rooms@.dom().contains(room_code) {
                r.0 == ApiStatus::NotFound && final(self).rooms@ =~= old(self).rooms@
                    && no_effects(r.1@)
            } else {
                match username {
                    None => r.0 == ApiStatus::Done && final(self).rooms@ =~= old(self).rooms@
                        && no_effects(r.1@),
                    Some(u) => {
                        let g0 = old(self).rooms@[room_code]@.game;
                        let pv = PlayerV { name: u@, active: false };
                        let g1 = final(self).rooms@[room_code]@.game;
                        &&& r.0 == ApiStatus::Done
                        &&& rooms_framed(old(self).rooms@, final(self).rooms@, room_code)
                        &&& final(self).rooms@[room_code]@.room_id == old(
                            self,
                        ).rooms@[room_code]@.room_id
                        &&& g1 == spec_add_player(g0, pv).0
                        &&& r.1@.game_changed == spec_add_player(g0, pv).1
                        &&& !r.1@.canvas_changed && r.1@.chat.len() == 0
                    },
                }
            }),
    {
        let mut room = match self.take_room(room_code) {
            Some(r) => r,
            None => {
                return (ApiStatus::NotFound, Effects::none());
            },
        };
        let u = match username {
            Some(u) => u,
            None => {
                let ghost m0 = old(self).rooms@;
                self.put_room(room_code, room);
                proof {
                    assert(self.rooms@ =~= m0);
                }
                return (ApiStatus::Done, Effects::none());
            },
        };
        let added = room.game_state.add_player(Player { username: u.clone(), active: false });
        self.put_room(room_code, room);
        let mut eff = Effects::none();
        eff.game_changed = added;
        (ApiStatus::Done, eff)
    }
}

/// The name under which the viewer asked for a stream, if any.
pub open spec fn opt_name(v: Option<&String>) -> Option<Seq<char>> {
    match v {
        Some(u) => Some(u@),
        None => None,
    }
}

/// Whether this viewer holds the drawing turn in the given roster.
pub open spec fn viewer_is_drawer(ps: Seq<PlayerV>, viewer: Option<Seq<char>>) -> bool {
    match viewer {
        Some(name) => exists|i: int| 0 <= i < ps.len() && ps[i].name == name && ps[i].active,
        None => false,
    }
}

/// The game snapshot as one viewer may see it: the drawer sees the literal
/// prompt; everyone else sees every letter masked, spaces and punctuation
/// left visible.
pub open spec fn game_view(r: RoomStateV, viewer: Option<Seq<char>>) -> GameInfoV {
    GameInfoV {
        room_id: r.room_id,
        prompt: if viewer_is_drawer(r.game.players, viewer) {
            r.game.prompt
        } else {
            mask_spec(r.game.prompt)
        },
        players: r.game.players,
    }
}

/// Build the per-viewer game snapshot.
pub fn render_game_info(room: &RoomState, viewer: Option<&String>) -> (gi: GameInfo)
    ensures
        gi@ == game_view(room@, opt_name(viewer)),
{
    let n = room.game_state.players.len();
    let is_drawer: bool = match viewer {
        Some(u) => {
            let mut k: usize = 0;
            let mut found = false;
            while k < n
                invariant
                    n == room.game_state.players.len(),
                    k <= n,
                    found == exists|i: int|
                        0 <= i < k && room.game_state@.players[i].name == u@
                            && room.game_state@.players[i].active,
                decreases n - k,
            {
                if room.game_state.players[k].active && room.game_state.players[k].username == *u {
                    found = true;
                    proof {
                        let ps = room.game_state@.players;
                        assert(0 <= k < k + 1 && ps[k as int].name == u@ && ps[k as int].active);
                    }
                } else {
                    proof {
                        let ps = room.game_state@.players;
                        assert(!(ps[k as int].name == u@ && ps[k as int].active));
                    }
                }
                k = k + 1;
            }
            found
        },
        None => false,
    };
    let prompt = if is_drawer {
        room.game_state.prompt.clone()
    } else {
        mask_prompt(room.game_state.prompt.as_str())
    };
    let mut players: Vec<Player> = Vec::new();
    let mut k: usize = 0;
    while k < n
        invariant
            n == room.game_state.players.len(),
            k <= n,
            players@.len() == k,
            forall|m: int|
                0 <= m < k ==> #[trigger] players@[m]@ == room.game_state@.players[m],
        decreases n - k,
    {
        players.push(room.game_state.players[k].clone());
        k = k + 1;
    }
    let gi = GameInfo { room_id: room.room_id.clone(), prompt, players };
    proof {
        assert(gi@.players =~= room@.game.players);
        assert(gi@ =~= game_view(room@, opt_name(viewer)));
    }
    gi
}

/// The payload a canvas-stream subscriber receives on each wake-up.
pub fn render_canvas_payload(room: &RoomState) -> (r: String)
    ensures
        r@ == encode_canvas_spec(room@.game.canvas),
{
    encode_canvas(&room.game_state.canvas)
}

/// The payload a game-stream subscriber receives on each wake-up.
pub fn render_game_payload(room: &RoomState, viewer: Option<&String>) -> (r: String)
    ensures
        r@ == encode_game_info_spec(game_view(room@, opt_name(viewer))),
{
    let gi = render_game_info(room, viewer);
    encode_game_info(&gi)
}

/// The payload a chat-stream subscriber receives for one relayed line.
pub fn render_chat_payload(m: &ChatMessage) -> (r: String)
    ensures
        r@ == encode_chat_spec(m@),
{
    encode_chat_message(m)
}

/// The system line announcing that a player's chat stream connected.
pub fn join_announcement(username: &String) -> (m: ChatMessage)
    ensures
        m@.username == "SYSTEM"@,
        m@.text == username@ + " joined!"@,
{
    let mut text = username.clone();
    text.append(" joined!");
    ChatMessage { username: String::from_str("SYSTEM"), text }
}

} // verus!
