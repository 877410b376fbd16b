//! The per-room game state: the prompt, the canvas, and the ordered roster
//! with its rotating drawer. Every state change of a room goes through the
//! operations here.

use vstd::prelude::*;

use crate::canvas::{CanvasV, DrawCanvas};
use crate::player::{Player, PlayerV};
use crate::rng::random_index;
use crate::words::{is_prompt_word, lemma_two_words_differ, word_at, word_count, word_list};

verus! {

/// The mutable state of one room. Invariants (see [`GameStateV::wf`]): the
/// grid fills the canvas, at most one player is active, usernames are unique,
/// and the prompt is drawn from the fixed word list.
#[derive(Debug)]
pub struct GameState {
    pub prompt: String,
    pub canvas: DrawCanvas,
    pub players: Vec<Player>,
}

/// The mathematical value of a [`GameState`].
#[verifier::ext_equal]
pub struct GameStateV {
    pub prompt: Seq<char>,
    pub canvas: CanvasV,
    pub players: Seq<PlayerV>,
}

impl View for GameState {
    type V = GameStateV;

    open spec fn view(&self) -> GameStateV {
        GameStateV {
            prompt: self.prompt@,
            canvas: self.canvas@,
            players: self.players@.map_values(|p: Player| p@),
        }
    }
}

/// No two roster entries share a username.
pub open spec fn names_distinct(ps: Seq<PlayerV>) -> bool {
    forall|i: int, j: int| 0 <= i < j < ps.len() ==> ps[i].name != ps[j].name
}

/// At most one roster entry holds the drawing turn.
pub open spec fn at_most_one_active(ps: Seq<PlayerV>) -> bool {
    forall|i: int, j: int|
        0 <= i < ps.len() && 0 <= j < ps.len() && ps[i].active && ps[j].active ==> i == j
}

/// Whether someone with this username is on the roster.
pub open spec fn roster_has(ps: Seq<PlayerV>, name: Seq<char>) -> bool {
    exists|i: int| 0 <= i < ps.len() && ps[i].name == name
}

/// The position of the active player, if one is marked active.
pub open spec fn active_index(ps: Seq<PlayerV>) -> Option<int> {
    if exists|i: int| 0 <= i < ps.len() && ps[i].active {
        Some(choose|i: int| 0 <= i < ps.len() && ps[i].active)
    } else {
        None
    }
}

/// Who draws after a round advance: the successor of the active player in
/// roster order, wrapping around; position 0 when nobody was active.
pub open spec fn next_drawer(ps: Seq<PlayerV>) -> int {
    match active_index(ps) {
        Some(j) => (j + 1) % (ps.len() as int),
        None => 0,
    }
}

impl GameStateV {
    /// The state invariant that every operation preserves.
    pub open spec fn wf(self) -> bool {
        &&& self.canvas.wf()
        &&& at_most_one_active(self.players)
        &&& names_distinct(self.players)
        &&& is_prompt_word(self.prompt)
    }
}

/// What joining does to a state: an already-present username changes nothing
/// and is refused; otherwise the newcomer is appended, drawing exactly when
/// the roster was empty.
pub open spec fn spec_add_player(g: GameStateV, p: PlayerV) -> (GameStateV, bool) {
    if roster_has(g.players, p.name) {
        (g, false)
    } else {
        (
            GameStateV {
                players: g.players.push(PlayerV { name: p.name, active: g.players.len() == 0 }),
                ..g
            },
            true,
        )
    }
}

/// Whether removing this player must advance the round: true exactly when a
/// roster entry with the same username holds the drawing turn.
pub open spec fn spec_remove_player(g: GameStateV, p: PlayerV) -> bool {
    exists|i: int| 0 <= i < g.players.len() && g.players[i].name == p.name && g.players[i].active
}

/// The roster after the entry with this username, if any, is deleted.
pub open spec fn spec_delete_player(ps: Seq<PlayerV>, name: Seq<char>) -> Seq<PlayerV> {
    if roster_has(ps, name) {
        let i = choose|i: int| 0 <= i < ps.len() && ps[i].name == name;
        ps.subrange(0, i) + ps.subrange(i + 1, ps.len() as int)
    } else {
        ps
    }
}

/// Deleting a roster entry keeps the roster invariants.
pub proof fn lemma_delete_preserves_wf(ps: Seq<PlayerV>, name: Seq<char>)
    requires
        at_most_one_active(ps),
        names_distinct(ps),
    ensures
        at_most_one_active(spec_delete_player(ps, name)),
        names_distinct(spec_delete_player(ps, name)),
{
    if roster_has(ps, name) {
        let i = choose|i: int| 0 <= i < ps.len() && ps[i].name == name;
        let q = ps.subrange(0, i) + ps.subrange(i + 1, ps.len() as int);
        assert forall|a: int| 0 <= a < q.len() implies q[a] == ps[if a < i {
            a
        } else {
            a + 1
        }] by {
            if a < i {
                assert(q[a] == ps.subrange(0, i)[a]);
            } else {
                assert(q[a] == ps.subrange(i + 1, ps.len() as int)[a - i]);
            }
        }
    }
}

/// What a round advance does to a state, given the freshly drawn prompt: the
/// canvas is wiped, and the drawing turn moves to [`next_drawer`]. An empty
/// roster keeps its (empty) membership.
pub open spec fn spec_new_round(g: GameStateV, new_prompt: Seq<char>) -> GameStateV {
    GameStateV {
        prompt: new_prompt,
        canvas: CanvasV::blank(g.canvas.width, g.canvas.height),
        players: if g.players.len() == 0 {
            g.players
        } else {
            Seq::new(
                g.players.len(),
                |k: int| PlayerV { name: g.players[k].name, active: k == next_drawer(g.players) },
            )
        },
    }
}

/// Draw a prompt at random, never the excluded one. Draws are retried while
/// they hit the exclusion; after a bounded number of collisions one of the
/// first two list entries, which differ from each other, stands in.
fn random_prompt(not: Option<&String>) -> (p: String)
    ensures
        is_prompt_word(p@),
        (match not {
            Some(prev) => p@ != prev@,
            None => true,
        }),
{
    proof {
        assert(word_count() == 54);
    }
    match not {
        None => {
            let i = random_index(54);
            let w = word_at(i);
            proof {
                assert(0 <= i < word_list().len() && word_list()[i as int] == w@);
            }
            w
        },
        Some(prev) => {
            let mut tries: usize = 0;
            while tries < 64
                invariant
                    not == Some(prev),
                decreases 64 - tries,
            {
                let i = random_index(54);
                let w = word_at(i);
                if !(w == *prev) {
                    proof {
                        assert(0 <= i < word_list().len() && word_list()[i as int] == w@);
                    }
                    return w;
                }
                tries = tries + 1;
            }
            let w0 = word_at(0);
            if !(w0 == *prev) {
                proof {
                    assert(word_list()[0] == w0@);
                }
                return w0;
            }
            proof {
                lemma_two_words_differ();
            }
            let w1 = word_at(1);
            proof {
                assert(word_list()[1] == w1@);
            }
            w1
        },
    }
}

impl GameState {
    /// A fresh room's state: a random prompt, a blank default canvas, and an
    /// empty roster.
    pub fn new() -> (g: GameState)
        ensures
            g@.wf(),
            g@.players.len() == 0,
            g@.canvas == CanvasV::blank(
                crate::default_canvas_side(),
                crate::default_canvas_side(),
            ),
            is_prompt_word(g@.prompt),
    {
        let g = GameState {
            prompt: random_prompt(None),
            canvas: DrawCanvas::default(),
            players: Vec::new(),
        };
        proof {
            assert(g@.players =~= Seq::<PlayerV>::empty());
        }
        g
    }

    /// Append `player` to the roster unless the username is already taken.
    /// Returns whether the player was added; the first player to join an
    /// empty roster starts as the drawer.
    pub fn add_player(&mut self, player: Player) -> (added: bool)
        requires
            old(self)@.wf(),
        ensures
            final(self)@.wf(),
            added == spec_add_player(old(self)@, player@).1,
            final(self)@ == spec_add_player(old(self)@, player@).0,
    {
        let n = self.players.len();
        let mut k: usize = 0;
        while k < n
            invariant
                n == self.players.len(),
                *self == *old(self),
                old(self)@.wf(),
                k <= n,
                forall|m: int| 0 <= m < k ==> self@.players[m].name != player@.name,
            decreases n - k,
        {
            if self.players[k] == player {
                proof {
                    assert(self@.players[k as int].name == player@.name);
                    assert(roster_has(self@.players, player@.name));
                }
                return false;
            }
            k = k + 1;
        }
        let was_empty = self.players.len() == 0;
        proof {
            assert(!roster_has(self@.players, player@.name));
        }
        self.players.push(Player { username: player.username, active: was_empty });
        proof {
            assert(self@.players =~= spec_add_player(old(self)@, player@).0.players);
            assert(self@ =~= spec_add_player(old(self)@, player@).0);
        }
        true
    }

    /// Report whether this player currently holds the drawing turn, so the
    /// caller knows to advance the round after deleting the roster entry.
    /// The roster itself is left untouched; deletion is the caller's step.
    pub fn remove_player(&mut self, player: Player) -> (advance: bool)
        requires
            old(self)@.wf(),
        ensures
            *final(self) == *old(self),
            advance == spec_remove_player(old(self)@, player@),
    {
        let n = self.players.len();
        let mut k: usize = 0;
        while k < n
            invariant
                n == self.players.len(),
                *self == *old(self),
                old(self)@.wf(),
                k <= n,
                forall|m: int| 0 <= m < k ==> self@.players[m].name != player@.name,
            decreases n - k,
        {
            if self.players[k] == player {
                proof {
                    assert(self@.players[k as int].name == player@.name);
                    assert forall|i: int|
                        0 <= i < self@.players.len() && self@.players[i].name == player@.name
                            && self@.players[i].active implies i == k as int by {
                        assert(names_distinct(self@.players));
                    }
                }
                return self.players[k].active;
            }
            k = k + 1;
        }
        false
    }

    /// Advance the round: wipe the canvas, draw a fresh prompt different
    /// from the current one, and pass the drawing turn to the next player in
    /// roster order (or to the first player if nobody was marked active).
    pub fn new_round(&mut self)
        requires
            old(self)@.wf(),
        ensures
            final(self)@.wf(),
            final(self)@ == spec_new_round(old(self)@, final(self)@.prompt),
            is_prompt_word(final(self)@.prompt),
            final(self)@.prompt != old(self)@.prompt,
    {
        self.canvas.clear();
        let fresh = random_prompt(Some(&self.prompt));
        self.prompt = fresh;
        let n = self.players.len();
        if n > 0 {
            let mut k: usize = 0;
            let mut first_active: Option<usize> = None;
            while k < n
                invariant
                    n == self.players.len(),
                    k <= n,
                    (match first_active {
                        Some(j) => j < k && self@.players[j as int].active && (forall|m: int|
                            0 <= m < j ==> !self@.players[m].active),
                        None => forall|m: int| 0 <= m < k ==> !self@.players[m].active,
                    }),
                decreases n - k,
            {
                if first_active.is_none() && self.players[k].active {
                    first_active = Some(k);
                }
                k = k + 1;
            }
            let next: usize = match first_active {
                Some(j) => (j + 1) % n,
                None => 0,
            };
            proof {
                let ps = self@.players;
                match first_active {
                    Some(j) => {
                        assert(active_index(ps) == Some(j as int));
                        assert(next == next_drawer(ps));
                    },
                    None => {
                        assert(active_index(ps) is None);
                        assert(next == next_drawer(ps));
                    },
                }
            }
            let mut rebuilt: Vec<Player> = Vec::new();
            let mut k2: usize = 0;
            while k2 < n
                invariant
                    n == self.players.len(),
                    k2 <= n,
                    next < n,
                    rebuilt@.len() == k2,
                    forall|m: int|
                        0 <= m < k2 ==> #[trigger] rebuilt@[m]@ == (PlayerV {
                            name: self@.players[m].name,
                            active: m == next,
                        }),
                decreases n - k2,
            {
                let name = self.players[k2].username.clone();
                rebuilt.push(Player { username: name, active: k2 == next });
                k2 = k2 + 1;
            }
            let ghost before = self@.players;
            let ghost expected = spec_new_round(old(self)@, self@.prompt).players;
            self.players = rebuilt;
            proof {
                assert(self@.players =~= expected);
                assert(self@ =~= spec_new_round(old(self)@, self@.prompt));
            }
        } else {
            proof {
                assert(self@.players =~= spec_new_round(old(self)@, self@.prompt).players);
                assert(self@ =~= spec_new_round(old(self)@, self@.prompt));
            }
        }
    }
}

impl Clone for GameState {
    fn clone(&self) -> (r: GameState)
        ensures
            r@ == self@,
    {
        let mut players: Vec<Player> = Vec::new();
        let n = self.players.len();
        let mut k: usize = 0;
        while k < n
            invariant
                n == self.players.len(),
                k <= n,
                players@.len() == k,
                forall|m: int| 0 <= m < k ==> #[trigger] players@[m]@ == self@.players[m],
            decreases n - k,
        {
            players.push(self.players[k].clone());
            k = k + 1;
        }
        let r = GameState {
            prompt: self.prompt.clone(),
            canvas: self.canvas.clone(),
            players,
        };
        proof {
            assert(r@.players =~= self@.players);
            assert(r@ =~= self@);
        }
        r
    }
}

impl Default for GameState {
    /// The same fresh state as [`GameState::new`].
    fn default() -> (g: GameState)
        ensures
            g@.wf(),
            g@.players.len() == 0,
    {
        GameState::new()
    }
}

/// Joining is idempotent: however a join of `p` left the state, joining `p`
/// again is refused and changes nothing.
pub proof fn lemma_join_idempotent(g: GameStateV, p: PlayerV)
    ensures
        ({
            let g1 = spec_add_player(g, p).0;
            spec_add_player(g1, p) == (g1, false)
        }),
{
    let g1 = spec_add_player(g, p).0;
    if roster_has(g.players, p.name) {
        assert(g1 == g);
    } else {
        assert(g1.players[g.players.len() as int].name == p.name);
        assert(roster_has(g1.players, p.name));
    }
}

/// The first player to join an empty roster starts as the drawer; anyone who
/// joins a non-empty roster starts as a guesser.
pub proof fn lemma_join_activity(g: GameStateV, p: PlayerV)
    requires
        spec_add_player(g, p).1,
    ensures
        ({
            let ps = spec_add_player(g, p).0.players;
            ps.last() == (PlayerV { name: p.name, active: g.players.len() == 0 })
        }),
{
}

/// A round advance on a two-player roster whose first player draws hands the
/// turn to the second player and deactivates the first; the canvas comes out
/// blank and the prompt is the freshly drawn one.
pub proof fn lemma_round_rotates_pair(g: GameStateV, fresh: Seq<char>)
    requires
        g.wf(),
        g.players.len() == 2,
        g.players[0].active,
    ensures
        ({
            let g2 = spec_new_round(g, fresh);
            &&& g2.players.len() == 2
            &&& g2.players[0] == (PlayerV { name: g.players[0].name, active: false })
            &&& g2.players[1] == (PlayerV { name: g.players[1].name, active: true })
            &&& g2.canvas == CanvasV::blank(g.canvas.width, g.canvas.height)
            &&& g2.prompt == fresh
        }),
{
    assert(active_index(g.players) == Some(0int));
}

/// A round advance on a single-player roster leaves membership and activity
/// alone: the lone player keeps drawing; only prompt and canvas reset.
pub proof fn lemma_round_single_player(g: GameStateV, fresh: Seq<char>)
    requires
        g.wf(),
        g.players.len() == 1,
        g.players[0].active,
    ensures
        spec_new_round(g, fresh).players =~= g.players,
{
    assert(active_index(g.players) == Some(0int));
    assert(next_drawer(g.players) == 0);
}

} // verus!
