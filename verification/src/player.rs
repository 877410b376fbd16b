//! Players and their identity. Two players are the same player exactly when
//! their usernames match; the `active` flag (whether the player currently
//! holds the drawing turn) never takes part in membership checks.

use vstd::prelude::*;

verus! {

/// One member of a room's roster. `active` is true exactly while the player
/// holds the drawing turn.
#[derive(Debug)]
pub struct Player {
    pub username: String,
    pub active: bool,
}

/// The mathematical value of a [`Player`].
pub struct PlayerV {
    pub name: Seq<char>,
    pub active: bool,
}

impl View for Player {
    type V = PlayerV;

    open spec fn view(&self) -> PlayerV {
        PlayerV { name: self.username@, active: self.active }
    }
}

impl Clone for Player {
    fn clone(&self) -> (r: Player)
        ensures
            r@ == self@,
    {
        Player { username: self.username.clone(), active: self.active }
    }
}

/// Player identity: equality goes by username alone, so the same person with
/// a different `active` flag still counts as present.
pub open spec fn same_player(a: PlayerV, b: PlayerV) -> bool {
    a.name == b.name
}

impl PartialEq for Player {
    fn eq(&self, other: &Player) -> (r: bool)
        ensures
            r == same_player(self@, other@),
    {
        self.username == other.username
    }
}

impl vstd::std_specs::cmp::PartialEqSpecImpl for Player {
    open spec fn obeys_eq_spec() -> bool {
        true
    }

    open spec fn eq_spec(&self, other: &Player) -> bool {
        same_player(self@, other@)
    }
}

} // verus!
