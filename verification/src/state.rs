//! Players as the server knows them.

use vstd::prelude::*;
use crate::text::join5;
use indexmap::IndexMap;
use crate::collections::{
    entry_keys, player_entries, player_map_get_index, player_map_get_index_of, player_map_insert,
    player_map_len, player_map_new, position_of,
};

verus! {

/// A player: the name they chose, the room they joined, and the connection
/// through which they are reached, if they are connected.
pub struct Player {
    pub name: String,
    pub game: String,
    pub connection: Option<u64>,
}

impl Player {
    /// A player who is not connected yet.
    pub fn new(name: &str, game: &str) -> (p: Self)
        ensures
            p.name@ == name@,
            p.game@ == game@,
            p.connection is None,
    {
        Player { name: name.to_owned(), game: game.to_owned(), connection: None }
    }

    /// The player as the server shows it in its log:
    /// `Player { name: ..., game: ... addr: ... }`, where `addr` says whether
    /// the player is connected.
    pub fn describe(&self) -> (r: String)
        ensures
            r@ == "Player { name: "@ + self.name@ + ", game: "@ + self.game@ + " addr: "@ + (if self.connection is Some {
                "true"@
            } else {
                "false"@
            }) + " }"@,
    {
        let r = join5("Player { name: ", self.name.as_str(), ", game: ", self.game.as_str(), " addr: ");
        let connected = match self.connection {
            Some(_) => "true",
            None => "false",
        };
        r.concat(connected).concat(" }")
    }
}

/// Whether `p` is a player called `name` in the room `room`, not connected.
pub open spec fn is_new_player(p: Player, name: Seq<char>, room: Seq<char>) -> bool {
    p.name@ == name && p.game@ == room && p.connection is None
}

/// The players known to the server, by the id of their session.
pub struct Registry {
    pub players: IndexMap<String, Player>,
}

impl Registry {
    /// The known players: session id and player.
    pub open spec fn entries(&self) -> Seq<(Seq<char>, Player)> {
        player_entries(self.players)
    }

    /// No session is known twice, and no two sessions go by the same name.
    pub open spec fn wf(&self) -> bool {
        &&& entry_keys(self.entries()).no_duplicates()
        &&& forall|j: int, k: int|
            0 <= j < k < self.entries().len() ==> #[trigger] self.entries()[j].1.name@
                != #[trigger] self.entries()[k].1.name@
    }

    /// Whether a session other than `uuid` goes by `name`.
    pub open spec fn name_taken(&self, uuid: Seq<char>, name: Seq<char>) -> bool {
        exists|j: int| 0 <= j < self.entries().len() && #[trigger] self.entries()[j].1.name@ == name
            && self.entries()[j].0 != uuid
    }

    /// A registry that knows nobody.
    pub fn new() -> (r: Self)
        ensures
            r.wf(),
            r.entries() == Seq::<(Seq<char>, Player)>::empty(),
    {
        let r = Registry { players: player_map_new() };
        assert(entry_keys(r.entries()) =~= Seq::<Seq<char>>::empty());
        r
    }

    /// The player of the session `uuid`, if known.
    pub fn get(&self, uuid: &str) -> (r: Option<&Player>)
        requires
            entry_keys(self.entries()).no_duplicates(),
        ensures
            !entry_keys(self.entries()).contains(uuid@) ==> r is None,
            entry_keys(self.entries()).contains(uuid@) ==> r == Some(
                &self.entries()[position_of(entry_keys(self.entries()), uuid@)].1,
            ),
    {
        match player_map_get_index_of(&self.players, uuid) {
            Some(i) => {
                proof {
                    let keys = entry_keys(self.entries());
                    assert(keys[i as int] == uuid@);
                    assert(keys.contains(uuid@));
                    let k = position_of(keys, uuid@);
                    assert(keys[k] == uuid@);
                }
                let (_, p) = player_map_get_index(&self.players, i).unwrap();
                Some(p)
            },
            None => None,
        }
    }

    /// Knows the session `uuid` from now on as the player called `name` in
    /// the room `room`, unless another session goes by that name.
    pub fn join(&mut self, uuid: &str, name: &str, room: &str) -> (r: Result<(), String>)
        requires
            old(self).wf(),
        ensures
            final(self).wf(),
            old(self).name_taken(uuid@, name@) ==> (r matches Err(e) && e@ == name@ + " already in use!"@)
                && *final(self) == *old(self),
            !old(self).name_taken(uuid@, name@) ==> r is Ok && ({
                let keys = entry_keys(old(self).entries());
                let i = position_of(keys, uuid@);
                if keys.contains(uuid@) {
                    &&& final(self).entries() == old(self).entries().update(i, (keys[i], final(self).entries()[i].1))
                    &&& is_new_player(final(self).entries()[i].1, name@, room@)
                } else {
                    &&& final(self).entries() == old(self).entries().push((uuid@, final(self).entries().last().1))
                    &&& is_new_player(final(self).entries().last().1, name@, room@)
                }
            }),
    {
        let n = player_map_len(&self.players);
        let mut j: usize = 0;
        let wanted = name.to_owned();
        let own = uuid.to_owned();
        while j < n
            invariant
                j <= n,
                *self == *old(self),
                self.wf(),
                n == self.entries().len(),
                wanted@ == name@,
                own@ == uuid@,
                forall|k: int| 0 <= k < j ==> !(#[trigger] self.entries()[k].1.name@ == name@ && self.entries()[k].0 != uuid@),
            decreases n - j,
        {
            let (key, p) = player_map_get_index(&self.players, j).unwrap();
            if p.name == wanted && !(*key == own) {
                return Err(name.to_owned().concat(" already in use!"));
            }
            j = j + 1;
        }
        let ghost keys = entry_keys(old(self).entries());
        let ghost found = keys.contains(uuid@);
        let ghost i = position_of(keys, uuid@);
        player_map_insert(&mut self.players, uuid.to_owned(), Player::new(name, room));
        proof {
            let old_entries = old(self).entries();
            assert forall|j: int| 0 <= j < old_entries.len() && old_entries[j].1.name@ == name@ implies old_entries[j].0 == uuid@ by {
                if old_entries[j].0 != uuid@ {
                    assert(old(self).name_taken(uuid@, name@));
                }
            }
            if found {
                assert(entry_keys(self.entries()) =~= keys);
                assert(keys[i] == uuid@);
                let e = self.entries();
                assert forall|j: int, k: int| 0 <= j < k < e.len() implies #[trigger] e[j].1.name@ != #[trigger] e[k].1.name@ by {
                    if j == i {
                        assert(old_entries[k].0 == keys[k]);
                        assert(keys[k] != keys[i]);
                    } else if k == i {
                        assert(old_entries[j].0 == keys[j]);
                        assert(keys[j] != keys[i]);
                    } else {
                        assert(e[j] == old_entries[j] && e[k] == old_entries[k]);
                    }
                }
            } else {
                let e = self.entries();
                assert forall|j: int, k: int| 0 <= j < k < e.len() implies #[trigger] e[j].1.name@ != #[trigger] e[k].1.name@ by {
                    if k == old_entries.len() {
                        assert(old_entries[j].0 == keys[j]);
                        assert(keys.contains(keys[j]));
                    } else {
                        assert(e[j] == old_entries[j] && e[k] == old_entries[k]);
                    }
                }
                assert(entry_keys(self.entries()) =~= keys.push(uuid@));
                assert forall|a: int, b: int| 0 <= a < b < keys.len() + 1 implies entry_keys(self.entries())[a] != entry_keys(self.entries())[b] by {
                    if b == keys.len() {
                        assert(keys.contains(keys[a]));
                    }
                }
            }
        }
        Ok(())
    }
}

} // verus!
