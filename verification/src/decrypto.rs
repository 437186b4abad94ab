//! The rules of a game of Decrypto between two teams: joining and leaving
//! teams, rounds, guesses, scoring, and what each player is told.

use vstd::prelude::*;
use indexmap::IndexMap;
use indexmap::IndexSet;
use crate::collections::{
    entry_keys, name_set_contains, name_set_get_index, name_set_insert, name_set_items,
    name_set_len, name_set_new, name_set_swap_remove, player_entries, player_map_get_index,
    player_map_get_index_of, player_map_insert, player_map_len, player_map_new,
    player_map_swap_remove, position_of, swap_removed,
};
use crate::messages::{
    send_all_to, send_to, strings_view, Command, CommandView, Outbox, Outgoing, OutgoingView,
    RoundInfo, RoundInfoView, TeamName, copy_strings3, copy_strings4,
};
use crate::random::sample_distinct;
use crate::state::Player;
use crate::text::{decimal, decimal_string, join3, join5};

verus! {

/// Where the game stands.
#[derive(Debug)]
pub enum State {
    Setup,
    Rounds,
    GuessWords,
    Winner(String),
    Tie,
}

/// One round of a team: who gives the clues, the secret order of the
/// words, the clues, the team's own guess and the other team's guess.
/// A guess of all zeros is a guess not made yet.
#[derive(Debug)]
pub struct Round {
    pub clue_giver: usize,
    pub order: [u8; 3],
    pub clues: [String; 3],
    pub guess: [u8; 3],
    pub spy_guess: [u8; 3],
}

/// A team: its players in the order they joined, whose turn it is to give
/// clues, its four secret words, its tokens and its rounds so far.
pub struct Team {
    pub players: IndexSet<String>,
    pub active_player_index: usize,
    pub words: [String; 4],
    pub intercepts: u8,
    pub miscommunications: u8,
    pub rounds: Vec<Round>,
}

/// A game: two teams, where the game stands, and the players in the room
/// (by the id of their session) in the order they arrived.  The first of
/// them is the host.
pub struct Decrypto {
    pub team_a: Team,
    pub team_b: Team,
    pub state: State,
    pub players: IndexMap<String, Player>,
}

/// Whether `o` is an order of the three clues: 1, 2 and 3, each once.
pub open spec fn is_order(o: [u8; 3]) -> bool {
    &&& 1 <= o[0] <= 3
    &&& 1 <= o[1] <= 3
    &&& 1 <= o[2] <= 3
    &&& o[0] != o[1]
    &&& o[0] != o[2]
    &&& o[1] != o[2]
}

/// Whether each of the three guessed positions is set.
pub open spec fn all_set(g: [u8; 3]) -> bool {
    g[0] > 0 && g[1] > 0 && g[2] > 0
}

/// Whether no guessed position is set.
pub open spec fn none_set(g: [u8; 3]) -> bool {
    g[0] == 0 && g[1] == 0 && g[2] == 0
}

/// Whether every clue is given.
pub open spec fn all_given(c: [String; 3]) -> bool {
    c[0]@.len() > 0 && c[1]@.len() > 0 && c[2]@.len() > 0
}

/// Whether no clue is given.
pub open spec fn none_given(c: [String; 3]) -> bool {
    c[0]@.len() == 0 && c[1]@.len() == 0 && c[2]@.len() == 0
}

/// Whether `words` are the strings of `list` at the distinct positions `idx`.
pub open spec fn picked_at(words: Seq<String>, list: Seq<String>, idx: Seq<usize>) -> bool {
    &&& idx.len() == words.len()
    &&& idx.no_duplicates()
    &&& forall|k: int| 0 <= k < idx.len() ==> #[trigger] idx[k] < list.len() && words[k] == list[idx[k] as int]
}

impl Team {
    /// The team's players, in the order they joined.
    pub open spec fn names(&self) -> Seq<Seq<char>> {
        name_set_items(self.players)
    }

    /// The round being played: the last one.
    pub open spec fn last_round(&self) -> Round {
        self.rounds@.last()
    }

    /// What holds of a team at all times: no player twice, at most nine
    /// rounds, every clue giver is one of the team's players, and the secret
    /// order of every round is an order of the three clues.
    pub open spec fn wf(&self) -> bool {
        &&& self.names().no_duplicates()
        &&& self.rounds@.len() <= 9
        &&& self.rounds@.len() == 0 ==> self.active_player_index == 0
        &&& self.rounds@.len() > 0 ==> self.active_player_index < self.names().len()
        &&& forall|i: int| 0 <= i < self.rounds@.len() ==> #[trigger] self.rounds@[i].clue_giver
            < self.names().len() && is_order(self.rounds@[i].order)
    }

    /// Whether the last round has clues, the team's guess and the other
    /// team's guess (each of them at least in part).
    pub open spec fn round_complete(&self) -> bool {
        &&& self.rounds@.len() > 0
        &&& !none_given(self.last_round().clues)
        &&& !none_set(self.last_round().guess)
        &&& !none_set(self.last_round().spy_guess)
    }
}

/// The strings of `wordlist` at the positions `idx`, in that order.
pub fn words_at(wordlist: &[String], idx: &[usize]) -> (r: Vec<String>)
    requires
        forall|k: int| 0 <= k < idx@.len() ==> #[trigger] idx@[k] < wordlist@.len(),
    ensures
        r@ == idx@.map_values(|i: usize| wordlist@[i as int]),
{
    let mut picks: Vec<String> = Vec::new();
    let mut i: usize = 0;
    while i < idx.len()
        invariant
            0 <= i <= idx@.len(),
            forall|k: int| 0 <= k < idx@.len() ==> #[trigger] idx@[k] < wordlist@.len(),
            picks@ == idx@.take(i as int).map_values(|j: usize| wordlist@[j as int]),
        decreases idx@.len() - i,
    {
        picks.push(wordlist[idx[i]].clone());
        proof {
            assert(idx@.take(i + 1) =~= idx@.take(i as int).push(idx@[i as int]));
            assert(picks@ =~= idx@.take(i + 1).map_values(|j: usize| wordlist@[j as int]));
        }
        i = i + 1;
    }
    proof {
        assert(idx@.take(idx@.len() as int) =~= idx@);
    }
    picks
}

/// Eight strings of `wordlist`, at distinct positions chosen at random:
/// the positions are drawn, and `words_at` takes the words there.
fn pick_words(wordlist: &[String]) -> (r: Vec<String>)
    requires
        wordlist@.len() >= 8,
    ensures
        r@.len() == 8,
        exists|idx: Seq<usize>| picked_at(r@, wordlist@, idx),
{
    let idx = sample_distinct(wordlist.len(), 8);
    let picks = words_at(wordlist, idx.as_slice());
    assert(picked_at(picks@, wordlist@, idx@));
    picks
}

/// The four strings of `slice`, copied.
fn clone_slice(slice: &[String]) -> (r: [String; 4])
    requires
        slice@.len() == 4,
    ensures
        r@ == slice@,
{
    let r = [slice[0].clone(), slice[1].clone(), slice[2].clone(), slice[3].clone()];
    assert(r@ =~= slice@);
    r
}

/// The order of the clues given by three drawn positions: each position
/// plus one.
pub fn order_from(picks: &[usize]) -> (o: [u8; 3])
    requires
        picks@.len() == 3,
        forall|k: int| 0 <= k < 3 ==> #[trigger] picks@[k] < 255,
    ensures
        forall|k: int| 0 <= k < 3 ==> #[trigger] o[k] == picks@[k] + 1,
{
    let a = picks[0];
    let b = picks[1];
    let c = picks[2];
    [(a + 1) as u8, (b + 1) as u8, (c + 1) as u8]
}

/// A secret order of the three clues, chosen at random: the three positions
/// are drawn in random order, and `order_from` turns them into the order.
fn generate_order() -> (r: Result<[u8; 3], String>)
    ensures
        r matches Ok(o) && is_order(o),
{
    let picks = sample_distinct(3, 3);
    let array = order_from(picks.as_slice());
    assert(picks@[0] != picks@[1] && picks@[0] != picks@[2] && picks@[1] != picks@[2]);
    assert(array[0] == picks@[0] + 1 && array[1] == picks@[1] + 1 && array[2] == picks@[2] + 1);
    Ok(array)
}

/// Whether `r` is the error `msg`.
pub open spec fn fails_with<T>(r: Result<T, String>, msg: Seq<char>) -> bool {
    r matches Err(e) && e@ == msg
}

/// Whether `t` is `old` with its players, and nothing else, changed.
pub open spec fn only_players_changed(t: Team, old: Team) -> bool {
    &&& t.active_player_index == old.active_player_index
    &&& t.words == old.words
    &&& t.intercepts == old.intercepts
    &&& t.miscommunications == old.miscommunications
    &&& t.rounds == old.rounds
}

/// Puts `player` on `team`, unless they are on it already or the game has
/// started.
pub fn add_player_to_team(player: &str, team: &mut Team) -> (r: Result<(), String>)
    ensures
        old(team).wf() ==> final(team).wf(),
        old(team).names().contains(player@) ==> fails_with(r, player@ + " is already on team."@)
            && *final(team) == *old(team),
        !old(team).names().contains(player@) && old(team).rounds@.len() > 0 ==> fails_with(
            r,
            "Game alread started."@,
        ) && *final(team) == *old(team),
        !old(team).names().contains(player@) && old(team).rounds@.len() == 0 ==> r is Ok
            && final(team).names() == old(team).names().push(player@) && only_players_changed(
            *final(team),
            *old(team),
        ),
{
    if name_set_contains(&team.players, player) {
        return Err(player.to_owned().concat(" is already on team."));
    }
    if team.rounds.len() != 0 {
        return Err("Game alread started.".to_owned());
    }
    name_set_insert(&mut team.players, player.to_owned());
    Ok(())
}

/// Takes `player` off `team`, unless the game has started.
pub fn remove_player_from_team(player: &str, team: &mut Team) -> (r: Result<(), String>)
    ensures
        old(team).wf() ==> final(team).wf(),
        old(team).rounds@.len() > 0 ==> fails_with(r, "Game alread started."@) && *final(team)
            == *old(team),
        old(team).rounds@.len() == 0 ==> r is Ok && only_players_changed(*final(team), *old(team))
            && final(team).names() == (if old(team).names().contains(player@) {
            swap_removed(old(team).names(), position_of(old(team).names(), player@))
        } else {
            old(team).names()
        }),
{
    if team.rounds.len() != 0 {
        return Err("Game alread started.".to_owned());
    }
    if !name_set_contains(&team.players, player) {
        return Ok(());
    }
    name_set_swap_remove(&mut team.players, player);
    proof {
        if old(team).wf() {
            lemma_swap_removed_no_duplicates(old(team).names(), position_of(old(team).names(), player@));
        }
    }
    Ok(())
}

/// Removing a name from a sequence without duplicates takes it out and
/// leaves one item fewer.
pub proof fn lemma_without_removes(names: Seq<Seq<char>>, name: Seq<char>)
    requires
        names.no_duplicates(),
        names.contains(name),
    ensures
        !without(names, name).contains(name),
        without(names, name).len() + 1 == names.len(),
{
    let i = position_of(names, name);
    lemma_swap_removed_no_duplicates(names, i);
}

/// What a sequence holds after a push.
proof fn lemma_push_contains<A>(s: Seq<A>, x: A)
    ensures
        forall|n: A| #[trigger] s.push(x).contains(n) <==> (s.contains(n) || n == x),
{
    assert forall|n: A| #[trigger] s.push(x).contains(n) <==> (s.contains(n) || n == x) by {
        if s.push(x).contains(n) {
            let i = choose|i: int| 0 <= i < s.len() + 1 && s.push(x)[i] == n;
            if i < s.len() {
                assert(s[i] == n);
            }
        }
        if s.contains(n) {
            let i = choose|i: int| 0 <= i < s.len() && s[i] == n;
            assert(s.push(x)[i] == n);
        }
        if n == x {
            assert(s.push(x)[s.len() as int] == n);
        }
    }
}

/// Removing one item keeps a sequence free of duplicates.
proof fn lemma_swap_removed_no_duplicates<A>(s: Seq<A>, i: int)
    requires
        s.no_duplicates(),
        0 <= i < s.len(),
    ensures
        swap_removed(s, i).no_duplicates(),
        forall|x: A| #[trigger] swap_removed(s, i).contains(x) <==> (s.contains(x) && x != s[i]),
{
    let t = swap_removed(s, i);
    assert forall|x: A| t.contains(x) <==> (s.contains(x) && x != s[i]) by {
        if t.contains(x) {
            let k = choose|k: int| 0 <= k < t.len() && t[k] == x;
            if k == i {
                assert(x == s.last());
            } else {
                assert(x == s[k]);
            }
        }
        if s.contains(x) && x != s[i] {
            let k = choose|k: int| 0 <= k < s.len() && s[k] == x;
            if k == s.len() - 1 {
                assert(t[i] == x);
            } else {
                assert(t[k] == x);
            }
        }
    }
}

/// Whether two orders are the same, position by position.
pub open spec fn same_order(a: [u8; 3], b: [u8; 3]) -> bool {
    a[0] == b[0] && a[1] == b[1] && a[2] == b[2]
}

/// Whether `t` is `old` with a new round after the old ones, the next player
/// as its clue giver, and nothing else changed.
pub open spec fn round_started(t: Team, old: Team) -> bool {
    &&& t.players == old.players
    &&& t.words == old.words
    &&& t.intercepts == old.intercepts
    &&& t.miscommunications == old.miscommunications
    &&& t.active_player_index == (old.active_player_index + 1) % (old.names().len() as int)
    &&& t.rounds@.len() == old.rounds@.len() + 1
    &&& t.rounds@.drop_last() == old.rounds@
    &&& t.last_round().clue_giver == t.active_player_index
    &&& is_order(t.last_round().order)
    &&& none_given(t.last_round().clues)
    &&& none_set(t.last_round().guess)
    &&& none_set(t.last_round().spy_guess)
}

/// Starts a new round for `team`: the next player gives the clues, the
/// order is drawn at random.  Fails once nine rounds have been played.
fn new_round_for_team(team: &mut Team) -> (r: Result<(), String>)
    requires
        old(team).wf(),
        old(team).rounds@.len() <= 8 ==> old(team).names().len() > 0,
    ensures
        final(team).wf(),
        old(team).rounds@.len() > 8 ==> fails_with(r, "Too many rounds!"@) && *final(team)
            == *old(team),
        old(team).rounds@.len() <= 8 ==> r is Ok && round_started(*final(team), *old(team)),
{
    if team.rounds.len() > 8 {
        return Err("Too many rounds!".to_owned());
    }
    let n = name_set_len(&team.players);
    team.active_player_index = (team.active_player_index + 1) % n;
    let order = match generate_order() {
        Ok(o) => o,
        Err(e) => return Err(e),
    };
    team.rounds.push(
        Round {
            clue_giver: team.active_player_index,
            order,
            clues: [String::new(), String::new(), String::new()],
            guess: [0, 0, 0],
            spy_guess: [0, 0, 0],
        },
    );
    assert(team.rounds@.drop_last() =~= old(team).rounds@);
    Ok(())
}

/// The team's guess of the order of its own last round; a wrong guess is a
/// miscommunication.
fn guess_team(guess: &[u8; 3], team: &mut Team) -> (r: Result<(), String>)
    requires
        old(team).wf(),
        old(team).rounds@.len() > 0 && !same_order(old(team).last_round().order, *guess)
            ==> old(team).miscommunications < 255,
    ensures
        final(team).wf(),
        old(team).rounds@.len() == 0 ==> fails_with(r, "No rounds!"@) && *final(team) == *old(team),
        old(team).rounds@.len() > 0 ==> {
            &&& r is Ok
            &&& final(team).rounds@ == old(team).rounds@.drop_last().push(
                Round { guess: *guess, ..old(team).last_round() },
            )
            &&& final(team).miscommunications == old(team).miscommunications + (if same_order(
                old(team).last_round().order,
                *guess,
            ) {
                0int
            } else {
                1int
            })
            &&& final(team).players == old(team).players
            &&& final(team).active_player_index == old(team).active_player_index
            &&& final(team).words == old(team).words
            &&& final(team).intercepts == old(team).intercepts
        },
{
    if team.rounds.len() == 0 {
        return Err("No rounds!".to_owned());
    }
    match team.rounds.pop() {
        Some(mut round) => {
            round.guess = *guess;
            let missed = round.order[0] != guess[0] || round.order[1] != guess[1] || round.order[2]
                != guess[2];
            team.rounds.push(round);
            if missed {
                team.miscommunications = team.miscommunications + 1;
            }
            proof {
                assert(team.rounds@ =~= old(team).rounds@.drop_last().push(
                    Round { guess: *guess, ..old(team).last_round() },
                ));
            }
            Ok(())
        },
        None => Err("No rounds!".to_owned()),
    }
}

/// The other team's guess of the order of `team`'s last round; a right
/// guess is an interception, scored by `scoring_team`.
fn spy_guess_team(guess: &[u8; 3], team: &mut Team, scoring_team: &mut Team) -> (r: Result<
    (),
    String,
>)
    requires
        old(team).wf(),
        old(scoring_team).wf(),
        old(team).rounds@.len() > 0 && same_order(old(team).last_round().order, *guess)
            ==> old(scoring_team).intercepts < 255,
    ensures
        final(team).wf(),
        final(scoring_team).wf(),
        old(team).rounds@.len() == 0 ==> fails_with(r, "No rounds!"@) && *final(team) == *old(team)
            && *final(scoring_team) == *old(scoring_team),
        old(team).rounds@.len() > 0 ==> {
            &&& r is Ok
            &&& final(team).rounds@ == old(team).rounds@.drop_last().push(
                Round { spy_guess: *guess, ..old(team).last_round() },
            )
            &&& only_rounds_changed(*final(team), *old(team))
            &&& final(scoring_team).intercepts == old(scoring_team).intercepts + (if same_order(
                old(team).last_round().order,
                *guess,
            ) {
                1int
            } else {
                0int
            })
            &&& only_intercepts_changed(*final(scoring_team), *old(scoring_team))
        },
{
    if team.rounds.len() == 0 {
        return Err("No rounds!".to_owned());
    }
    match team.rounds.pop() {
        Some(mut round) => {
            round.spy_guess = *guess;
            let hit = round.order[0] == guess[0] && round.order[1] == guess[1] && round.order[2]
                == guess[2];
            team.rounds.push(round);
            if hit {
                scoring_team.intercepts = scoring_team.intercepts + 1;
            }
            proof {
                assert(team.rounds@ =~= old(team).rounds@.drop_last().push(
                    Round { spy_guess: *guess, ..old(team).last_round() },
                ));
            }
            Ok(())
        },
        None => Err("No rounds!".to_owned()),
    }
}

/// The clues for `team`'s last round.
fn give_clues_team(clues: &[String; 3], team: &mut Team) -> (r: Result<(), String>)
    requires
        old(team).wf(),
    ensures
        final(team).wf(),
        old(team).rounds@.len() == 0 ==> fails_with(r, "No rounds!"@) && *final(team) == *old(team),
        old(team).rounds@.len() > 0 ==> {
            &&& r is Ok
            &&& final(team).rounds@ == old(team).rounds@.drop_last().push(
                Round { clues: *clues, ..old(team).last_round() },
            )
            &&& only_rounds_changed(*final(team), *old(team))
        },
{
    if team.rounds.len() == 0 {
        return Err("No rounds!".to_owned());
    }
    match team.rounds.pop() {
        Some(mut round) => {
            round.clues = copy_strings3(clues);
            team.rounds.push(round);
            proof {
                assert(team.rounds@ =~= old(team).rounds@.drop_last().push(
                    Round { clues: *clues, ..old(team).last_round() },
                ));
            }
            Ok(())
        },
        None => Err("No rounds!".to_owned()),
    }
}

/// Whether `t` is `old` with its rounds, and nothing else, changed.
pub open spec fn only_rounds_changed(t: Team, old: Team) -> bool {
    &&& t.players == old.players
    &&& t.active_player_index == old.active_player_index
    &&& t.words == old.words
    &&& t.intercepts == old.intercepts
    &&& t.miscommunications == old.miscommunications
}

/// Whether `t` is `old` with its intercepts, and nothing else, changed.
pub open spec fn only_intercepts_changed(t: Team, old: Team) -> bool {
    &&& t.players == old.players
    &&& t.active_player_index == old.active_player_index
    &&& t.words == old.words
    &&& t.miscommunications == old.miscommunications
    &&& t.rounds == old.rounds
}

/// Whether the team's last round has clues and both guesses.
fn is_round_complete_for_team(team: &Team) -> (r: bool)
    ensures
        r == team.round_complete(),
{
    let n = team.rounds.len();
    if n == 0 {
        return false;
    }
    let round = &team.rounds[n - 1];
    if round.clues[0].as_str().is_empty() && round.clues[1].as_str().is_empty()
        && round.clues[2].as_str().is_empty() {
        return false;
    }
    if round.guess[0] == 0 && round.guess[1] == 0 && round.guess[2] == 0 {
        return false;
    }
    if round.spy_guess[0] == 0 && round.spy_guess[1] == 0 && round.spy_guess[2] == 0 {
        return false;
    }
    true
}

/// What a player may see of round `n` of `team`, whose opponents are
/// `other`: the clues once all three are given, each guess once it is made
/// in full, and the order once both guesses are made.
pub open spec fn round_info(n: int, team: Team, other: Team) -> RoundInfoView {
    let round = team.rounds@[n];
    let guessed = all_set(round.guess);
    let spied = all_set(round.spy_guess);
    RoundInfoView {
        number: n as usize,
        clue_giver: team.names()[round.clue_giver as int],
        enemy_clue_giver: other.names()[other.rounds@[n].clue_giver as int],
        clues: if all_given(round.clues) {
            Some(strings_view(round.clues))
        } else {
            None
        },
        guess: if guessed {
            Some(round.guess)
        } else {
            None
        },
        spy_guess: if spied {
            Some(round.spy_guess)
        } else {
            None
        },
        order: if guessed && spied {
            Some(round.order)
        } else {
            None
        },
    }
}

/// The information on round `round_number` of `team`, whose opponents are
/// `other_team`.  Fails if either team has no such round.
pub fn build_round_info(round_number: usize, team: &Team, other_team: &Team) -> (r: Result<
    RoundInfo,
    String,
>)
    requires
        round_number < team.rounds@.len() && round_number < other_team.rounds@.len() ==> {
            &&& team.rounds@[round_number as int].clue_giver < team.names().len()
            &&& other_team.rounds@[round_number as int].clue_giver < other_team.names().len()
        },
    ensures
        round_number >= team.rounds@.len() ==> fails_with(
            r,
            "Team rounds out of bounds "@ + decimal(round_number as nat) + " <> "@ + decimal(
                team.rounds@.len(),
            ) + "."@,
        ),
        round_number < team.rounds@.len() && round_number >= other_team.rounds@.len()
            ==> fails_with(
            r,
            "Other Team rounds out of bounds "@ + decimal(round_number as nat) + " <> "@
                + decimal(other_team.rounds@.len()) + "."@,
        ),
        round_number < team.rounds@.len() && round_number < other_team.rounds@.len() ==> (r matches Ok(
            info,
        ) && info@ == round_info(round_number as int, *team, *other_team)),
{
    if round_number >= team.rounds.len() {
        return Err(
            join5(
                "Team rounds out of bounds ",
                decimal_string(round_number).as_str(),
                " <> ",
                decimal_string(team.rounds.len()).as_str(),
                ".",
            ),
        );
    }
    if round_number >= other_team.rounds.len() {
        return Err(
            join5(
                "Other Team rounds out of bounds ",
                decimal_string(round_number).as_str(),
                " <> ",
                decimal_string(other_team.rounds.len()).as_str(),
                ".",
            ),
        );
    }
    let round = &team.rounds[round_number];
    let other_round = &other_team.rounds[round_number];
    let clue_giver = name_set_get_index(&team.players, round.clue_giver).unwrap().clone();
    let enemy_clue_giver = name_set_get_index(&other_team.players, other_round.clue_giver).unwrap().clone();
    let clues_set = !round.clues[0].as_str().is_empty() && !round.clues[1].as_str().is_empty()
        && !round.clues[2].as_str().is_empty();
    let guessed = round.guess[0] > 0 && round.guess[1] > 0 && round.guess[2] > 0;
    let spy_guessed = round.spy_guess[0] > 0 && round.spy_guess[1] > 0 && round.spy_guess[2] > 0;
    let info = RoundInfo {
        number: round_number,
        clue_giver,
        enemy_clue_giver,
        clues: if clues_set {
            Some(copy_strings3(&round.clues))
        } else {
            None
        },
        guess: if guessed {
            Some(round.guess)
        } else {
            None
        },
        spy_guess: if spy_guessed {
            Some(round.spy_guess)
        } else {
            None
        },
        order: if guessed && spy_guessed {
            Some(round.order)
        } else {
            None
        },
    };
    Ok(info)
}

/// What broadcasting `command` sends: one message to each connected player
/// of `entries`, in their order, except to those whose name is in `skip`.
pub open spec fn broadcast(
    entries: Seq<(Seq<char>, Player)>,
    skip: Seq<Seq<char>>,
    command: CommandView,
) -> Seq<OutgoingView>
    decreases entries.len(),
{
    if entries.len() == 0 {
        Seq::empty()
    } else {
        let p = entries.last().1;
        broadcast(entries.drop_last(), skip, command) + if p.connection is Some && !skip.contains(
            p.name@,
        ) {
            seq![send_to(p.connection->0, command)]
        } else {
            Seq::empty()
        }
    }
}

/// What sending `command` to the players called `name` sends: one message
/// to each connected player of `entries` with that name, in their order.
pub open spec fn send_named(
    entries: Seq<(Seq<char>, Player)>,
    name: Seq<char>,
    command: CommandView,
) -> Seq<OutgoingView>
    decreases entries.len(),
{
    if entries.len() == 0 {
        Seq::empty()
    } else {
        let p = entries.last().1;
        send_named(entries.drop_last(), name, command) + if p.connection is Some && p.name@
            == name {
            seq![send_to(p.connection->0, command)]
        } else {
            Seq::empty()
        }
    }
}

/// The names not to send to: those of `team`, if one is given.
pub open spec fn skipped(team: Option<&Team>) -> Seq<Seq<char>> {
    match team {
        Some(t) => t.names(),
        None => Seq::empty(),
    }
}

/// Whether `t` is a team at the start of a game, with the given words.
pub open spec fn fresh_team(t: Team, words: Seq<String>) -> bool {
    &&& t.names() == Seq::<Seq<char>>::empty()
    &&& t.active_player_index == 0
    &&& t.words@ == words
    &&& t.intercepts == 0
    &&& t.miscommunications == 0
    &&& t.rounds@.len() == 0
}

/// Whether `post` may follow `pre` by one operation of a game other than
/// starting a round directly: a well started game stays so, and once the
/// game has started it never returns to its setup and its teams keep their
/// players.
pub open spec fn continues(post: Decrypto, pre: Decrypto) -> bool {
    &&& pre.started_well() ==> post.started_well()
    &&& !(pre.state is Setup) ==> {
        &&& !(post.state is Setup)
        &&& post.team_a.names() == pre.team_a.names()
        &&& post.team_b.names() == pre.team_b.names()
    }
}

impl Decrypto {
    /// The players in the room: the id of their session and the player, in
    /// the order they arrived.
    pub open spec fn entries(&self) -> Seq<(Seq<char>, Player)> {
        player_entries(self.players)
    }

    /// Whether some player in the room is called `name`.
    pub open spec fn has_player_named(&self, name: Seq<char>) -> bool {
        exists|i: int| 0 <= i < self.entries().len() && #[trigger] self.entries()[i].1.name@ == name
    }

    /// What holds of a game at all times: each team is well formed, the
    /// teams have played equally many rounds, the game is being set up
    /// exactly while no round has been played, nobody is on both teams, and
    /// no session id is in the room twice.
    pub open spec fn wf(&self) -> bool {
        &&& self.team_a.wf()
        &&& self.team_b.wf()
        &&& self.team_a.rounds@.len() == self.team_b.rounds@.len()
        &&& (self.state is Setup <==> self.team_a.rounds@.len() == 0)
        &&& forall|n: Seq<char>| #[trigger] self.team_a.names().contains(n) ==> !self.team_b.names().contains(n)
        &&& entry_keys(self.entries()).no_duplicates()
    }

    /// Whether the game, once started, has at least two players on each team
    /// and at most eight rounds played.
    pub open spec fn started_well(&self) -> bool {
        !(self.state is Setup) ==> {
            &&& self.team_a.names().len() >= 2
            &&& self.team_b.names().len() >= 2
            &&& self.team_a.rounds@.len() <= 8
        }
    }

    /// The team of the player called `name` and the team whose clue givers
    /// they are shown as enemies.  For a player of team B that is team B
    /// itself.
    pub open spec fn team_for(&self, name: Seq<char>) -> Option<(Team, Team)> {
        if self.team_a.names().contains(name) {
            Some((self.team_a, self.team_b))
        } else if self.team_b.names().contains(name) {
            Some((self.team_b, self.team_b))
        } else {
            None
        }
    }

    /// A game with eight words drawn at random from `wordlist`, four for each
    /// team, and nobody in it yet.
    pub fn new(wordlist: &[String]) -> (r: Self)
        requires
            wordlist@.len() >= 8,
        ensures
            r.wf(),
            r.started_well(),
            r.state is Setup,
            r.entries() == Seq::<(Seq<char>, Player)>::empty(),
            exists|words: Seq<String>, idx: Seq<usize>|
                #[trigger] picked_at(words, wordlist@, idx) && words.len() == 8
                    && fresh_team(r.team_a, words.subrange(0, 4))
                    && fresh_team(r.team_b, words.subrange(4, 8)),
    {
        let words = pick_words(wordlist);
        let words_a = clone_slice(&words.as_slice()[0..4]);
        let words_b = clone_slice(&words.as_slice()[4..8]);
        let r = Decrypto {
            team_a: Team {
                players: name_set_new(),
                active_player_index: 0,
                words: words_a,
                intercepts: 0,
                miscommunications: 0,
                rounds: Vec::new(),
            },
            team_b: Team {
                players: name_set_new(),
                active_player_index: 0,
                words: words_b,
                intercepts: 0,
                miscommunications: 0,
                rounds: Vec::new(),
            },
            state: State::Setup,
            players: player_map_new(),
        };
        proof {
            assert(entry_keys(r.entries()) =~= Seq::<Seq<char>>::empty());
        }
        r
    }

    /// Adds `player` to the room under the session id `uuid`, or replaces
    /// the player of that session.
    pub fn add_player(&mut self, uuid: String, player: Player)
        requires
            old(self).wf(),
        ensures
            final(self).wf(),
            continues(*final(self), *old(self)),
            final(self).team_a == old(self).team_a,
            final(self).team_b == old(self).team_b,
            final(self).state == old(self).state,
            ({
                let keys = entry_keys(old(self).entries());
                if keys.contains(uuid@) {
                    let i = position_of(keys, uuid@);
                    final(self).entries() == old(self).entries().update(i, (keys[i], player))
                } else {
                    final(self).entries() == old(self).entries().push((uuid@, player))
                }
            }),
    {
        let ghost keys = entry_keys(old(self).entries());
        let ghost found = keys.contains(uuid@);
        let ghost i = position_of(keys, uuid@);
        let ghost k = uuid@;
        player_map_insert(&mut self.players, uuid, player);
        proof {
            if found {
                assert(entry_keys(self.entries()) =~= keys);
            } else {
                assert(entry_keys(self.entries()) =~= keys.push(k));
                assert forall|a: int, b: int| 0 <= a < b < keys.len() + 1 implies entry_keys(self.entries())[a] != entry_keys(self.entries())[b] by {
                    if b == keys.len() {
                        assert(keys.contains(keys[a]));
                    }
                }
            }
        }
    }

    /// Tells every connected player in the room `command`, except the
    /// players of `team` if one is given.
    fn send_to_players(&self, command: &Command, team: Option<&Team>, out: &mut Outbox) -> (r: Result<(), String>)
        ensures
            r is Ok,
            final(out)@ == old(out)@ + broadcast(self.entries(), skipped(team), command@),
    {
        let n = player_map_len(&self.players);
        let ghost entries = self.entries();
        let mut i: usize = 0;
        while i < n
            invariant
                i <= n,
                n == entries.len(),
                entries == self.entries(),
                out@ == old(out)@ + broadcast(entries.take(i as int), skipped(team), command@),
            decreases n - i,
        {
            let (_, player) = player_map_get_index(&self.players, i).unwrap();
            proof {
                assert(entries.take(i + 1).drop_last() =~= entries.take(i as int));
            }
            match player.connection {
                Some(c) => {
                    let in_team = match team {
                        Some(t) => name_set_contains(&t.players, player.name.as_str()),
                        None => false,
                    };
                    if !in_team {
                        out.send(c, command.duplicate());
                    }
                },
                None => {},
            }
            i = i + 1;
        }
        proof {
            assert(entries.take(n as int) =~= entries);
        }
        Ok(())
    }

    /// Tells `command` to every connected player in the room called `name`.
    fn send_to_player_name(&self, name: &str, command: &Command, out: &mut Outbox) -> (r: Result<(), String>)
        ensures
            r is Ok,
            final(out)@ == old(out)@ + send_named(self.entries(), name@, command@),
    {
        let n = player_map_len(&self.players);
        let ghost entries = self.entries();
        let target = name.to_owned();
        let mut i: usize = 0;
        while i < n
            invariant
                i <= n,
                n == entries.len(),
                entries == self.entries(),
                target@ == name@,
                out@ == old(out)@ + send_named(entries.take(i as int), name@, command@),
            decreases n - i,
        {
            let (_, player) = player_map_get_index(&self.players, i).unwrap();
            proof {
                assert(entries.take(i + 1).drop_last() =~= entries.take(i as int));
            }
            if player.name == target {
                match player.connection {
                    Some(c) => {
                        out.send(c, command.duplicate());
                    },
                    None => {},
                }
            }
            i = i + 1;
        }
        proof {
            assert(entries.take(n as int) =~= entries);
        }
        Ok(())
    }

    /// Tells `command` to `player`, who is connected.
    fn send_to_player(&self, player: &Player, command: Command, out: &mut Outbox) -> (r: Result<(), String>)
        requires
            player.connection is Some,
        ensures
            r is Ok,
            final(out)@ == old(out)@.push(send_to(player.connection->0, command@)),
    {
        match player.connection {
            Some(c) => out.send(c, command),
            None => {},
        }
        Ok(())
    }

    /// The team of the player called `name`, with the team whose clue givers
    /// they are shown as enemies.
    fn team_for_player(&self, name: &str) -> (r: Option<(&Team, &Team)>)
        ensures
            match (r, self.team_for(name@)) {
                (Some(p), Some(q)) => *p.0 == q.0 && *p.1 == q.1,
                (None, None) => true,
                _ => false,
            },
    {
        if name_set_contains(&self.team_a.players, name) {
            return Some((&self.team_a, &self.team_b));
        } else if name_set_contains(&self.team_b.players, name) {
            return Some((&self.team_b, &self.team_b));
        }
        None
    }
}

/// `names` without `name`, removed the way a team removes a player: the
/// last player takes the place of the one who left.
pub open spec fn without(names: Seq<Seq<char>>, name: Seq<char>) -> Seq<Seq<char>> {
    if names.contains(name) {
        swap_removed(names, position_of(names, name))
    } else {
        names
    }
}

/// Whether `g` is `old` with the players of team A, and nothing else, changed.
pub open spec fn only_team_a_players_changed(g: Decrypto, old: Decrypto) -> bool {
    &&& only_players_changed(g.team_a, old.team_a)
    &&& g.team_b == old.team_b
    &&& g.state == old.state
    &&& g.players == old.players
}

/// Whether `g` is `old` with the players of team B, and nothing else, changed.
pub open spec fn only_team_b_players_changed(g: Decrypto, old: Decrypto) -> bool {
    &&& only_players_changed(g.team_b, old.team_b)
    &&& g.team_a == old.team_a
    &&& g.state == old.state
    &&& g.players == old.players
}

impl Decrypto {
    /// Puts the player called `player` on team A and tells everyone, unless
    /// they are on a team already or the game has started.
    pub fn add_player_a(&mut self, player: String, out: &mut Outbox) -> (r: Result<(), String>)
        requires
            old(self).wf(),
        ensures
            final(self).wf(),
            continues(*final(self), *old(self)),
            old(self).team_b.names().contains(player@) ==> fails_with(r, player@ + " is already on team B"@),
            !old(self).team_b.names().contains(player@) && old(self).team_a.names().contains(player@)
                ==> fails_with(r, player@ + " is already on team."@),
            !old(self).team_b.names().contains(player@) && !old(self).team_a.names().contains(player@)
                && old(self).team_a.rounds@.len() > 0 ==> fails_with(r, "Game alread started."@),
            r is Err ==> *final(self) == *old(self) && final(out)@ == old(out)@,
            r is Ok <==> !old(self).team_b.names().contains(player@) && !old(self).team_a.names().contains(player@)
                && old(self).team_a.rounds@.len() == 0,
            r is Ok ==> {
                &&& final(self).team_a.names() == old(self).team_a.names().push(player@)
                &&& only_team_a_players_changed(*final(self), *old(self))
                &&& final(out)@ == old(out)@ + broadcast(
                    old(self).entries(),
                    Seq::empty(),
                    CommandView::JoinedTeam { name: player@, team: TeamName::A },
                )
            },
    {
        if name_set_contains(&self.team_b.players, player.as_str()) {
            return Err(player.concat(" is already on team B"));
        }
        match add_player_to_team(player.as_str(), &mut self.team_a) {
            Ok(()) => {},
            Err(e) => return Err(e),
        }
        proof {
            lemma_push_contains(old(self).team_a.names(), player@);
        }
        let command = Command::JoinedTeam { name: player, team: TeamName::A };
        self.send_to_players(&command, None, out)
    }

    /// Puts the player called `player` on team B and tells everyone, unless
    /// they are on a team already or the game has started.
    pub fn add_player_b(&mut self, player: String, out: &mut Outbox) -> (r: Result<(), String>)
        requires
            old(self).wf(),
        ensures
            final(self).wf(),
            continues(*final(self), *old(self)),
            old(self).team_a.names().contains(player@) ==> fails_with(r, player@ + " is already on team A"@),
            !old(self).team_a.names().contains(player@) && old(self).team_b.names().contains(player@)
                ==> fails_with(r, player@ + " is already on team."@),
            !old(self).team_a.names().contains(player@) && !old(self).team_b.names().contains(player@)
                && old(self).team_b.rounds@.len() > 0 ==> fails_with(r, "Game alread started."@),
            r is Err ==> *final(self) == *old(self) && final(out)@ == old(out)@,
            r is Ok <==> !old(self).team_a.names().contains(player@) && !old(self).team_b.names().contains(player@)
                && old(self).team_b.rounds@.len() == 0,
            r is Ok ==> {
                &&& final(self).team_b.names() == old(self).team_b.names().push(player@)
                &&& only_team_b_players_changed(*final(self), *old(self))
                &&& final(out)@ == old(out)@ + broadcast(
                    old(self).entries(),
                    Seq::empty(),
                    CommandView::JoinedTeam { name: player@, team: TeamName::B },
                )
            },
    {
        if name_set_contains(&self.team_a.players, player.as_str()) {
            return Err(player.concat(" is already on team A"));
        }
        match add_player_to_team(player.as_str(), &mut self.team_b) {
            Ok(()) => {},
            Err(e) => return Err(e),
        }
        proof {
            lemma_push_contains(old(self).team_b.names(), player@);
        }
        let command = Command::JoinedTeam { name: player, team: TeamName::B };
        self.send_to_players(&command, None, out)
    }

    /// Takes the player called `player` off team A and tells everyone, unless
    /// the game has started.  Everyone is told even if they were not on it.
    pub fn remove_player_a(&mut self, player: String, out: &mut Outbox) -> (r: Result<(), String>)
        requires
            old(self).wf(),
        ensures
            final(self).wf(),
            continues(*final(self), *old(self)),
            old(self).team_a.rounds@.len() > 0 ==> fails_with(r, "Game alread started."@)
                && *final(self) == *old(self) && final(out)@ == old(out)@,
            old(self).team_a.rounds@.len() == 0 ==> {
                &&& r is Ok
                &&& final(self).team_a.names() == without(old(self).team_a.names(), player@)
                &&& only_team_a_players_changed(*final(self), *old(self))
                &&& final(out)@ == old(out)@ + broadcast(
                    old(self).entries(),
                    Seq::empty(),
                    CommandView::LeftTeam { name: player@, team: TeamName::A },
                )
            },
    {
        match remove_player_from_team(player.as_str(), &mut self.team_a) {
            Ok(()) => {},
            Err(e) => return Err(e),
        }
        proof {
            if old(self).team_a.names().contains(player@) {
                lemma_swap_removed_no_duplicates(
                    old(self).team_a.names(),
                    position_of(old(self).team_a.names(), player@),
                );
            }
        }
        let command = Command::LeftTeam { name: player, team: TeamName::A };
        self.send_to_players(&command, None, out)
    }

    /// Takes the player called `player` off team B and tells everyone, unless
    /// the game has started.  Everyone is told even if they were not on it.
    pub fn remove_player_b(&mut self, player: String, out: &mut Outbox) -> (r: Result<(), String>)
        requires
            old(self).wf(),
        ensures
            final(self).wf(),
            continues(*final(self), *old(self)),
            old(self).team_b.rounds@.len() > 0 ==> fails_with(r, "Game alread started."@)
                && *final(self) == *old(self) && final(out)@ == old(out)@,
            old(self).team_b.rounds@.len() == 0 ==> {
                &&& r is Ok
                &&& final(self).team_b.names() == without(old(self).team_b.names(), player@)
                &&& only_team_b_players_changed(*final(self), *old(self))
                &&& final(out)@ == old(out)@ + broadcast(
                    old(self).entries(),
                    Seq::empty(),
                    CommandView::LeftTeam { name: player@, team: TeamName::B },
                )
            },
    {
        match remove_player_from_team(player.as_str(), &mut self.team_b) {
            Ok(()) => {},
            Err(e) => return Err(e),
        }
        proof {
            if old(self).team_b.names().contains(player@) {
                lemma_swap_removed_no_duplicates(
                    old(self).team_b.names(),
                    position_of(old(self).team_b.names(), player@),
                );
            }
        }
        let command = Command::LeftTeam { name: player, team: TeamName::B };
        self.send_to_players(&command, None, out)
    }
}

impl Decrypto {
    /// Takes the player called `player` off their team while the game is
    /// being set up, and tells everyone.
    pub fn leave_team(&mut self, player: String, out: &mut Outbox) -> (r: Result<(), String>)
        requires
            old(self).wf(),
        ensures
            final(self).wf(),
            continues(*final(self), *old(self)),
            !(old(self).state is Setup) ==> fails_with(r, "Cannot leave after the game has started!"@),
            old(self).state is Setup && !old(self).has_player_named(player@) ==> fails_with(
                r,
                "'"@ + player@ + "' is not in the game!"@,
            ),
            old(self).state is Setup && old(self).has_player_named(player@) && !old(self).team_a.names().contains(player@)
                && !old(self).team_b.names().contains(player@) ==> fails_with(
                r,
                "'"@ + player@ + "' is not on a team!"@,
            ),
            r is Err ==> *final(self) == *old(self) && final(out)@ == old(out)@,
            old(self).state is Setup && old(self).has_player_named(player@) && old(self).team_a.names().contains(player@) ==> {
                &&& r is Ok
                &&& final(self).team_a.names() == without(old(self).team_a.names(), player@)
                &&& only_team_a_players_changed(*final(self), *old(self))
                &&& final(out)@ == old(out)@ + broadcast(
                    old(self).entries(),
                    Seq::empty(),
                    CommandView::LeftTeam { name: player@, team: TeamName::A },
                )
            },
            old(self).state is Setup && old(self).has_player_named(player@) && old(self).team_b.names().contains(player@) ==> {
                &&& r is Ok
                &&& final(self).team_b.names() == without(old(self).team_b.names(), player@)
                &&& only_team_b_players_changed(*final(self), *old(self))
                &&& final(out)@ == old(out)@ + broadcast(
                    old(self).entries(),
                    Seq::empty(),
                    CommandView::LeftTeam { name: player@, team: TeamName::B },
                )
            },
    {
        match self.state {
            State::Setup => {},
            _ => return Err("Cannot leave after the game has started!".to_owned()),
        }
        let mut found = false;
        let n = player_map_len(&self.players);
        let mut i: usize = 0;
        while i < n
            invariant_except_break
                !found,
                forall|j: int| 0 <= j < i ==> #[trigger] self.entries()[j].1.name@ != player@,
            invariant
                i <= n,
                n == self.entries().len(),
            ensures
                found ==> self.has_player_named(player@),
                !found ==> forall|j: int| 0 <= j < n ==> #[trigger] self.entries()[j].1.name@ != player@,
            decreases n - i,
        {
            let (_, p) = player_map_get_index(&self.players, i).unwrap();
            if p.name == player {
                found = true;
                assert(self.entries()[i as int].1.name@ == player@);
                break;
            }
            i = i + 1;
        }
        if !found {
            return Err(join3("'", player.as_str(), "' is not in the game!"));
        }
        if name_set_contains(&self.team_a.players, player.as_str()) {
            return self.remove_player_a(player, out);
        } else if name_set_contains(&self.team_b.players, player.as_str()) {
            return self.remove_player_b(player, out);
        } else {
            return Err(join3("'", player.as_str(), "' is not on a team!"));
        }
    }
}

/// What the start of a round sends: each team's round to the players not
/// on that team, then the order of each team's words to its clue giver.
pub open spec fn round_messages(g: Decrypto) -> Seq<OutgoingView> {
    let a = g.team_a;
    let b = g.team_b;
    broadcast(
        g.entries(),
        a.names(),
        CommandView::Round { info: round_info(a.rounds@.len() - 1, a, b) },
    ) + broadcast(
        g.entries(),
        b.names(),
        CommandView::Round { info: round_info(b.rounds@.len() - 1, b, a) },
    ) + send_named(
        g.entries(),
        a.names()[a.last_round().clue_giver as int],
        CommandView::Order { number: a.rounds@.len() as usize, order: a.last_round().order },
    ) + send_named(
        g.entries(),
        b.names()[b.last_round().clue_giver as int],
        CommandView::Order { number: b.rounds@.len() as usize, order: b.last_round().order },
    )
}

/// What handing out the words sends: each team's words to the players not
/// on that team.
pub open spec fn word_messages(g: Decrypto) -> Seq<OutgoingView> {
    broadcast(
        g.entries(),
        g.team_a.names(),
        CommandView::Words { words: strings_view(g.team_a.words) },
    ) + broadcast(
        g.entries(),
        g.team_b.names(),
        CommandView::Words { words: strings_view(g.team_b.words) },
    )
}

/// Whether `g` is `old` with a new round begun for both teams.
pub open spec fn round_begun(g: Decrypto, old: Decrypto) -> bool {
    &&& round_started(g.team_a, old.team_a)
    &&& round_started(g.team_b, old.team_b)
    &&& g.state is Rounds
    &&& g.players == old.players
}

/// Whether `g` is `old` with the game won by the team called `winner`.
pub open spec fn won_by(g: Decrypto, old: Decrypto, winner: Seq<char>) -> bool {
    &&& g.team_a == old.team_a
    &&& g.team_b == old.team_b
    &&& g.players == old.players
    &&& g.state matches State::Winner(w) && w@ == winner
}

/// What advancing the game from `pre` does: the game it leaves (`post`),
/// what it sends, and what it returns.  While the game is being set up it
/// starts once each team has two players; during the rounds it moves on once
/// both teams' rounds are complete: to a winner when a team holds two tokens
/// of a kind, to guessing the words after eight rounds, else to a new round.
pub open spec fn advance_outcome(
    pre: Decrypto,
    post: Decrypto,
    sent: Seq<OutgoingView>,
    r: Result<(), String>,
) -> bool {
    let unchanged = post == pre && sent.len() == 0;
    match pre.state {
        State::Setup => if pre.team_a.names().len() < 2 {
            fails_with(r, "Team A must have at least 2 players!"@) && unchanged
        } else if pre.team_b.names().len() < 2 {
            fails_with(r, "Team B must have at least 2 players!"@) && unchanged
        } else {
            r is Ok && round_begun(post, pre) && sent == word_messages(pre) + round_messages(post)
        },
        State::Rounds => if !pre.team_a.round_complete() {
            fails_with(r, "Round not complete for Team A"@) && unchanged
        } else if !pre.team_b.round_complete() {
            fails_with(r, "Round not complete for Team B"@) && unchanged
        } else if pre.team_a.intercepts == 2 {
            r is Ok && won_by(post, pre, "Team A"@) && sent.len() == 0
        } else if pre.team_a.miscommunications == 2 {
            r is Ok && won_by(post, pre, "Team B"@) && sent.len() == 0
        } else if pre.team_b.intercepts == 2 {
            r is Ok && won_by(post, pre, "Team B"@) && sent.len() == 0
        } else if pre.team_b.miscommunications == 2 {
            r is Ok && won_by(post, pre, "Team A"@) && sent.len() == 0
        } else if pre.team_a.rounds@.len() == 8 && pre.team_b.rounds@.len() == 8 {
            r is Ok && post.team_a == pre.team_a && post.team_b == pre.team_b && post.players
                == pre.players && post.state is GuessWords && sent.len() == 0
        } else if pre.team_a.rounds@.len() > 8 {
            fails_with(r, "Too many rounds!"@) && unchanged
        } else {
            r is Ok && round_begun(post, pre) && sent == round_messages(post)
        },
        _ => r is Ok && unchanged,
    }
}

impl Decrypto {
    /// Begins a new round for both teams and tells the players about it.
    /// Fails once nine rounds have been played.
    pub fn new_round(&mut self, out: &mut Outbox) -> (r: Result<(), String>)
        requires
            old(self).wf(),
            old(self).team_a.rounds@.len() <= 8 ==> old(self).team_a.names().len() > 0
                && old(self).team_b.names().len() > 0,
        ensures
            final(self).wf(),
            old(self).team_a.names().len() >= 2 && old(self).team_b.names().len() >= 2
                && old(self).team_a.rounds@.len() < 8 ==> final(self).started_well(),
            old(self).team_a.rounds@.len() > 8 ==> fails_with(r, "Too many rounds!"@)
                && *final(self) == *old(self) && final(out)@ == old(out)@,
            old(self).team_a.rounds@.len() <= 8 ==> r is Ok && round_begun(*final(self), *old(self))
                && final(out)@ == old(out)@ + round_messages(*final(self)),
    {
        match new_round_for_team(&mut self.team_a) {
            Ok(()) => {},
            Err(e) => return Err(e),
        }
        match new_round_for_team(&mut self.team_b) {
            Ok(()) => {},
            Err(e) => return Err(e),
        }
        self.state = State::Rounds;
        proof {
            assert forall|i: int| 0 <= i < self.team_a.rounds@.len() implies #[trigger] self.team_a.rounds@[i].clue_giver
                < self.team_a.names().len() by {
                if i < old(self).team_a.rounds@.len() {
                    assert(self.team_a.rounds@[i] == old(self).team_a.rounds@[i]);
                }
            }
            assert forall|i: int| 0 <= i < self.team_b.rounds@.len() implies #[trigger] self.team_b.rounds@[i].clue_giver
                < self.team_b.names().len() by {
                if i < old(self).team_b.rounds@.len() {
                    assert(self.team_b.rounds@[i] == old(self).team_b.rounds@[i]);
                }
            }
        }
        self.send_round_info(out)
    }

    /// Tells the players about the round being played.
    fn send_round_info(&self, out: &mut Outbox) -> (r: Result<(), String>)
        requires
            self.wf(),
            self.team_a.rounds@.len() > 0,
        ensures
            r is Ok,
            final(out)@ == old(out)@ + round_messages(*self),
    {
        let last = self.team_a.rounds.len() - 1;
        let info_a = match build_round_info(last, &self.team_a, &self.team_b) {
            Ok(info) => info,
            Err(e) => return Err(e),
        };
        let info_b = match build_round_info(last, &self.team_b, &self.team_a) {
            Ok(info) => info,
            Err(e) => return Err(e),
        };
        let _ = self.send_to_players(&Command::Round { info: info_a }, Some(&self.team_a), out);
        let _ = self.send_to_players(&Command::Round { info: info_b }, Some(&self.team_b), out);
        let round_a = &self.team_a.rounds[last];
        let round_b = &self.team_b.rounds[last];
        let order_a = Command::Order { number: self.team_a.rounds.len(), order: round_a.order };
        let order_b = Command::Order { number: self.team_b.rounds.len(), order: round_b.order };
        let giver_a = name_set_get_index(&self.team_a.players, round_a.clue_giver).unwrap();
        let giver_b = name_set_get_index(&self.team_b.players, round_b.clue_giver).unwrap();
        let _ = self.send_to_player_name(giver_a.as_str(), &order_a, out);
        let _ = self.send_to_player_name(giver_b.as_str(), &order_b, out);
        proof {
            assert(out@ =~= old(out)@ + round_messages(*self));
        }
        Ok(())
    }

    /// Tells the players the words of each team.
    fn send_words(&self, out: &mut Outbox) -> (r: Result<(), String>)
        ensures
            r is Ok,
            final(out)@ == old(out)@ + word_messages(*self),
    {
        let words_a = Command::Words { words: copy_strings4(&self.team_a.words) };
        let words_b = Command::Words { words: copy_strings4(&self.team_b.words) };
        let _ = self.send_to_players(&words_a, Some(&self.team_a), out);
        let _ = self.send_to_players(&words_b, Some(&self.team_b), out);
        proof {
            assert(out@ =~= old(out)@ + word_messages(*self));
        }
        Ok(())
    }

    /// Moves the game on, if it can: see `advance_outcome`.
    pub fn maybe_advance_game(&mut self, out: &mut Outbox) -> (r: Result<(), String>)
        requires
            old(self).wf(),
        ensures
            final(self).wf(),
            continues(*final(self), *old(self)),
            final(out)@.len() >= old(out)@.len(),
            final(out)@.subrange(0, old(out)@.len() as int) == old(out)@,
            advance_outcome(*old(self), *final(self), final(out)@.skip(old(out)@.len() as int), r),
    {
        let ghost out0 = out@;
        match self.state {
            State::Setup => {
                if name_set_len(&self.team_a.players) < 2 {
                    proof { assert(out@.skip(out0.len() as int) =~= Seq::<OutgoingView>::empty()); }
                    return Err("Team A must have at least 2 players!".to_owned());
                }
                if name_set_len(&self.team_b.players) < 2 {
                    proof { assert(out@.skip(out0.len() as int) =~= Seq::<OutgoingView>::empty()); }
                    return Err("Team B must have at least 2 players!".to_owned());
                }
                let _ = self.send_words(out);
                let r = self.new_round(out);
                proof {
                    assert(out@.subrange(0, out0.len() as int) =~= out0);
                    assert(out@.skip(out0.len() as int) =~= word_messages(*old(self)) + round_messages(*self));
                }
                return r;
            },
            State::Rounds => {
                if !is_round_complete_for_team(&self.team_a) {
                    proof { assert(out@.skip(out0.len() as int) =~= Seq::<OutgoingView>::empty()); }
                    return Err("Round not complete for Team A".to_owned());
                }
                if !is_round_complete_for_team(&self.team_b) {
                    proof { assert(out@.skip(out0.len() as int) =~= Seq::<OutgoingView>::empty()); }
                    return Err("Round not complete for Team B".to_owned());
                }
                if self.team_a.intercepts == 2 {
                    self.state = State::Winner("Team A".to_owned());
                } else if self.team_a.miscommunications == 2 {
                    self.state = State::Winner("Team B".to_owned());
                } else if self.team_b.intercepts == 2 {
                    self.state = State::Winner("Team B".to_owned());
                } else if self.team_b.miscommunications == 2 {
                    self.state = State::Winner("Team A".to_owned());
                } else if self.team_a.rounds.len() == 8 && self.team_b.rounds.len() == 8 {
                    self.state = State::GuessWords;
                } else {
                    let r = self.new_round(out);
                    proof {
                        assert(out@.subrange(0, out0.len() as int) =~= out0);
                        if r is Ok {
                            assert(out@.skip(out0.len() as int) =~= round_messages(*self));
                        } else {
                            assert(out@.skip(out0.len() as int) =~= Seq::<OutgoingView>::empty());
                        }
                    }
                    match r {
                        Ok(()) => {},
                        Err(e) => return Err(e),
                    }
                }
            },
            _ => {},
        }
        proof {
            assert(out@.subrange(0, out0.len() as int) =~= out0);
            if !(old(self).state is Rounds) || self.state is Rounds {
            } else {
                assert(out@.skip(out0.len() as int) =~= Seq::<OutgoingView>::empty());
            }
            if !(old(self).state is Rounds) {
                assert(out@.skip(out0.len() as int) =~= Seq::<OutgoingView>::empty());
            }
        }
        Ok(())
    }

    /// Starts the game, or moves it on, at the request of the player of the
    /// session `uuid`, who must be the host: the first player in the room.
    pub fn start_game(&mut self, uuid: String, out: &mut Outbox) -> (r: Result<(), String>)
        requires
            old(self).wf(),
        ensures
            final(self).wf(),
            continues(*final(self), *old(self)),
            !entry_keys(old(self).entries()).contains(uuid@) ==> fails_with(
                r,
                "Unknown player tried to start the game."@,
            ) && *final(self) == *old(self) && final(out)@ == old(out)@,
            entry_keys(old(self).entries()).contains(uuid@) && old(self).entries()[0].0 != uuid@
                ==> fails_with(r, "Only game host can start the game!"@) && *final(self) == *old(self)
                && final(out)@ == old(out)@,
            entry_keys(old(self).entries()).contains(uuid@) && old(self).entries()[0].0 == uuid@ ==> {
                &&& final(out)@.len() >= old(out)@.len()
                &&& final(out)@.subrange(0, old(out)@.len() as int) == old(out)@
                &&& advance_outcome(*old(self), *final(self), final(out)@.skip(old(out)@.len() as int), r)
            },
    {
        match player_map_get_index_of(&self.players, uuid.as_str()) {
            Some(idx) => {
                if idx != 0 {
                    proof {
                        assert(entry_keys(self.entries())[idx as int] == uuid@);
                        assert(entry_keys(self.entries())[0] == self.entries()[0].0);
                    }
                    return Err("Only game host can start the game!".to_owned());
                }
            },
            None => return Err("Unknown player tried to start the game.".to_owned()),
        }
        proof {
            assert(entry_keys(self.entries())[0] == self.entries()[0].0);
        }
        self.maybe_advance_game(out)
    }
}

impl Decrypto {
    /// Team A's guess of the order of its own last round.
    pub fn guess_a(&mut self, guess: [u8; 3]) -> (r: Result<(), String>)
        requires
            old(self).wf(),
            old(self).team_a.rounds@.len() > 0 && !same_order(old(self).team_a.last_round().order, guess)
                ==> old(self).team_a.miscommunications < 255,
        ensures
            final(self).wf(),
            continues(*final(self), *old(self)),
            old(self).team_a.rounds@.len() == 0 ==> fails_with(r, "No rounds!"@) && *final(self) == *old(self),
            old(self).team_a.rounds@.len() > 0 ==> {
                &&& r is Ok
                &&& final(self).team_a.rounds@ == old(self).team_a.rounds@.drop_last().push(
                    Round { guess: guess, ..old(self).team_a.last_round() },
                )
                &&& final(self).team_a.miscommunications == old(self).team_a.miscommunications + (if same_order(
                    old(self).team_a.last_round().order,
                    guess,
                ) {
                    0int
                } else {
                    1int
                })
                &&& final(self).team_a.players == old(self).team_a.players
                &&& final(self).team_a.active_player_index == old(self).team_a.active_player_index
                &&& final(self).team_a.words == old(self).team_a.words
                &&& final(self).team_a.intercepts == old(self).team_a.intercepts
                &&& final(self).team_b == old(self).team_b
                &&& final(self).state == old(self).state
                &&& final(self).players == old(self).players
            },
    {
        let r = guess_team(&guess, &mut self.team_a);
        r
    }

    /// Team B's guess of the order of its own last round.  It is recorded on
    /// team A's round, and a wrong guess counts against team A.
    pub fn guess_b(&mut self, guess: [u8; 3]) -> (r: Result<(), String>)
        requires
            old(self).wf(),
            old(self).team_a.rounds@.len() > 0 && !same_order(old(self).team_a.last_round().order, guess)
                ==> old(self).team_a.miscommunications < 255,
        ensures
            final(self).wf(),
            continues(*final(self), *old(self)),
            old(self).team_a.rounds@.len() == 0 ==> fails_with(r, "No rounds!"@) && *final(self) == *old(self),
            old(self).team_a.rounds@.len() > 0 ==> {
                &&& r is Ok
                &&& final(self).team_a.rounds@ == old(self).team_a.rounds@.drop_last().push(
                    Round { guess: guess, ..old(self).team_a.last_round() },
                )
                &&& final(self).team_a.miscommunications == old(self).team_a.miscommunications + (if same_order(
                    old(self).team_a.last_round().order,
                    guess,
                ) {
                    0int
                } else {
                    1int
                })
                &&& final(self).team_a.players == old(self).team_a.players
                &&& final(self).team_a.active_player_index == old(self).team_a.active_player_index
                &&& final(self).team_a.words == old(self).team_a.words
                &&& final(self).team_a.intercepts == old(self).team_a.intercepts
                &&& final(self).team_b == old(self).team_b
                &&& final(self).state == old(self).state
                &&& final(self).players == old(self).players
            },
    {
        let r = guess_team(&guess, &mut self.team_a);
        r
    }

    /// Team B's guess of the order of team A's last round: an interception
    /// for team B if right.
    pub fn spy_guess_a(&mut self, guess: [u8; 3]) -> (r: Result<(), String>)
        requires
            old(self).wf(),
            old(self).team_a.rounds@.len() > 0 && same_order(old(self).team_a.last_round().order, guess)
                ==> old(self).team_b.intercepts < 255,
        ensures
            final(self).wf(),
            continues(*final(self), *old(self)),
            old(self).team_a.rounds@.len() == 0 ==> fails_with(r, "No rounds!"@) && *final(self) == *old(self),
            old(self).team_a.rounds@.len() > 0 ==> {
                &&& r is Ok
                &&& final(self).team_a.rounds@ == old(self).team_a.rounds@.drop_last().push(
                    Round { spy_guess: guess, ..old(self).team_a.last_round() },
                )
                &&& only_rounds_changed(final(self).team_a, old(self).team_a)
                &&& final(self).team_b.intercepts == old(self).team_b.intercepts + (if same_order(
                    old(self).team_a.last_round().order,
                    guess,
                ) {
                    1int
                } else {
                    0int
                })
                &&& only_intercepts_changed(final(self).team_b, old(self).team_b)
                &&& final(self).state == old(self).state
                &&& final(self).players == old(self).players
            },
    {
        let r = spy_guess_team(&guess, &mut self.team_a, &mut self.team_b);
        r
    }

    /// Team A's guess of the order of team B's last round: an interception
    /// for team A if right.
    pub fn spy_guess_b(&mut self, guess: [u8; 3]) -> (r: Result<(), String>)
        requires
            old(self).wf(),
            old(self).team_b.rounds@.len() > 0 && same_order(old(self).team_b.last_round().order, guess)
                ==> old(self).team_a.intercepts < 255,
        ensures
            final(self).wf(),
            continues(*final(self), *old(self)),
            old(self).team_b.rounds@.len() == 0 ==> fails_with(r, "No rounds!"@) && *final(self) == *old(self),
            old(self).team_b.rounds@.len() > 0 ==> {
                &&& r is Ok
                &&& final(self).team_b.rounds@ == old(self).team_b.rounds@.drop_last().push(
                    Round { spy_guess: guess, ..old(self).team_b.last_round() },
                )
                &&& only_rounds_changed(final(self).team_b, old(self).team_b)
                &&& final(self).team_a.intercepts == old(self).team_a.intercepts + (if same_order(
                    old(self).team_b.last_round().order,
                    guess,
                ) {
                    1int
                } else {
                    0int
                })
                &&& only_intercepts_changed(final(self).team_a, old(self).team_a)
                &&& final(self).state == old(self).state
                &&& final(self).players == old(self).players
            },
    {
        let r = spy_guess_team(&guess, &mut self.team_b, &mut self.team_a);
        r
    }

    /// The clues of team A's clue giver for the last round.
    pub fn give_clues_a(&mut self, clues: &[String; 3]) -> (r: Result<(), String>)
        requires
            old(self).wf(),
        ensures
            final(self).wf(),
            continues(*final(self), *old(self)),
            old(self).team_a.rounds@.len() == 0 ==> fails_with(r, "No rounds!"@) && *final(self) == *old(self),
            old(self).team_a.rounds@.len() > 0 ==> {
                &&& r is Ok
                &&& final(self).team_a.rounds@ == old(self).team_a.rounds@.drop_last().push(
                    Round { clues: *clues, ..old(self).team_a.last_round() },
                )
                &&& only_rounds_changed(final(self).team_a, old(self).team_a)
                &&& final(self).team_b == old(self).team_b
                &&& final(self).state == old(self).state
                &&& final(self).players == old(self).players
            },
    {
        let r = give_clues_team(clues, &mut self.team_a);
        r
    }

    /// The clues of team B's clue giver for the last round.
    pub fn give_clues_b(&mut self, clues: &[String; 3]) -> (r: Result<(), String>)
        requires
            old(self).wf(),
        ensures
            final(self).wf(),
            continues(*final(self), *old(self)),
            old(self).team_b.rounds@.len() == 0 ==> fails_with(r, "No rounds!"@) && *final(self) == *old(self),
            old(self).team_b.rounds@.len() > 0 ==> {
                &&& r is Ok
                &&& final(self).team_b.rounds@ == old(self).team_b.rounds@.drop_last().push(
                    Round { clues: *clues, ..old(self).team_b.last_round() },
                )
                &&& only_rounds_changed(final(self).team_b, old(self).team_b)
                &&& final(self).team_a == old(self).team_a
                &&& final(self).state == old(self).state
                &&& final(self).players == old(self).players
            },
    {
        let r = give_clues_team(clues, &mut self.team_b);
        r
    }

}

/// The players of `entries` other than those called `name`, each as a
/// connection announcement, in their order.
pub open spec fn others_connected(entries: Seq<(Seq<char>, Player)>, name: Seq<char>) -> Seq<
    CommandView,
>
    decreases entries.len(),
{
    if entries.len() == 0 {
        Seq::empty()
    } else {
        others_connected(entries.drop_last(), name) + if entries.last().1.name@ != name {
            seq![CommandView::PlayerConnected { player: entries.last().1.name@ }]
        } else {
            Seq::empty()
        }
    }
}

/// Each of `names` announced as a member of `team`, in order.
pub open spec fn roster(names: Seq<Seq<char>>, team: TeamName) -> Seq<CommandView> {
    names.map_values(|n: Seq<char>| CommandView::JoinedTeam { name: n, team })
}

/// Every round of `team` so far, as seen by its players.
pub open spec fn round_history(team: Team, other: Team) -> Seq<CommandView> {
    Seq::new(team.rounds@.len(), |k: int| CommandView::Round { info: round_info(k, team, other) })
}

/// What the connection of the player at position `i` of `g` brings: everyone
/// connected hears of it; the player hears of each other player, of each
/// team's members, of the host, and, once the game has started and if the
/// player is on a team, of that team's rounds so far and of its words.
pub open spec fn connection_messages(g: Decrypto, i: int) -> Seq<OutgoingView> {
    let p = g.entries()[i].1;
    let c = p.connection->0;
    broadcast(g.entries(), Seq::empty(), CommandView::PlayerConnected { player: p.name@ })
        + send_all_to(c, others_connected(g.entries(), p.name@))
        + send_all_to(c, roster(g.team_a.names(), TeamName::A) + roster(g.team_b.names(), TeamName::B))
        + seq![send_to(c, CommandView::NewHost { player: g.entries()[0].1.name@ })]
        + if !(g.state is Setup) && g.team_for(p.name@) is Some {
        let teams = g.team_for(p.name@)->0;
        send_all_to(c, round_history(teams.0, teams.1))
            + seq![send_to(c, CommandView::Words { words: strings_view(teams.0.words) })]
    } else {
        Seq::empty()
    }
}

/// In a sequence without duplicates, an item has one position.
proof fn lemma_position_unique<A>(s: Seq<A>, i: int)
    requires
        s.no_duplicates(),
        0 <= i < s.len(),
    ensures
        s.contains(s[i]),
        position_of(s, s[i]) == i,
{
    assert(s.contains(s[i]));
}

impl Decrypto {
    /// The player of the session `uuid` has connected over `connection`; a
    /// connection they had before is closed.  See `connection_messages` for
    /// what everyone is told.
    pub fn player_connected(&mut self, uuid: String, connection: u64, out: &mut Outbox) -> (r: Result<(), String>)
        requires
            old(self).wf(),
        ensures
            final(self).wf(),
            continues(*final(self), *old(self)),
            !entry_keys(old(self).entries()).contains(uuid@) ==> fails_with(
                r,
                "Player with UUID "@ + uuid@ + " not in room!"@,
            ) && *final(self) == *old(self) && final(out)@ == old(out)@,
            entry_keys(old(self).entries()).contains(uuid@) ==> {
                let i = position_of(entry_keys(old(self).entries()), uuid@);
                let p = old(self).entries()[i].1;
                &&& r is Ok
                &&& final(self).entries() == old(self).entries().update(
                    i,
                    (uuid@, Player { name: p.name, game: p.game, connection: Some(connection) }),
                )
                &&& final(self).team_a == old(self).team_a
                &&& final(self).team_b == old(self).team_b
                &&& final(self).state == old(self).state
                &&& final(out)@ == old(out)@ + (if p.connection is Some {
                    seq![OutgoingView::ForceDisconnect { connection: p.connection->0 }]
                } else {
                    Seq::empty()
                }) + connection_messages(*final(self), i)
            },
    {
        let idx = match player_map_get_index_of(&self.players, uuid.as_str()) {
            Some(i) => i,
            None => return Err(join3("Player with UUID ", uuid.as_str(), " not in room!")),
        };
        let ghost keys = entry_keys(old(self).entries());
        proof {
            assert(keys[idx as int] == uuid@);
            lemma_position_unique(keys, idx as int);
        }
        let (key, p) = player_map_get_index(&self.players, idx).unwrap();
        let key = key.clone();
        let old_connection = p.connection;
        let updated = Player { name: p.name.clone(), game: p.game.clone(), connection: Some(connection) };
        player_map_insert(&mut self.players, key, updated);
        proof {
            assert(entry_keys(self.entries()) =~= keys);
        }
        match old_connection {
            Some(c) => out.push(Outgoing::ForceDisconnect { connection: c }),
            None => {},
        }
        let (_, player) = player_map_get_index(&self.players, idx).unwrap();
        let ghost entries = self.entries();
        let ghost c = player.connection->0;
        let _ = self.send_to_players(&Command::PlayerConnected { player: player.name.clone() }, None, out);
        let ghost out1 = out@;
        // every other player, to the one who connected
        let n = player_map_len(&self.players);
        let mut j: usize = 0;
        while j < n
            invariant
                j <= n,
                n == entries.len(),
                entries == self.entries(),
                *player == entries[idx as int].1,
                player.connection == Some(c),
                out@ == out1 + send_all_to(c, others_connected(entries.take(j as int), player.name@)),
            decreases n - j,
        {
            let (_, q) = player_map_get_index(&self.players, j).unwrap();
            proof {
                assert(entries.take(j + 1).drop_last() =~= entries.take(j as int));
            }
            if q.name == player.name {
                proof {
                    assert(out@ =~= out1 + send_all_to(c, others_connected(entries.take(j + 1), player.name@)));
                }
            } else {
                let _ = self.send_to_player(player, Command::PlayerConnected { player: q.name.clone() }, out);
                proof {
                    assert(out@ =~= out1 + send_all_to(c, others_connected(entries.take(j + 1), player.name@)));
                }
            }
            j = j + 1;
        }
        proof {
            assert(entries.take(n as int) =~= entries);
        }
        let ghost out2 = out@;
        // the members of each team
        let na = name_set_len(&self.team_a.players);
        let mut k: usize = 0;
        while k < na
            invariant
                k <= na,
                na == self.team_a.names().len(),
                player.connection == Some(c),
                out@ == out2 + send_all_to(c, roster(self.team_a.names().take(k as int), TeamName::A)),
            decreases na - k,
        {
            let member = name_set_get_index(&self.team_a.players, k).unwrap();
            let _ = self.send_to_player(player, Command::JoinedTeam { name: member.clone(), team: TeamName::A }, out);
            proof {
                assert(self.team_a.names().take(k + 1) =~= self.team_a.names().take(k as int).push(self.team_a.names()[k as int]));
                assert(out@ =~= out2 + send_all_to(c, roster(self.team_a.names().take(k + 1), TeamName::A)));
            }
            k = k + 1;
        }
        proof {
            assert(self.team_a.names().take(na as int) =~= self.team_a.names());
        }
        let ghost out3 = out@;
        let nb = name_set_len(&self.team_b.players);
        let mut k: usize = 0;
        while k < nb
            invariant
                k <= nb,
                nb == self.team_b.names().len(),
                player.connection == Some(c),
                out@ == out3 + send_all_to(c, roster(self.team_b.names().take(k as int), TeamName::B)),
            decreases nb - k,
        {
            let member = name_set_get_index(&self.team_b.players, k).unwrap();
            let _ = self.send_to_player(player, Command::JoinedTeam { name: member.clone(), team: TeamName::B }, out);
            proof {
                assert(self.team_b.names().take(k + 1) =~= self.team_b.names().take(k as int).push(self.team_b.names()[k as int]));
                assert(out@ =~= out3 + send_all_to(c, roster(self.team_b.names().take(k + 1), TeamName::B)));
            }
            k = k + 1;
        }
        proof {
            assert(self.team_b.names().take(nb as int) =~= self.team_b.names());
        }
        // the host
        let (_, host) = player_map_get_index(&self.players, 0).unwrap();
        let _ = self.send_to_player(player, Command::NewHost { player: host.name.clone() }, out);
        let ghost out5 = out@;
        // the rounds so far and the words of the player's team
        match self.state {
            State::Setup => {},
            _ => {
                match self.team_for_player(player.name.as_str()) {
                    Some((team, other)) => {
                        let rounds = team.rounds.len();
                        let mut m: usize = 0;
                        while m < rounds
                            invariant
                                m <= rounds,
                                rounds == team.rounds@.len(),
                                team.wf(),
                                other.wf(),
                                team.rounds@.len() == other.rounds@.len(),
                                player.connection == Some(c),
                                out@ == out5 + send_all_to(
                                    c,
                                    Seq::new(m as nat, |x: int| CommandView::Round { info: round_info(x, *team, *other) }),
                                ),
                            decreases rounds - m,
                        {
                            let info = match build_round_info(m, team, other) {
                                Ok(info) => info,
                                Err(e) => return Err(e),
                            };
                            let _ = self.send_to_player(player, Command::Round { info }, out);
                            proof {
                                assert(out@ =~= out5 + send_all_to(
                                    c,
                                    Seq::new((m + 1) as nat, |x: int| CommandView::Round { info: round_info(x, *team, *other) }),
                                ));
                            }
                            m = m + 1;
                        }
                        let _ = self.send_to_player(player, Command::Words { words: copy_strings4(&team.words) }, out);
                    },
                    None => {},
                }
            },
        }
        proof {
            assert(out@ =~= old(out)@ + (if old_connection is Some {
                seq![OutgoingView::ForceDisconnect { connection: old_connection->0 }]
            } else {
                Seq::empty()
            }) + connection_messages(*self, idx as int));
        }
        Ok(())
    }
}

/// Whether `post` has the teams of `pre` after the player called `name`
/// left their team, if they were on one.
pub open spec fn left_own_team(post: Decrypto, pre: Decrypto, name: Seq<char>) -> bool {
    if pre.team_a.names().contains(name) {
        &&& post.team_a.names() == without(pre.team_a.names(), name)
        &&& only_players_changed(post.team_a, pre.team_a)
        &&& post.team_b == pre.team_b
    } else if pre.team_b.names().contains(name) {
        &&& post.team_b.names() == without(pre.team_b.names(), name)
        &&& only_players_changed(post.team_b, pre.team_b)
        &&& post.team_a == pre.team_a
    } else {
        &&& post.team_a == pre.team_a
        &&& post.team_b == pre.team_b
    }
}

/// What everyone in `pre` is told when the player called `name` leaves
/// their team.
pub open spec fn left_team_messages(pre: Decrypto, name: Seq<char>) -> Seq<OutgoingView> {
    if pre.team_a.names().contains(name) {
        broadcast(pre.entries(), Seq::empty(), CommandView::LeftTeam { name, team: TeamName::A })
    } else if pre.team_b.names().contains(name) {
        broadcast(pre.entries(), Seq::empty(), CommandView::LeftTeam { name, team: TeamName::B })
    } else {
        Seq::empty()
    }
}

impl Decrypto {
    /// The player of the session `uuid` has disconnected: they leave the
    /// room, and, while the game is being set up, their team; everyone left
    /// is told, and of the new host if the host left.  The last player in
    /// the room takes the place of the one who left.
    pub fn player_disconnected(&mut self, uuid: String, out: &mut Outbox) -> (r: Result<(), String>)
        requires
            old(self).wf(),
        ensures
            final(self).wf(),
            continues(*final(self), *old(self)),
            !entry_keys(old(self).entries()).contains(uuid@) ==> fails_with(
                r,
                "Player with UUID "@ + uuid@ + " not in room!"@,
            ) && *final(self) == *old(self) && final(out)@ == old(out)@,
            entry_keys(old(self).entries()).contains(uuid@) ==> {
                let i = position_of(entry_keys(old(self).entries()), uuid@);
                let name = old(self).entries()[i].1.name@;
                let entries = swap_removed(old(self).entries(), i);
                let setup = old(self).state is Setup;
                &&& r is Ok
                &&& final(self).entries() == entries
                &&& final(self).state == old(self).state
                &&& setup ==> left_own_team(*final(self), *old(self), name)
                &&& !setup ==> final(self).team_a == old(self).team_a && final(self).team_b == old(self).team_b
                &&& final(out)@ == old(out)@ + (if setup {
                    left_team_messages(*old(self), name)
                } else {
                    Seq::empty()
                }) + broadcast(
                    entries,
                    Seq::empty(),
                    CommandView::PlayerDisconnected { player: name },
                ) + if setup && i == 0 && old(self).entries().len() > 1 {
                    broadcast(entries, Seq::empty(), CommandView::NewHost { player: entries[0].1.name@ })
                } else {
                    Seq::empty()
                }
            },
    {
        let ghost keys = entry_keys(old(self).entries());
        let idx = match player_map_get_index_of(&self.players, uuid.as_str()) {
            Some(idx) => idx,
            None => return Err(join3("Player with UUID ", uuid.as_str(), " not in room!")),
        };
        proof {
            assert(keys[idx as int] == uuid@);
            lemma_position_unique(keys, idx as int);
        }
        let mut new_host = false;
        match self.state {
            State::Setup => {
                let (_, player) = player_map_get_index(&self.players, idx).unwrap();
                let name = player.name.clone();
                if name_set_contains(&self.team_a.players, name.as_str()) {
                    match self.remove_player_a(name, out) {
                        Ok(()) => {},
                        Err(e) => return Err(e),
                    }
                } else if name_set_contains(&self.team_b.players, name.as_str()) {
                    match self.remove_player_b(name, out) {
                        Ok(()) => {},
                        Err(e) => return Err(e),
                    }
                }
                if idx == 0 && player_map_len(&self.players) > 1 {
                    new_host = true;
                }
            },
            _ => {},
        }
        let ghost out1 = out@;
        match player_map_swap_remove(&mut self.players, uuid.as_str()) {
            Some(mut player) => {
                proof {
                    lemma_swap_removed_no_duplicates(keys, idx as int);
                    assert(entry_keys(self.entries()) =~= swap_removed(keys, idx as int));
                }
                player.connection = None;
                let _ = self.send_to_players(&Command::PlayerDisconnected { player: player.name }, None, out);
                if new_host {
                    let (_, host) = player_map_get_index(&self.players, 0).unwrap();
                    let _ = self.send_to_players(&Command::NewHost { player: host.name.clone() }, None, out);
                }
                proof {
                    if old(self).state is Setup {
                        assert(out1 =~= old(out)@ + left_team_messages(*old(self), old(self).entries()[idx as int].1.name@));
                    } else {
                        assert(out1 =~= old(out)@ + Seq::<OutgoingView>::empty());
                    }
                }
                Ok(())
            },
            None => Err(join3("Player with UUID ", uuid.as_str(), " not in room!")),
        }
    }
}

} // verus!
