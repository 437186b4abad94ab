//! What holds of the game across its operations.

use vstd::prelude::*;
use crate::collections::{entry_keys, position_of, swap_removed};
use crate::decrypto::{
    all_set, continues, is_order, only_team_a_players_changed, round_info, without, Decrypto,
    Team,
};
use crate::state::{is_new_player, Registry};

verus! {

/// A player who joins a team while the game is being set up and then
/// leaves it leaves the team as it was: joining (`add_player_a`,
/// `add_player_b`) appends the name, leaving (`leave_team`,
/// `remove_player_a`, `remove_player_b`) takes it out again.
pub proof fn law_leave_undoes_join(before: Team, joined: Team, after: Team, name: Seq<char>)
    requires
        before.wf(),
        !before.names().contains(name),
        joined.names() == before.names().push(name),
        after.names() == without(joined.names(), name),
    ensures
        after.names() == before.names(),
{
    let s = before.names().push(name);
    assert(s[s.len() - 1] == name);
    assert(s.contains(name));
    let i = position_of(s, name);
    if i != s.len() - 1 {
        assert(before.names().contains(name));
    }
    assert(swap_removed(s, i) =~= before.names());
}

/// In a game being set up, a player who joins team A (`add_player_a`
/// succeeds) and then leaves (`leave_team` succeeds) leaves the game as it
/// was, but for team A's player set itself, which holds the same names in
/// the same order.
pub proof fn law_join_then_leave_team_a(pre: Decrypto, mid: Decrypto, post: Decrypto, name: Seq<char>)
    requires
        pre.wf(),
        !pre.team_a.names().contains(name),
        mid.team_a.names() == pre.team_a.names().push(name),
        only_team_a_players_changed(mid, pre),
        post.team_a.names() == without(mid.team_a.names(), name),
        only_team_a_players_changed(post, mid),
    ensures
        post.team_a.names() == pre.team_a.names(),
        post.team_b == pre.team_b,
        post.players == pre.players,
        post.state == pre.state,
        post.team_a.rounds == pre.team_a.rounds,
{
    law_leave_undoes_join(pre.team_a, mid.team_a, post.team_a, name);
}

/// Nobody is ever on both teams.
pub proof fn law_no_player_on_both_teams(g: Decrypto, name: Seq<char>)
    requires
        g.wf(),
    ensures
        !(g.team_a.names().contains(name) && g.team_b.names().contains(name)),
{
}

/// Both teams always have played equally many rounds, at most nine; the
/// game is being set up exactly while none has been played; and the secret
/// order of every round is an order of the three clues.
pub proof fn law_rounds_in_step(g: Decrypto)
    requires
        g.wf(),
    ensures
        g.team_a.rounds@.len() == g.team_b.rounds@.len(),
        g.team_a.rounds@.len() <= 9,
        g.state is Setup <==> g.team_a.rounds@.len() == 0,
        forall|i: int| 0 <= i < g.team_a.rounds@.len() ==> is_order(#[trigger] g.team_a.rounds@[i].order),
        forall|i: int| 0 <= i < g.team_b.rounds@.len() ==> is_order(#[trigger] g.team_b.rounds@[i].order),
{
    assert forall|i: int| 0 <= i < g.team_a.rounds@.len() implies is_order(#[trigger] g.team_a.rounds@[i].order) by {
        assert(g.team_a.rounds@[i].clue_giver < g.team_a.names().len());
    }
    assert forall|i: int| 0 <= i < g.team_b.rounds@.len() implies is_order(#[trigger] g.team_b.rounds@[i].order) by {
        assert(g.team_b.rounds@[i].clue_giver < g.team_b.names().len());
    }
}

/// No two sessions known to the server go by the same name.
pub proof fn law_names_unique(r: Registry, j: int, k: int)
    requires
        r.wf(),
        0 <= j < r.entries().len(),
        0 <= k < r.entries().len(),
        j != k,
    ensures
        r.entries()[j].1.name@ != r.entries()[k].1.name@,
{
    if j < k {
        assert(r.entries()[j].1.name@ != r.entries()[k].1.name@);
    } else {
        assert(r.entries()[k].1.name@ != r.entries()[j].1.name@);
    }
}

/// Once `join` has registered a session under a name and a room, looking
/// the session up (`get`) finds a player of that name in that room.
pub proof fn law_get_after_join(before: Registry, after: Registry, uuid: Seq<char>, name: Seq<char>, room: Seq<char>)
    requires
        before.wf(),
        after.wf(),
        ({
            let keys = entry_keys(before.entries());
            let i = position_of(keys, uuid);
            if keys.contains(uuid) {
                &&& after.entries() == before.entries().update(i, (keys[i], after.entries()[i].1))
                &&& is_new_player(after.entries()[i].1, name, room)
            } else {
                &&& after.entries() == before.entries().push((uuid, after.entries().last().1))
                &&& is_new_player(after.entries().last().1, name, room)
            }
        }),
    ensures
        entry_keys(after.entries()).contains(uuid),
        is_new_player(after.entries()[position_of(entry_keys(after.entries()), uuid)].1, name, room),
{
    let keys = entry_keys(before.entries());
    let after_keys = entry_keys(after.entries());
    if keys.contains(uuid) {
        let i = position_of(keys, uuid);
        assert(after_keys[i] == uuid);
        assert(after_keys.contains(uuid));
        let k = position_of(after_keys, uuid);
        assert(after_keys[k] == uuid);
    } else {
        let n = before.entries().len() as int;
        assert(after_keys[n] == uuid);
        assert(after_keys.contains(uuid));
        let k = position_of(after_keys, uuid);
        assert(after_keys[k] == uuid);
    }
}

/// The host is the first player in the room.  When the host leaves
/// (`player_disconnected` at position 0) and others remain, the player who
/// arrived last takes the first place and is the new host.
pub proof fn law_last_arrival_becomes_host<A>(entries: Seq<A>)
    requires
        entries.len() > 1,
    ensures
        swap_removed(entries, 0)[0] == entries.last(),
        swap_removed(entries, 0).len() == entries.len() - 1,
{
}

/// Once a game has started, each team has at least two players and at most
/// eight rounds have been played.  Every operation keeps this
/// (`started_well` in their contracts) except a direct `new_round` beyond
/// the eighth round or before both teams have two players; and while
/// rounds exist no player can join or leave a team (the contracts of
/// `add_player_a`, `add_player_b`, `remove_player_a`, `remove_player_b`).
pub proof fn law_started_game_keeps_teams(g: Decrypto)
    requires
        g.wf(),
        g.started_well(),
        !(g.state is Setup),
    ensures
        g.team_a.names().len() >= 2,
        g.team_b.names().len() >= 2,
        g.team_a.rounds@.len() == g.team_b.rounds@.len(),
        1 <= g.team_a.rounds@.len() <= 8,
        forall|i: int| 0 <= i < g.team_a.rounds@.len() ==> #[trigger] g.team_a.rounds@[i].clue_giver
            < g.team_a.names().len(),
        forall|i: int| 0 <= i < g.team_b.rounds@.len() ==> #[trigger] g.team_b.rounds@[i].clue_giver
            < g.team_b.names().len(),
{
}

/// What a player is shown of a round does not reveal its order until both
/// the team's guess and the other team's guess are in, and depends on the
/// other team only through its players and its clue giver of that round.
pub proof fn law_order_hidden_until_guessed(n: int, t1: Team, o1: Team, t2: Team, o2: Team)
    requires
        0 <= n < t1.rounds@.len(),
        0 <= n < t2.rounds@.len(),
        0 <= n < o1.rounds@.len(),
        0 <= n < o2.rounds@.len(),
        t1.names() == t2.names(),
        t1.rounds@[n].clue_giver == t2.rounds@[n].clue_giver,
        t1.rounds@[n].clues == t2.rounds@[n].clues,
        t1.rounds@[n].guess == t2.rounds@[n].guess,
        t1.rounds@[n].spy_guess == t2.rounds@[n].spy_guess,
        !(all_set(t1.rounds@[n].guess) && all_set(t1.rounds@[n].spy_guess)),
        o1.names() == o2.names(),
        o1.rounds@[n].clue_giver == o2.rounds@[n].clue_giver,
    ensures
        round_info(n, t1, o1).order is None,
        round_info(n, t1, o1) == round_info(n, t2, o2),
{
}

/// Along a run of a game that begins while it is being set up (as `new`
/// leaves it), where each step is an operation of the game other than a
/// direct `new_round` (each such operation's contract gives `continues`),
/// every game of the run is well started.
pub proof fn law_runs_stay_well_started(run: Seq<Decrypto>, k: int)
    requires
        run.len() > 0,
        run[0].state is Setup,
        forall|i: int| 0 <= i < run.len() - 1 ==> continues(#[trigger] run[i + 1], run[i]),
        0 <= k < run.len(),
    ensures
        run[k].started_well(),
    decreases k,
{
    if k > 0 {
        law_runs_stay_well_started(run, k - 1);
        let i = k - 1;
        assert(continues(run[i + 1], run[i]));
    }
}

/// Along such a run, once the game has started (at step `j`) it stays
/// started, each team keeps the players it had, each has at least two, both
/// have played equally many rounds, one to eight, and every clue giver is
/// one of its team's players.
pub proof fn law_runs_keep_started_game(run: Seq<Decrypto>, j: int, k: int)
    requires
        run.len() > 0,
        run[0].state is Setup,
        forall|i: int| 0 <= i < run.len() ==> #[trigger] run[i].wf(),
        forall|i: int| 0 <= i < run.len() - 1 ==> continues(#[trigger] run[i + 1], run[i]),
        0 <= j <= k < run.len(),
        !(run[j].state is Setup),
    ensures
        !(run[k].state is Setup),
        run[k].team_a.names() == run[j].team_a.names(),
        run[k].team_b.names() == run[j].team_b.names(),
        run[k].team_a.names().len() >= 2,
        run[k].team_b.names().len() >= 2,
        run[k].team_a.rounds@.len() == run[k].team_b.rounds@.len(),
        1 <= run[k].team_a.rounds@.len() <= 8,
        forall|i: int| 0 <= i < run[k].team_a.rounds@.len() ==> #[trigger] run[k].team_a.rounds@[i].clue_giver
            < run[k].team_a.names().len(),
        forall|i: int| 0 <= i < run[k].team_b.rounds@.len() ==> #[trigger] run[k].team_b.rounds@[i].clue_giver
            < run[k].team_b.names().len(),
    decreases k - j,
{
    if k > j {
        law_runs_keep_started_game(run, j, k - 1);
        let i = k - 1;
        assert(continues(run[i + 1], run[i]));
    }
    law_runs_stay_well_started(run, k);
    assert(run[k].wf());
    law_started_game_keeps_teams(run[k]);
}

} // verus!
