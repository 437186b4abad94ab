//! What the main operations of the game are for, stated over their results:
//! who wins, what a reconnecting player is shown, what a disconnection
//! during setup does, what the start of a round announces, and what a round
//! shows of its guesses.

use vstd::prelude::*;
use crate::decrypto::{
    advance_outcome, all_set, broadcast, connection_messages, left_own_team, left_team_messages,
    others_connected, round_history, round_info, round_messages, roster, send_named, Decrypto,
    State, Team,
};
use crate::messages::{send_all_to, send_to, strings_view, CommandView, OutgoingView, TeamName};
use crate::state::Player;

verus! {

/// Whether `o` sends the command `cmd`.
pub open spec fn sends(o: OutgoingView, cmd: CommandView) -> bool {
    o matches OutgoingView::Send { command, .. } && command == cmd
}

/// Whether `o` sends a words command.
pub open spec fn sends_words(o: OutgoingView) -> bool {
    o matches OutgoingView::Send { command: CommandView::Words { .. }, .. }
}

/// Whether `o` sends a round command.
pub open spec fn sends_round(o: OutgoingView) -> bool {
    o matches OutgoingView::Send { command: CommandView::Round { .. }, .. }
}

/// Every message of a broadcast carries the broadcast command.
pub proof fn lemma_broadcast_sends(entries: Seq<(Seq<char>, Player)>, skip: Seq<Seq<char>>, cmd: CommandView)
    ensures
        forall|k: int| 0 <= k < broadcast(entries, skip, cmd).len() ==> #[trigger] sends(broadcast(entries, skip, cmd)[k], cmd),
    decreases entries.len(),
{
    if entries.len() > 0 {
        lemma_broadcast_sends(entries.drop_last(), skip, cmd);
        let rest = broadcast(entries.drop_last(), skip, cmd);
        let b = broadcast(entries, skip, cmd);
        assert forall|k: int| 0 <= k < b.len() implies #[trigger] sends(b[k], cmd) by {
            if k < rest.len() {
                assert(b[k] == rest[k]);
            }
        }
    }
}

/// Every connected player of `entries` not named in `skip` receives the
/// broadcast command.
pub proof fn lemma_broadcast_reaches(
    entries: Seq<(Seq<char>, Player)>,
    skip: Seq<Seq<char>>,
    cmd: CommandView,
    j: int,
)
    requires
        0 <= j < entries.len(),
        entries[j].1.connection is Some,
        !skip.contains(entries[j].1.name@),
    ensures
        broadcast(entries, skip, cmd).contains(send_to(entries[j].1.connection->0, cmd)),
    decreases entries.len(),
{
    let b = broadcast(entries, skip, cmd);
    let rest = broadcast(entries.drop_last(), skip, cmd);
    if j == entries.len() - 1 {
        assert(b[rest.len() as int] == send_to(entries[j].1.connection->0, cmd));
    } else {
        lemma_broadcast_reaches(entries.drop_last(), skip, cmd, j);
        let k = choose|k: int| 0 <= k < rest.len() && rest[k] == send_to(entries[j].1.connection->0, cmd);
        assert(b[k] == rest[k]);
    }
}

/// Every message of a sending by name carries the command.
pub proof fn lemma_send_named_sends(entries: Seq<(Seq<char>, Player)>, name: Seq<char>, cmd: CommandView)
    ensures
        forall|k: int| 0 <= k < send_named(entries, name, cmd).len() ==> #[trigger] sends(send_named(entries, name, cmd)[k], cmd),
    decreases entries.len(),
{
    if entries.len() > 0 {
        lemma_send_named_sends(entries.drop_last(), name, cmd);
        let rest = send_named(entries.drop_last(), name, cmd);
        let b = send_named(entries, name, cmd);
        assert forall|k: int| 0 <= k < b.len() implies #[trigger] sends(b[k], cmd) by {
            if k < rest.len() {
                assert(b[k] == rest[k]);
            }
        }
    }
}

/// The announcements of the other players are connection announcements.
proof fn lemma_others_connected_no_words(entries: Seq<(Seq<char>, Player)>, name: Seq<char>)
    ensures
        forall|k: int| 0 <= k < others_connected(entries, name).len() ==> #[trigger] others_connected(entries, name)[k] is PlayerConnected,
    decreases entries.len(),
{
    if entries.len() > 0 {
        lemma_others_connected_no_words(entries.drop_last(), name);
        let rest = others_connected(entries.drop_last(), name);
        let b = others_connected(entries, name);
        assert forall|k: int| 0 <= k < b.len() implies #[trigger] b[k] is PlayerConnected by {
            if k < rest.len() {
                assert(b[k] == rest[k]);
            }
        }
    }
}

/// A team with two miscommunications loses, a team with two interceptions
/// wins: when both rounds are complete and advancing the game declares a
/// winner, that winner holds two interceptions or its opponents two
/// miscommunications; team A is checked first, its interceptions before
/// its miscommunications, then team B in the same way.
pub proof fn law_winner_by_tokens(pre: Decrypto, post: Decrypto, sent: Seq<OutgoingView>, r: Result<(), String>)
    requires
        advance_outcome(pre, post, sent, r),
        pre.state is Rounds,
        pre.team_a.round_complete(),
        pre.team_b.round_complete(),
    ensures
        pre.team_a.intercepts == 2 ==> (post.state matches State::Winner(w) && w@ == "Team A"@),
        pre.team_a.intercepts != 2 && pre.team_a.miscommunications == 2 ==> (post.state matches State::Winner(w)
            && w@ == "Team B"@),
        pre.team_a.intercepts != 2 && pre.team_a.miscommunications != 2 && pre.team_b.intercepts == 2
            ==> (post.state matches State::Winner(w) && w@ == "Team B"@),
        pre.team_a.intercepts != 2 && pre.team_a.miscommunications != 2 && pre.team_b.intercepts != 2
            && pre.team_b.miscommunications == 2 ==> (post.state matches State::Winner(w) && w@ == "Team A"@),
        (post.state matches State::Winner(w) && w@ == "Team A"@) ==> pre.team_a.intercepts == 2
            || pre.team_b.miscommunications == 2,
        (post.state matches State::Winner(w) && w@ == "Team B"@) ==> pre.team_b.intercepts == 2
            || pre.team_a.miscommunications == 2,
        post.state is Winner ==> r is Ok && sent.len() == 0,
{
    assert("Team A"@ != "Team B"@) by {
        reveal_strlit("Team A");
        reveal_strlit("Team B");
        assert("Team A"@[5] != "Team B"@[5]);
    }
}

/// A player who connects once the game has started is shown, last, the
/// words of their own team, and no other words: the only words message is
/// that one.
pub proof fn law_connection_shows_own_words(g: Decrypto, i: int)
    requires
        g.wf(),
        0 <= i < g.entries().len(),
        g.entries()[i].1.connection is Some,
        !(g.state is Setup),
    ensures
        ({
            let p = g.entries()[i].1;
            let c = p.connection->0;
            let msgs = connection_messages(g, i);
            &&& g.team_a.names().contains(p.name@) ==> msgs.last() == send_to(
                c,
                CommandView::Words { words: strings_view(g.team_a.words) },
            )
            &&& g.team_b.names().contains(p.name@) ==> msgs.last() == send_to(
                c,
                CommandView::Words { words: strings_view(g.team_b.words) },
            )
            &&& forall|k: int|
                0 <= k < msgs.len() && #[trigger] sends_words(msgs[k]) ==> {
                    ||| g.team_a.names().contains(p.name@) && sends(
                        msgs[k],
                        CommandView::Words { words: strings_view(g.team_a.words) },
                    )
                    ||| g.team_b.names().contains(p.name@) && sends(
                        msgs[k],
                        CommandView::Words { words: strings_view(g.team_b.words) },
                    )
                }
        }),
{
    let p = g.entries()[i].1;
    let c = p.connection->0;
    let name = p.name@;
    let b = broadcast(g.entries(), Seq::empty(), CommandView::PlayerConnected { player: name });
    lemma_broadcast_sends(g.entries(), Seq::empty(), CommandView::PlayerConnected { player: name });
    let o = send_all_to(c, others_connected(g.entries(), name));
    lemma_others_connected_no_words(g.entries(), name);
    let rs = send_all_to(c, roster(g.team_a.names(), TeamName::A) + roster(g.team_b.names(), TeamName::B));
    let h = seq![send_to(c, CommandView::NewHost { player: g.entries()[0].1.name@ })];
    let prefix = b + o + rs + h;
    assert forall|k: int| 0 <= k < prefix.len() implies !#[trigger] sends_words(prefix[k]) by {
        if k < b.len() {
            assert(prefix[k] == b[k]);
            assert(sends(b[k], CommandView::PlayerConnected { player: name }));
        } else if k < b.len() + o.len() {
            assert(prefix[k] == o[k - b.len()]);
            assert(others_connected(g.entries(), name)[k - b.len()] is PlayerConnected);
        } else if k < b.len() + o.len() + rs.len() {
            assert(prefix[k] == rs[k - b.len() - o.len()]);
            let ra = roster(g.team_a.names(), TeamName::A);
            let kk = k - b.len() - o.len();
            if kk < ra.len() {
                assert((ra + roster(g.team_b.names(), TeamName::B))[kk] == ra[kk]);
            } else {
                assert((ra + roster(g.team_b.names(), TeamName::B))[kk] == roster(g.team_b.names(), TeamName::B)[kk - ra.len()]);
            }
        } else {
            assert(prefix[k] == h[0]);
        }
    }
    let msgs = connection_messages(g, i);
    if g.team_for(name) is Some {
        let teams = g.team_for(name)->0;
        let hist = send_all_to(c, round_history(teams.0, teams.1));
        let w = seq![send_to(c, CommandView::Words { words: strings_view(teams.0.words) })];
        assert(msgs == prefix + (hist + w));
        assert forall|k: int| 0 <= k < msgs.len() && #[trigger] sends_words(msgs[k]) implies {
            ||| g.team_a.names().contains(name) && sends(msgs[k], CommandView::Words { words: strings_view(g.team_a.words) })
            ||| g.team_b.names().contains(name) && sends(msgs[k], CommandView::Words { words: strings_view(g.team_b.words) })
        } by {
            if k < prefix.len() {
                assert(msgs[k] == prefix[k]);
            } else if k < prefix.len() + hist.len() {
                assert(msgs[k] == hist[k - prefix.len()]);
            } else {
                assert(msgs[k] == w[0]);
            }
        }
        assert(msgs.last() == w[0]);
    } else {
        assert(msgs == prefix + Seq::<OutgoingView>::empty());
        assert(!g.team_a.names().contains(name) && !g.team_b.names().contains(name));
        assert forall|k: int| 0 <= k < msgs.len() && #[trigger] sends_words(msgs[k]) implies false by {
            assert(msgs[k] == prefix[k]);
        }
    }
}

/// During setup a player who disconnects leaves their team: afterwards the
/// team no longer holds their name and is one player smaller.
pub proof fn law_disconnect_leaves_team(pre: Decrypto, post: Decrypto, name: Seq<char>)
    requires
        pre.wf(),
        left_own_team(post, pre, name),
    ensures
        !post.team_a.names().contains(name),
        !post.team_b.names().contains(name),
        pre.team_a.names().contains(name) ==> post.team_a.names().len() + 1 == pre.team_a.names().len()
            && post.team_b == pre.team_b,
        pre.team_b.names().contains(name) ==> post.team_b.names().len() + 1 == pre.team_b.names().len()
            && post.team_a == pre.team_a,
{
    if pre.team_a.names().contains(name) {
        crate::decrypto::lemma_without_removes(pre.team_a.names(), name);
        assert(!pre.team_b.names().contains(name));
    } else if pre.team_b.names().contains(name) {
        crate::decrypto::lemma_without_removes(pre.team_b.names(), name);
    }
}

/// During setup, when a player of a team disconnects, every connected
/// player in the room is told that they left that team.
pub proof fn law_disconnect_tells_everyone(pre: Decrypto, name: Seq<char>, j: int)
    requires
        pre.wf(),
        0 <= j < pre.entries().len(),
        pre.entries()[j].1.connection is Some,
    ensures
        pre.team_a.names().contains(name) ==> left_team_messages(pre, name).contains(
            send_to(pre.entries()[j].1.connection->0, CommandView::LeftTeam { name, team: TeamName::A }),
        ),
        pre.team_b.names().contains(name) ==> left_team_messages(pre, name).contains(
            send_to(pre.entries()[j].1.connection->0, CommandView::LeftTeam { name, team: TeamName::B }),
        ),
{
    if pre.team_a.names().contains(name) {
        lemma_broadcast_reaches(pre.entries(), Seq::empty(), CommandView::LeftTeam { name, team: TeamName::A }, j);
    } else if pre.team_b.names().contains(name) {
        lemma_broadcast_reaches(pre.entries(), Seq::empty(), CommandView::LeftTeam { name, team: TeamName::B }, j);
    }
}

/// The round information sent when a round begins describes the round just
/// begun: its number is the number of rounds played before it, its clue
/// giver is the one of the new round, and its enemy clue giver the one of
/// the other team's new round.
pub proof fn law_round_messages_describe_new_round(g: Decrypto)
    requires
        g.wf(),
        g.team_a.rounds@.len() > 0,
    ensures
        forall|k: int|
            0 <= k < round_messages(g).len() && #[trigger] sends_round(round_messages(g)[k]) ==> {
                let n = (g.team_a.rounds@.len() - 1) as usize;
                let ga = g.team_a.names()[g.team_a.last_round().clue_giver as int];
                let gb = g.team_b.names()[g.team_b.last_round().clue_giver as int];
                &&& (round_messages(g)[k] matches OutgoingView::Send { command: CommandView::Round { info }, .. }
                    && info.number == n && ((info.clue_giver == ga && info.enemy_clue_giver == gb) || (
                info.clue_giver == gb && info.enemy_clue_giver == ga)))
            },
{
    let a = g.team_a;
    let b = g.team_b;
    let ca = CommandView::Round { info: round_info(a.rounds@.len() - 1, a, b) };
    let cb = CommandView::Round { info: round_info(b.rounds@.len() - 1, b, a) };
    let oa = CommandView::Order { number: a.rounds@.len() as usize, order: a.last_round().order };
    let ob = CommandView::Order { number: b.rounds@.len() as usize, order: b.last_round().order };
    let ba = broadcast(g.entries(), a.names(), ca);
    let bb = broadcast(g.entries(), b.names(), cb);
    let na = send_named(g.entries(), a.names()[a.last_round().clue_giver as int], oa);
    let nb = send_named(g.entries(), b.names()[b.last_round().clue_giver as int], ob);
    lemma_broadcast_sends(g.entries(), a.names(), ca);
    lemma_broadcast_sends(g.entries(), b.names(), cb);
    lemma_send_named_sends(g.entries(), a.names()[a.last_round().clue_giver as int], oa);
    lemma_send_named_sends(g.entries(), b.names()[b.last_round().clue_giver as int], ob);
    let m = round_messages(g);
    assert(m == ba + bb + na + nb);
    assert forall|k: int| 0 <= k < m.len() && #[trigger] sends_round(m[k]) implies {
        let n = (g.team_a.rounds@.len() - 1) as usize;
        let ga = g.team_a.names()[g.team_a.last_round().clue_giver as int];
        let gb = g.team_b.names()[g.team_b.last_round().clue_giver as int];
        &&& (m[k] matches OutgoingView::Send { command: CommandView::Round { info }, .. } && info.number == n
            && ((info.clue_giver == ga && info.enemy_clue_giver == gb) || (info.clue_giver == gb
            && info.enemy_clue_giver == ga)))
    } by {
        if k < ba.len() {
            assert(m[k] == ba[k]);
            assert(sends(ba[k], ca));
        } else if k < ba.len() + bb.len() {
            assert(m[k] == bb[k - ba.len()]);
            assert(sends(bb[k - ba.len()], cb));
        } else if k < ba.len() + bb.len() + na.len() {
            assert(m[k] == na[k - ba.len() - bb.len()]);
            assert(sends(na[k - ba.len() - bb.len()], oa));
        } else {
            assert(m[k] == nb[k - ba.len() - bb.len() - na.len()]);
            assert(sends(nb[k - ba.len() - bb.len() - na.len()], ob));
        }
    }
}

/// When a round begins, every connected player who is not on a team is
/// sent that team's round just begun, numbered by the rounds before it.
pub proof fn law_round_start_reaches_opponents(g: Decrypto, j: int)
    requires
        g.wf(),
        g.team_a.rounds@.len() > 0,
        0 <= j < g.entries().len(),
        g.entries()[j].1.connection is Some,
    ensures
        !g.team_a.names().contains(g.entries()[j].1.name@) ==> round_messages(g).contains(send_to(
            g.entries()[j].1.connection->0,
            CommandView::Round { info: round_info(g.team_a.rounds@.len() - 1, g.team_a, g.team_b) },
        )),
        !g.team_b.names().contains(g.entries()[j].1.name@) ==> round_messages(g).contains(send_to(
            g.entries()[j].1.connection->0,
            CommandView::Round { info: round_info(g.team_b.rounds@.len() - 1, g.team_b, g.team_a) },
        )),
{
    let a = g.team_a;
    let b = g.team_b;
    let ca = CommandView::Round { info: round_info(a.rounds@.len() - 1, a, b) };
    let cb = CommandView::Round { info: round_info(b.rounds@.len() - 1, b, a) };
    let oa = CommandView::Order { number: a.rounds@.len() as usize, order: a.last_round().order };
    let ob = CommandView::Order { number: b.rounds@.len() as usize, order: b.last_round().order };
    let ba = broadcast(g.entries(), a.names(), ca);
    let bb = broadcast(g.entries(), b.names(), cb);
    let na = send_named(g.entries(), a.names()[a.last_round().clue_giver as int], oa);
    let nb = send_named(g.entries(), b.names()[b.last_round().clue_giver as int], ob);
    let m = round_messages(g);
    assert(m == ba + bb + na + nb);
    let c = g.entries()[j].1.connection->0;
    if !a.names().contains(g.entries()[j].1.name@) {
        lemma_broadcast_reaches(g.entries(), a.names(), ca, j);
        let k = choose|k: int| 0 <= k < ba.len() && ba[k] == send_to(c, ca);
        assert(m[k] == ba[k]);
    }
    if !b.names().contains(g.entries()[j].1.name@) {
        lemma_broadcast_reaches(g.entries(), b.names(), cb, j);
        let k = choose|k: int| 0 <= k < bb.len() && bb[k] == send_to(c, cb);
        assert(m[ba.len() + k] == bb[k]);
    }
}

/// What a round shows: its number, the clue givers of both teams in that
/// round, the clues once all are given, the team's own guess exactly when it
/// is made in full, the other team's guess exactly when that one is, and the
/// secret order only when both are.
pub proof fn law_round_info_shows_guesses(n: int, team: Team, other: Team)
    requires
        0 <= n < team.rounds@.len(),
    ensures
        round_info(n, team, other).number == n as usize,
        round_info(n, team, other).clue_giver == team.names()[team.rounds@[n].clue_giver as int],
        n < other.rounds@.len() ==> round_info(n, team, other).enemy_clue_giver
            == other.names()[other.rounds@[n].clue_giver as int],
        round_info(n, team, other).clues == if team.rounds@[n].clues[0]@.len() > 0
            && team.rounds@[n].clues[1]@.len() > 0 && team.rounds@[n].clues[2]@.len() > 0 {
            Some(strings_view(team.rounds@[n].clues))
        } else {
            None
        },
        round_info(n, team, other).guess == if all_set(team.rounds@[n].guess) {
            Some(team.rounds@[n].guess)
        } else {
            None
        },
        round_info(n, team, other).spy_guess == if all_set(team.rounds@[n].spy_guess) {
            Some(team.rounds@[n].spy_guess)
        } else {
            None
        },
        round_info(n, team, other).order == if all_set(team.rounds@[n].guess) && all_set(team.rounds@[n].spy_guess) {
            Some(team.rounds@[n].order)
        } else {
            None
        },
{
}

} // verus!
