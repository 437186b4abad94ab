use decrypto::decrypto::{
    add_player_to_team, build_round_info, order_from, remove_player_from_team, words_at, Decrypto, State,
};
use decrypto::messages::{Command, Outbox, Outgoing, TeamName};
use decrypto::state::Player;

fn wordlist() -> Vec<String> {
    (0..10).map(|i| format!("word{}", i)).collect()
}

fn sent(out: &Outbox) -> Vec<(u64, String)> {
    out.items
        .iter()
        .map(|o| match o {
            Outgoing::Send { connection, command } => (*connection, describe(command)),
            Outgoing::ForceDisconnect { connection } => (*connection, "force_disconnect".to_string()),
        })
        .collect()
}

fn describe(c: &Command) -> String {
    match c {
        Command::PlayerConnected { player } => format!("player_connected {}", player),
        Command::PlayerDisconnected { player } => format!("player_disconnected {}", player),
        Command::JoinedTeam { name, team } => format!("joined_team {} {:?}", name, team),
        Command::LeftTeam { name, team } => format!("left_team {} {:?}", name, team),
        Command::NewHost { player } => format!("new_host {}", player),
        Command::Words { words } => format!("words {}", words.join(",")),
        Command::Round { info } => format!("round {} {} {}", info.number, info.clue_giver, info.enemy_clue_giver),
        Command::Order { number, order } => format!("order {} {:?}", number, order),
    }
}

/// A room with four connected players: ann and bob on team A, cid and dan on team B.
fn full_room() -> (Decrypto, Outbox) {
    let mut g = Decrypto::new(&wordlist());
    let mut out = Outbox::new();
    for (i, name) in ["ann", "bob", "cid", "dan"].iter().enumerate() {
        g.add_player(format!("u{}", i), Player::new(name, "room"));
        g.player_connected(format!("u{}", i), i as u64 + 1, &mut out).unwrap();
    }
    g.add_player_a("ann".to_string(), &mut out).unwrap();
    g.add_player_a("bob".to_string(), &mut out).unwrap();
    g.add_player_b("cid".to_string(), &mut out).unwrap();
    g.add_player_b("dan".to_string(), &mut out).unwrap();
    (g, Outbox::new())
}

#[test]
fn new_game_draws_eight_distinct_words() {
    let list = wordlist();
    let g = Decrypto::new(&list);
    assert!(matches!(g.state, State::Setup));
    let mut all: Vec<String> = g.team_a.words.to_vec();
    all.extend(g.team_b.words.iter().cloned());
    assert_eq!(all.len(), 8);
    for w in &all {
        assert!(list.contains(w));
    }
    let mut dedup = all.clone();
    dedup.sort();
    dedup.dedup();
    assert_eq!(dedup.len(), 8);
    assert_eq!(g.team_a.rounds.len(), 0);
    assert_eq!(g.players.len(), 0);
}

#[test]
fn connecting_player_hears_about_room() {
    let mut g = Decrypto::new(&wordlist());
    let mut out = Outbox::new();
    g.add_player("u0".to_string(), Player::new("ann", "room"));
    g.add_player("u1".to_string(), Player::new("bob", "room"));
    g.player_connected("u0".to_string(), 10, &mut out).unwrap();
    assert_eq!(
        sent(&out),
        vec![
            (10, "player_connected ann".to_string()),
            (10, "player_connected bob".to_string()),
            (10, "new_host ann".to_string()),
        ]
    );
    let mut out = Outbox::new();
    g.add_player_a("ann".to_string(), &mut out).unwrap();
    assert_eq!(sent(&out), vec![(10, "joined_team ann A".to_string())]);
    let mut out = Outbox::new();
    g.player_connected("u1".to_string(), 11, &mut out).unwrap();
    assert_eq!(
        sent(&out),
        vec![
            (10, "player_connected bob".to_string()),
            (11, "player_connected bob".to_string()),
            (11, "player_connected ann".to_string()),
            (11, "joined_team ann A".to_string()),
            (11, "new_host ann".to_string()),
        ]
    );
}

#[test]
fn reconnecting_closes_the_old_connection() {
    let mut g = Decrypto::new(&wordlist());
    let mut out = Outbox::new();
    g.add_player("u0".to_string(), Player::new("ann", "room"));
    g.player_connected("u0".to_string(), 10, &mut out).unwrap();
    let mut out = Outbox::new();
    g.player_connected("u0".to_string(), 20, &mut out).unwrap();
    assert_eq!(sent(&out)[0], (10, "force_disconnect".to_string()));
    assert_eq!(sent(&out)[1], (20, "player_connected ann".to_string()));
    assert_eq!(g.players.get("u0").unwrap().connection, Some(20));
}

#[test]
fn unknown_session_cannot_connect() {
    let mut g = Decrypto::new(&wordlist());
    let mut out = Outbox::new();
    let r = g.player_connected("nobody".to_string(), 1, &mut out);
    assert_eq!(r, Err("Player with UUID nobody not in room!".to_string()));
    assert!(out.items.is_empty());
}

#[test]
fn team_membership_rules() {
    let mut g = Decrypto::new(&wordlist());
    let mut out = Outbox::new();
    g.add_player("u0".to_string(), Player::new("ann", "room"));
    assert_eq!(g.add_player_a("ann".to_string(), &mut out), Ok(()));
    assert_eq!(g.add_player_a("ann".to_string(), &mut out), Err("ann is already on team.".to_string()));
    assert_eq!(g.add_player_b("ann".to_string(), &mut out), Err("ann is already on team A".to_string()));
    assert_eq!(g.add_player_b("bob".to_string(), &mut out), Ok(()));
    assert_eq!(g.add_player_a("bob".to_string(), &mut out), Err("bob is already on team B".to_string()));
    assert_eq!(g.leave_team("zed".to_string(), &mut out), Err("'zed' is not in the game!".to_string()));
    g.add_player("u1".to_string(), Player::new("cid", "room"));
    assert_eq!(g.leave_team("cid".to_string(), &mut out), Err("'cid' is not on a team!".to_string()));
}

#[test]
fn leave_undoes_join() {
    let mut g = Decrypto::new(&wordlist());
    let mut out = Outbox::new();
    for (i, name) in ["ann", "bob", "cid"].iter().enumerate() {
        g.add_player(format!("u{}", i), Player::new(name, "room"));
    }
    g.add_player_a("ann".to_string(), &mut out).unwrap();
    g.add_player_a("bob".to_string(), &mut out).unwrap();
    let before: Vec<String> = g.team_a.players.iter().cloned().collect();
    g.add_player_a("cid".to_string(), &mut out).unwrap();
    g.leave_team("cid".to_string(), &mut out).unwrap();
    let after: Vec<String> = g.team_a.players.iter().cloned().collect();
    assert_eq!(before, after);
}

#[test]
fn leaving_moves_last_player_into_the_gap() {
    let mut g = Decrypto::new(&wordlist());
    let mut out = Outbox::new();
    for (i, name) in ["ann", "bob", "cid"].iter().enumerate() {
        g.add_player(format!("u{}", i), Player::new(name, "room"));
        g.add_player_a(name.to_string(), &mut out).unwrap();
    }
    g.leave_team("ann".to_string(), &mut out).unwrap();
    let after: Vec<String> = g.team_a.players.iter().cloned().collect();
    assert_eq!(after, vec!["cid".to_string(), "bob".to_string()]);
}

#[test]
fn game_needs_two_players_per_team() {
    let mut g = Decrypto::new(&wordlist());
    let mut out = Outbox::new();
    g.add_player("u0".to_string(), Player::new("ann", "room"));
    g.add_player_a("ann".to_string(), &mut out).unwrap();
    assert_eq!(g.start_game("u0".to_string(), &mut out), Err("Team A must have at least 2 players!".to_string()));
    g.add_player("u1".to_string(), Player::new("bob", "room"));
    g.add_player_a("bob".to_string(), &mut out).unwrap();
    assert_eq!(g.start_game("u0".to_string(), &mut out), Err("Team B must have at least 2 players!".to_string()));
    assert!(matches!(g.state, State::Setup));
}

#[test]
fn only_the_host_starts() {
    let (mut g, mut out) = full_room();
    assert_eq!(g.start_game("u1".to_string(), &mut out), Err("Only game host can start the game!".to_string()));
    assert_eq!(g.start_game("zz".to_string(), &mut out), Err("Unknown player tried to start the game.".to_string()));
    assert!(out.items.is_empty());
    assert_eq!(g.start_game("u0".to_string(), &mut out), Ok(()));
    assert!(matches!(g.state, State::Rounds));
}

#[test]
fn starting_sends_words_rounds_and_orders() {
    let (mut g, mut out) = full_room();
    g.start_game("u0".to_string(), &mut out).unwrap();
    let s = sent(&out);
    let words_a = format!("words {}", g.team_a.words.join(","));
    let words_b = format!("words {}", g.team_b.words.join(","));
    // team A's words go to the players not on team A, and so on
    assert_eq!(s[0], (3, words_a.clone()));
    assert_eq!(s[1], (4, words_a));
    assert_eq!(s[2], (1, words_b.clone()));
    assert_eq!(s[3], (2, words_b));
    // the clue givers: the second player of each team
    assert_eq!(s[4], (3, "round 0 bob dan".to_string()));
    assert_eq!(s[5], (4, "round 0 bob dan".to_string()));
    assert_eq!(s[6], (1, "round 0 dan bob".to_string()));
    assert_eq!(s[7], (2, "round 0 dan bob".to_string()));
    assert_eq!(s[8], (2, format!("order 1 {:?}", g.team_a.rounds[0].order)));
    assert_eq!(s[9], (4, format!("order 1 {:?}", g.team_b.rounds[0].order)));
    assert_eq!(s.len(), 10);
    let mut o = g.team_a.rounds[0].order.to_vec();
    o.sort();
    assert_eq!(o, vec![1, 2, 3]);
}

#[test]
fn no_leaving_after_start() {
    let (mut g, mut out) = full_room();
    g.start_game("u0".to_string(), &mut out).unwrap();
    assert_eq!(g.leave_team("ann".to_string(), &mut out), Err("Cannot leave after the game has started!".to_string()));
    g.add_player("u9".to_string(), Player::new("eve", "room"));
    assert_eq!(g.add_player_a("eve".to_string(), &mut out), Err("Game alread started.".to_string()));
    assert_eq!(g.remove_player_b("cid".to_string(), &mut out), Err("Game alread started.".to_string()));
}

#[test]
fn guesses_and_scoring() {
    let (mut g, mut out) = full_room();
    assert_eq!(g.guess_a([1, 2, 3]), Err("No rounds!".to_string()));
    g.start_game("u0".to_string(), &mut out).unwrap();
    let order_a = g.team_a.rounds[0].order;
    let wrong = [order_a[1], order_a[0], order_a[2]];
    g.guess_a(wrong).unwrap();
    assert_eq!(g.team_a.miscommunications, 1);
    g.guess_a(order_a).unwrap();
    assert_eq!(g.team_a.miscommunications, 1);
    // team B's guess is recorded on team A's round
    g.guess_b(wrong).unwrap();
    assert_eq!(g.team_a.miscommunications, 2);
    assert_eq!(g.team_b.miscommunications, 0);
    g.spy_guess_a(order_a).unwrap();
    assert_eq!(g.team_b.intercepts, 1);
    let order_b = g.team_b.rounds[0].order;
    g.spy_guess_b([order_b[2], order_b[1], order_b[0]]).unwrap();
    assert_eq!(g.team_a.intercepts, 0);
}

fn complete_round(g: &mut Decrypto) {
    let clues = ["x".to_string(), "y".to_string(), "z".to_string()];
    g.give_clues_a(&clues).unwrap();
    g.give_clues_b(&clues).unwrap();
    let oa = g.team_a.rounds.last().unwrap().order;
    let ob = g.team_b.rounds.last().unwrap().order;
    g.guess_a(oa).unwrap();
    g.spy_guess_a([oa[1], oa[0], oa[2]]).unwrap();
    g.spy_guess_b([ob[1], ob[0], ob[2]]).unwrap();
    // `guess_b` records on team A's round, so team B's own guess is set here
    g.team_b.rounds.last_mut().unwrap().guess = ob;
}

#[test]
fn rounds_must_be_complete() {
    let (mut g, mut out) = full_room();
    g.start_game("u0".to_string(), &mut out).unwrap();
    assert_eq!(g.maybe_advance_game(&mut out), Err("Round not complete for Team A".to_string()));
    g.give_clues_a(&["x".to_string(), String::new(), String::new()]).unwrap();
    g.guess_a([1, 0, 0]).unwrap();
    g.spy_guess_a([0, 0, 3]).unwrap();
    assert_eq!(g.maybe_advance_game(&mut out), Err("Round not complete for Team B".to_string()));
}

#[test]
fn eight_rounds_lead_to_guessing_words() {
    let (mut g, mut out) = full_room();
    g.start_game("u0".to_string(), &mut out).unwrap();
    for round in 1..=8 {
        assert_eq!(g.team_a.rounds.len(), round);
        complete_round(&mut g);
        g.maybe_advance_game(&mut out).unwrap();
    }
    assert!(matches!(g.state, State::GuessWords));
    assert_eq!(g.team_b.rounds.len(), 8);
    // clue givers take turns
    assert_eq!(g.team_a.rounds[0].clue_giver, 1);
    assert_eq!(g.team_a.rounds[1].clue_giver, 0);
    // nothing moves once the words are to be guessed
    let before = out.items.len();
    assert_eq!(g.maybe_advance_game(&mut out), Ok(()));
    assert_eq!(out.items.len(), before);
}

#[test]
fn two_interceptions_win() {
    let (mut g, mut out) = full_room();
    g.start_game("u0".to_string(), &mut out).unwrap();
    g.team_b.intercepts = 0;
    for _ in 0..2 {
        complete_round(&mut g);
        let oa = g.team_a.rounds.last().unwrap().order;
        g.spy_guess_a(oa).unwrap();
        g.maybe_advance_game(&mut out).unwrap();
    }
    match &g.state {
        State::Winner(w) => assert_eq!(w, "Team B"),
        other => panic!("unexpected state {:?}", other),
    }
}

#[test]
fn host_leaving_during_setup() {
    let mut g = Decrypto::new(&wordlist());
    let mut out = Outbox::new();
    for (i, name) in ["ann", "bob", "cid"].iter().enumerate() {
        g.add_player(format!("u{}", i), Player::new(name, "room"));
        g.player_connected(format!("u{}", i), i as u64 + 1, &mut out).unwrap();
    }
    g.add_player_a("ann".to_string(), &mut out).unwrap();
    let mut out = Outbox::new();
    g.player_disconnected("u0".to_string(), &mut out).unwrap();
    assert_eq!(
        sent(&out),
        vec![
            (1, "left_team ann A".to_string()),
            (2, "left_team ann A".to_string()),
            (3, "left_team ann A".to_string()),
            (3, "player_disconnected ann".to_string()),
            (2, "player_disconnected ann".to_string()),
            (3, "new_host cid".to_string()),
            (2, "new_host cid".to_string()),
        ]
    );
    assert_eq!(g.team_a.players.len(), 0);
    assert_eq!(
        g.player_disconnected("u0".to_string(), &mut out),
        Err("Player with UUID u0 not in room!".to_string())
    );
}

#[test]
fn disconnect_during_game_keeps_team() {
    let (mut g, mut out) = full_room();
    g.start_game("u0".to_string(), &mut out).unwrap();
    let mut out = Outbox::new();
    g.player_disconnected("u3".to_string(), &mut out).unwrap();
    assert!(g.team_b.players.contains("dan"));
    assert_eq!(
        sent(&out),
        vec![
            (1, "player_disconnected dan".to_string()),
            (2, "player_disconnected dan".to_string()),
            (3, "player_disconnected dan".to_string()),
        ]
    );
}

#[test]
fn reconnecting_during_game_catches_up() {
    let (mut g, mut out) = full_room();
    g.start_game("u0".to_string(), &mut out).unwrap();
    let mut out = Outbox::new();
    g.player_connected("u3".to_string(), 40, &mut out).unwrap();
    let s = sent(&out);
    assert_eq!(s[0], (4, "force_disconnect".to_string()));
    let tail: Vec<(u64, String)> = s[s.len() - 3..].to_vec();
    // team B's player sees team B's round with team B's own clue giver as enemy
    assert_eq!(tail[0], (40, "new_host ann".to_string()));
    assert_eq!(tail[1], (40, "round 0 dan dan".to_string()));
    assert_eq!(tail[2], (40, format!("words {}", g.team_b.words.join(","))));
}

#[test]
fn new_round_refuses_a_tenth() {
    let (mut g, mut out) = full_room();
    for _ in 0..9 {
        g.new_round(&mut out).unwrap();
    }
    assert_eq!(g.new_round(&mut out), Err("Too many rounds!".to_string()));
    assert_eq!(g.team_a.rounds.len(), 9);
}

#[test]
fn team_names_are_a_and_b() {
    assert_ne!(TeamName::A, TeamName::B);
}

#[test]
fn team_join_then_leave_restores_team() {
    let mut g = Decrypto::new(&wordlist());
    add_player_to_team("ann", &mut g.team_a).unwrap();
    add_player_to_team("bob", &mut g.team_a).unwrap();
    let before: Vec<String> = g.team_a.players.iter().cloned().collect();
    assert_eq!(add_player_to_team("cid", &mut g.team_a), Ok(()));
    assert_eq!(remove_player_from_team("cid", &mut g.team_a), Ok(()));
    assert_eq!(g.team_a.players.iter().cloned().collect::<Vec<String>>(), before);
    assert_eq!(remove_player_from_team("zed", &mut g.team_a), Ok(()));
    assert_eq!(g.team_a.players.iter().cloned().collect::<Vec<String>>(), before);
}

#[test]
fn round_info_hides_order_until_guessed() {
    let (mut g, mut out) = full_room();
    g.start_game("u0".to_string(), &mut out).unwrap();
    let info = build_round_info(0, &g.team_a, &g.team_b).unwrap();
    assert!(info.order.is_none());
    assert_eq!(build_round_info(1, &g.team_a, &g.team_b).err(), Some("Team rounds out of bounds 1 <> 1.".to_string()));
    let oa = g.team_a.rounds[0].order;
    g.guess_a(oa).unwrap();
    let info = build_round_info(0, &g.team_a, &g.team_b).unwrap();
    assert!(info.order.is_none());
    g.spy_guess_a([oa[1], oa[0], oa[2]]).unwrap();
    let info = build_round_info(0, &g.team_a, &g.team_b).unwrap();
    assert_eq!(info.order, Some(oa));
}

#[test]
fn words_at_positions() {
    let list = wordlist();
    assert_eq!(words_at(&list, &[3, 0, 9]), vec!["word3".to_string(), "word0".to_string(), "word9".to_string()]);
    assert_eq!(words_at(&list, &[]), Vec::<String>::new());
}

#[test]
fn order_from_positions() {
    assert_eq!(order_from(&[2, 0, 1]), [3, 1, 2]);
    assert_eq!(order_from(&[0, 1, 2]), [1, 2, 3]);
}
