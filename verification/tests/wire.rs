use decrypto::messages::{Command, RoundInfo, TeamName};
use decrypto::wire::{command_text, join_game_text, round_text};
use serde_json::Value;

fn obj(pairs: Vec<(&str, Value)>) -> String {
    let mut m = serde_json::Map::new();
    for (k, v) in pairs {
        m.insert(k.to_string(), v);
    }
    Value::Object(m).to_string()
}

fn st(s: &str) -> Value {
    Value::from(s)
}

fn nums(o: [u8; 3]) -> Value {
    Value::from(o.iter().map(|x| Value::from(*x)).collect::<Vec<Value>>())
}

fn strs(w: &[String]) -> Value {
    Value::from(w.iter().map(|x| Value::from(x.as_str())).collect::<Vec<Value>>())
}

fn info(clues: Option<[String; 3]>, guess: Option<[u8; 3]>, spy: Option<[u8; 3]>, order: Option<[u8; 3]>) -> RoundInfo {
    RoundInfo {
        number: 3,
        clue_giver: "ann".to_string(),
        enemy_clue_giver: "d\"an".to_string(),
        clues,
        guess,
        spy_guess: spy,
        order,
    }
}

#[test]
fn simple_commands_match_serde_json() {
    let p = "bo\\b".to_string();
    assert_eq!(
        command_text(&Command::PlayerConnected { player: p.clone() }),
        obj(vec![("command", st("player_connected")), ("player", st(&p))])
    );
    assert_eq!(
        command_text(&Command::PlayerDisconnected { player: p.clone() }),
        obj(vec![("command", st("player_disconnected")), ("player", st(&p))])
    );
    assert_eq!(
        command_text(&Command::JoinedTeam { name: p.clone(), team: TeamName::A }),
        obj(vec![("command", st("joined_team")), ("name", st(&p)), ("team", st("a"))])
    );
    assert_eq!(
        command_text(&Command::LeftTeam { name: p.clone(), team: TeamName::B }),
        obj(vec![("command", st("left_team")), ("name", st(&p)), ("team", st("b"))])
    );
    assert_eq!(
        command_text(&Command::NewHost { player: p.clone() }),
        obj(vec![("command", st("new_host")), ("player", st(&p))])
    );
    let words = ["a".to_string(), "b c".to_string(), "\n".to_string(), "é".to_string()];
    assert_eq!(
        command_text(&Command::Words { words: words.clone() }),
        obj(vec![("command", st("words")), ("words", strs(&words))])
    );
    assert_eq!(
        command_text(&Command::Order { number: 12, order: [3, 1, 2] }),
        obj(vec![("command", st("order")), ("number", Value::from(12u64)), ("order", nums([3, 1, 2]))])
    );
    assert_eq!(command_text(&Command::NewHost { player: "x".to_string() }), r#"{"command":"new_host","player":"x"}"#);
}

#[test]
fn round_matches_serde_json() {
    let bare = info(None, None, None, None);
    assert_eq!(
        round_text(&bare),
        obj(vec![("command", st("round")), ("number", Value::from(3u64)), ("clue_giver", st("ann")), ("enemy_clue_giver", st("d\"an"))])
    );
    let clues = ["x".to_string(), "y".to_string(), "z".to_string()];
    let full = info(Some(clues.clone()), Some([1, 2, 3]), Some([3, 2, 1]), Some([2, 3, 1]));
    assert_eq!(
        command_text(&Command::Round { info: full }),
        obj(vec![
            ("command", st("round")),
            ("number", Value::from(3u64)),
            ("clue_giver", st("ann")),
            ("enemy_clue_giver", st("d\"an")),
            ("clues", strs(&clues)),
            ("guess", nums([1, 2, 3])),
            ("spy_guess", nums([3, 2, 1])),
            ("order", nums([2, 3, 1])),
        ])
    );
    let some = info(None, Some([1, 2, 3]), None, None);
    assert_eq!(
        round_text(&some),
        obj(vec![("command", st("round")), ("number", Value::from(3u64)), ("clue_giver", st("ann")), ("enemy_clue_giver", st("d\"an")), ("guess", nums([1, 2, 3]))])
    );
}

#[test]
fn join_game_matches_serde_json() {
    assert_eq!(
        join_game_text("http://h/game/a b"),
        obj(vec![("command", st("join_game")), ("game", st("http://h/game/a b"))])
    );
}
