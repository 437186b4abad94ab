use decrypto::game::{parse_game_request, parse_game_text, GameRequest};
use decrypto::lobby::{
    game_key, parse_lobby_request, parse_lobby_text, validate_and_get_name, JsonFields, LobbyRequest,
    MAX_NAME_LEN,
};
use decrypto::state::{Player, Registry};
use decrypto::text::decimal_string;
use decrypto::utils::{error_object, json_string, send_error};

fn fields(command: Option<&str>, name: Option<&str>, room: Option<&str>) -> JsonFields {
    JsonFields {
        is_object: true,
        command: command.map(|s| s.to_string()),
        name: name.map(|s| s.to_string()),
        room: room.map(|s| s.to_string()),
    }
}

#[test]
fn error_message_is_json() {
    assert_eq!(send_error("oops"), r#"{"command":"error","msg":"oops"}"#);
    assert_eq!(send_error("say \"hi\"\n"), r#"{"command":"error","msg":"say \"hi\"\n"}"#);
}

#[test]
fn error_object_frames_fields() {
    assert_eq!(error_object("\"error\"", "\"a\\\"b\""), r#"{"command":"error","msg":"a\"b"}"#);
}

#[test]
fn json_string_of_value() {
    assert_eq!(json_string(Some("abc"), "String(\"abc\")"), Ok("abc".to_string()));
    assert_eq!(json_string(None, "Number(5)"), Err("Number(5) is not a string!".to_string()));
}

#[test]
fn names_are_checked() {
    assert_eq!(MAX_NAME_LEN, 15);
    assert_eq!(validate_and_get_name(Some("ann")), Ok("ann".to_string()));
    assert_eq!(validate_and_get_name(None), Err("Missing or invalid player name.".to_string()));
    assert_eq!(
        validate_and_get_name(Some("abcdefghijklmnop")),
        Err("abcdefghijklmnop name too long! Must be less than 15 characters.".to_string())
    );
    assert_eq!(validate_and_get_name(Some("abcdefghijklmno")), Ok("abcdefghijklmno".to_string()));
    // the limit is in bytes
    assert!(validate_and_get_name(Some("ééééééééé")).is_err());
}

#[test]
fn rooms_ignore_case() {
    assert_eq!(game_key("RooM"), "room");
    assert_eq!(game_key("ÄB"), "äb");
}

#[test]
fn lobby_requests() {
    let text = "{}";
    let not_object = JsonFields { is_object: false, command: None, name: None, room: None };
    assert_eq!(parse_lobby_request("[1]", &not_object).err(), Some("Invalid json object: [1]".to_string()));
    assert_eq!(
        parse_lobby_request(text, &fields(None, None, None)).err(),
        Some("Missing or invalid command: {}".to_string())
    );
    assert!(matches!(parse_lobby_request(text, &fields(Some("dance"), None, None)), Ok(LobbyRequest::Other)));
    match parse_lobby_request(text, &fields(Some("join_or_create_game"), Some("ann"), Some("Kitchen"))) {
        Ok(LobbyRequest::JoinOrCreateGame { name, room, key }) => {
            assert_eq!(name, "ann");
            assert_eq!(room, "Kitchen");
            assert_eq!(key, "kitchen");
        }
        _ => panic!("expected a join"),
    }
    assert_eq!(
        parse_lobby_request(text, &fields(Some("join_or_create_game"), Some("ann"), None)).err(),
        Some("Missing or invalid player name.".to_string())
    );
}

#[test]
fn game_requests() {
    let t = "{}";
    assert_eq!(parse_game_request(t, &fields(Some("join_a"), None, None)), Ok(GameRequest::JoinA));
    assert_eq!(parse_game_request(t, &fields(Some("join_b"), None, None)), Ok(GameRequest::JoinB));
    assert_eq!(parse_game_request(t, &fields(Some("leave_team"), None, None)), Ok(GameRequest::LeaveTeam));
    assert_eq!(parse_game_request(t, &fields(Some("start_game"), None, None)), Ok(GameRequest::StartGame));
    assert_eq!(parse_game_request(t, &fields(Some("other"), None, None)), Ok(GameRequest::Other));
    assert_eq!(
        parse_game_request(t, &fields(None, None, None)),
        Err("Missing or invalid command: {}".to_string())
    );
}

#[test]
fn player_starts_unconnected() {
    let p = Player::new("ann", "room");
    assert_eq!(p.name, "ann");
    assert_eq!(p.game, "room");
    assert_eq!(p.connection, None);
}

#[test]
fn registry_keeps_names_unique() {
    let mut r = Registry::new();
    assert_eq!(r.join("u1", "ann", "kitchen"), Ok(()));
    assert_eq!(r.join("u2", "ann", "hall"), Err("ann already in use!".to_string()));
    assert_eq!(r.join("u1", "ann", "hall"), Ok(()));
    assert_eq!(r.get("u1").unwrap().game, "hall");
    assert!(r.get("u2").is_none());
    assert_eq!(r.join("u2", "bob", "hall"), Ok(()));
    assert_eq!(r.get("u2").unwrap().name, "bob");
}

#[test]
fn game_texts() {
    let bad = "{oops";
    let e = serde_json::from_str::<serde_json::Value>(bad).unwrap_err();
    assert_eq!(parse_game_text(bad), Err(format!("Error parsing JSON `{}`: {:?}", bad, e)));
    assert_eq!(parse_game_text(r#"{"command":"join_b"}"#), Ok(GameRequest::JoinB));
    assert_eq!(parse_game_text(r#"{"command":"start_game","x":1}"#), Ok(GameRequest::StartGame));
    assert_eq!(parse_game_text("[1]"), Err("Invalid json object: [1]".to_string()));
    assert_eq!(
        parse_game_text(r#"{"command":5}"#),
        Err(r#"Missing or invalid command: {"command":5}"#.to_string())
    );
    assert_eq!(parse_game_text(r#"{"command":"dance"}"#), Ok(GameRequest::Other));
}

#[test]
fn lobby_texts() {
    let bad = "not json";
    let e = serde_json::from_str::<serde_json::Value>(bad).unwrap_err();
    assert_eq!(parse_lobby_text(bad).err(), Some(format!("Error parsing JSON `{}`: {:?}", bad, e)));
    match parse_lobby_text(r#"{"command":"join_or_create_game","name":"ann","room":"Hall"}"#) {
        Ok(LobbyRequest::JoinOrCreateGame { name, room, key }) => {
            assert_eq!((name.as_str(), room.as_str(), key.as_str()), ("ann", "Hall", "hall"));
        }
        _ => panic!("expected a join"),
    }
    // the name is checked before the room
    assert_eq!(
        parse_lobby_text(r#"{"command":"join_or_create_game","name":"abcdefghijklmnop","room":7}"#).err(),
        Some("abcdefghijklmnop name too long! Must be less than 15 characters.".to_string())
    );
    assert_eq!(
        parse_lobby_text(r#"{"command":"join_or_create_game","name":"ann","room":7}"#).err(),
        Some("Missing or invalid player name.".to_string())
    );
    assert!(matches!(parse_lobby_text(r#"{"command":"hello"}"#), Ok(LobbyRequest::Other)));
}

#[test]
fn player_description() {
    let mut p = Player::new("ann", "hall");
    assert_eq!(p.describe(), "Player { name: ann, game: hall addr: false }");
    p.connection = Some(3);
    assert_eq!(p.describe(), "Player { name: ann, game: hall addr: true }");
}

#[test]
fn decimals() {
    assert_eq!(decimal_string(0), "0");
    assert_eq!(decimal_string(1234), "1234");
    assert_eq!(decimal_string(usize::MAX), usize::MAX.to_string());
}

#[test]
fn error_message_escapes_controls() {
    assert_eq!(send_error("a\u{1}b\t\\"), r#"{"command":"error","msg":"a\u0001b\t\\"}"#);
}
