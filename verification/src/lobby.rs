//! The lobby: where a player picks a name and a room; and reading the JSON
//! texts that browsers send.

use vstd::prelude::*;
use crate::text::{decimal, decimal_string, join3, lowercase, to_lowercase};

verus! {

/// The longest name, in bytes, that a player or a room may have.
pub const MAX_NAME_LEN: usize = 15;

/// The number of bytes of `s` in UTF-8, as `str::len` reports it.
pub open spec fn utf8_len(s: Seq<char>) -> usize {
    vstd::utf8::encode_utf8(s).len() as usize
}

/// The view of an optional string.
pub open spec fn opt_view(o: Option<String>) -> Option<Seq<char>> {
    match o {
        Some(s) => Some(s@),
        None => None,
    }
}

/// The view of an optional string slice.
pub open spec fn opt_str_view(o: Option<&str>) -> Option<Seq<char>> {
    match o {
        Some(s) => Some(s@),
        None => None,
    }
}

/// An answer with the view of its error text.
pub open spec fn answer_view<T>(r: Result<T, String>) -> Result<T, Seq<char>> {
    match r {
        Ok(v) => Ok(v),
        Err(e) => Err(e@),
    }
}

/// What the server reads of a JSON text from a client: whether it is an
/// object, and each field it may need that holds a string.
pub struct JsonFields {
    pub is_object: bool,
    pub command: Option<String>,
    pub name: Option<String>,
    pub room: Option<String>,
}

impl View for JsonFields {
    type V = (bool, Option<Seq<char>>, Option<Seq<char>>, Option<Seq<char>>);

    open spec fn view(&self) -> (bool, Option<Seq<char>>, Option<Seq<char>>, Option<Seq<char>>) {
        (self.is_object, opt_view(self.command), opt_view(self.name), opt_view(self.room))
    }
}

/// What `serde_json` reads from `text`, if it is JSON: whether it is an
/// object, and the string values of its fields "command", "name" and "room"
/// (`None` for a field that is missing or holds no string).
pub uninterp spec fn json_fields_of(text: Seq<char>) -> Option<
    (bool, Option<Seq<char>>, Option<Seq<char>>, Option<Seq<char>>),
>;

/// How `serde_json` describes (`{:?}`) its error on `text`, if `text` is not
/// JSON.
pub uninterp spec fn json_error_of(text: Seq<char>) -> Seq<char>;

/// `serde_json::from_str` into a `serde_json::Value`: the fields of `text`
/// that the server reads, or the description of the parse error.
#[verifier::external_body]
pub(crate) fn read_json_fields(text: &str) -> (r: Result<JsonFields, String>)
    ensures
        r is Ok <==> json_fields_of(text@) is Some,
        r matches Ok(f) ==> json_fields_of(text@) == Some(f@),
        r matches Err(e) ==> e@ == json_error_of(text@),
{
    match serde_json::from_str::<serde_json::Value>(text) {
        Ok(serde_json::Value::Object(m)) => Ok(JsonFields {
            is_object: true,
            command: m.get("command").and_then(serde_json::Value::as_str).map(String::from),
            name: m.get("name").and_then(serde_json::Value::as_str).map(String::from),
            room: m.get("room").and_then(serde_json::Value::as_str).map(String::from),
        }),
        Ok(_) => Ok(JsonFields { is_object: false, command: None, name: None, room: None }),
        Err(e) => Err(format!("{:?}", e)),
    }
}

/// The answer to a text that is not JSON.
pub open spec fn parse_error_answer(text: Seq<char>) -> Seq<char> {
    "Error parsing JSON `"@ + text + "`: "@ + json_error_of(text)
}

/// The command that the fields `f` of `text` name, or the error.
pub open spec fn command_answer(
    text: Seq<char>,
    f: (bool, Option<Seq<char>>, Option<Seq<char>>, Option<Seq<char>>),
) -> Result<Seq<char>, Seq<char>> {
    if !f.0 {
        Err("Invalid json object: "@ + text)
    } else {
        match f.1 {
            Some(c) => Ok(c),
            None => Err("Missing or invalid command: "@ + text),
        }
    }
}

/// The command named by a JSON text from a client.
pub fn read_command(text: &str, fields: &JsonFields) -> (r: Result<String, String>)
    ensures
        match (r, command_answer(text@, fields@)) {
            (Ok(c), Ok(d)) => c@ == d,
            (Err(e), Err(d)) => e@ == d,
            _ => false,
        },
{
    if !fields.is_object {
        return Err("Invalid json object: ".to_owned().concat(text));
    }
    match &fields.command {
        Some(c) => Ok(c.clone()),
        None => Err("Missing or invalid command: ".to_owned().concat(text)),
    }
}

/// The answer to a name given in a request: it must be present, a string,
/// and at most `MAX_NAME_LEN` bytes long.
pub open spec fn name_answer(v: Option<Seq<char>>) -> Result<Seq<char>, Seq<char>> {
    match v {
        None => Err("Missing or invalid player name."@),
        Some(s) => if utf8_len(s) > MAX_NAME_LEN {
            Err(s + " name too long! Must be less than "@ + decimal(MAX_NAME_LEN as nat)
                + " characters."@)
        } else {
            Ok(s)
        },
    }
}

/// A name given in a request: see `name_answer`.
pub fn validate_and_get_name(v: Option<&str>) -> (r: Result<String, String>)
    ensures
        match (r, name_answer(opt_str_view(v))) {
            (Ok(s), Ok(d)) => s@ == d,
            (Err(e), Err(d)) => e@ == d,
            _ => false,
        },
{
    match v {
        None => Err("Missing or invalid player name.".to_owned()),
        Some(s) => {
            if s.len() > MAX_NAME_LEN {
                let limit = decimal_string(MAX_NAME_LEN);
                let msg = join3(s, " name too long! Must be less than ", limit.as_str());
                return Err(msg.concat(" characters."));
            }
            Ok(s.to_owned())
        },
    }
}

/// The key under which the room called `room` is kept: rooms are found
/// whatever the case of their name.
pub fn game_key(room: &str) -> (r: String)
    ensures
        r@ == lowercase(room@),
{
    to_lowercase(room)
}

/// A request made in the lobby.
pub enum LobbyRequest {
    /// Join the room `room` (kept under `key`) as `name`, creating it if
    /// needed.
    JoinOrCreateGame { name: String, room: String, key: String },
    /// A command the lobby does not act on.
    Other,
}

pub enum LobbyRequestView {
    JoinOrCreateGame { name: Seq<char>, room: Seq<char>, key: Seq<char> },
    Other,
}

impl View for LobbyRequest {
    type V = LobbyRequestView;

    open spec fn view(&self) -> LobbyRequestView {
        match self {
            LobbyRequest::JoinOrCreateGame { name, room, key } => LobbyRequestView::JoinOrCreateGame {
                name: name@,
                room: room@,
                key: key@,
            },
            LobbyRequest::Other => LobbyRequestView::Other,
        }
    }
}

/// The answer to a lobby request whose fields are `f`: a join needs a valid
/// name and then a valid room (the name's error comes first); other
/// commands are not acted on.
pub open spec fn lobby_answer(
    text: Seq<char>,
    f: (bool, Option<Seq<char>>, Option<Seq<char>>, Option<Seq<char>>),
) -> Result<LobbyRequestView, Seq<char>> {
    match command_answer(text, f) {
        Err(e) => Err(e),
        Ok(c) => if c != "join_or_create_game"@ {
            Ok(LobbyRequestView::Other)
        } else {
            match name_answer(f.2) {
                Err(e) => Err(e),
                Ok(name) => match name_answer(f.3) {
                    Err(e) => Err(e),
                    Ok(room) => Ok(LobbyRequestView::JoinOrCreateGame { name, room, key: lowercase(room) }),
                },
            }
        },
    }
}

/// Whether `r` is the answer `a`, up to views.
pub open spec fn lobby_answers(r: Result<LobbyRequest, String>, a: Result<LobbyRequestView, Seq<char>>) -> bool {
    match (r, a) {
        (Ok(q), Ok(v)) => q@ == v,
        (Err(e), Err(d)) => e@ == d,
        _ => false,
    }
}

/// What a lobby request with the fields `fields` of `text` asks for: see
/// `lobby_answer`.
pub fn parse_lobby_request(text: &str, fields: &JsonFields) -> (r: Result<LobbyRequest, String>)
    ensures
        lobby_answers(r, lobby_answer(text@, fields@)),
{
    let command = match read_command(text, fields) {
        Ok(c) => c,
        Err(e) => return Err(e),
    };
    if command == "join_or_create_game".to_owned() {
        let name = match validate_and_get_name(
            match &fields.name {
                Some(s) => Some(s.as_str()),
                None => None,
            },
        ) {
            Ok(n) => n,
            Err(e) => return Err(e),
        };
        let room = match validate_and_get_name(
            match &fields.room {
                Some(s) => Some(s.as_str()),
                None => None,
            },
        ) {
            Ok(n) => n,
            Err(e) => return Err(e),
        };
        let key = game_key(room.as_str());
        return Ok(LobbyRequest::JoinOrCreateGame { name, room, key });
    }
    Ok(LobbyRequest::Other)
}

/// The fields of `text`, or the answer to a text that is not JSON.
pub fn read_request_fields(text: &str) -> (r: Result<JsonFields, String>)
    ensures
        match json_fields_of(text@) {
            Some(f) => r matches Ok(g) && g@ == f,
            None => r matches Err(e) && e@ == parse_error_answer(text@),
        },
{
    match read_json_fields(text) {
        Ok(f) => Ok(f),
        Err(e) => Err(join3("Error parsing JSON `", text, "`: ").concat(e.as_str())),
    }
}

/// What a JSON text received in the lobby asks for: the parse error if it
/// is not JSON, else see `lobby_answer`.
pub fn parse_lobby_text(text: &str) -> (r: Result<LobbyRequest, String>)
    ensures
        match json_fields_of(text@) {
            Some(f) => lobby_answers(r, lobby_answer(text@, f)),
            None => r matches Err(e) && e@ == parse_error_answer(text@),
        },
{
    match read_request_fields(text) {
        Ok(f) => parse_lobby_request(text, &f),
        Err(e) => Err(e),
    }
}

} // verus!
