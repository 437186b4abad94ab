//! Requests made by a player in a game room.

use vstd::prelude::*;
use crate::lobby::{
    answer_view, command_answer, json_fields_of, parse_error_answer, read_command,
    read_request_fields, JsonFields,
};

verus! {

/// A request made in a game room.
#[derive(Clone, Copy, Debug, PartialEq, Eq, Structural)]
pub enum GameRequest {
    JoinA,
    JoinB,
    LeaveTeam,
    StartGame,
    /// A command the room does not act on.
    Other,
}

/// The answer to a game request whose fields are `f`.
pub open spec fn game_answer(
    text: Seq<char>,
    f: (bool, Option<Seq<char>>, Option<Seq<char>>, Option<Seq<char>>),
) -> Result<GameRequest, Seq<char>> {
    match command_answer(text, f) {
        Err(e) => Err(e),
        Ok(c) => Ok(
            if c == "join_a"@ {
                GameRequest::JoinA
            } else if c == "join_b"@ {
                GameRequest::JoinB
            } else if c == "leave_team"@ {
                GameRequest::LeaveTeam
            } else if c == "start_game"@ {
                GameRequest::StartGame
            } else {
                GameRequest::Other
            },
        ),
    }
}

/// What a game request with the fields `fields` of `text` asks for: see
/// `game_answer`.
pub fn parse_game_request(text: &str, fields: &JsonFields) -> (r: Result<GameRequest, String>)
    ensures
        answer_view(r) == game_answer(text@, fields@),
{
    let command = match read_command(text, fields) {
        Ok(c) => c,
        Err(e) => return Err(e),
    };
    if command == "join_a".to_owned() {
        Ok(GameRequest::JoinA)
    } else if command == "join_b".to_owned() {
        Ok(GameRequest::JoinB)
    } else if command == "leave_team".to_owned() {
        Ok(GameRequest::LeaveTeam)
    } else if command == "start_game".to_owned() {
        Ok(GameRequest::StartGame)
    } else {
        Ok(GameRequest::Other)
    }
}

/// What a JSON text received in a game room asks for: the parse error if it
/// is not JSON, else see `game_answer`.
pub fn parse_game_text(text: &str) -> (r: Result<GameRequest, String>)
    ensures
        match json_fields_of(text@) {
            Some(f) => answer_view(r) == game_answer(text@, f),
            None => r matches Err(e) && e@ == parse_error_answer(text@),
        },
{
    match read_request_fields(text) {
        Ok(f) => parse_game_request(text, &f),
        Err(e) => Err(e),
    }
}

} // verus!
