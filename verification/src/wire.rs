//! The JSON text of each command, as a browser receives it: an object whose
//! keys stand in alphabetical order, written without spaces.

use vstd::prelude::*;
use crate::messages::{strings_view, Command, CommandView, RoundInfo, RoundInfoView, TeamName};
use crate::text::{decimal, decimal_string, json_quoted, json_string_literal};

verus! {

/// The views of a sequence of strings.
pub open spec fn strs(s: Seq<String>) -> Seq<Seq<char>> {
    s.map_values(|x: String| x@)
}

/// The JSON string literals of `items`, separated by commas.
pub open spec fn quoted_list(items: Seq<Seq<char>>) -> Seq<char>
    decreases items.len(),
{
    if items.len() == 0 {
        Seq::empty()
    } else if items.len() == 1 {
        json_quoted(items[0])
    } else {
        quoted_list(items.drop_last()) + ","@ + json_quoted(items.last())
    }
}

/// The JSON array of the strings `items`.
pub open spec fn string_array(items: Seq<Seq<char>>) -> Seq<char> {
    "["@ + quoted_list(items) + "]"@
}

/// The JSON array of the three numbers of `o`.
pub open spec fn number_array(o: [u8; 3]) -> Seq<char> {
    "["@ + decimal(o[0] as nat) + ","@ + decimal(o[1] as nat) + ","@ + decimal(o[2] as nat) + "]"@
}

/// How a team is named in JSON.
pub open spec fn team_text(t: TeamName) -> Seq<char> {
    match t {
        TeamName::A => "a"@,
        TeamName::B => "b"@,
    }
}

/// `prefix` and the JSON array of `o`, if there is one.
pub open spec fn numbers_part(prefix: Seq<char>, o: Option<[u8; 3]>) -> Seq<char> {
    match o {
        Some(o) => prefix + number_array(o),
        None => Seq::empty(),
    }
}

/// The clues field, if the clues are shown.
pub open spec fn clues_part(c: Option<Seq<Seq<char>>>) -> Seq<char> {
    match c {
        Some(c) => ",\"clues\":"@ + string_array(c),
        None => Seq::empty(),
    }
}

/// The JSON text of a round's information.
pub open spec fn round_json(i: RoundInfoView) -> Seq<char> {
    "{\"clue_giver\":"@ + json_quoted(i.clue_giver) + clues_part(i.clues)
        + ",\"command\":\"round\",\"enemy_clue_giver\":"@ + json_quoted(i.enemy_clue_giver)
        + numbers_part(",\"guess\":"@, i.guess) + ",\"number\":"@ + decimal(i.number as nat)
        + numbers_part(",\"order\":"@, i.order) + numbers_part(",\"spy_guess\":"@, i.spy_guess)
        + "}"@
}

/// The JSON text of a command.
pub open spec fn command_json(c: CommandView) -> Seq<char> {
    match c {
        CommandView::PlayerConnected { player } => "{\"command\":\"player_connected\",\"player\":"@
            + json_quoted(player) + "}"@,
        CommandView::PlayerDisconnected { player } =>
            "{\"command\":\"player_disconnected\",\"player\":"@ + json_quoted(player) + "}"@,
        CommandView::JoinedTeam { name, team } => "{\"command\":\"joined_team\",\"name\":"@
            + json_quoted(name) + ",\"team\":"@ + json_quoted(team_text(team)) + "}"@,
        CommandView::LeftTeam { name, team } => "{\"command\":\"left_team\",\"name\":"@
            + json_quoted(name) + ",\"team\":"@ + json_quoted(team_text(team)) + "}"@,
        CommandView::NewHost { player } => "{\"command\":\"new_host\",\"player\":"@ + json_quoted(
            player,
        ) + "}"@,
        CommandView::Words { words } => "{\"command\":\"words\",\"words\":"@ + string_array(words)
            + "}"@,
        CommandView::Round { info } => round_json(info),
        CommandView::Order { number, order } => "{\"command\":\"order\",\"number\":"@ + decimal(
            number as nat,
        ) + ",\"order\":"@ + number_array(order) + "}"@,
    }
}

/// The JSON string literal of `s`.
fn quote(s: &str) -> (r: String)
    ensures
        r@ == json_quoted(s@),
{
    match json_string_literal(s) {
        Ok(q) => q,
        Err(_) => String::new(),
    }
}

/// The JSON array of the strings `items`.
fn string_array_text(items: &[String]) -> (r: String)
    ensures
        r@ == string_array(strs(items@)),
{
    let ghost all = strs(items@);
    let mut r = "[".to_owned();
    let mut i: usize = 0;
    proof {
        assert(all.take(0) =~= Seq::<Seq<char>>::empty());
        assert(r@ =~= "["@ + quoted_list(all.take(0)));
    }
    while i < items.len()
        invariant
            i <= items@.len(),
            all == strs(items@),
            r@ == "["@ + quoted_list(all.take(i as int)),
        decreases items@.len() - i,
    {
        if i > 0 {
            r = r.concat(",");
        }
        r = r.concat(quote(items[i].as_str()).as_str());
        proof {
            assert(all.take(i + 1).drop_last() =~= all.take(i as int));
            assert(all.take(i + 1).last() == all[i as int]);
            assert(r@ =~= "["@ + quoted_list(all.take(i + 1)));
        }
        i = i + 1;
    }
    proof {
        assert(all.take(items@.len() as int) =~= all);
    }
    r.concat("]")
}

/// The JSON array of the three numbers of `o`.
fn number_array_text(o: [u8; 3]) -> (r: String)
    ensures
        r@ == number_array(o),
{
    let r = "[".to_owned();
    let r = r.concat(decimal_string(o[0] as usize).as_str());
    let r = r.concat(",");
    let r = r.concat(decimal_string(o[1] as usize).as_str());
    let r = r.concat(",");
    let r = r.concat(decimal_string(o[2] as usize).as_str());
    r.concat("]")
}

/// `prefix` and the JSON array of `o`, if there is one.
fn numbers_part_text(prefix: &str, o: Option<[u8; 3]>) -> (r: String)
    ensures
        r@ == numbers_part(prefix@, o),
{
    match o {
        Some(o) => prefix.to_owned().concat(number_array_text(o).as_str()),
        None => String::new(),
    }
}

/// The JSON text of a team's name.
fn team_text_quoted(t: TeamName) -> (r: String)
    ensures
        r@ == json_quoted(team_text(t)),
{
    match t {
        TeamName::A => quote("a"),
        TeamName::B => quote("b"),
    }
}

/// The JSON text of a round's information.
pub fn round_text(info: &RoundInfo) -> (r: String)
    ensures
        r@ == round_json(info@),
{
    let clues = match &info.clues {
        Some(c) => ",\"clues\":".to_owned().concat(string_array_text(c.as_slice()).as_str()),
        None => String::new(),
    };
    proof {
        if info.clues is Some {
            assert(strs(info.clues->0@) == strings_view(info.clues->0));
        }
    }
    let r = "{\"clue_giver\":".to_owned();
    let r = r.concat(quote(info.clue_giver.as_str()).as_str());
    let r = r.concat(clues.as_str());
    let r = r.concat(",\"command\":\"round\",\"enemy_clue_giver\":");
    let r = r.concat(quote(info.enemy_clue_giver.as_str()).as_str());
    let r = r.concat(numbers_part_text(",\"guess\":", info.guess).as_str());
    let r = r.concat(",\"number\":");
    let r = r.concat(decimal_string(info.number).as_str());
    let r = r.concat(numbers_part_text(",\"order\":", info.order).as_str());
    let r = r.concat(numbers_part_text(",\"spy_guess\":", info.spy_guess).as_str());
    r.concat("}")
}

/// `a`, `b` and `c` joined, with `b` written as a JSON string literal.
fn around_quoted(a: &str, b: &str, c: &str) -> (r: String)
    ensures
        r@ == a@ + json_quoted(b@) + c@,
{
    a.to_owned().concat(quote(b).as_str()).concat(c)
}

/// The JSON text of a command, as a browser receives it.
pub fn command_text(command: &Command) -> (r: String)
    ensures
        r@ == command_json(command@),
{
    match command {
        Command::PlayerConnected { player } => around_quoted(
            "{\"command\":\"player_connected\",\"player\":",
            player.as_str(),
            "}",
        ),
        Command::PlayerDisconnected { player } => around_quoted(
            "{\"command\":\"player_disconnected\",\"player\":",
            player.as_str(),
            "}",
        ),
        Command::JoinedTeam { name, team } => around_quoted(
            "{\"command\":\"joined_team\",\"name\":",
            name.as_str(),
            ",\"team\":",
        ).concat(team_text_quoted(*team).as_str()).concat("}"),
        Command::LeftTeam { name, team } => around_quoted(
            "{\"command\":\"left_team\",\"name\":",
            name.as_str(),
            ",\"team\":",
        ).concat(team_text_quoted(*team).as_str()).concat("}"),
        Command::NewHost { player } => around_quoted(
            "{\"command\":\"new_host\",\"player\":",
            player.as_str(),
            "}",
        ),
        Command::Words { words } => {
            proof {
                assert(strs(words@) == strings_view(*words));
            }
            "{\"command\":\"words\",\"words\":".to_owned().concat(
                string_array_text(words.as_slice()).as_str(),
            ).concat("}")
        },
        Command::Round { info } => round_text(info),
        Command::Order { number, order } => "{\"command\":\"order\",\"number\":".to_owned().concat(
            decimal_string(*number).as_str(),
        ).concat(",\"order\":").concat(number_array_text(*order).as_str()).concat("}"),
    }
}

/// The JSON text that sends a browser from the lobby to the game at
/// `game_url`.
pub fn join_game_text(game_url: &str) -> (r: String)
    ensures
        r@ == "{\"command\":\"join_game\",\"game\":"@ + json_quoted(game_url@) + "}"@,
{
    around_quoted("{\"command\":\"join_game\",\"game\":", game_url, "}")
}

} // verus!
