//! What the server tells connected players, as values.  The server turns
//! each command into a JSON text; the library decides which commands go to
//! which connection, and in which order.

use vstd::prelude::*;

verus! {

/// One of the two teams.
#[derive(Clone, Copy, Debug, PartialEq, Eq, Structural)]
pub enum TeamName {
    A,
    B,
}

/// The views of the strings of an array, in order.
pub open spec fn strings_view<const N: usize>(a: [String; N]) -> Seq<Seq<char>> {
    a@.map_values(|s: String| s@)
}

/// What a player may see of one round of a team.
pub struct RoundInfo {
    pub number: usize,
    pub clue_giver: String,
    pub enemy_clue_giver: String,
    pub clues: Option<[String; 3]>,
    pub guess: Option<[u8; 3]>,
    pub spy_guess: Option<[u8; 3]>,
    pub order: Option<[u8; 3]>,
}

pub struct RoundInfoView {
    pub number: usize,
    pub clue_giver: Seq<char>,
    pub enemy_clue_giver: Seq<char>,
    pub clues: Option<Seq<Seq<char>>>,
    pub guess: Option<[u8; 3]>,
    pub spy_guess: Option<[u8; 3]>,
    pub order: Option<[u8; 3]>,
}

impl View for RoundInfo {
    type V = RoundInfoView;

    open spec fn view(&self) -> RoundInfoView {
        RoundInfoView {
            number: self.number,
            clue_giver: self.clue_giver@,
            enemy_clue_giver: self.enemy_clue_giver@,
            clues: match self.clues {
                Some(c) => Some(strings_view(c)),
                None => None,
            },
            guess: self.guess,
            spy_guess: self.spy_guess,
            order: self.order,
        }
    }
}

/// A copy of the three strings of `a`.
pub fn copy_strings3(a: &[String; 3]) -> (r: [String; 3])
    ensures
        r == *a,
{
    let r = [a[0].clone(), a[1].clone(), a[2].clone()];
    assert(r =~= *a);
    r
}

/// A copy of the four strings of `a`.
pub fn copy_strings4(a: &[String; 4]) -> (r: [String; 4])
    ensures
        r == *a,
{
    let r = [a[0].clone(), a[1].clone(), a[2].clone(), a[3].clone()];
    assert(r =~= *a);
    r
}

impl RoundInfo {
    /// A copy of this round information.
    pub fn duplicate(&self) -> (r: Self)
        ensures
            r@ == self@,
    {
        let clues = match &self.clues {
            Some(c) => Some(copy_strings3(c)),
            None => None,
        };
        RoundInfo {
            number: self.number,
            clue_giver: self.clue_giver.clone(),
            enemy_clue_giver: self.enemy_clue_giver.clone(),
            clues,
            guess: self.guess,
            spy_guess: self.spy_guess,
            order: self.order,
        }
    }
}

/// A command that the server sends to a player.
pub enum Command {
    PlayerConnected { player: String },
    PlayerDisconnected { player: String },
    JoinedTeam { name: String, team: TeamName },
    LeftTeam { name: String, team: TeamName },
    NewHost { player: String },
    Words { words: [String; 4] },
    Round { info: RoundInfo },
    Order { number: usize, order: [u8; 3] },
}

pub enum CommandView {
    PlayerConnected { player: Seq<char> },
    PlayerDisconnected { player: Seq<char> },
    JoinedTeam { name: Seq<char>, team: TeamName },
    LeftTeam { name: Seq<char>, team: TeamName },
    NewHost { player: Seq<char> },
    Words { words: Seq<Seq<char>> },
    Round { info: RoundInfoView },
    Order { number: usize, order: [u8; 3] },
}

impl View for Command {
    type V = CommandView;

    open spec fn view(&self) -> CommandView {
        match self {
            Command::PlayerConnected { player } => CommandView::PlayerConnected { player: player@ },
            Command::PlayerDisconnected { player } => CommandView::PlayerDisconnected {
                player: player@,
            },
            Command::JoinedTeam { name, team } => CommandView::JoinedTeam { name: name@, team: *team },
            Command::LeftTeam { name, team } => CommandView::LeftTeam { name: name@, team: *team },
            Command::NewHost { player } => CommandView::NewHost { player: player@ },
            Command::Words { words } => CommandView::Words { words: strings_view(*words) },
            Command::Round { info } => CommandView::Round { info: info@ },
            Command::Order { number, order } => CommandView::Order { number: *number, order: *order },
        }
    }
}

impl Command {
    /// A copy of this command, for one more recipient.
    pub fn duplicate(&self) -> (r: Self)
        ensures
            r@ == self@,
    {
        match self {
            Command::PlayerConnected { player } => Command::PlayerConnected { player: player.clone() },
            Command::PlayerDisconnected { player } => Command::PlayerDisconnected {
                player: player.clone(),
            },
            Command::JoinedTeam { name, team } => Command::JoinedTeam { name: name.clone(), team: *team },
            Command::LeftTeam { name, team } => Command::LeftTeam { name: name.clone(), team: *team },
            Command::NewHost { player } => Command::NewHost { player: player.clone() },
            Command::Words { words } => Command::Words { words: copy_strings4(words) },
            Command::Round { info } => Command::Round { info: info.duplicate() },
            Command::Order { number, order } => Command::Order { number: *number, order: *order },
        }
    }
}

/// Something the server does towards a connection.
pub enum Outgoing {
    /// Send a command over the connection.
    Send { connection: u64, command: Command },
    /// Close the connection: its player has connected again elsewhere.
    ForceDisconnect { connection: u64 },
}

pub enum OutgoingView {
    Send { connection: u64, command: CommandView },
    ForceDisconnect { connection: u64 },
}

impl View for Outgoing {
    type V = OutgoingView;

    open spec fn view(&self) -> OutgoingView {
        match self {
            Outgoing::Send { connection, command } => OutgoingView::Send {
                connection: *connection,
                command: command@,
            },
            Outgoing::ForceDisconnect { connection } => OutgoingView::ForceDisconnect {
                connection: *connection,
            },
        }
    }
}

/// Sending `command` over `connection`.
pub open spec fn send_to(connection: u64, command: CommandView) -> OutgoingView {
    OutgoingView::Send { connection, command }
}

/// Sending each of `commands`, in order, over `connection`.
pub open spec fn send_all_to(connection: u64, commands: Seq<CommandView>) -> Seq<OutgoingView> {
    commands.map_values(|c: CommandView| send_to(connection, c))
}

/// The actions that the game has decided on and the server has yet to
/// perform, oldest first.
pub struct Outbox {
    pub items: Vec<Outgoing>,
}

impl View for Outbox {
    type V = Seq<OutgoingView>;

    open spec fn view(&self) -> Seq<OutgoingView> {
        self.items@.map_values(|o: Outgoing| o@)
    }
}

impl Outbox {
    /// An outbox with nothing in it.
    pub fn new() -> (r: Self)
        ensures
            r@ == Seq::<OutgoingView>::empty(),
    {
        let r = Outbox { items: Vec::new() };
        assert(r@ =~= Seq::<OutgoingView>::empty());
        r
    }

    /// Adds `item` after everything already in the outbox.
    pub fn push(&mut self, item: Outgoing)
        ensures
            final(self)@ == old(self)@.push(item@),
    {
        self.items.push(item);
        assert(self@ =~= old(self)@.push(item@));
    }

    /// Adds the sending of `command` over `connection`.
    pub fn send(&mut self, connection: u64, command: Command)
        ensures
            final(self)@ == old(self)@.push(send_to(connection, command@)),
    {
        self.push(Outgoing::Send { connection, command });
    }
}

} // verus!
