//! The values that players, lobbies and the two directions of the wire
//! protocol are made of.

use crate::board::{Board, BoardView, Point};
use crate::colors::Color;
use vstd::prelude::*;

verus! {

/// The kinds of game a lobby can start.
#[derive(Debug, Clone, Copy, PartialEq, Eq, Structural)]
pub enum GameType {
    TwoPlayer,
}

/// How players are grouped in a game.
#[derive(Debug, Clone, Copy, PartialEq, Eq, Structural)]
pub enum TeamMode {
    Solo,
}

/// A request to move the piece at `from` to `to`.
#[derive(Debug, Clone, Copy)]
pub struct Move {
    pub from: Point,
    pub to: Point,
}

/// Where a player stands: connected only, or in a lobby with a color.
#[derive(Debug)]
pub enum PlayerStatus {
    Initiated,
    JoinedLobby(String, Color),
}

/// What a `PlayerStatus` is.
pub enum PlayerStatusView {
    Initiated,
    JoinedLobby(Seq<char>, Color),
}

impl PlayerStatusView {
    /// The color, for a player in a lobby.
    pub open spec fn color(self) -> Option<Color> {
        match self {
            PlayerStatusView::Initiated => None,
            PlayerStatusView::JoinedLobby(_, c) => Some(c),
        }
    }

    /// The id of the lobby, for a player in a lobby.
    pub open spec fn lobby(self) -> Option<Seq<char>> {
        match self {
            PlayerStatusView::Initiated => None,
            PlayerStatusView::JoinedLobby(lobby, _) => Some(lobby),
        }
    }
}

impl View for PlayerStatus {
    type V = PlayerStatusView;

    open spec fn view(&self) -> PlayerStatusView {
        match *self {
            PlayerStatus::Initiated => PlayerStatusView::Initiated,
            PlayerStatus::JoinedLobby(lobby, color) => PlayerStatusView::JoinedLobby(lobby@, color),
        }
    }
}

impl Clone for PlayerStatus {
    fn clone(&self) -> (copy: PlayerStatus)
        ensures
            copy@ == self@,
    {
        match self {
            PlayerStatus::Initiated => PlayerStatus::Initiated,
            PlayerStatus::JoinedLobby(lobby, color) => PlayerStatus::JoinedLobby(
                lobby.clone(),
                *color,
            ),
        }
    }
}

impl PlayerStatus {
    /// The color, for a player in a lobby.
    pub fn color(&self) -> (c: Option<Color>)
        ensures
            c == self@.color(),
    {
        match self {
            PlayerStatus::Initiated => None,
            PlayerStatus::JoinedLobby(_, color) => Some(*color),
        }
    }
}

/// A player as the other players see it.
#[derive(Debug)]
pub struct Player {
    pub id: String,
    pub name: String,
    pub status: PlayerStatus,
}

/// What a `Player` is.
pub struct PlayerView {
    pub id: Seq<char>,
    pub name: Seq<char>,
    pub status: PlayerStatusView,
}

impl View for Player {
    type V = PlayerView;

    open spec fn view(&self) -> PlayerView {
        PlayerView { id: self.id@, name: self.name@, status: self.status@ }
    }
}

impl Clone for Player {
    fn clone(&self) -> (copy: Player)
        ensures
            copy@ == self@,
    {
        Player { id: self.id.clone(), name: self.name.clone(), status: self.status.clone() }
    }
}

/// The phase of a lobby: waiting under a leader, or playing on a board.
#[derive(Debug)]
pub enum State {
    Lobby(String),
    Game(Board),
}

/// What a `State` is.
pub enum StateView {
    Lobby(Seq<char>),
    Game(BoardView),
}

impl StateView {
    /// The leader's id while waiting; the empty id during a game, which
    /// has no leader.
    pub open spec fn leader(self) -> Seq<char> {
        match self {
            StateView::Lobby(id) => id,
            StateView::Game(_) => Seq::empty(),
        }
    }
}

impl View for State {
    type V = StateView;

    open spec fn view(&self) -> StateView {
        match *self {
            State::Lobby(leader) => StateView::Lobby(leader@),
            State::Game(board) => StateView::Game(board@),
        }
    }
}

impl Clone for State {
    fn clone(&self) -> (copy: State)
        ensures
            copy@ == self@,
            self.wf() ==> copy.wf(),
    {
        match self {
            State::Lobby(leader) => State::Lobby(leader.clone()),
            State::Game(board) => State::Game(board.clone()),
        }
    }
}

impl State {
    /// A state is well-formed when its board, if it has one, is.
    pub open spec fn wf(&self) -> bool {
        match *self {
            State::Lobby(_) => true,
            State::Game(board) => board.wf(),
        }
    }

    /// The leader's id while waiting; the empty id during a game, which
    /// has no leader.
    pub fn leader(&self) -> (id: String)
        ensures
            id@ == self@.leader(),
    {
        match self {
            State::Lobby(id) => id.clone(),
            State::Game(_) => String::new(),
        }
    }
}

/// The players of a list, as what they are.
pub open spec fn players_view(players: Seq<Player>) -> Seq<PlayerView> {
    players.map_values(|p: Player| p@)
}

/// A copy of a list of players.
pub fn clone_players(players: &Vec<Player>) -> (copy: Vec<Player>)
    ensures
        players_view(copy@) == players_view(players@),
{
    let mut copy: Vec<Player> = Vec::new();
    let mut i: usize = 0;
    while i < players.len()
        invariant
            i <= players.len(),
            copy@.len() == i,
            forall|j: int| 0 <= j < i ==> (#[trigger] copy@[j])@ == players@[j]@,
        decreases players.len() - i,
    {
        copy.push(players[i].clone());
        i += 1;
    }
    assert(players_view(copy@) =~= players_view(players@));
    copy
}

/// A lobby as its members see it: its id, who is in it, and its phase.
#[derive(Debug)]
pub struct Lobby {
    pub id: String,
    pub players: Vec<Player>,
    pub state: State,
}

/// What a `Lobby` is.
pub struct LobbyView {
    pub id: Seq<char>,
    pub players: Seq<PlayerView>,
    pub state: StateView,
}

impl LobbyView {
    /// Whether a member of the lobby holds color `c`.
    pub open spec fn holds(self, c: Color) -> bool {
        colors_hold(self.players.map_values(|p: PlayerView| p.status), c)
    }
}

/// Whether one of the statuses is that of a lobby member with color `c`.
pub open spec fn colors_hold(statuses: Seq<PlayerStatusView>, c: Color) -> bool {
    exists|i: int| 0 <= i < statuses.len() && (#[trigger] statuses[i]).color() == Some(c)
}

/// Whether `c` is the first color of the palette that none of the statuses
/// holds; `None` stands for a palette that is used up.
pub open spec fn is_first_free_color(statuses: Seq<PlayerStatusView>, c: Option<Color>) -> bool {
    match c {
        Some(c) => {
            &&& !colors_hold(statuses, c)
            &&& forall|d: Color| d.rank() < c.rank() ==> #[trigger] colors_hold(statuses, d)
        },
        None => forall|d: Color| #[trigger] colors_hold(statuses, d),
    }
}

/// The first color of the palette, from position `k` on, that none of the
/// statuses holds.
pub open spec fn first_free_from(statuses: Seq<PlayerStatusView>, k: int) -> Option<Color>
    decreases 9 - k,
{
    if k < 0 || k >= 9 {
        None
    } else if !colors_hold(statuses, Color::palette()[k]) {
        Some(Color::palette()[k])
    } else {
        first_free_from(statuses, k + 1)
    }
}

/// The first color of the palette that none of the statuses holds.
pub open spec fn first_free_color(statuses: Seq<PlayerStatusView>) -> Option<Color> {
    first_free_from(statuses, 0)
}

proof fn lemma_first_free_from(statuses: Seq<PlayerStatusView>, k: int)
    requires
        0 <= k <= 9,
        forall|d: Color| d.rank() < k ==> #[trigger] colors_hold(statuses, d),
    ensures
        is_first_free_color(statuses, first_free_from(statuses, k)),
    decreases 9 - k,
{
    if k >= 9 {
        assert forall|d: Color| #[trigger] colors_hold(statuses, d) by {
            Color::lemma_palette_complete(d);
        }
    } else {
        let c = Color::palette()[k];
        assert(c.rank() == k) by {
            Color::lemma_palette_complete(c);
            assert(Color::palette() =~= Color::palette());
        }
        if colors_hold(statuses, c) {
            assert forall|d: Color| d.rank() < k + 1 implies #[trigger] colors_hold(
                statuses,
                d,
            ) by {
                Color::lemma_palette_complete(d);
                if d.rank() == k {
                    assert(d == c);
                }
            }
            lemma_first_free_from(statuses, k + 1);
        }
    }
}

/// The color that is handed out is held by nobody, every color before it
/// in the palette is held by somebody, and none is handed out only when
/// every color is held.
pub proof fn lemma_first_free_color(statuses: Seq<PlayerStatusView>)
    ensures
        is_first_free_color(statuses, first_free_color(statuses)),
        first_free_color(statuses) matches Some(c) ==> !colors_hold(statuses, c),
        first_free_color(statuses).is_none() <==> forall|d: Color|
            #[trigger] colors_hold(statuses, d),
{
    lemma_first_free_from(statuses, 0);
    if let Some(c) = first_free_color(statuses) {
        assert(!colors_hold(statuses, c));
    }
}

/// Only one answer is the first free color.
pub proof fn lemma_first_free_unique(statuses: Seq<PlayerStatusView>, c: Option<Color>)
    requires
        is_first_free_color(statuses, c),
    ensures
        c == first_free_color(statuses),
{
    lemma_first_free_color(statuses);
    let f = first_free_color(statuses);
    match (c, f) {
        (Some(a), Some(b)) => {
            Color::lemma_palette_complete(a);
            Color::lemma_palette_complete(b);
            if a.rank() < b.rank() {
                assert(colors_hold(statuses, a));
            } else if b.rank() < a.rank() {
                assert(colors_hold(statuses, b));
            }
            assert(Color::palette()[a.rank()] == a);
            assert(Color::palette()[b.rank()] == b);
        },
        (Some(a), None) => {
            assert(colors_hold(statuses, a));
        },
        (None, Some(b)) => {
            assert(colors_hold(statuses, b));
        },
        (None, None) => {},
    }
}

impl View for Lobby {
    type V = LobbyView;

    open spec fn view(&self) -> LobbyView {
        LobbyView { id: self.id@, players: players_view(self.players@), state: self.state@ }
    }
}

impl Clone for Lobby {
    fn clone(&self) -> (copy: Lobby)
        ensures
            copy@ == self@,
    {
        Lobby {
            id: self.id.clone(),
            players: clone_players(&self.players),
            state: self.state.clone(),
        }
    }
}

impl Lobby {
    /// The first color of the palette that no member of the lobby holds,
    /// or `None` when every color is taken.
    pub fn get_available_color(&self) -> (free: Option<Color>)
        ensures
            free == first_free_color(self@.players.map_values(|p: PlayerView| p.status)),
            is_first_free_color(self@.players.map_values(|p: PlayerView| p.status), free),
    {
        proof {
            lemma_first_free_color(self@.players.map_values(|p: PlayerView| p.status));
        }
        let ghost statuses = self@.players.map_values(|p: PlayerView| p.status);
        let colors = Color::iter();
        let mut k: usize = 0;
        while k < colors.len()
            invariant
                k <= colors.len(),
                colors@ == Color::palette(),
                statuses == self@.players.map_values(|p: PlayerView| p.status),
                forall|d: Color| d.rank() < k ==> #[trigger] colors_hold(statuses, d),
            decreases colors.len() - k,
        {
            let color = colors[k];
            proof {
                Color::lemma_palette_complete(color);
            }
            let mut taken = false;
            let mut i: usize = 0;
            while i < self.players.len()
                invariant_except_break
                    !taken,
                    forall|j: int| 0 <= j < i ==> (#[trigger] statuses[j]).color() != Some(color),
                invariant
                    i <= self.players.len(),
                    statuses == self@.players.map_values(|p: PlayerView| p.status),
                    statuses.len() == self.players.len(),
                ensures
                    taken == colors_hold(statuses, color),
                decreases self.players.len() - i,
            {
                assert(statuses[i as int] == self.players@[i as int].status@);
                if let PlayerStatus::JoinedLobby(_, c) = &self.players[i].status {
                    if *c == color {
                        taken = true;
                        assert(statuses[i as int].color() == Some(color));
                        break;
                    }
                }
                i += 1;
            }
            if !taken {
                proof {
                    lemma_first_free_unique(statuses, Some(color));
                }
                return Some(color);
            }
            assert forall|d: Color| d.rank() < k + 1 implies #[trigger] colors_hold(
                statuses,
                d,
            ) by {
                Color::lemma_palette_complete(d);
                if d.rank() == k {
                    assert(d == color);
                }
            }
            k += 1;
        }
        assert forall|d: Color| #[trigger] colors_hold(statuses, d) by {
            Color::lemma_palette_complete(d);
        }
        proof {
            lemma_first_free_unique(statuses, None);
        }
        None
    }
}

/// Why the server ends a connection.
#[derive(Debug, Clone, Copy, PartialEq, Eq, Structural)]
pub enum CloseCodes {
    WrongInit,
    CantCreateLobby,
    CantJoinLobbyDoestExist,
    NewSessionOpened,
    LobbyFull,
}

impl CloseCodes {
    /// The number that the connection is closed with.
    pub open spec fn code(self) -> u16 {
        match self {
            CloseCodes::WrongInit => 1003,
            CloseCodes::CantCreateLobby => 1013,
            CloseCodes::CantJoinLobbyDoestExist => 4001,
            CloseCodes::NewSessionOpened => 4002,
            CloseCodes::LobbyFull => 4003,
        }
    }

    /// The reason text that the connection is closed with: the name of
    /// the code.
    pub open spec fn reason(self) -> Seq<char> {
        match self {
            CloseCodes::WrongInit => "WrongInit"@,
            CloseCodes::CantCreateLobby => "CantCreateLobby"@,
            CloseCodes::CantJoinLobbyDoestExist => "CantJoinLobbyDoestExist"@,
            CloseCodes::NewSessionOpened => "NewSessionOpened"@,
            CloseCodes::LobbyFull => "LobbyFull"@,
        }
    }

    /// The number that the connection is closed with.
    pub fn to_code(&self) -> (code: u16)
        ensures
            code == self.code(),
    {
        match self {
            CloseCodes::WrongInit => 1003,
            CloseCodes::CantCreateLobby => 1013,
            CloseCodes::CantJoinLobbyDoestExist => 4001,
            CloseCodes::NewSessionOpened => 4002,
            CloseCodes::LobbyFull => 4003,
        }
    }

    /// The reason text that the connection is closed with.
    pub fn to_string(&self) -> (reason: String)
        ensures
            reason@ == self.reason(),
    {
        match self {
            CloseCodes::WrongInit => "WrongInit".to_owned(),
            CloseCodes::CantCreateLobby => "CantCreateLobby".to_owned(),
            CloseCodes::CantJoinLobbyDoestExist => "CantJoinLobbyDoestExist".to_owned(),
            CloseCodes::NewSessionOpened => "NewSessionOpened".to_owned(),
            CloseCodes::LobbyFull => "LobbyFull".to_owned(),
        }
    }
}

/// What a client sends.
#[derive(Debug)]
pub enum PlayerMessage {
    Initialize(String, String),
    JoinLobby(String),
    CreateLobby,
    Ping,
    Move(Move),
    StartGame(GameType, TeamMode),
}

/// What a `PlayerMessage` is.
pub enum PlayerMessageView {
    Initialize(Seq<char>, Seq<char>),
    JoinLobby(Seq<char>),
    CreateLobby,
    Ping,
    Move(Move),
    StartGame(GameType, TeamMode),
}

impl View for PlayerMessage {
    type V = PlayerMessageView;

    open spec fn view(&self) -> PlayerMessageView {
        match *self {
            PlayerMessage::Initialize(id, name) => PlayerMessageView::Initialize(id@, name@),
            PlayerMessage::JoinLobby(lobby) => PlayerMessageView::JoinLobby(lobby@),
            PlayerMessage::CreateLobby => PlayerMessageView::CreateLobby,
            PlayerMessage::Ping => PlayerMessageView::Ping,
            PlayerMessage::Move(mov) => PlayerMessageView::Move(mov),
            PlayerMessage::StartGame(game_type, team_mode) => PlayerMessageView::StartGame(
                game_type,
                team_mode,
            ),
        }
    }
}

/// What the server sends.
#[derive(Debug)]
pub enum SocketMessage {
    LobbyJoined(Lobby, Color),
    PlayerJoined(Player, Color),
    PlayerDisconnected(Player),
    Close(CloseCodes),
    Moved(Board, Move),
    LeaderChange(State),
    GameStart(State),
    Pong,
}

/// What a `SocketMessage` is.
pub enum SocketMessageView {
    LobbyJoined(LobbyView, Color),
    PlayerJoined(PlayerView, Color),
    PlayerDisconnected(PlayerView),
    Close(CloseCodes),
    Moved(BoardView, Move),
    LeaderChange(StateView),
    GameStart(StateView),
    Pong,
}

impl View for SocketMessage {
    type V = SocketMessageView;

    open spec fn view(&self) -> SocketMessageView {
        match *self {
            SocketMessage::LobbyJoined(lobby, color) => SocketMessageView::LobbyJoined(
                lobby@,
                color,
            ),
            SocketMessage::PlayerJoined(player, color) => SocketMessageView::PlayerJoined(
                player@,
                color,
            ),
            SocketMessage::PlayerDisconnected(player) => SocketMessageView::PlayerDisconnected(
                player@,
            ),
            SocketMessage::Close(code) => SocketMessageView::Close(code),
            SocketMessage::Moved(board, mov) => SocketMessageView::Moved(board@, mov),
            SocketMessage::LeaderChange(state) => SocketMessageView::LeaderChange(state@),
            SocketMessage::GameStart(state) => SocketMessageView::GameStart(state@),
            SocketMessage::Pong => SocketMessageView::Pong,
        }
    }
}

impl Clone for SocketMessage {
    fn clone(&self) -> (copy: SocketMessage)
        ensures
            copy@ == self@,
    {
        match self {
            SocketMessage::LobbyJoined(lobby, color) => SocketMessage::LobbyJoined(
                lobby.clone(),
                *color,
            ),
            SocketMessage::PlayerJoined(player, color) => SocketMessage::PlayerJoined(
                player.clone(),
                *color,
            ),
            SocketMessage::PlayerDisconnected(player) => SocketMessage::PlayerDisconnected(
                player.clone(),
            ),
            SocketMessage::Close(code) => SocketMessage::Close(*code),
            SocketMessage::Moved(board, mov) => SocketMessage::Moved(board.clone(), *mov),
            SocketMessage::LeaderChange(state) => SocketMessage::LeaderChange(state.clone()),
            SocketMessage::GameStart(state) => SocketMessage::GameStart(state.clone()),
            SocketMessage::Pong => SocketMessage::Pong,
        }
    }
}

} // verus!
