//! The server's side of a lobby: who is connected on which channel, who
//! leads, and what is sent to whom when something happens.
//!
//! Nothing here sends anything. Every operation returns the deliveries
//! that it asks for, in order, and the caller carries them out.

pub mod laws;

use crate::board::{hexagon_board, Board, BoardView};
use crate::colors::Color;
use crate::order::{
    lemma_same_ids, lemma_successor_is_next, next_leader, sorted_ids, strings_view,
};
pub use crate::server::laws::{lemma_distinct_ids, lemma_index_of};
use crate::structures::{
    first_free_color, CloseCodes, GameType, Lobby, LobbyView, Move, Player, PlayerStatus,
    PlayerStatusView, PlayerView, SocketMessage, SocketMessageView, State, StateView, TeamMode,
};
use vstd::prelude::*;

verus! {

/// What is put on a channel: a message for the client, or the end of the
/// connection with a reason.
#[derive(Debug)]
pub enum Frame {
    Message(SocketMessage),
    Close(CloseCodes),
}

/// What a `Frame` is.
pub enum FrameView {
    Message(SocketMessageView),
    Close(CloseCodes),
}

impl View for Frame {
    type V = FrameView;

    open spec fn view(&self) -> FrameView {
        match *self {
            Frame::Message(message) => FrameView::Message(message@),
            Frame::Close(code) => FrameView::Close(code),
        }
    }
}

/// One frame for one channel.
#[derive(Debug)]
pub struct Delivery {
    pub channel: u64,
    pub frame: Frame,
}

/// What a `Delivery` is.
pub struct DeliveryView {
    pub channel: u64,
    pub frame: FrameView,
}

impl View for Delivery {
    type V = DeliveryView;

    open spec fn view(&self) -> DeliveryView {
        DeliveryView { channel: self.channel, frame: self.frame@ }
    }
}

/// The deliveries of a list, as what they are.
pub open spec fn deliveries_view(deliveries: Seq<Delivery>) -> Seq<DeliveryView> {
    deliveries.map_values(|d: Delivery| d@)
}

/// The delivery of `message` to `channel`.
pub open spec fn message_to(channel: u64, message: SocketMessageView) -> DeliveryView {
    DeliveryView { channel, frame: FrameView::Message(message) }
}

/// The delivery that closes `channel` with `code`.
pub open spec fn close_to(channel: u64, code: CloseCodes) -> DeliveryView {
    DeliveryView { channel, frame: FrameView::Close(code) }
}

/// A player as the server holds it: what the others see of it, and the
/// channel that leads to its connection.
#[derive(Debug)]
pub struct ServerPlayer {
    pub id: String,
    pub name: String,
    pub send_channel: u64,
    pub status: PlayerStatus,
}

/// What a `ServerPlayer` is.
pub struct ServerPlayerView {
    pub id: Seq<char>,
    pub name: Seq<char>,
    pub send_channel: u64,
    pub status: PlayerStatusView,
}

impl ServerPlayerView {
    /// The player as the others see it.
    pub open spec fn player(self) -> PlayerView {
        PlayerView { id: self.id, name: self.name, status: self.status }
    }
}

impl View for ServerPlayer {
    type V = ServerPlayerView;

    open spec fn view(&self) -> ServerPlayerView {
        ServerPlayerView {
            id: self.id@,
            name: self.name@,
            send_channel: self.send_channel,
            status: self.status@,
        }
    }
}

impl Clone for ServerPlayer {
    fn clone(&self) -> (copy: ServerPlayer)
        ensures
            copy@ == self@,
    {
        ServerPlayer {
            id: self.id.clone(),
            name: self.name.clone(),
            send_channel: self.send_channel,
            status: self.status.clone(),
        }
    }
}

impl From<ServerPlayer> for Player {
    fn from(serverplayer: ServerPlayer) -> (player: Player)
        ensures
            player@ == serverplayer@.player(),
    {
        Player { id: serverplayer.id, name: serverplayer.name, status: serverplayer.status }
    }
}

impl vstd::std_specs::convert::FromSpecImpl<ServerPlayer> for Player {
    open spec fn obeys_from_spec() -> bool {
        true
    }

    open spec fn from_spec(serverplayer: ServerPlayer) -> Player {
        Player { id: serverplayer.id, name: serverplayer.name, status: serverplayer.status }
    }
}

impl ServerPlayer {
    /// The delivery of `message` to this player.
    pub fn send(&self, message: SocketMessage) -> (delivery: Delivery)
        ensures
            delivery@ == message_to(self.send_channel, message@),
    {
        Delivery { channel: self.send_channel, frame: Frame::Message(message) }
    }

    /// The delivery that ends this player's connection with `code`.
    pub fn close(&self, code: CloseCodes) -> (delivery: Delivery)
        ensures
            delivery@ == close_to(self.send_channel, code),
    {
        Delivery { channel: self.send_channel, frame: Frame::Close(code) }
    }
}

/// The players of a list, as what they are.
pub open spec fn server_players_view(players: Seq<ServerPlayer>) -> Seq<ServerPlayerView> {
    players.map_values(|p: ServerPlayer| p@)
}

/// Whether no two players of the list have the same id.
pub open spec fn distinct_ids(players: Seq<ServerPlayerView>) -> bool {
    forall|i: int, j: int|
        0 <= i < j < players.len() ==> (#[trigger] players[i]).id != (#[trigger] players[j]).id
}

/// Where the player with the given id stands in the list, if it is there.
pub open spec fn index_of(players: Seq<ServerPlayerView>, id: Seq<char>) -> Option<int> {
    if exists|i: int| 0 <= i < players.len() && (#[trigger] players[i]).id == id {
        Some(choose|i: int| 0 <= i < players.len() && (#[trigger] players[i]).id == id)
    } else {
        None
    }
}

/// What a `ServerLobby` is: its id, its players in the order in which
/// they came, and its phase.
pub struct ServerLobbyView {
    pub id: Seq<char>,
    pub players: Seq<ServerPlayerView>,
    pub state: StateView,
}

impl ServerLobbyView {
    /// No two players have the same id, and the board of a game is valid.
    pub open spec fn inv(self) -> bool {
        &&& distinct_ids(self.players)
        &&& match self.state {
            StateView::Lobby(_) => true,
            StateView::Game(board) => board.inv(),
        }
    }

    /// The lobby as its members see it.
    pub open spec fn snapshot(self) -> LobbyView {
        LobbyView {
            id: self.id,
            players: self.players.map_values(|p: ServerPlayerView| p.player()),
            state: self.state,
        }
    }

    /// The statuses of the players, in their order.
    pub open spec fn statuses(self) -> Seq<PlayerStatusView> {
        self.players.map_values(|p: ServerPlayerView| p.status)
    }

    /// The ids of the players, in their order.
    pub open spec fn ids(self) -> Seq<Seq<char>> {
        self.players.map_values(|p: ServerPlayerView| p.id)
    }

    /// `message` for every player, in their order.
    pub open spec fn broadcast(self, message: SocketMessageView) -> Seq<DeliveryView> {
        self.players.map_values(|p: ServerPlayerView| message_to(p.send_channel, message))
    }

    /// `message` for every player but the one with the given id.
    pub open spec fn broadcast_except(self, id: Seq<char>, message: SocketMessageView) -> Seq<
        DeliveryView,
    > {
        self.players.filter(|p: ServerPlayerView| p.id != id).map_values(
            |p: ServerPlayerView| message_to(p.send_channel, message),
        )
    }

    /// A lobby that `player` alone is in, and leads.
    pub open spec fn new_with_player(id: Seq<char>, player: ServerPlayerView) -> ServerLobbyView {
        ServerLobbyView { id, players: seq![player], state: StateView::Lobby(player.id) }
    }

    /// The lobby with `player` in it, and what is sent: the others learn of
    /// a player that has a color, and a player of the same id that was
    /// there before is replaced and its connection closed.
    pub open spec fn add_player(self, player: ServerPlayerView) -> (
        ServerLobbyView,
        Seq<DeliveryView>,
    ) {
        let joined = match player.status {
            PlayerStatusView::JoinedLobby(_, color) => self.broadcast(
                SocketMessageView::PlayerJoined(player.player(), color),
            ),
            PlayerStatusView::Initiated => Seq::empty(),
        };
        match index_of(self.players, player.id) {
            Some(i) => (
                ServerLobbyView { players: self.players.update(i, player), ..self },
                joined.push(close_to(self.players[i].send_channel, CloseCodes::NewSessionOpened)),
            ),
            None => (ServerLobbyView { players: self.players.push(player), ..self }, joined),
        }
    }
}

/// The color of the first status, from position `k` on, that has a color
/// other than `color`; `otherwise` where there is none.
pub open spec fn first_other_color(
    statuses: Seq<PlayerStatusView>,
    k: int,
    color: Color,
    otherwise: Color,
) -> Color
    decreases statuses.len() - k,
{
    if k < 0 || k >= statuses.len() {
        otherwise
    } else {
        match statuses[k].color() {
            Some(c) if c != color => c,
            _ => first_other_color(statuses, k + 1, color, otherwise),
        }
    }
}

impl ServerLobbyView {
    /// The lobby led by `leader`; a game has no leader and stays as it is.
    pub open spec fn with_leader(self, leader: Seq<char>) -> ServerLobbyView {
        match self.state {
            StateView::Lobby(_) => ServerLobbyView { state: StateView::Lobby(leader), ..self },
            StateView::Game(_) => self,
        }
    }

    /// The lobby under the leader that follows the present one, and the
    /// change told to every player. An empty lobby stays as it is.
    pub open spec fn assign_new_leader(self) -> (ServerLobbyView, Seq<DeliveryView>) {
        if self.players.len() == 0 {
            (self, Seq::empty())
        } else {
            let next = self.with_leader(next_leader(self.ids(), self.state.leader()));
            (next, next.broadcast(SocketMessageView::LeaderChange(next.state)))
        }
    }

    /// The lobby without the player of the given id, and what is sent: a
    /// leader that leaves is followed first, then the players that stay
    /// learn who left.
    pub open spec fn remove_player(self, id: Seq<char>) -> (ServerLobbyView, Seq<DeliveryView>) {
        let (lobby, told) = if id == self.state.leader() {
            self.assign_new_leader()
        } else {
            (self, Seq::empty())
        };
        match index_of(lobby.players, id) {
            Some(i) => {
                let rest = ServerLobbyView { players: lobby.players.remove(i), ..lobby };
                (
                    rest,
                    told + rest.broadcast(
                        SocketMessageView::PlayerDisconnected(lobby.players[i].player()),
                    ),
                )
            },
            None => (lobby, told),
        }
    }

    /// The color that the player of the given id starts a game with: the
    /// player leads the waiting lobby, is in it, and has a color.
    pub open spec fn starter_color(self, id: Seq<char>) -> Option<Color> {
        match self.state {
            StateView::Lobby(leader) => if id == leader {
                match index_of(self.players, leader) {
                    Some(i) => self.players[i].status.color(),
                    None => None,
                }
            } else {
                None
            },
            StateView::Game(_) => None,
        }
    }

    /// The lobby after the player of the given id asked for the game to
    /// start, and what is sent. Only the leader of a waiting lobby starts
    /// a game; it moves first, against the first other color in the lobby.
    pub open spec fn start_game(self, id: Seq<char>) -> (ServerLobbyView, Seq<DeliveryView>) {
        match self.starter_color(id) {
            Some(color) => {
                let other = first_other_color(self.statuses(), 0, color, Color::DarkRed);
                let state = StateView::Game(hexagon_board(GAME_SIZE, color, other));
                let next = ServerLobbyView { state, ..self };
                (next, next.broadcast(SocketMessageView::GameStart(state)))
            },
            None => (self, Seq::empty()),
        }
    }
}

impl ServerLobbyView {
    /// The player of the given id, if it is in the lobby.
    pub open spec fn player(self, id: Seq<char>) -> Option<ServerPlayerView> {
        match index_of(self.players, id) {
            Some(i) => Some(self.players[i]),
            None => None,
        }
    }

    /// The color that moves after `mover`: the first other color in the
    /// lobby, or `mover` again where there is none.
    pub open spec fn next_turn(self, mover: Color) -> Color {
        first_other_color(self.statuses(), 0, mover, mover)
    }

    /// The board after the player of the given id made `mov`, if the move
    /// counts: a game is on, the player is in it with the color to move,
    /// and the move is legal.
    pub open spec fn moved_board(self, id: Seq<char>, mov: Move) -> Option<BoardView> {
        match (self.player(id), self.state) {
            (Some(player), StateView::Game(board)) => if player.status.color() == Some(board.turn)
                && board.is_move_legal(mov) {
                Some(BoardView { turn: self.next_turn(board.turn), ..board.apply_move(mov) })
            } else {
                None
            },
            _ => None,
        }
    }

    /// The lobby after the player of the given id asked for `mov`, and
    /// what is sent: a move that counts is made, the turn passes, and every
    /// player gets the new board; any other changes nothing and is answered
    /// with nothing.
    pub open spec fn apply_move(self, id: Seq<char>, mov: Move) -> (
        ServerLobbyView,
        Seq<DeliveryView>,
    ) {
        match self.moved_board(id, mov) {
            Some(board) => {
                let next = ServerLobbyView { state: StateView::Game(board), ..self };
                (next, next.broadcast(SocketMessageView::Moved(board, mov)))
            },
            None => (self, Seq::empty()),
        }
    }
}

impl ServerLobbyView {
    /// What holds of a lobby that players made and joined through the
    /// registry: somebody is in it, every player's status names this lobby,
    /// no two players have the same color, and a waiting lobby is led by
    /// one of its players.
    pub open spec fn booked(self) -> bool {
        &&& self.players.len() > 0
        &&& forall|i: int|
            0 <= i < self.players.len() ==> (#[trigger] self.players[i]).status.lobby() == Some(
                self.id,
            )
        &&& forall|i: int, j: int|
            0 <= i < j < self.players.len() ==> (#[trigger] self.players[i]).status.color() != (
            #[trigger] self.players[j]).status.color()
        &&& match self.state {
            StateView::Lobby(leader) => index_of(self.players, leader).is_some(),
            StateView::Game(_) => true,
        }
    }
}

/// The size of the board that a game is played on.
pub const GAME_SIZE: u32 = 8;

/// A lobby as the server holds it.
#[derive(Debug)]
pub struct ServerLobby {
    id: String,
    players: Vec<ServerPlayer>,
    state: State,
}

impl View for ServerLobby {
    type V = ServerLobbyView;

    closed spec fn view(&self) -> ServerLobbyView {
        ServerLobbyView {
            id: self.id@,
            players: server_players_view(self.players@),
            state: self.state@,
        }
    }
}

/// Where the player with the given id stands in the list, if it is there.
fn find_player(players: &Vec<ServerPlayer>, id: &String) -> (at: Option<usize>)
    ensures
        match at {
            Some(i) => i < players.len() && players@[i as int].id@ == id@,
            None => forall|j: int| 0 <= j < players.len() ==> (#[trigger] players@[j]).id@ != id@,
        },
        distinct_ids(server_players_view(players@)) ==> at == match index_of(
            server_players_view(players@),
            id@,
        ) {
            Some(i) => Some(i as usize),
            None => None,
        },
{
    let ghost views = server_players_view(players@);
    let mut i: usize = 0;
    while i < players.len()
        invariant
            i <= players.len(),
            views == server_players_view(players@),
            forall|j: int| 0 <= j < i ==> (#[trigger] players@[j]).id@ != id@,
        decreases players.len() - i,
    {
        if players[i].id == *id {
            proof {
                assert(views[i as int].id == id@);
                if distinct_ids(views) {
                    lemma_index_of(views, i as int);
                }
            }
            return Some(i);
        }
        i += 1;
    }
    proof {
        assert forall|j: int| 0 <= j < views.len() implies (#[trigger] views[j]).id != id@ by {
            assert(players@[j].id@ != id@);
        }
    }
    None
}

/// A copy of a list of players.
fn clone_server_players(players: &Vec<ServerPlayer>) -> (copy: Vec<ServerPlayer>)
    ensures
        server_players_view(copy@) == server_players_view(players@),
{
    let mut copy: Vec<ServerPlayer> = Vec::new();
    let mut i: usize = 0;
    while i < players.len()
        invariant
            i <= players.len(),
            copy@.len() == i,
            forall|j: int| 0 <= j < i ==> (#[trigger] copy@[j])@ == players@[j]@,
        decreases players.len() - i,
    {
        copy.push(players[i].clone());
        i += 1;
    }
    assert(server_players_view(copy@) =~= server_players_view(players@));
    copy
}

impl Clone for ServerLobby {
    fn clone(&self) -> (copy: ServerLobby)
        ensures
            copy@ == self@,
            self.wf() ==> copy.wf(),
    {
        ServerLobby {
            id: self.id.clone(),
            players: clone_server_players(&self.players),
            state: self.state.clone(),
        }
    }
}

impl From<ServerLobby> for Lobby {
    fn from(lobby: ServerLobby) -> (snapshot: Lobby)
        ensures
            snapshot@ == lobby@.snapshot(),
    {
        let mut players: Vec<Player> = Vec::new();
        let mut i: usize = 0;
        while i < lobby.players.len()
            invariant
                i <= lobby.players.len(),
                players@.len() == i,
                forall|j: int|
                    0 <= j < i ==> (#[trigger] players@[j])@ == lobby.players@[j]@.player(),
            decreases lobby.players.len() - i,
        {
            players.push(Player::from(lobby.players[i].clone()));
            i += 1;
        }
        assert(crate::structures::players_view(players@) =~= lobby@.snapshot().players);
        Lobby { id: lobby.id, players, state: lobby.state }
    }
}

impl vstd::std_specs::convert::FromSpecImpl<ServerLobby> for Lobby {
    open spec fn obeys_from_spec() -> bool {
        false
    }

    open spec fn from_spec(lobby: ServerLobby) -> Lobby {
        choose|snapshot: Lobby| snapshot@ == lobby@.snapshot()
    }
}

impl ServerLobby {
    /// The lobby's invariant: no two players have the same id, and the
    /// board of a game is well-formed.
    pub closed spec fn wf(&self) -> bool {
        &&& distinct_ids(server_players_view(self.players@))
        &&& self.state.wf()
    }

    /// A well-formed lobby has a valid view.
    pub proof fn lemma_wf_inv(&self)
        requires
            self.wf(),
        ensures
            self@.inv(),
    {
        match self.state {
            State::Lobby(_) => {},
            State::Game(board) => {
                board.lemma_wf_inv();
            },
        }
    }

    /// The lobby's id.
    pub fn id(&self) -> (id: String)
        ensures
            id@ == self@.id,
    {
        self.id.clone()
    }

    /// The lobby's phase.
    pub fn state(&self) -> (state: State)
        ensures
            state@ == self@.state,
            self.wf() ==> state.wf(),
    {
        self.state.clone()
    }

    /// The players, in the order in which they came.
    pub fn players(&self) -> (players: Vec<ServerPlayer>)
        ensures
            server_players_view(players@) == self@.players,
    {
        clone_server_players(&self.players)
    }

    /// A lobby that `player` alone is in, and leads.
    pub fn new_with_player(id: String, player: ServerPlayer) -> (lobby: ServerLobby)
        ensures
            lobby.wf(),
            lobby@ == ServerLobbyView::new_with_player(id@, player@),
    {
        let leader = player.id.clone();
        let mut players: Vec<ServerPlayer> = Vec::new();
        players.push(player);
        let lobby = ServerLobby { id, players, state: State::Lobby(leader) };
        assert(lobby@.players =~= seq![player@]);
        lobby
    }

    /// `message` for every player, in their order.
    pub fn broadcast(&self, message: SocketMessage) -> (out: Vec<Delivery>)
        ensures
            deliveries_view(out@) == self@.broadcast(message@),
    {
        let mut out: Vec<Delivery> = Vec::new();
        let mut i: usize = 0;
        while i < self.players.len()
            invariant
                i <= self.players.len(),
                out@.len() == i,
                forall|j: int|
                    0 <= j < i ==> (#[trigger] out@[j])@ == message_to(
                        self.players@[j].send_channel,
                        message@,
                    ),
            decreases self.players.len() - i,
        {
            out.push(self.players[i].send(message.clone()));
            i += 1;
        }
        assert(deliveries_view(out@) =~= self@.broadcast(message@));
        out
    }

    /// `message` for every player but the one with the given id.
    pub fn broadcast_except(&self, id: &str, message: SocketMessage) -> (out: Vec<Delivery>)
        ensures
            deliveries_view(out@) == self@.broadcast_except(id@, message@),
    {
        let id = id.to_owned();
        let ghost views = self@.players;
        let ghost keep = |p: ServerPlayerView| p.id != id@;
        let ghost to = |p: ServerPlayerView| message_to(p.send_channel, message@);
        let mut out: Vec<Delivery> = Vec::new();
        let mut i: usize = 0;
        assert(views.take(0).filter(keep) =~= Seq::empty()) by {
            reveal(Seq::filter);
        }
        while i < self.players.len()
            invariant
                i <= self.players.len(),
                views == self@.players,
                views.len() == self.players.len(),
                keep == |p: ServerPlayerView| p.id != id@,
                to == |p: ServerPlayerView| message_to(p.send_channel, message@),
                deliveries_view(out@) == views.take(i as int).filter(keep).map_values(to),
            decreases self.players.len() - i,
        {
            proof {
                views.lemma_take_succ_push(i as int);
                views.take(i as int).lemma_filter_push(views[i as int], keep);
                assert(views[i as int] == self.players@[i as int]@);
            }
            if self.players[i].id != id {
                let ghost before = out@;
                out.push(self.players[i].send(message.clone()));
                assert(deliveries_view(out@) =~= deliveries_view(before).push(to(views[i as int])));
                assert(views.take(i as int).filter(keep).push(views[i as int]).map_values(to)
                    =~= views.take(i as int).filter(keep).map_values(to).push(to(views[i as int])));
            }
            i += 1;
        }
        proof {
            views.lemma_take_len();
        }
        out
    }

    /// Takes `player` into the lobby and returns what is to be sent: the
    /// others learn of a player that has a color, and a player of the same
    /// id that was there before is replaced and its connection closed.
    pub fn add_player(&mut self, player: ServerPlayer) -> (out: Vec<Delivery>)
        requires
            old(self).wf(),
        ensures
            final(self).wf(),
            (final(self)@, deliveries_view(out@)) == old(self)@.add_player(player@),
    {
        let mut out: Vec<Delivery> = Vec::new();
        assert(deliveries_view(out@) =~= Seq::empty());
        if let PlayerStatus::JoinedLobby(_, color) = &player.status {
            out = self.broadcast(SocketMessage::PlayerJoined(Player::from(player.clone()), *color));
        }
        let ghost views = self@.players;
        let ghost joined = deliveries_view(out@);
        match find_player(&self.players, &player.id) {
            Some(i) => {
                out.push(self.players[i].close(CloseCodes::NewSessionOpened));
                self.players.set(i, player);
                proof {
                    assert(self@.players =~= views.update(i as int, player@));
                    assert(deliveries_view(out@) =~= joined.push(
                        close_to(views[i as int].send_channel, CloseCodes::NewSessionOpened),
                    ));
                    assert forall|a: int, b: int| 0 <= a < b < self@.players.len() implies (
                    #[trigger] self@.players[a]).id != (#[trigger] self@.players[b]).id by {
                        assert(self@.players[a].id == views[a].id);
                        assert(self@.players[b].id == views[b].id);
                    }
                }
            },
            None => {
                self.players.push(player);
                proof {
                    assert(self@.players =~= views.push(player@));
                    assert forall|a: int, b: int| 0 <= a < b < self@.players.len() implies (
                    #[trigger] self@.players[a]).id != (#[trigger] self@.players[b]).id by {
                        if b < views.len() {
                            assert(self@.players[a] == views[a]);
                            assert(self@.players[b] == views[b]);
                        } else {
                            assert(self@.players[a] == views[a]);
                            assert(old(self).players@[a].id@ != player.id@);
                        }
                    }
                }
            },
        }
        out
    }

    /// Whether this is the lobby of the given id.
    pub fn has_id(&self, id: &str) -> (same: bool)
        ensures
            same == (self@.id == id@),
    {
        let id = id.to_owned();
        self.id == id
    }

    /// Whether nobody is in the lobby.
    pub fn is_empty(&self) -> (empty: bool)
        ensures
            empty == (self@.players.len() == 0),
    {
        self.players.len() == 0
    }

    /// The player of the given id, if it is in the lobby.
    pub fn player(&self, id: &str) -> (found: Option<ServerPlayer>)
        requires
            self.wf(),
        ensures
            match found {
                Some(p) => self@.player(id@) == Some(p@),
                None => self@.player(id@).is_none(),
            },
    {
        let id = id.to_owned();
        match find_player(&self.players, &id) {
            Some(i) => {
                assert(self@.players[i as int] == self.players@[i as int]@);
                Some(self.players[i].clone())
            },
            None => None,
        }
    }

    /// The first color of the palette that no player of the lobby holds.
    pub fn get_available_color(&self) -> (free: Option<Color>)
        ensures
            free == first_free_color(self@.statuses()),
    {
        let snapshot = Lobby::from(self.clone());
        assert(snapshot@.players.map_values(|p: PlayerView| p.status) =~= self@.statuses());
        snapshot.get_available_color()
    }

    /// Makes `mov` for the player of the given id if it counts: a game is
    /// on, the player is in it with the color to move, and the move is
    /// legal. Then the turn passes to the first other color in the lobby,
    /// and every player gets the new board. Any other request changes
    /// nothing and is answered with nothing.
    pub fn apply_move(&mut self, playerid: &str, mov: &Move) -> (out: Vec<Delivery>)
        requires
            old(self).wf(),
        ensures
            final(self).wf(),
            (final(self)@, deliveries_view(out@)) == old(self)@.apply_move(playerid@, *mov),
    {
        let mut out: Vec<Delivery> = Vec::new();
        assert(deliveries_view(out@) =~= Seq::empty());
        let color = match self.player(playerid) {
            Some(player) => player.status.color(),
            None => None,
        };
        let mut next_color: Option<Color> = None;
        if let Some(color) = color {
            if let State::Game(board) = &self.state {
                if board.turn() == color && board.is_move_legal(mov) {
                    next_color = Some(self.first_other_color(color, color));
                }
            }
        }
        assert(next_color.is_some() == old(self)@.moved_board(playerid@, *mov).is_some());
        if let Some(next_color) = next_color {
            let mut moved: Option<Board> = None;
            if let State::Game(board) = &mut self.state {
                board.apply_move(mov);
                board.change_turn(next_color);
                moved = Some(board.clone());
            }
            if let Some(newboard) = moved {
                out = self.broadcast(SocketMessage::Moved(newboard, *mov));
            }
        }
        out
    }

    /// The ids of the players, in their order.
    fn ids(&self) -> (ids: Vec<String>)
        ensures
            strings_view(ids@) == self@.ids(),
    {
        let mut ids: Vec<String> = Vec::new();
        let mut i: usize = 0;
        while i < self.players.len()
            invariant
                i <= self.players.len(),
                ids@.len() == i,
                forall|j: int| 0 <= j < i ==> (#[trigger] ids@[j])@ == self.players@[j].id@,
            decreases self.players.len() - i,
        {
            ids.push(self.players[i].id.clone());
            i += 1;
        }
        assert(strings_view(ids@) =~= self@.ids());
        ids
    }

    /// The color of the first player that has a color other than `color`;
    /// `otherwise` where no player has one.
    fn first_other_color(&self, color: Color, otherwise: Color) -> (other: Color)
        ensures
            other == first_other_color(self@.statuses(), 0, color, otherwise),
    {
        let ghost statuses = self@.statuses();
        let mut i: usize = 0;
        while i < self.players.len()
            invariant
                i <= self.players.len(),
                statuses == self@.statuses(),
                statuses.len() == self.players.len(),
                first_other_color(statuses, 0, color, otherwise) == first_other_color(
                    statuses,
                    i as int,
                    color,
                    otherwise,
                ),
            decreases self.players.len() - i,
        {
            assert(statuses[i as int] == self.players@[i as int].status@);
            if let PlayerStatus::JoinedLobby(_, ncolor) = &self.players[i].status {
                if color != *ncolor {
                    return *ncolor;
                }
            }
            i += 1;
        }
        otherwise
    }

    /// Hands the lead to the player whose id follows the leader's in the
    /// order of ids, or to the first in that order where the leader is the
    /// last or is not in the lobby, and tells every player. A game has no
    /// leader and stays as it is, but the players are told all the same.
    pub fn assignnewleader(&mut self) -> (out: Vec<Delivery>)
        requires
            old(self).wf(),
        ensures
            final(self).wf(),
            (final(self)@, deliveries_view(out@)) == old(self)@.assign_new_leader(),
    {
        let sorted = sorted_ids(self.ids());
        let leader = self.state.leader();
        proof {
            lemma_distinct_ids(self@.players);
            lemma_same_ids(self@.ids(), strings_view(sorted@));
        }
        if sorted.len() == 0 {
            let out: Vec<Delivery> = Vec::new();
            assert(deliveries_view(out@) =~= Seq::empty());
            return out;
        }
        let mut next: usize = 0;
        let mut i: usize = 0;
        while i < sorted.len() - 1
            invariant_except_break
                next == 0,
                forall|j: int| 0 <= j < i ==> (#[trigger] strings_view(sorted@)[j]) != leader@,
            invariant
                i <= sorted.len() - 1,
            ensures
                next < sorted.len(),
                (next >= 1 && strings_view(sorted@)[next - 1] == leader@) || (next == 0
                    && forall|j: int|
                    0 <= j < sorted.len() - 1 ==> (#[trigger] strings_view(sorted@)[j])
                        != leader@),
            decreases sorted.len() - i,
        {
            assert(strings_view(sorted@)[i as int] == sorted@[i as int]@);
            if sorted[i] == leader {
                next = i + 1;
                break;
            }
            i += 1;
        }
        proof {
            lemma_successor_is_next(
                self@.ids(),
                strings_view(sorted@),
                leader@,
                next as int,
            );
            assert(strings_view(sorted@)[next as int] == sorted@[next as int]@);
        }
        if let State::Lobby(_) = &self.state {
            self.state = State::Lobby(sorted[next].clone());
        }
        self.broadcast(SocketMessage::LeaderChange(self.state.clone()))
    }

    /// Takes the player of the given id out of the lobby and returns what
    /// is to be sent: a leader that leaves is followed first, then the
    /// players that stay learn who left.
    pub fn remove_player(&mut self, playerid: &str) -> (out: Vec<Delivery>)
        requires
            old(self).wf(),
        ensures
            final(self).wf(),
            (final(self)@, deliveries_view(out@)) == old(self)@.remove_player(playerid@),
    {
        let playerid = playerid.to_owned();
        let mut out: Vec<Delivery> = Vec::new();
        assert(deliveries_view(out@) =~= Seq::empty());
        if playerid == self.state.leader() {
            out = self.assignnewleader();
        }
        let ghost lobby = self@;
        let ghost told = deliveries_view(out@);
        if let Some(i) = find_player(&self.players, &playerid) {
            let player = self.players.remove(i);
            proof {
                assert(self@.players =~= lobby.players.remove(i as int));
                assert forall|a: int, b: int| 0 <= a < b < self@.players.len() implies (
                #[trigger] self@.players[a]).id != (#[trigger] self@.players[b]).id by {
                    let a2 = if a < i { a } else { a + 1 };
                    let b2 = if b < i { b } else { b + 1 };
                    assert(self@.players[a] == lobby.players[a2]);
                    assert(self@.players[b] == lobby.players[b2]);
                }
            }
            let mut more = self.broadcast(SocketMessage::PlayerDisconnected(Player::from(player)));
            let ghost more_view = deliveries_view(more@);
            out.append(&mut more);
            assert(deliveries_view(out@) =~= told + more_view);
        }
        out
    }

    /// Starts the game if the player of the given id may: it leads the
    /// waiting lobby and has a color. It moves first, against the first
    /// other color in the lobby. Returns what is to be sent: the new state
    /// for every player, or nothing where no game was started.
    pub fn start_game(&mut self, playerid: &str, game_type: GameType, team_mode: TeamMode) -> (out:
        Vec<Delivery>)
        requires
            old(self).wf(),
        ensures
            final(self).wf(),
            (final(self)@, deliveries_view(out@)) == old(self)@.start_game(playerid@),
    {
        let playerid = playerid.to_owned();
        let mut out: Vec<Delivery> = Vec::new();
        assert(deliveries_view(out@) =~= Seq::empty());
        let mut starter: Option<Color> = None;
        match &self.state {
            State::Lobby(pid) => {
                if playerid == *pid {
                    if let Some(i) = find_player(&self.players, pid) {
                        assert(self@.players[i as int] == self.players@[i as int]@);
                        starter = self.players[i].status.color();
                    }
                }
            },
            State::Game(_) => {},
        }
        assert(starter == self@.starter_color(playerid@));
        if let Some(color) = starter {
            let othercolor = self.first_other_color(color, Color::DarkRed);
            self.state = State::Game(
                match game_type {
                    GameType::TwoPlayer => Board::generate_hexagon(GAME_SIZE, color, othercolor),
                },
            );
            out = self.broadcast(SocketMessage::GameStart(self.state.clone()));
        }
        out
    }
}

} // verus!
