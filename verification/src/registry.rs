//! The registry of lobbies and the protocol that a connection follows
//! against it: handshake, choice of a lobby, the session, and the cleanup
//! when the connection ends.
//!
//! A handler feeds each inbound event to `user_connected` under exclusive
//! access to the registry, and sends what comes back.

pub mod laws;

use crate::colors::Color;
pub use crate::registry::laws::lemma_index_of_lobby;
use crate::server::{
    close_to, deliveries_view, message_to, Delivery, DeliveryView, Frame, ServerLobby,
    ServerLobbyView, ServerPlayer, ServerPlayerView,
};
use crate::structures::{
    first_free_color, lemma_first_free_color, CloseCodes, Lobby, Move, PlayerMessage,
    PlayerMessageView, PlayerStatus, PlayerStatusView, SocketMessage, SocketMessageView,
};
use rand::distributions::Alphanumeric;
use rand::Rng;
use vstd::prelude::*;

verus! {

/// How many characters the id of a new lobby has.
pub const LOBBY_ID_LENGTH: usize = 5;

/// Whether `c` is an ASCII letter or digit.
pub open spec fn is_alphanumeric(c: char) -> bool {
    let n = c as int;
    48 <= n <= 57 || 65 <= n <= 90 || 97 <= n <= 122
}

/// Whether `id` can be the id of a new lobby: ASCII letters and digits,
/// as many as such an id has.
pub open spec fn is_fresh_id(id: Seq<char>) -> bool {
    &&& id.len() == LOBBY_ID_LENGTH
    &&& forall|i: int| 0 <= i < id.len() ==> is_alphanumeric(#[trigger] id[i])
}

/// A string of `len` random characters, each drawn by `rand::Rng` from
/// `rand::distributions::Alphanumeric`, which yields ASCII letters and
/// digits only. Nothing is claimed of which ones come.
#[verifier::external_body]
fn random_alphanumeric(len: usize) -> (text: String)
    ensures
        text@.len() == len,
        forall|i: int| 0 <= i < text@.len() ==> is_alphanumeric(#[trigger] text@[i]),
{
    rand::thread_rng().sample_iter(&Alphanumeric).take(len).map(char::from).collect()
}

/// What a connection delivers to its handler.
#[derive(Debug)]
pub enum Inbound {
    /// A text frame that holds a message.
    Message(PlayerMessage),
    /// A text frame that holds no message.
    Malformed,
    /// A frame that is not text.
    Binary,
    /// The frame that closes the connection.
    Close,
    /// A failure of the transport.
    Failed,
    /// The end of the stream.
    End,
}

/// What an `Inbound` is.
pub enum InboundView {
    Message(PlayerMessageView),
    Malformed,
    Binary,
    Close,
    Failed,
    End,
}

impl View for Inbound {
    type V = InboundView;

    open spec fn view(&self) -> InboundView {
        match *self {
            Inbound::Message(message) => InboundView::Message(message@),
            Inbound::Malformed => InboundView::Malformed,
            Inbound::Binary => InboundView::Binary,
            Inbound::Close => InboundView::Close,
            Inbound::Failed => InboundView::Failed,
            Inbound::End => InboundView::End,
        }
    }
}

/// Where a connection stands in the protocol. It only moves forward.
#[derive(Debug)]
pub enum Session {
    /// Nothing was received yet.
    AwaitingHandshake,
    /// The player is known and has yet to choose a lobby.
    AwaitingLobby(ServerPlayer),
    /// The player of the first id is in the lobby of the second.
    InSession(String, String),
    /// The handler is done; the connection is to be dropped.
    Finished,
}

/// What a `Session` is.
pub enum SessionView {
    AwaitingHandshake,
    AwaitingLobby(ServerPlayerView),
    InSession(Seq<char>, Seq<char>),
    Finished,
}

impl View for Session {
    type V = SessionView;

    open spec fn view(&self) -> SessionView {
        match *self {
            Session::AwaitingHandshake => SessionView::AwaitingHandshake,
            Session::AwaitingLobby(player) => SessionView::AwaitingLobby(player@),
            Session::InSession(player, lobby) => SessionView::InSession(player@, lobby@),
            Session::Finished => SessionView::Finished,
        }
    }
}

/// The lobbies of a list, as what they are.
pub open spec fn lobbies_view(lobbies: Seq<ServerLobby>) -> Seq<ServerLobbyView> {
    lobbies.map_values(|l: ServerLobby| l@)
}

/// Where the lobby with the given id stands in the list, if it is there.
pub open spec fn index_of_lobby(lobbies: Seq<ServerLobbyView>, id: Seq<char>) -> Option<int> {
    if exists|i: int| 0 <= i < lobbies.len() && (#[trigger] lobbies[i]).id == id {
        Some(choose|i: int| 0 <= i < lobbies.len() && (#[trigger] lobbies[i]).id == id)
    } else {
        None
    }
}

/// Whether no two lobbies of the list have the same id.
pub open spec fn distinct_lobby_ids(lobbies: Seq<ServerLobbyView>) -> bool {
    forall|i: int, j: int|
        0 <= i < j < lobbies.len() ==> (#[trigger] lobbies[i]).id != (#[trigger] lobbies[j]).id
}

/// What the registry is: its lobbies, in the order in which they were made.
pub struct LobbiesView {
    pub lobbies: Seq<ServerLobbyView>,
}

/// What a step of the protocol gives: the registry after it, where the
/// connection stands, and what is to be sent.
pub struct Outcome {
    pub lobbies: LobbiesView,
    pub session: SessionView,
    pub deliveries: Seq<DeliveryView>,
}

impl LobbiesView {
    /// No two lobbies have the same id, and every lobby is valid and
    /// booked: somebody is in it, every player's status names it, no two of
    /// its players have the same color, and while it waits one of them
    /// leads it.
    pub open spec fn inv(self) -> bool {
        &&& distinct_lobby_ids(self.lobbies)
        &&& forall|i: int| 0 <= i < self.lobbies.len() ==> (#[trigger] self.lobbies[i]).inv()
        &&& forall|i: int| 0 <= i < self.lobbies.len() ==> (#[trigger] self.lobbies[i]).booked()
    }

    /// The lobby of the given id, if the registry has it.
    pub open spec fn lobby(self, id: Seq<char>) -> Option<ServerLobbyView> {
        match index_of_lobby(self.lobbies, id) {
            Some(i) => Some(self.lobbies[i]),
            None => None,
        }
    }

    /// The registry with the lobby at position `i` replaced.
    pub open spec fn with_lobby(self, i: int, lobby: ServerLobbyView) -> LobbiesView {
        LobbiesView { lobbies: self.lobbies.update(i, lobby) }
    }

    /// The first message must introduce the player. Anything else ends the
    /// connection with `WrongInit`.
    pub open spec fn handshake(self, channel: u64, event: InboundView) -> Outcome {
        match event {
            InboundView::Message(PlayerMessageView::Initialize(id, name)) => Outcome {
                lobbies: self,
                session: SessionView::AwaitingLobby(
                    ServerPlayerView {
                        id,
                        name,
                        send_channel: channel,
                        status: PlayerStatusView::Initiated,
                    },
                ),
                deliveries: Seq::empty(),
            },
            _ => Outcome {
                lobbies: self,
                session: SessionView::Finished,
                deliveries: seq![close_to(channel, CloseCodes::WrongInit)],
            },
        }
    }

    /// A new lobby under the id `fresh`, with `player` in it as its red
    /// leader, who gets the lobby as it is then. An id that is in use ends
    /// the connection with `CantCreateLobby`.
    pub open spec fn create_lobby(self, player: ServerPlayerView, fresh: Seq<char>) -> Outcome {
        if index_of_lobby(self.lobbies, fresh).is_some() {
            Outcome {
                lobbies: self,
                session: SessionView::Finished,
                deliveries: seq![close_to(player.send_channel, CloseCodes::CantCreateLobby)],
            }
        } else {
            let joined = ServerPlayerView {
                status: PlayerStatusView::JoinedLobby(fresh, Color::Red),
                ..player
            };
            let lobby = ServerLobbyView::new_with_player(fresh, joined);
            Outcome {
                lobbies: LobbiesView { lobbies: self.lobbies.push(lobby) },
                session: SessionView::InSession(player.id, fresh),
                deliveries: seq![
                    message_to(
                        player.send_channel,
                        SocketMessageView::LobbyJoined(lobby.snapshot(), Color::Red),
                    ),
                ],
            }
        }
    }

    /// `player` enters the lobby of the given id with the first free color:
    /// the others are told, and the player gets the lobby as it is then. A
    /// lobby that does not exist ends the connection with
    /// `CantJoinLobbyDoestExist`, one without a free color with `LobbyFull`.
    pub open spec fn join_lobby(self, player: ServerPlayerView, id: Seq<char>) -> Outcome {
        match index_of_lobby(self.lobbies, id) {
            Some(i) => match first_free_color(self.lobbies[i].statuses()) {
                Some(color) => {
                    let joined = ServerPlayerView {
                        status: PlayerStatusView::JoinedLobby(self.lobbies[i].id, color),
                        ..player
                    };
                    let (lobby, told) = self.lobbies[i].add_player(joined);
                    Outcome {
                        lobbies: self.with_lobby(i, lobby),
                        session: SessionView::InSession(player.id, self.lobbies[i].id),
                        deliveries: told.push(
                            message_to(
                                player.send_channel,
                                SocketMessageView::LobbyJoined(lobby.snapshot(), color),
                            ),
                        ),
                    }
                },
                None => Outcome {
                    lobbies: self,
                    session: SessionView::Finished,
                    deliveries: seq![close_to(player.send_channel, CloseCodes::LobbyFull)],
                },
            },
            None => Outcome {
                lobbies: self,
                session: SessionView::Finished,
                deliveries: seq![
                    close_to(player.send_channel, CloseCodes::CantJoinLobbyDoestExist),
                ],
            },
        }
    }

    /// The second message must make a lobby, under the id `fresh`, or join
    /// one. Anything else is passed over in silence and the handler ends.
    pub open spec fn select_lobby(
        self,
        player: ServerPlayerView,
        event: InboundView,
        fresh: Seq<char>,
    ) -> Outcome {
        match event {
            InboundView::Message(PlayerMessageView::CreateLobby) => self.create_lobby(
                player,
                fresh,
            ),
            InboundView::Message(PlayerMessageView::JoinLobby(id)) => self.join_lobby(player, id),
            _ => Outcome {
                lobbies: self,
                session: SessionView::Finished,
                deliveries: Seq::empty(),
            },
        }
    }

    /// What a message of a player in a lobby does, and what is sent: a
    /// ping is answered, the leader may start the game, the player to move
    /// may move. Anything else, and anything from a player or a lobby that
    /// is not there, changes nothing and is answered with nothing.
    pub open spec fn player_message(
        self,
        player_id: Seq<char>,
        lobby_id: Seq<char>,
        message: PlayerMessageView,
    ) -> (LobbiesView, Seq<DeliveryView>) {
        match index_of_lobby(self.lobbies, lobby_id) {
            Some(i) => match self.lobbies[i].player(player_id) {
                Some(player) => match message {
                    PlayerMessageView::Ping => (
                        self,
                        seq![message_to(player.send_channel, SocketMessageView::Pong)],
                    ),
                    PlayerMessageView::StartGame(_, _) => {
                        let (lobby, told) = self.lobbies[i].start_game(player.id);
                        (self.with_lobby(i, lobby), told)
                    },
                    PlayerMessageView::Move(mov) => {
                        let (lobby, told) = self.lobbies[i].apply_move(player.id, mov);
                        (self.with_lobby(i, lobby), told)
                    },
                    _ => (self, Seq::empty()),
                },
                None => (self, Seq::empty()),
            },
            None => (self, Seq::empty()),
        }
    }

    /// What the end of a connection does, and what is sent: the player
    /// leaves its lobby, and a lobby that is empty then leaves the registry.
    pub open spec fn player_disconnect(self, player_id: Seq<char>, lobby_id: Seq<char>) -> (
        LobbiesView,
        Seq<DeliveryView>,
    ) {
        match index_of_lobby(self.lobbies, lobby_id) {
            Some(i) => {
                let (lobby, told) = self.lobbies[i].remove_player(player_id);
                if lobby.players.len() == 0 {
                    (LobbiesView { lobbies: self.lobbies.remove(i) }, told)
                } else {
                    (self.with_lobby(i, lobby), told)
                }
            },
            None => (self, Seq::empty()),
        }
    }

    /// One event of a session: a message is handled and the session goes
    /// on; the close frame, a failure of the transport and the end of the
    /// stream end it with the cleanup; a frame that holds no message is
    /// passed over.
    pub open spec fn websocket_msg(
        self,
        player_id: Seq<char>,
        lobby_id: Seq<char>,
        event: InboundView,
    ) -> Outcome {
        match event {
            InboundView::Message(message) => {
                let (lobbies, deliveries) = self.player_message(player_id, lobby_id, message);
                Outcome {
                    lobbies,
                    session: SessionView::InSession(player_id, lobby_id),
                    deliveries,
                }
            },
            InboundView::Close | InboundView::Failed | InboundView::End => {
                let (lobbies, deliveries) = self.player_disconnect(player_id, lobby_id);
                Outcome { lobbies, session: SessionView::Finished, deliveries }
            },
            _ => Outcome {
                lobbies: self,
                session: SessionView::InSession(player_id, lobby_id),
                deliveries: Seq::empty(),
            },
        }
    }

    /// One event of a connection on `channel` that stands at `session`; a
    /// lobby that is made gets the id `fresh`. A finished handler takes no
    /// more events.
    pub open spec fn user_connected(
        self,
        session: SessionView,
        channel: u64,
        event: InboundView,
        fresh: Seq<char>,
    ) -> Outcome {
        match session {
            SessionView::AwaitingHandshake => self.handshake(channel, event),
            SessionView::AwaitingLobby(player) => self.select_lobby(player, event, fresh),
            SessionView::InSession(player_id, lobby_id) => self.websocket_msg(
                player_id,
                lobby_id,
                event,
            ),
            SessionView::Finished => Outcome {
                lobbies: self,
                session: SessionView::Finished,
                deliveries: Seq::empty(),
            },
        }
    }
}

/// The registry: every lobby that exists, under its id.
#[derive(Debug)]
pub struct Lobbies {
    private_lobbies: Vec<ServerLobby>,
}

impl View for Lobbies {
    type V = LobbiesView;

    closed spec fn view(&self) -> LobbiesView {
        LobbiesView { lobbies: lobbies_view(self.private_lobbies@) }
    }
}

impl Default for Lobbies {
    fn default() -> (lobbies: Lobbies)
        ensures
            lobbies.wf(),
            lobbies@.lobbies == Seq::<ServerLobbyView>::empty(),
    {
        Lobbies::new()
    }
}

/// What an executable step gave, as an `Outcome`.
pub open spec fn outcome_of(lobbies: Lobbies, step: (Session, Vec<Delivery>)) -> Outcome {
    Outcome { lobbies: lobbies@, session: step.0@, deliveries: deliveries_view(step.1@) }
}

impl Lobbies {
    /// The registry's invariant: every lobby is well-formed and booked,
    /// and no two lobbies have the same id.
    pub closed spec fn wf(&self) -> bool {
        &&& forall|i: int|
            0 <= i < self.private_lobbies@.len() ==> (#[trigger] self.private_lobbies@[i]).wf()
        &&& distinct_lobby_ids(self@.lobbies)
        &&& forall|i: int| 0 <= i < self@.lobbies.len() ==> (#[trigger] self@.lobbies[i]).booked()
    }

    /// A well-formed registry has a valid view.
    pub proof fn lemma_wf_inv(&self)
        requires
            self.wf(),
        ensures
            self@.inv(),
    {
        assert forall|i: int| 0 <= i < self@.lobbies.len() implies (
        #[trigger] self@.lobbies[i]).inv() by {
            self.private_lobbies@[i].lemma_wf_inv();
        }
    }

    /// A registry without lobbies.
    pub fn new() -> (lobbies: Lobbies)
        ensures
            lobbies.wf(),
            lobbies@.lobbies == Seq::<ServerLobbyView>::empty(),
    {
        let lobbies = Lobbies { private_lobbies: Vec::new() };
        assert(lobbies@.lobbies =~= Seq::empty());
        lobbies
    }

    /// How many lobbies there are.
    pub fn len(&self) -> (n: usize)
        ensures
            n == self@.lobbies.len(),
    {
        self.private_lobbies.len()
    }

    /// Where the lobby of the given id stands, if the registry has it.
    fn find_lobby(&self, id: &str) -> (at: Option<usize>)
        requires
            self.wf(),
        ensures
            match at {
                Some(i) => index_of_lobby(self@.lobbies, id@) == Some(i as int) && i
                    < self.private_lobbies.len() && self@.lobbies[i as int]
                    == self.private_lobbies@[i as int]@,
                None => index_of_lobby(self@.lobbies, id@).is_none(),
            },
    {
        let mut i: usize = 0;
        while i < self.private_lobbies.len()
            invariant
                i <= self.private_lobbies.len(),
                self.wf(),
                forall|j: int| 0 <= j < i ==> (#[trigger] self@.lobbies[j]).id != id@,
            decreases self.private_lobbies.len() - i,
        {
            assert(self@.lobbies[i as int] == self.private_lobbies@[i as int]@);
            if self.private_lobbies[i].has_id(id) {
                proof {
                    lemma_index_of_lobby(self@.lobbies, i as int);
                }
                return Some(i);
            }
            i += 1;
        }
        None
    }

    /// The lobby of the given id, if the registry has it.
    pub fn get(&self, id: &str) -> (found: Option<ServerLobby>)
        requires
            self.wf(),
        ensures
            match found {
                Some(lobby) => lobby.wf() && self@.lobby(id@) == Some(lobby@),
                None => self@.lobby(id@).is_none(),
            },
    {
        match self.find_lobby(id) {
            Some(i) => Some(self.private_lobbies[i].clone()),
            None => None,
        }
    }

    /// The first event of a connection on `channel`: a message that
    /// introduces the player is accepted, anything else ends the connection
    /// with `WrongInit`.
    pub fn handshake(&self, channel: u64, event: Inbound) -> (step: (Session, Vec<Delivery>))
        ensures
            outcome_of(*self, step) == self@.handshake(channel, event@),
    {
        let mut out: Vec<Delivery> = Vec::new();
        match event {
            Inbound::Message(PlayerMessage::Initialize(id, name)) => {
                assert(deliveries_view(out@) =~= Seq::empty());
                (
                    Session::AwaitingLobby(
                        ServerPlayer {
                            id,
                            name,
                            send_channel: channel,
                            status: PlayerStatus::Initiated,
                        },
                    ),
                    out,
                )
            },
            _ => {
                out.push(Delivery { channel, frame: Frame::Close(CloseCodes::WrongInit) });
                assert(deliveries_view(out@) =~= seq![close_to(channel, CloseCodes::WrongInit)]);
                (Session::Finished, out)
            },
        }
    }

    /// Makes a lobby under `lobbyid` with `player` in it as its red leader,
    /// who gets the lobby as it is then. An id that is in use ends the
    /// connection with `CantCreateLobby`.
    pub fn create_lobby(&mut self, player: ServerPlayer, lobbyid: String) -> (step: (
        Session,
        Vec<Delivery>,
    ))
        requires
            old(self).wf(),
        ensures
            final(self).wf(),
            outcome_of(*final(self), step) == old(self)@.create_lobby(player@, lobbyid@),
    {
        let mut player = player;
        let mut out: Vec<Delivery> = Vec::new();
        if self.find_lobby(lobbyid.as_str()).is_some() {
            out.push(player.close(CloseCodes::CantCreateLobby));
            assert(deliveries_view(out@) =~= seq![
                close_to(player.send_channel, CloseCodes::CantCreateLobby),
            ]);
            (Session::Finished, out)
        } else {
            player.status = PlayerStatus::JoinedLobby(lobbyid.clone(), Color::Red);
            let lobby = ServerLobby::new_with_player(lobbyid.clone(), player.clone());
            out.push(
                player.send(SocketMessage::LobbyJoined(Lobby::from(lobby.clone()), Color::Red)),
            );
            let ghost before = self@.lobbies;
            self.private_lobbies.push(lobby);
            proof {
                assert(self@.lobbies =~= before.push(lobby@));
                assert(deliveries_view(out@) =~= seq![
                    message_to(
                        player.send_channel,
                        SocketMessageView::LobbyJoined(lobby@.snapshot(), Color::Red),
                    ),
                ]);
                assert forall|a: int, b: int| 0 <= a < b < self@.lobbies.len() implies (
                #[trigger] self@.lobbies[a]).id != (#[trigger] self@.lobbies[b]).id by {
                    assert(self@.lobbies[a] == before[a]);
                    if b < before.len() {
                        assert(self@.lobbies[b] == before[b]);
                    }
                }
                ServerLobbyView::lemma_new_is_booked(lobbyid@, player@);
                assert forall|i: int| 0 <= i < self@.lobbies.len() implies (
                #[trigger] self@.lobbies[i]).booked() by {
                    if i < before.len() {
                        assert(self@.lobbies[i] == before[i]);
                    }
                }
                assert forall|i: int| 0 <= i < self.private_lobbies@.len() implies (
                #[trigger] self.private_lobbies@[i]).wf() by {
                    if i < before.len() {
                        assert(self.private_lobbies@[i] == old(self).private_lobbies@[i]);
                    }
                }
            }
            (Session::InSession(player.id, lobbyid), out)
        }
    }

    /// A registry stays well-formed when one of its lobbies changes but
    /// keeps its id and somebody in it.
    proof fn lemma_lobby_changed(before: Lobbies, after: Lobbies, i: int)
        requires
            before.wf(),
            0 <= i < before.private_lobbies@.len(),
            after.private_lobbies@ == before.private_lobbies@.update(
                i,
                after.private_lobbies@[i],
            ),
            after.private_lobbies@[i].wf(),
            after.private_lobbies@[i]@.id == before.private_lobbies@[i]@.id,
            after.private_lobbies@[i]@.booked(),
        ensures
            after.wf(),
            after@ == before@.with_lobby(i, after.private_lobbies@[i]@),
    {
        let lobby = after.private_lobbies@[i];
        assert(after@.lobbies =~= before@.lobbies.update(i, lobby@));
        assert forall|a: int, b: int| 0 <= a < b < after@.lobbies.len() implies (
        #[trigger] after@.lobbies[a]).id != (#[trigger] after@.lobbies[b]).id by {
            assert(after@.lobbies[a].id == before@.lobbies[a].id);
            assert(after@.lobbies[b].id == before@.lobbies[b].id);
        }
        assert forall|k: int| 0 <= k < after@.lobbies.len() implies (
        #[trigger] after@.lobbies[k]).booked() by {
            if k != i {
                assert(after@.lobbies[k] == before@.lobbies[k]);
            }
        }
        assert forall|k: int| 0 <= k < after.private_lobbies@.len() implies (
        #[trigger] after.private_lobbies@[k]).wf() by {
            if k != i {
                assert(after.private_lobbies@[k] == before.private_lobbies@[k]);
            }
        }
    }

    /// Takes `player` into the lobby of the given id with the first free
    /// color: the others are told, and the player gets the lobby as it is
    /// then. A lobby that does not exist ends the connection with
    /// `CantJoinLobbyDoestExist`, one without a free color with `LobbyFull`.
    pub fn join_lobby(&mut self, player: ServerPlayer, lobbyid: String) -> (step: (
        Session,
        Vec<Delivery>,
    ))
        requires
            old(self).wf(),
        ensures
            final(self).wf(),
            outcome_of(*final(self), step) == old(self)@.join_lobby(player@, lobbyid@),
    {
        let mut player = player;
        let mut out: Vec<Delivery> = Vec::new();
        match self.find_lobby(lobbyid.as_str()) {
            Some(i) => {
                match self.private_lobbies[i].get_available_color() {
                    Some(color) => {
                        let id = self.private_lobbies[i].id();
                        player.status = PlayerStatus::JoinedLobby(id.clone(), color);
                        proof {
                            self.private_lobbies@[i as int].lemma_wf_inv();
                            lemma_first_free_color(self@.lobbies[i as int].statuses());
                            self@.lobbies[i as int].lemma_join_keeps_booked(player@);
                        }
                        out = self.private_lobbies[i].add_player(player.clone());
                        let ghost told = deliveries_view(out@);
                        let snapshot = Lobby::from(self.private_lobbies[i].clone());
                        out.push(player.send(SocketMessage::LobbyJoined(snapshot, color)));
                        proof {
                            assert(deliveries_view(out@) =~= told.push(
                                message_to(
                                    player.send_channel,
                                    SocketMessageView::LobbyJoined(snapshot@, color),
                                ),
                            ));
                            Self::lemma_lobby_changed(*old(self), *self, i as int);
                        }
                        (Session::InSession(player.id, id), out)
                    },
                    None => {
                        out.push(player.close(CloseCodes::LobbyFull));
                        assert(deliveries_view(out@) =~= seq![
                            close_to(player.send_channel, CloseCodes::LobbyFull),
                        ]);
                        (Session::Finished, out)
                    },
                }
            },
            None => {
                out.push(player.close(CloseCodes::CantJoinLobbyDoestExist));
                assert(deliveries_view(out@) =~= seq![
                    close_to(player.send_channel, CloseCodes::CantJoinLobbyDoestExist),
                ]);
                (Session::Finished, out)
            },
        }
    }

    /// Handles a message of a player in a lobby and returns what is to be
    /// sent: a ping is answered, the leader may start the game, the player
    /// to move may move. Anything else, and anything from a player or a
    /// lobby that is not there, changes nothing and is answered with
    /// nothing.
    pub fn player_message(
        &mut self,
        player_id: &str,
        lobbyid: &str,
        message: PlayerMessage,
    ) -> (out: Vec<Delivery>)
        requires
            old(self).wf(),
        ensures
            final(self).wf(),
            (final(self)@, deliveries_view(out@)) == old(self)@.player_message(
                player_id@,
                lobbyid@,
                message@,
            ),
    {
        let mut out: Vec<Delivery> = Vec::new();
        assert(deliveries_view(out@) =~= Seq::empty());
        if let Some(i) = self.find_lobby(lobbyid) {
            if let Some(player) = self.private_lobbies[i].player(player_id) {
                match message {
                    PlayerMessage::Ping => {
                        out.push(player.send(SocketMessage::Pong));
                        assert(deliveries_view(out@) =~= seq![
                            message_to(player.send_channel, SocketMessageView::Pong),
                        ]);
                    },
                    PlayerMessage::StartGame(game_type, team_mode) => {
                        let pid = player.id.clone();
                        proof {
                            self.private_lobbies@[i as int].lemma_wf_inv();
                            self@.lobbies[i as int].lemma_play_keeps_booked(
                                pid@,
                                Move { from: (0, 0), to: (0, 0) },
                            );
                        }
                        out = self.private_lobbies[i].start_game(
                            pid.as_str(),
                            game_type,
                            team_mode,
                        );
                        proof {
                            Self::lemma_lobby_changed(*old(self), *self, i as int);
                        }
                    },
                    PlayerMessage::Move(mov) => {
                        proof {
                            self.private_lobbies@[i as int].lemma_wf_inv();
                            self@.lobbies[i as int].lemma_play_keeps_booked(player.id@, mov);
                        }
                        out = self.private_lobbies[i].apply_move(player.id.as_str(), &mov);
                        proof {
                            Self::lemma_lobby_changed(*old(self), *self, i as int);
                        }
                    },
                    _ => {},
                }
            }
        }
        out
    }

    /// Takes the player out of its lobby when its connection has ended,
    /// and returns what is to be sent. A lobby that is empty then leaves
    /// the registry.
    pub fn player_disconnect(&mut self, player_id: &str, lobbyid: &str) -> (out: Vec<Delivery>)
        requires
            old(self).wf(),
        ensures
            final(self).wf(),
            (final(self)@, deliveries_view(out@)) == old(self)@.player_disconnect(
                player_id@,
                lobbyid@,
            ),
    {
        let mut out: Vec<Delivery> = Vec::new();
        assert(deliveries_view(out@) =~= Seq::empty());
        if let Some(i) = self.find_lobby(lobbyid) {
            let ghost before = self@.lobbies;
            proof {
                self.private_lobbies@[i as int].lemma_wf_inv();
                before[i as int].lemma_leave_keeps_booked(player_id@);
            }
            out = self.private_lobbies[i].remove_player(player_id);
            if self.private_lobbies[i].is_empty() {
                self.private_lobbies.remove(i);
                proof {
                    assert(self@.lobbies =~= before.remove(i as int));
                    assert forall|a: int, b: int| 0 <= a < b < self@.lobbies.len() implies (
                    #[trigger] self@.lobbies[a]).id != (#[trigger] self@.lobbies[b]).id by {
                        let a2 = if a < i { a } else { a + 1 };
                        let b2 = if b < i { b } else { b + 1 };
                        assert(self@.lobbies[a] == before[a2]);
                        assert(self@.lobbies[b] == before[b2]);
                    }
                    assert forall|k: int| 0 <= k < self@.lobbies.len() implies (
                    #[trigger] self@.lobbies[k]).booked() by {
                        let k2 = if k < i { k } else { k + 1 };
                        assert(self@.lobbies[k] == before[k2]);
                    }
                    assert forall|k: int| 0 <= k < self.private_lobbies@.len() implies (
                    #[trigger] self.private_lobbies@[k]).wf() by {
                        let k2 = if k < i { k } else { k + 1 };
                        assert(self.private_lobbies@[k] == old(self).private_lobbies@[k2]);
                    }
                }
            } else {
                proof {
                    Self::lemma_lobby_changed(*old(self), *self, i as int);
                }
            }
        }
        out
    }

    /// Handles one event of a session: a message is handled and the
    /// session goes on; the close frame, a failure of the transport and the
    /// end of the stream end it with the cleanup; a frame that holds no
    /// message is passed over.
    pub fn websocket_msg(&mut self, player_id: String, lobbyid: String, event: Inbound) -> (step: (
        Session,
        Vec<Delivery>,
    ))
        requires
            old(self).wf(),
        ensures
            final(self).wf(),
            outcome_of(*final(self), step) == old(self)@.websocket_msg(
                player_id@,
                lobbyid@,
                event@,
            ),
    {
        match event {
            Inbound::Message(message) => {
                let out = self.player_message(player_id.as_str(), lobbyid.as_str(), message);
                (Session::InSession(player_id, lobbyid), out)
            },
            Inbound::Close | Inbound::Failed | Inbound::End => {
                let out = self.player_disconnect(player_id.as_str(), lobbyid.as_str());
                (Session::Finished, out)
            },
            _ => {
                let out: Vec<Delivery> = Vec::new();
                assert(deliveries_view(out@) =~= Seq::empty());
                (Session::InSession(player_id, lobbyid), out)
            },
        }
    }

    /// Handles the second event of a connection: the player makes a lobby,
    /// which gets a random id, or joins one. Anything else is passed over
    /// in silence and the handler ends.
    pub fn select_lobby(&mut self, player: ServerPlayer, event: Inbound) -> (step: (
        Session,
        Vec<Delivery>,
    ))
        requires
            old(self).wf(),
        ensures
            final(self).wf(),
            exists|fresh: Seq<char>|
                is_fresh_id(fresh) && outcome_of(*final(self), step) == #[trigger] old(
                    self,
                )@.select_lobby(player@, event@, fresh),
    {
        match event {
            Inbound::Message(PlayerMessage::CreateLobby) => {
                let lobbyid = random_alphanumeric(LOBBY_ID_LENGTH);
                let step = self.create_lobby(player, lobbyid);
                assert(is_fresh_id(lobbyid@) && outcome_of(*self, step) == old(self)@.select_lobby(
                    player@,
                    event@,
                    lobbyid@,
                ));
                step
            },
            Inbound::Message(PlayerMessage::JoinLobby(lobbyid)) => {
                let step = self.join_lobby(player, lobbyid);
                proof {
                    let fresh = lemma_fresh_id_exists();
                    assert(outcome_of(*self, step) == old(self)@.select_lobby(
                        player@,
                        event@,
                        fresh,
                    ));
                }
                step
            },
            _ => {
                let out: Vec<Delivery> = Vec::new();
                let step = (Session::Finished, out);
                proof {
                    assert(deliveries_view(out@) =~= Seq::empty());
                    let fresh = lemma_fresh_id_exists();
                    assert(outcome_of(*self, step) == old(self)@.select_lobby(
                        player@,
                        event@,
                        fresh,
                    ));
                }
                step
            },
        }
    }

    /// Handles one event of a connection on `channel` that stands at
    /// `session`, and returns where it stands then and what is to be sent.
    /// A lobby that is made gets a random id. A finished handler takes no
    /// more events.
    pub fn user_connected(&mut self, session: Session, channel: u64, event: Inbound) -> (step: (
        Session,
        Vec<Delivery>,
    ))
        requires
            old(self).wf(),
        ensures
            final(self).wf(),
            exists|fresh: Seq<char>|
                is_fresh_id(fresh) && outcome_of(*final(self), step) == #[trigger] old(
                    self,
                )@.user_connected(session@, channel, event@, fresh),
    {
        match session {
            Session::AwaitingHandshake => {
                let step = self.handshake(channel, event);
                proof {
                    let fresh = lemma_fresh_id_exists();
                    assert(outcome_of(*self, step) == old(self)@.user_connected(
                        session@,
                        channel,
                        event@,
                        fresh,
                    ));
                }
                step
            },
            Session::AwaitingLobby(player) => {
                let step = self.select_lobby(player, event);
                proof {
                    let fresh = choose|fresh: Seq<char>|
                        is_fresh_id(fresh) && outcome_of(*self, step) == #[trigger] old(
                            self,
                        )@.select_lobby(player@, event@, fresh);
                    assert(outcome_of(*self, step) == old(self)@.user_connected(
                        session@,
                        channel,
                        event@,
                        fresh,
                    ));
                }
                step
            },
            Session::InSession(player_id, lobbyid) => {
                let step = self.websocket_msg(player_id, lobbyid, event);
                proof {
                    let fresh = lemma_fresh_id_exists();
                    assert(outcome_of(*self, step) == old(self)@.user_connected(
                        session@,
                        channel,
                        event@,
                        fresh,
                    ));
                }
                step
            },
            Session::Finished => {
                let out: Vec<Delivery> = Vec::new();
                let step = (Session::Finished, out);
                proof {
                    assert(deliveries_view(out@) =~= Seq::empty());
                    let fresh = lemma_fresh_id_exists();
                    assert(outcome_of(*self, step) == old(self)@.user_connected(
                        session@,
                        channel,
                        event@,
                        fresh,
                    ));
                }
                step
            },
        }
    }
}

/// There is an id that a new lobby can get.
proof fn lemma_fresh_id_exists() -> (fresh: Seq<char>)
    ensures
        is_fresh_id(fresh),
{
    seq!['a', 'a', 'a', 'a', 'a']
}

} // verus!
