//! What holds of the registry and of every connection: a lobby leaves
//! with its last player, and a connection only moves forward.

use crate::registry::{
    distinct_lobby_ids, index_of_lobby, InboundView, LobbiesView, SessionView,
};
use crate::server::{close_to, lemma_index_of, ServerLobbyView};
use crate::structures::{CloseCodes, PlayerMessageView};
use vstd::prelude::*;

verus! {

/// In a list without a repeated id, a lobby stands where its id is found.
pub proof fn lemma_index_of_lobby(lobbies: Seq<ServerLobbyView>, i: int)
    requires
        distinct_lobby_ids(lobbies),
        0 <= i < lobbies.len(),
    ensures
        index_of_lobby(lobbies, lobbies[i].id) == Some(i),
{
    let id = lobbies[i].id;
    let j = choose|j: int| 0 <= j < lobbies.len() && (#[trigger] lobbies[j]).id == id;
    if j < i {
        assert(lobbies[j].id != lobbies[i].id);
    } else if i < j {
        assert(lobbies[i].id != lobbies[j].id);
    }
}

impl LobbiesView {
    /// When the only player of a lobby disconnects, the lobby leaves the
    /// registry: its id names no lobby any more, and the other lobbies
    /// stay as they were.
    pub proof fn lemma_last_player_leaves(self, player_id: Seq<char>, lobby_id: Seq<char>)
        requires
            self.inv(),
            self.lobby(lobby_id) matches Some(lobby) && lobby.players.len() == 1
                && lobby.players[0].id == player_id,
        ensures
            self.player_disconnect(player_id, lobby_id).0.lobby(lobby_id).is_none(),
            self.player_disconnect(player_id, lobby_id).0.lobbies == self.lobbies.remove(
                index_of_lobby(self.lobbies, lobby_id).unwrap(),
            ),
            self.player_disconnect(player_id, lobby_id).0.inv(),
    {
        let i = index_of_lobby(self.lobbies, lobby_id).unwrap();
        let lobby = self.lobbies[i];
        lemma_index_of(lobby.players, 0);
        let step = lobby.remove_player(player_id);
        assert(step.0.players.len() == 0) by {
            let led = if player_id == lobby.state.leader() {
                lobby.assign_new_leader().0
            } else {
                lobby
            };
            assert(led.players == lobby.players);
            assert(led.players.remove(0).len() == 0);
        }
        let rest = self.lobbies.remove(i);
        assert forall|k: int| 0 <= k < rest.len() implies (#[trigger] rest[k]).id != lobby_id
            && rest[k].inv() && rest[k].booked() by {
            let k2 = if k < i { k } else { k + 1 };
            assert(rest[k] == self.lobbies[k2]);
            if k2 < i {
                assert(self.lobbies[k2].id != self.lobbies[i].id);
            } else {
                assert(self.lobbies[i].id != self.lobbies[k2].id);
            }
        }
        assert forall|a: int, b: int| 0 <= a < b < rest.len() implies (#[trigger] rest[a]).id != (
        #[trigger] rest[b]).id by {
            let a2 = if a < i { a } else { a + 1 };
            let b2 = if b < i { b } else { b + 1 };
            assert(rest[a] == self.lobbies[a2]);
            assert(rest[b] == self.lobbies[b2]);
        }
    }

    /// A lobby stays in the registry after a disconnect exactly when
    /// somebody is left in it.
    pub proof fn lemma_disconnect_keeps_nonempty(self, player_id: Seq<char>, lobby_id: Seq<char>)
        requires
            self.inv(),
            self.lobby(lobby_id).is_some(),
        ensures
            self.player_disconnect(player_id, lobby_id).0.lobby(lobby_id).is_some()
                <==> self.lobby(lobby_id).unwrap().remove_player(player_id).0.players.len() > 0,
    {
        let i = index_of_lobby(self.lobbies, lobby_id).unwrap();
        let lobby = self.lobbies[i];
        let step = lobby.remove_player(player_id);
        assert(step.0.id == lobby.id);
        if step.0.players.len() == 0 {
            let rest = self.lobbies.remove(i);
            assert forall|k: int| 0 <= k < rest.len() implies (#[trigger] rest[k]).id
                != lobby_id by {
                let k2 = if k < i { k } else { k + 1 };
                assert(rest[k] == self.lobbies[k2]);
                if k2 < i {
                    assert(self.lobbies[k2].id != self.lobbies[i].id);
                } else {
                    assert(self.lobbies[i].id != self.lobbies[k2].id);
                }
            }
        } else {
            let next = self.lobbies.update(i, step.0);
            assert(next[i].id == lobby_id);
        }
    }
}

impl SessionView {
    /// How far a connection has come in the protocol.
    pub open spec fn stage(self) -> int {
        match self {
            SessionView::AwaitingHandshake => 0,
            SessionView::AwaitingLobby(_) => 1,
            SessionView::InSession(_, _) => 2,
            SessionView::Finished => 3,
        }
    }
}

impl LobbiesView {
    /// A connection only moves forward in the protocol, and its handler
    /// is finished by the close frame, by a failure of the transport and by
    /// the end of its stream, wherever it stands.
    pub proof fn lemma_session_moves_forward(
        self,
        session: SessionView,
        channel: u64,
        event: InboundView,
        fresh: Seq<char>,
    )
        ensures
            self.user_connected(session, channel, event, fresh).session.stage() >= session.stage(),
            event is Close || event is Failed || event is End ==> self.user_connected(
                session,
                channel,
                event,
                fresh,
            ).session == SessionView::Finished,
    {
    }

    /// Whatever ends a session runs the cleanup: the player leaves its
    /// lobby, and what that sends is sent.
    pub proof fn lemma_session_end_cleans_up(
        self,
        player_id: Seq<char>,
        lobby_id: Seq<char>,
        event: InboundView,
    )
        requires
            event is Close || event is Failed || event is End,
        ensures
            self.websocket_msg(player_id, lobby_id, event).lobbies == self.player_disconnect(
                player_id,
                lobby_id,
            ).0,
            self.websocket_msg(player_id, lobby_id, event).deliveries == self.player_disconnect(
                player_id,
                lobby_id,
            ).1,
            self.websocket_msg(player_id, lobby_id, event).session == SessionView::Finished,
    {
    }

    /// A handshake changes no lobby: it takes in a player that introduces
    /// itself, and ends any other connection with `WrongInit`.
    pub proof fn lemma_handshake_changes_nothing(self, channel: u64, event: InboundView)
        ensures
            self.handshake(channel, event).lobbies == self,
            self.handshake(channel, event).session is AwaitingLobby <==> event
                matches InboundView::Message(PlayerMessageView::Initialize(_, _)),
            !(self.handshake(channel, event).session is AwaitingLobby) ==> self.handshake(
                channel,
                event,
            ).deliveries == seq![close_to(channel, CloseCodes::WrongInit)],
    {
    }
}

} // verus!
