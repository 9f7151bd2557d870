//! What holds of every lobby: how the lead goes round, who may start a
//! game and who may move, and what a lobby of the registry keeps.

use crate::board::{is_corner, lemma_starting_pieces, Point, STARTING_PIECES};
use crate::colors::Color;
use crate::order::{lemma_next_leader_differs, lemma_next_leader_wraps, lex_lt, next_leader};
use crate::server::{
    distinct_ids, first_other_color, index_of, DeliveryView, ServerLobbyView, ServerPlayerView,
    GAME_SIZE,
};
use crate::structures::{colors_hold, Move, PlayerStatusView, StateView};
use vstd::prelude::*;

verus! {

/// In a list without a repeated id, a player stands where its id is found.
pub proof fn lemma_index_of(players: Seq<ServerPlayerView>, i: int)
    requires
        distinct_ids(players),
        0 <= i < players.len(),
    ensures
        index_of(players, players[i].id) == Some(i),
{
    let id = players[i].id;
    let j = choose|j: int| 0 <= j < players.len() && (#[trigger] players[j]).id == id;
    if j < i {
        assert(players[j].id != players[i].id);
    } else if i < j {
        assert(players[i].id != players[j].id);
    }
}

/// Players without a repeated id have ids without repetition.
pub proof fn lemma_distinct_ids(players: Seq<ServerPlayerView>)
    requires
        distinct_ids(players),
    ensures
        players.map_values(|p: ServerPlayerView| p.id).no_duplicates(),
{
    let ids = players.map_values(|p: ServerPlayerView| p.id);
    assert forall|i: int, j: int| 0 <= i < ids.len() && 0 <= j < ids.len() && i != j implies ids[i]
        != ids[j] by {
        if i < j {
            assert(players[i].id != players[j].id);
        } else {
            assert(players[j].id != players[i].id);
        }
    }
}

impl ServerLobbyView {
    /// The lead goes round in the order of ids: in a waiting lobby whose
    /// ids are `a`, `b` and `c` in ascending order, `b` follows a leader
    /// `a` that leaves, `c` follows `b`, and `a` follows `c`.
    pub proof fn lemma_leader_leaves(self, a: Seq<char>, b: Seq<char>, c: Seq<char>)
        requires
            self.players.len() > 0,
            forall|x: Seq<char>|
                #[trigger] self.ids().contains(x) <==> (x == a || x == b || x == c),
            lex_lt(a, b),
            lex_lt(b, c),
        ensures
            self.state == StateView::Lobby(a) ==> self.remove_player(a).0.state
                == StateView::Lobby(b),
            self.state == StateView::Lobby(b) ==> self.remove_player(b).0.state
                == StateView::Lobby(c),
            self.state == StateView::Lobby(c) ==> self.remove_player(c).0.state
                == StateView::Lobby(a),
    {
        lemma_next_leader_wraps(self.ids(), a, b, c);
    }

    /// When a player other than the leader leaves, the leader stays.
    pub proof fn lemma_other_leaves(self, id: Seq<char>)
        requires
            id != self.state.leader(),
        ensures
            self.remove_player(id).0.state == self.state,
    {
    }

    /// A player that was removed is no longer in a valid lobby, and the
    /// players that stay keep their order.
    pub proof fn lemma_removed_is_gone(self, id: Seq<char>)
        requires
            self.inv(),
        ensures
            self.remove_player(id).0.player(id).is_none(),
            self.remove_player(id).0.inv(),
            self.remove_player(id).0.players == self.players.filter(
                |p: ServerPlayerView| p.id != id,
            ),
    {
        let led = if id == self.state.leader() {
            self.assign_new_leader().0
        } else {
            self
        };
        assert(led.players == self.players);
        let keep = |p: ServerPlayerView| p.id != id;
        match index_of(self.players, id) {
            Some(i) => {
                let rest = self.players.remove(i);
                assert forall|k: int| 0 <= k < rest.len() implies (#[trigger] rest[k]).id != id
                    && rest[k] == self.players[if k < i { k } else { k + 1 }] by {
                    let k2 = if k < i { k } else { k + 1 };
                    assert(rest[k] == self.players[k2]);
                    if k2 < i {
                        assert(self.players[k2].id != self.players[i].id);
                    } else {
                        assert(self.players[i].id != self.players[k2].id);
                    }
                }
                assert forall|x: int, y: int| 0 <= x < y < rest.len() implies (
                #[trigger] rest[x]).id != (#[trigger] rest[y]).id by {
                    let x2 = if x < i { x } else { x + 1 };
                    let y2 = if y < i { y } else { y + 1 };
                    assert(rest[x] == self.players[x2] && rest[y] == self.players[y2]);
                    assert(self.players[x2].id != self.players[y2].id);
                }
                lemma_filter_removes(self.players, i, id);
            },
            None => {
                assert forall|k: int| 0 <= k < self.players.len() implies keep(
                    #[trigger] self.players[k],
                ) by {}
                lemma_filter_keeps_all(self.players, keep);
            },
        }
    }
}

impl ServerLobbyView {
    /// A lobby that a player made for itself is booked.
    pub proof fn lemma_new_is_booked(id: Seq<char>, player: ServerPlayerView)
        requires
            player.status.lobby() == Some(id),
        ensures
            ServerLobbyView::new_with_player(id, player).booked(),
            ServerLobbyView::new_with_player(id, player).inv(),
    {
        let lobby = ServerLobbyView::new_with_player(id, player);
        assert(lobby.players[0].id == player.id);
    }

    /// A booked lobby stays booked when a player joins it with a color
    /// that nobody in it holds.
    pub proof fn lemma_join_keeps_booked(self, player: ServerPlayerView)
        requires
            self.inv(),
            self.booked(),
            player.status.lobby() == Some(self.id),
            player.status.color() matches Some(c) && !colors_hold(self.statuses(), c),
        ensures
            self.add_player(player).0.booked(),
            self.add_player(player).0.inv(),
            self.add_player(player).0.id == self.id,
    {
        let next = self.add_player(player).0;
        let c = player.status.color().unwrap();
        assert forall|i: int| 0 <= i < self.players.len() implies (
        #[trigger] self.players[i]).status.color() != Some(c) by {
            assert(self.statuses()[i] == self.players[i].status);
        }
        match index_of(self.players, player.id) {
            Some(k) => {
                assert forall|i: int, j: int| 0 <= i < j < next.players.len() implies (
                #[trigger] next.players[i]).id != (#[trigger] next.players[j]).id by {
                    assert(next.players[i].id == self.players[i].id);
                    assert(next.players[j].id == self.players[j].id);
                }
                if let StateView::Lobby(leader) = self.state {
                    let l = index_of(self.players, leader).unwrap();
                    assert(next.players[l].id == leader);
                }
            },
            None => {
                assert forall|i: int, j: int| 0 <= i < j < next.players.len() implies (
                #[trigger] next.players[i]).id != (#[trigger] next.players[j]).id by {
                    if j < self.players.len() {
                        assert(self.players[i].id != self.players[j].id);
                    }
                }
                if let StateView::Lobby(leader) = self.state {
                    let l = index_of(self.players, leader).unwrap();
                    assert(next.players[l].id == leader);
                }
            },
        }
    }

    /// A booked lobby stays booked over a request to start the game and
    /// over a request to move.
    pub proof fn lemma_play_keeps_booked(self, id: Seq<char>, mov: Move)
        requires
            self.inv(),
            self.booked(),
        ensures
            self.start_game(id).0.booked(),
            self.start_game(id).0.id == self.id,
            self.apply_move(id, mov).0.booked(),
            self.apply_move(id, mov).0.id == self.id,
    {
    }

    /// A booked lobby that a player leaves stays booked as long as
    /// somebody is left in it: a leader that left has been followed by one
    /// of those that stay.
    pub proof fn lemma_leave_keeps_booked(self, id: Seq<char>)
        requires
            self.inv(),
            self.booked(),
        ensures
            self.remove_player(id).0.id == self.id,
            self.remove_player(id).0.inv(),
            self.remove_player(id).0.players.len() > 0 ==> self.remove_player(id).0.booked(),
    {
        self.lemma_removed_is_gone(id);
        let led = if id == self.state.leader() {
            self.assign_new_leader().0
        } else {
            self
        };
        let rest = self.remove_player(id).0;
        assert(led.players == self.players);
        match index_of(self.players, id) {
            Some(k) => {
                assert forall|i: int| 0 <= i < rest.players.len() implies #[trigger] rest.players[i]
                    == self.players[if i < k { i } else { i + 1 }] by {}
                if rest.players.len() > 0 {
                    assert forall|i: int, j: int| 0 <= i < j < rest.players.len() implies (
                    #[trigger] rest.players[i]).status.color() != (
                    #[trigger] rest.players[j]).status.color() by {
                        let i2 = if i < k { i } else { i + 1 };
                        let j2 = if j < k { j } else { j + 1 };
                        assert(rest.players[i] == self.players[i2]);
                        assert(rest.players[j] == self.players[j2]);
                    }
                    assert forall|i: int| 0 <= i < rest.players.len() implies (
                    #[trigger] rest.players[i]).status.lobby() == Some(rest.id) by {
                        let i2 = if i < k { i } else { i + 1 };
                        assert(rest.players[i] == self.players[i2]);
                    }
                    if let StateView::Lobby(leader) = rest.state {
                        let old_leader = self.state.leader();
                        if id == old_leader {
                            lemma_distinct_ids(self.players);
                            assert(self.ids()[k] == id);
                            lemma_next_leader_differs(self.ids(), old_leader);
                            assert(leader == next_leader(self.ids(), old_leader));
                            let l = choose|l: int|
                                0 <= l < self.ids().len() && self.ids()[l] == leader;
                            assert(self.players[l].id == leader);
                            let l2 = if l < k { l } else { l - 1 };
                            assert(rest.players[l2] == self.players[l]);
                        } else {
                            let l = index_of(self.players, leader).unwrap();
                            assert(l != k);
                            let l2 = if l < k { l } else { l - 1 };
                            assert(rest.players[l2] == self.players[l]);
                        }
                    }
                }
            },
            None => {
                if let StateView::Lobby(leader) = rest.state {
                    let old_leader = self.state.leader();
                    if id == old_leader {
                        assert(index_of(self.players, old_leader).is_some());
                    }
                }
            },
        }
    }
}

impl ServerLobbyView {
    /// Only the leader of a waiting lobby starts a game: a request of
    /// anybody else, and any request during a game, changes nothing and is
    /// answered with nothing.
    pub proof fn lemma_only_leader_starts(self, id: Seq<char>)
        requires
            self.state is Game || self.state != StateView::Lobby(id),
        ensures
            self.start_game(id) == (self, Seq::<DeliveryView>::empty()),
    {
    }

    /// A started game is on the board of the fixed size, its starter moves
    /// first, and it starts with two pieces for each side, all on corners;
    /// every player is told.
    pub proof fn lemma_started_game(self, id: Seq<char>)
        requires
            self.starter_color(id).is_some(),
        ensures
            self.start_game(id).0.state matches StateView::Game(board) && {
                let color = self.starter_color(id).unwrap();
                let other = first_other_color(self.statuses(), 0, color, Color::DarkRed);
                &&& board.turn == color
                &&& board.max_size == GAME_SIZE
                &&& board.pieces.dom().len() == 2 * STARTING_PIECES
                &&& forall|p: Point| #[trigger]
                    board.pieces.contains_key(p) ==> is_corner(GAME_SIZE as int, p)
                &&& color != other ==> board.pieces_of(color).len() == STARTING_PIECES
                    && board.pieces_of(other).len() == STARTING_PIECES
            },
            self.start_game(id).1.len() == self.players.len(),
    {
        let color = self.starter_color(id).unwrap();
        let other = first_other_color(self.statuses(), 0, color, Color::DarkRed);
        lemma_starting_pieces(GAME_SIZE, color, other);
    }

    /// A move asked for out of turn changes nothing and is answered with
    /// nothing; so is one asked for before the game, by a stranger, or
    /// against the rules of the board.
    pub proof fn lemma_move_out_of_turn(self, id: Seq<char>, mov: Move)
        requires
            match (self.player(id), self.state) {
                (Some(player), StateView::Game(board)) => player.status.color() != Some(
                    board.turn,
                ) || !board.is_move_legal(mov),
                _ => true,
            },
        ensures
            self.apply_move(id, mov) == (self, Seq::<DeliveryView>::empty()),
    {
    }

    /// A move that counts is made on the board, every player gets the new
    /// board, and the turn passes to another color if some player has one.
    pub proof fn lemma_move_in_turn(self, id: Seq<char>, mov: Move)
        requires
            self.moved_board(id, mov).is_some(),
        ensures
            self.state matches StateView::Game(before) && self.apply_move(id, mov).0.state
                matches StateView::Game(after) && after.pieces == before.apply_move(mov).pieces
                && after.cells == before.cells && after.turn == self.next_turn(before.turn),
            self.apply_move(id, mov).1.len() == self.players.len(),
            (exists|i: int|
                0 <= i < self.players.len() && (#[trigger] self.players[i]).status.color().is_some()
                    && self.players[i].status.color() != Some(self.state->Game_0.turn))
                ==> self.next_turn(self.state->Game_0.turn) != self.state->Game_0.turn,
    {
        let turn = self.state->Game_0.turn;
        if exists|i: int|
            0 <= i < self.players.len() && (#[trigger] self.players[i]).status.color().is_some()
                && self.players[i].status.color() != Some(turn) {
            let i = choose|i: int|
                0 <= i < self.players.len() && (#[trigger] self.players[i]).status.color().is_some()
                    && self.players[i].status.color() != Some(turn);
            assert(self.statuses()[i] == self.players[i].status);
            lemma_first_other_found(self.statuses(), 0, turn, turn, i);
        }
    }
}

/// Where a status from position `k` on has a color other than `color`,
/// the first such color is found, and it is not `color`.
proof fn lemma_first_other_found(
    statuses: Seq<PlayerStatusView>,
    k: int,
    color: Color,
    otherwise: Color,
    i: int,
)
    requires
        0 <= k <= i < statuses.len(),
        statuses[i].color().is_some(),
        statuses[i].color() != Some(color),
    ensures
        first_other_color(statuses, k, color, otherwise) != color,
    decreases statuses.len() - k,
{
    if k < i {
        match statuses[k].color() {
            Some(c) if c != color => {},
            _ => {
                lemma_first_other_found(statuses, k + 1, color, otherwise, i);
            },
        }
    }
}

/// A filter that every element passes keeps the list as it is.
proof fn lemma_filter_keeps_all(s: Seq<ServerPlayerView>, keep: spec_fn(ServerPlayerView) -> bool)
    requires
        forall|k: int| 0 <= k < s.len() ==> keep(#[trigger] s[k]),
    ensures
        s.filter(keep) == s,
    decreases s.len(),
{
    reveal(Seq::filter);
    if s.len() > 0 {
        lemma_filter_keeps_all(s.drop_last(), keep);
        assert(s.drop_last().push(s.last()) =~= s);
    }
}

/// In a list without a repeated id, filtering an id out removes the one
/// player that has it.
proof fn lemma_filter_removes(s: Seq<ServerPlayerView>, i: int, id: Seq<char>)
    requires
        distinct_ids(s),
        0 <= i < s.len(),
        s[i].id == id,
    ensures
        s.filter(|p: ServerPlayerView| p.id != id) == s.remove(i),
    decreases s.len(),
{
    let keep = |p: ServerPlayerView| p.id != id;
    reveal(Seq::filter);
    let front = s.drop_last();
    if i == s.len() - 1 {
        assert forall|k: int| 0 <= k < front.len() implies keep(#[trigger] front[k]) by {
            assert(front[k] == s[k]);
            assert(s[k].id != s[i].id);
        }
        lemma_filter_keeps_all(front, keep);
        assert(s.remove(i) =~= front);
    } else {
        assert forall|x: int, y: int| 0 <= x < y < front.len() implies (#[trigger] front[x]).id != (
        #[trigger] front[y]).id by {
            assert(front[x] == s[x] && front[y] == s[y]);
        }
        assert(front[i] == s[i]);
        lemma_filter_removes(front, i, id);
        assert(s[i].id != s[s.len() - 1].id);
        assert(keep(s.last()));
        assert(s.remove(i) =~= front.remove(i).push(s.last()));
    }
}

} // verus!
