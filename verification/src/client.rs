//! What a client decides between the server's messages and the player's
//! clicks: which cell is selected, which move is asked for, and how the
//! lobby it shows follows what the server tells.

use crate::board::entries::lemma_entries_lookup;
use crate::board::honeycomb::pick_one;
use crate::board::{distinct_keys, entries_map, Board, BoardView, Point};
use crate::colors::Color;
use crate::structures::{
    players_view, Lobby, LobbyView, Move, Player, PlayerMessage, PlayerMessageView, PlayerView,
    SocketMessage, SocketMessageView, State, StateView,
};
use vstd::prelude::*;

verus! {

/// What a click on the board leads to: the cell that is selected then, and
/// the move to ask the server for, if the click completes one.
pub struct Selection {
    pub selected: Option<Point>,
    pub request: Option<Move>,
}

/// What a click on `pt` leads to while `selected` is selected: a click
/// that completes a legal move asks for it and keeps the selection, a click
/// on the selected cell drops the selection, and any other click selects
/// the cell.
pub open spec fn click(board: BoardView, selected: Option<Point>, pt: Point) -> Selection {
    match selected {
        Some(ptold) => if board.is_move_legal(Move { from: ptold, to: pt }) {
            Selection { selected, request: Some(Move { from: ptold, to: pt }) }
        } else if pt == ptold {
            Selection { selected: None, request: None }
        } else {
            Selection { selected: Some(pt), request: None }
        },
        None => Selection { selected: Some(pt), request: None },
    }
}

/// What a click on `pt` leads to while `selected` is selected.
pub fn select_point(board: &Board, selected: Option<Point>, pt: Point) -> (next: Selection)
    requires
        board.wf(),
    ensures
        next == click(board@, selected, pt),
{
    match selected {
        Some(ptold) => {
            let mov = Move { from: ptold, to: pt };
            if board.is_move_legal(&mov) {
                Selection { selected, request: Some(mov) }
            } else if pt.0 == ptold.0 && pt.1 == ptold.1 {
                Selection { selected: None, request: None }
            } else {
                Selection { selected: Some(pt), request: None }
            }
        },
        None => Selection { selected: Some(pt), request: None },
    }
}

/// What a client sends once it is connected: who it is, then the lobby it
/// wants, a new one where no room is named.
pub open spec fn opening(uid: Seq<char>, name: Seq<char>, room_id: Seq<char>) -> Seq<
    PlayerMessageView,
> {
    seq![
        PlayerMessageView::Initialize(uid, name),
        if room_id.len() == 0 {
            PlayerMessageView::CreateLobby
        } else {
            PlayerMessageView::JoinLobby(room_id)
        },
    ]
}

/// What a client sends once it is connected.
pub fn opening_messages(uid: String, name: String, room_id: String) -> (messages: Vec<
    PlayerMessage,
>)
    ensures
        messages@.map_values(|m: PlayerMessage| m@) == opening(uid@, name@, room_id@),
{
    let mut messages: Vec<PlayerMessage> = Vec::new();
    messages.push(PlayerMessage::Initialize(uid, name));
    if room_id.as_str().is_empty() {
        messages.push(PlayerMessage::CreateLobby);
    } else {
        messages.push(PlayerMessage::JoinLobby(room_id));
    }
    assert(messages@.map_values(|m: PlayerMessage| m@) =~= opening(uid@, name@, room_id@));
    messages
}

/// Whether no two players of the list have the same id.
pub open spec fn distinct_players(players: Seq<PlayerView>) -> bool {
    forall|i: int, j: int|
        0 <= i < j < players.len() ==> (#[trigger] players[i]).id != (#[trigger] players[j]).id
}

/// Where the player with the given id stands in the list, if it is there.
pub open spec fn position(players: Seq<PlayerView>, id: Seq<char>) -> Option<int> {
    if exists|i: int| 0 <= i < players.len() && (#[trigger] players[i]).id == id {
        Some(choose|i: int| 0 <= i < players.len() && (#[trigger] players[i]).id == id)
    } else {
        None
    }
}

/// The lobby that a client shows after `message`, and whether the message
/// changed what is shown: a player that joined is put in, in the place of
/// one of the same id if there is one; a player that left is taken out; a
/// new leader and a move replace the state. Other messages change nothing.
pub open spec fn follow(lobby: LobbyView, message: SocketMessageView) -> (LobbyView, bool) {
    match message {
        SocketMessageView::PlayerJoined(player, _) => (
            LobbyView {
                players: match position(lobby.players, player.id) {
                    Some(i) => lobby.players.update(i, player),
                    None => lobby.players.push(player),
                },
                ..lobby
            },
            true,
        ),
        SocketMessageView::PlayerDisconnected(player) => (
            LobbyView {
                players: match position(lobby.players, player.id) {
                    Some(i) => lobby.players.remove(i),
                    None => lobby.players,
                },
                ..lobby
            },
            true,
        ),
        SocketMessageView::LeaderChange(state) => (LobbyView { state, ..lobby }, true),
        SocketMessageView::Moved(board, _) => (
            LobbyView { state: StateView::Game(board), ..lobby },
            true,
        ),
        _ => (lobby, false),
    }
}

/// Where the player with the given id stands in the list, if it is there.
fn find(players: &Vec<Player>, id: &String) -> (at: Option<usize>)
    requires
        distinct_players(players_view(players@)),
    ensures
        match at {
            Some(i) => i < players.len() && position(players_view(players@), id@) == Some(
                i as int,
            ),
            None => position(players_view(players@), id@).is_none(),
        },
{
    let ghost views = players_view(players@);
    let mut i: usize = 0;
    while i < players.len()
        invariant
            i <= players.len(),
            views == players_view(players@),
            distinct_players(views),
            forall|j: int| 0 <= j < i ==> (#[trigger] views[j]).id != id@,
        decreases players.len() - i,
    {
        assert(views[i as int] == players@[i as int]@);
        if players[i].id == *id {
            proof {
                let j = choose|j: int| 0 <= j < views.len() && (#[trigger] views[j]).id == id@;
                if j < i {
                    assert(views[j].id != views[i as int].id);
                } else if i < j {
                    assert(views[i as int].id != views[j].id);
                }
            }
            return Some(i);
        }
        i += 1;
    }
    None
}

/// Lets the lobby that a client shows follow `message`, and says whether
/// the message changed what is shown.
pub fn follow_message(lobby: &mut Lobby, message: SocketMessage) -> (changed: bool)
    requires
        distinct_players(old(lobby)@.players),
    ensures
        (final(lobby)@, changed) == follow(old(lobby)@, message@),
        distinct_players(final(lobby)@.players),
{
    let ghost before = lobby@.players;
    match message {
        SocketMessage::PlayerJoined(player, _) => {
            match find(&lobby.players, &player.id) {
                Some(i) => {
                    lobby.players.set(i, player);
                    proof {
                        assert(lobby@.players =~= before.update(i as int, player@));
                        assert forall|a: int, b: int| 0 <= a < b < lobby@.players.len() implies (
                        #[trigger] lobby@.players[a]).id != (#[trigger] lobby@.players[b]).id by {
                            assert(lobby@.players[a].id == before[a].id);
                            assert(lobby@.players[b].id == before[b].id);
                        }
                    }
                },
                None => {
                    lobby.players.push(player);
                    proof {
                        assert(lobby@.players =~= before.push(player@));
                        assert forall|a: int, b: int| 0 <= a < b < lobby@.players.len() implies (
                        #[trigger] lobby@.players[a]).id != (#[trigger] lobby@.players[b]).id by {
                            assert(lobby@.players[a] == before[a]);
                            if b < before.len() {
                                assert(lobby@.players[b] == before[b]);
                            }
                        }
                    }
                },
            }
            true
        },
        SocketMessage::PlayerDisconnected(player) => {
            if let Some(i) = find(&lobby.players, &player.id) {
                lobby.players.remove(i);
                proof {
                    assert(lobby@.players =~= before.remove(i as int));
                    assert forall|a: int, b: int| 0 <= a < b < lobby@.players.len() implies (
                    #[trigger] lobby@.players[a]).id != (#[trigger] lobby@.players[b]).id by {
                        let a2 = if a < i { a } else { a + 1 };
                        let b2 = if b < i { b } else { b + 1 };
                        assert(lobby@.players[a] == before[a2]);
                        assert(lobby@.players[b] == before[b2]);
                    }
                }
            }
            true
        },
        SocketMessage::LeaderChange(state) => {
            lobby.state = state;
            true
        },
        SocketMessage::Moved(board, _) => {
            lobby.state = State::Game(board);
            true
        },
        _ => false,
    }
}

/// What a turn of the idle game on the backdrop came to.
#[derive(Debug, Clone, Copy)]
pub enum Played {
    /// The move was made and the turn passed on.
    Moved(Move),
    /// The piece that was picked has no legal move: the board is to be
    /// made anew.
    Stuck(Point),
    /// The color to move has no piece.
    Idle,
}

/// The color that moves after `turn` in the idle game: green after red,
/// and red after any other.
pub open spec fn next_color(turn: Color) -> Color {
    if turn == Color::Red {
        Color::Green
    } else {
        Color::Red
    }
}

/// The color that moves after `turn` in the idle game.
pub fn get_next_color(turn: Color) -> (next: Color)
    ensures
        next == next_color(turn),
{
    if turn == Color::Red {
        Color::Green
    } else {
        Color::Red
    }
}

/// The cells that hold a piece of the color to move.
fn owned_cells(board: &Board) -> (cells: Vec<Point>)
    requires
        board.wf(),
    ensures
        forall|p: Point|
            #[trigger] cells@.contains(p) <==> (board@.pieces.contains_key(p) && board@.pieces[p]
                == board@.turn),
{
    let pieces = board.pieces();
    let turn = board.turn();
    let mut cells: Vec<Point> = Vec::new();
    let mut i: usize = 0;
    while i < pieces.len()
        invariant
            i <= pieces.len(),
            distinct_keys(pieces@),
            entries_map(pieces@) == board@.pieces,
            turn == board@.turn,
            forall|p: Point|
                #[trigger] cells@.contains(p) <==> exists|j: int|
                    0 <= j < i && #[trigger] pieces@[j] == (p, turn),
        decreases pieces.len() - i,
    {
        let ghost before = cells@;
        if pieces[i].1 == turn {
            cells.push(pieces[i].0);
            assert forall|p: Point| #[trigger] cells@.contains(p) <==> (before.contains(p) || p
                == pieces@[i as int].0) by {
                if cells@.contains(p) {
                    let k = choose|k: int| 0 <= k < cells@.len() && cells@[k] == p;
                    if k < before.len() {
                        assert(before[k] == p);
                    }
                }
                if before.contains(p) {
                    let k = choose|k: int| 0 <= k < before.len() && before[k] == p;
                    assert(cells@[k] == p);
                }
                if p == pieces@[i as int].0 {
                    assert(cells@[before.len() as int] == p);
                }
            }
        }
        assert forall|p: Point| #[trigger] cells@.contains(p) <==> exists|j: int|
            0 <= j < i + 1 && #[trigger] pieces@[j] == (p, turn) by {
            if cells@.contains(p) {
                if before.contains(p) {
                    let j = choose|j: int| 0 <= j < i && #[trigger] pieces@[j] == (p, turn);
                    assert(pieces@[j] == (p, turn));
                } else {
                    assert(pieces@[i as int] == (p, turn));
                }
            }
            if exists|j: int| 0 <= j < i + 1 && #[trigger] pieces@[j] == (p, turn) {
                let j = choose|j: int| 0 <= j < i + 1 && #[trigger] pieces@[j] == (p, turn);
                if j < i {
                    assert(before.contains(p));
                }
            }
        }
        i += 1;
    }
    proof {
        assert forall|p: Point| #[trigger] cells@.contains(p) <==> (board@.pieces.contains_key(p)
            && board@.pieces[p] == board@.turn) by {
            if cells@.contains(p) {
                let j = choose|j: int| 0 <= j < pieces@.len() && #[trigger] pieces@[j] == (p, turn);
                lemma_entries_lookup(pieces@, j);
            }
            if board@.pieces.contains_key(p) && board@.pieces[p] == board@.turn {
                let j = choose|j: int| 0 <= j < pieces@.len() && #[trigger] pieces@[j].0 == p;
                lemma_entries_lookup(pieces@, j);
                assert(pieces@[j] == (p, turn));
            }
        }
    }
    cells
}

/// Makes the move from `from` to the destination that was picked among
/// its legal ones, and passes the turn on. Where nothing was picked the
/// piece is stuck, and nothing changes.
pub fn play_picked(board: &mut Board, from: Point, picked: Option<Point>) -> (played: Played)
    requires
        old(board).wf(),
        match picked {
            Some(to) => old(board)@.is_move_legal(Move { from, to }),
            None => true,
        },
    ensures
        final(board).wf(),
        played == match picked {
            Some(to) => Played::Moved(Move { from, to }),
            None => Played::Stuck(from),
        },
        final(board)@ == match picked {
            Some(to) => BoardView {
                turn: next_color(old(board)@.turn),
                ..old(board)@.apply_move(Move { from, to })
            },
            None => old(board)@,
        },
{
    match picked {
        Some(to) => {
            let mov = Move { from, to };
            board.apply_move(&mov);
            let next = get_next_color(board.turn());
            board.change_turn(next);
            Played::Moved(mov)
        },
        None => Played::Stuck(from),
    }
}

/// Plays one turn of the idle game: a random piece of the color to move
/// makes a random one of its legal moves, and the turn passes on. A piece
/// without a legal move is stuck, and a color without a piece is idle;
/// neither changes the board.
pub fn make_move(board: &mut Board) -> (played: Played)
    requires
        old(board).wf(),
    ensures
        final(board).wf(),
        match played {
            Played::Moved(mov) => {
                &&& old(board)@.is_move_legal(mov)
                &&& final(board)@ == BoardView {
                    turn: next_color(old(board)@.turn),
                    ..old(board)@.apply_move(mov)
                }
            },
            Played::Stuck(from) => {
                &&& old(board)@.pieces.contains_key(from)
                &&& old(board)@.pieces[from] == old(board)@.turn
                &&& old(board)@.legal_moves(from).len() == 0
                &&& final(board)@ == old(board)@
            },
            Played::Idle => {
                &&& forall|p: Point| #[trigger]
                    old(board)@.pieces.contains_key(p) ==> old(board)@.pieces[p] != old(
                        board,
                    )@.turn
                &&& final(board)@ == old(board)@
            },
        },
{
    let pts = owned_cells(board);
    match pick_one(&pts) {
        Some(pt) => {
            let moves = board.get_legal_moves(&pt);
            let picked = pick_one(&moves);
            proof {
                if let Some(to) = picked {
                    let legal = |m: Point| board@.is_move_legal(Move { from: pt, to: m });
                    let k = choose|k: int| 0 <= k < moves@.len() && moves@[k] == to;
                    board@.secondary_neighbours(pt).lemma_filter_pred(legal, k);
                }
            }
            play_picked(board, pt, picked)
        },
        None => {
            assert forall|p: Point| #[trigger] board@.pieces.contains_key(p) implies (
            board@.pieces[p] != board@.turn) by {
                if board@.pieces[p] == board@.turn {
                    assert(pts@.contains(p));
                }
            }
            Played::Idle
        },
    }
}

} // verus!
