use hexagon::board::Board;
use hexagon::client::{
    follow_message, get_next_color, make_move, opening_messages, play_picked, select_point, Played,
};
use hexagon::colors::Color;
use hexagon::structures::{
    CloseCodes, Lobby, Move, Player, PlayerMessage, PlayerStatus, SocketMessage, State,
};

fn shown(id: &str, color: Color) -> Player {
    Player {
        id: id.to_string(),
        name: format!("name of {}", id),
        status: PlayerStatus::JoinedLobby("room".to_string(), color),
    }
}

fn shown_lobby() -> Lobby {
    Lobby {
        id: "room".to_string(),
        players: vec![shown("u1", Color::Red), shown("u2", Color::Green)],
        state: State::Lobby("u1".to_string()),
    }
}

fn shown_ids(lobby: &Lobby) -> Vec<String> {
    lobby.players.iter().map(|p| p.id.clone()).collect()
}

#[test]
fn the_first_click_selects_the_cell() {
    let board = Board::generate_hexagon(8, Color::Red, Color::Green);
    let next = select_point(&board, None, (7, 0));
    assert_eq!(next.selected, Some((7, 0)));
    assert!(next.request.is_none());
}

#[test]
fn a_click_that_completes_a_legal_move_asks_for_it() {
    let board = Board::generate_hexagon(8, Color::Red, Color::Green);
    let next = select_point(&board, Some((7, 0)), (6, 0));
    assert_eq!(next.selected, Some((7, 0)));
    let request = next.request.unwrap();
    assert_eq!((request.from, request.to), ((7, 0), (6, 0)));
}

#[test]
fn a_click_on_the_selected_cell_drops_the_selection() {
    let board = Board::generate_hexagon(8, Color::Red, Color::Green);
    let next = select_point(&board, Some((7, 0)), (7, 0));
    assert_eq!(next.selected, None);
    assert!(next.request.is_none());
}

#[test]
fn a_click_that_completes_no_move_selects_the_cell() {
    let board = Board::generate_hexagon(8, Color::Red, Color::Green);
    let next = select_point(&board, Some((7, 0)), (0, 0));
    assert_eq!(next.selected, Some((0, 0)));
    assert!(next.request.is_none());
    let next = select_point(&board, Some((7, -7)), (6, -6));
    assert_eq!(next.selected, Some((6, -6)));
    assert!(next.request.is_none());
}

#[test]
fn a_client_without_a_room_asks_for_a_new_lobby() {
    let messages = opening_messages("u1".to_string(), "Alice".to_string(), String::new());
    assert_eq!(messages.len(), 2);
    assert!(matches!(&messages[0], PlayerMessage::Initialize(id, name) if id == "u1" && name == "Alice"));
    assert!(matches!(messages[1], PlayerMessage::CreateLobby));
}

#[test]
fn a_client_with_a_room_asks_to_join_it() {
    let messages = opening_messages("u1".to_string(), "Alice".to_string(), "abcde".to_string());
    assert_eq!(messages.len(), 2);
    assert!(matches!(&messages[0], PlayerMessage::Initialize(id, name) if id == "u1" && name == "Alice"));
    assert!(matches!(&messages[1], PlayerMessage::JoinLobby(room) if room == "abcde"));
}

#[test]
fn a_player_that_joined_is_shown() {
    let mut lobby = shown_lobby();
    assert!(follow_message(&mut lobby, SocketMessage::PlayerJoined(shown("u3", Color::Blue), Color::Blue)));
    assert_eq!(shown_ids(&lobby), vec!["u1", "u2", "u3"]);
}

#[test]
fn a_player_that_joined_again_is_shown_once() {
    let mut lobby = shown_lobby();
    assert!(follow_message(&mut lobby, SocketMessage::PlayerJoined(shown("u1", Color::Blue), Color::Blue)));
    assert_eq!(shown_ids(&lobby), vec!["u1", "u2"]);
    assert_eq!(lobby.players[0].status.color(), Some(Color::Blue));
}

#[test]
fn a_player_that_left_is_no_longer_shown() {
    let mut lobby = shown_lobby();
    assert!(follow_message(&mut lobby, SocketMessage::PlayerDisconnected(shown("u1", Color::Red))));
    assert_eq!(shown_ids(&lobby), vec!["u2"]);
    assert!(follow_message(&mut lobby, SocketMessage::PlayerDisconnected(shown("u9", Color::Red))));
    assert_eq!(shown_ids(&lobby), vec!["u2"]);
}

#[test]
fn a_new_leader_is_shown() {
    let mut lobby = shown_lobby();
    assert!(follow_message(&mut lobby, SocketMessage::LeaderChange(State::Lobby("u2".to_string()))));
    assert_eq!(lobby.state.leader(), "u2");
}

#[test]
fn a_move_shows_the_new_board() {
    let mut lobby = shown_lobby();
    let mut board = Board::generate_hexagon(8, Color::Red, Color::Green);
    let mov = Move { from: (7, 0), to: (6, 0) };
    assert!(board.apply_move(&mov));
    assert!(follow_message(&mut lobby, SocketMessage::Moved(board, mov)));
    match &lobby.state {
        State::Game(board) => assert_eq!(board.piece_at(&(6, 0)), Some(Color::Red)),
        other => panic!("no game: {:?}", other),
    }
}

#[test]
fn other_messages_change_nothing_that_is_shown() {
    let mut lobby = shown_lobby();
    assert!(!follow_message(&mut lobby, SocketMessage::Pong));
    assert!(!follow_message(&mut lobby, SocketMessage::Close(CloseCodes::LobbyFull)));
    let game = State::Game(Board::generate_hexagon(8, Color::Red, Color::Green));
    assert!(!follow_message(&mut lobby, SocketMessage::GameStart(game)));
    assert!(!follow_message(&mut lobby, SocketMessage::LobbyJoined(shown_lobby(), Color::Red)));
    assert_eq!(shown_ids(&lobby), vec!["u1", "u2"]);
    assert_eq!(lobby.state.leader(), "u1");
}

#[test]
fn the_idle_game_alternates_between_red_and_green() {
    assert_eq!(get_next_color(Color::Red), Color::Green);
    assert_eq!(get_next_color(Color::Green), Color::Red);
    assert_eq!(get_next_color(Color::Blue), Color::Red);
}

#[test]
fn a_picked_move_is_made_and_the_turn_passes() {
    let mut board = Board::generate_hexagon(3, Color::Red, Color::Green);
    let played = play_picked(&mut board, (2, 0), Some((0, 0)));
    assert!(matches!(played, Played::Moved(mov) if mov.from == (2, 0) && mov.to == (0, 0)));
    assert_eq!(board.piece_at(&(2, 0)), None);
    assert_eq!(board.piece_at(&(0, 0)), Some(Color::Red));
    assert_eq!(board.turn(), Color::Green);
}

#[test]
fn a_piece_without_a_pick_is_stuck() {
    let mut board = Board::generate_hexagon(3, Color::Red, Color::Green);
    let played = play_picked(&mut board, (2, 0), None);
    assert!(matches!(played, Played::Stuck((2, 0))));
    assert_eq!(board.pieces().len(), 4);
    assert_eq!(board.turn(), Color::Red);
}

#[test]
fn the_idle_game_makes_a_legal_move_of_the_color_to_move() {
    for _ in 0..20 {
        let mut board = Board::generate_hexagon(4, Color::Red, Color::Green);
        let before = board.clone();
        match make_move(&mut board) {
            Played::Moved(mov) => {
                assert_eq!(before.piece_at(&mov.from), Some(Color::Red));
                assert!(before.is_move_legal(&mov));
                assert_eq!(board.piece_at(&mov.to), Some(Color::Red));
                assert_eq!(board.turn(), Color::Green);
            }
            other => panic!("no move was made: {:?}", other),
        }
    }
}

#[test]
fn the_idle_game_takes_the_only_move_and_then_idles() {
    let mut board = Board::new(
        vec![(0, 0), (1, 0), (0, 1)],
        2,
        Color::Red,
        vec![((1, 0), Color::Red), ((0, 1), Color::Green)],
    )
    .unwrap();
    match make_move(&mut board) {
        Played::Moved(mov) => assert_eq!((mov.from, mov.to), ((1, 0), (0, 0))),
        other => panic!("no move was made: {:?}", other),
    }
    assert_eq!(board.pieces().len(), 3);
    for (_, color) in board.pieces() {
        assert_eq!(color, Color::Red);
    }
    assert_eq!(board.turn(), Color::Green);
    assert!(matches!(make_move(&mut board), Played::Idle));
    assert_eq!(board.turn(), Color::Green);
    assert_eq!(board.pieces().len(), 3);
}

#[test]
fn the_idle_game_is_stuck_on_a_piece_that_cannot_move() {
    let mut board = Board::new(vec![(0, 0)], 1, Color::Red, vec![((0, 0), Color::Red)]).unwrap();
    assert!(matches!(make_move(&mut board), Played::Stuck((0, 0))));
    assert_eq!(board.turn(), Color::Red);
    assert_eq!(board.pieces(), vec![((0, 0), Color::Red)]);
}
