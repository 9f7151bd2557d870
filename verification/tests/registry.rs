use hexagon::colors::Color;
use hexagon::registry::{Inbound, Lobbies, Session};
use hexagon::server::{Delivery, Frame, ServerPlayer};
use hexagon::structures::{
    CloseCodes, GameType, Move, PlayerMessage, PlayerStatus, SocketMessage, State, TeamMode,
};

fn hello(id: &str, name: &str) -> Inbound {
    Inbound::Message(PlayerMessage::Initialize(id.to_string(), name.to_string()))
}

fn guest(id: &str, channel: u64) -> ServerPlayer {
    ServerPlayer {
        id: id.to_string(),
        name: format!("name of {}", id),
        send_channel: channel,
        status: PlayerStatus::Initiated,
    }
}

fn addressed(deliveries: &[Delivery]) -> Vec<u64> {
    deliveries.iter().map(|d| d.channel).collect()
}

fn only_close(deliveries: &[Delivery], channel: u64, code: CloseCodes) -> bool {
    deliveries.len() == 1
        && deliveries[0].channel == channel
        && matches!(&deliveries[0].frame, Frame::Close(c) if *c == code)
}

/// Connects a player and lets it make a lobby; returns the lobby's id.
fn open_lobby(lobbies: &mut Lobbies, id: &str, channel: u64) -> String {
    let (session, _) = lobbies.user_connected(Session::AwaitingHandshake, channel, hello(id, "Alice"));
    let (session, _) =
        lobbies.user_connected(session, channel, Inbound::Message(PlayerMessage::CreateLobby));
    match session {
        Session::InSession(_, lobby) => lobby,
        other => panic!("no lobby was made: {:?}", other),
    }
}

/// Connects a player and lets it join the lobby; returns what was sent.
fn enter_lobby(lobbies: &mut Lobbies, id: &str, channel: u64, lobby: &str) -> Vec<Delivery> {
    let (session, _) = lobbies.user_connected(Session::AwaitingHandshake, channel, hello(id, "Bob"));
    let (session, out) = lobbies.user_connected(
        session,
        channel,
        Inbound::Message(PlayerMessage::JoinLobby(lobby.to_string())),
    );
    assert!(matches!(session, Session::InSession(_, _)));
    out
}

fn in_session(id: &str, lobby: &str) -> Session {
    Session::InSession(id.to_string(), lobby.to_string())
}

#[test]
fn a_new_registry_is_empty() {
    assert_eq!(Lobbies::new().len(), 0);
    assert_eq!(Lobbies::default().len(), 0);
    assert!(Lobbies::new().get("abcde").is_none());
}

#[test]
fn the_handshake_takes_the_player_in() {
    let mut lobbies = Lobbies::new();
    let (session, out) = lobbies.user_connected(Session::AwaitingHandshake, 4, hello("u1", "Alice"));
    assert!(out.is_empty());
    match session {
        Session::AwaitingLobby(player) => {
            assert_eq!(player.id, "u1");
            assert_eq!(player.name, "Alice");
            assert_eq!(player.send_channel, 4);
            assert!(matches!(player.status, PlayerStatus::Initiated));
        }
        other => panic!("not taken in: {:?}", other),
    }
}

#[test]
fn a_first_message_that_is_no_handshake_closes_with_wrong_init() {
    let firsts = vec![
        Inbound::Message(PlayerMessage::CreateLobby),
        Inbound::Message(PlayerMessage::Ping),
        Inbound::Message(PlayerMessage::JoinLobby("abcde".to_string())),
        Inbound::Message(PlayerMessage::Move(Move { from: (0, 0), to: (1, 0) })),
        Inbound::Message(PlayerMessage::StartGame(GameType::TwoPlayer, TeamMode::Solo)),
        Inbound::Malformed,
        Inbound::Binary,
        Inbound::Close,
        Inbound::Failed,
        Inbound::End,
    ];
    for first in firsts {
        let mut lobbies = Lobbies::new();
        let (session, out) = lobbies.user_connected(Session::AwaitingHandshake, 4, first);
        assert!(matches!(session, Session::Finished));
        assert!(only_close(&out, 4, CloseCodes::WrongInit));
        assert_eq!(lobbies.len(), 0);
    }
}

#[test]
fn scenario_create() {
    let mut lobbies = Lobbies::new();
    let (session, out) = lobbies.user_connected(Session::AwaitingHandshake, 1, hello("u1", "Alice"));
    assert!(out.is_empty());
    let (session, out) =
        lobbies.user_connected(session, 1, Inbound::Message(PlayerMessage::CreateLobby));
    let lobby_id = match session {
        Session::InSession(player, lobby) => {
            assert_eq!(player, "u1");
            lobby
        }
        other => panic!("no lobby was made: {:?}", other),
    };
    assert_eq!(out.len(), 1);
    assert_eq!(out[0].channel, 1);
    match &out[0].frame {
        Frame::Message(SocketMessage::LobbyJoined(lobby, color)) => {
            assert_eq!(*color, Color::Red);
            assert_eq!(lobby.id, lobby_id);
            assert_eq!(lobby.players.len(), 1);
            assert_eq!(lobby.players[0].id, "u1");
            assert_eq!(lobby.players[0].name, "Alice");
            assert!(matches!(
                &lobby.players[0].status,
                PlayerStatus::JoinedLobby(l, Color::Red) if *l == lobby_id
            ));
            assert!(matches!(&lobby.state, State::Lobby(leader) if leader == "u1"));
        }
        other => panic!("not the lobby: {:?}", other),
    }
    assert_eq!(lobbies.len(), 1);
    assert!(lobbies.get(&lobby_id).is_some());
}

#[test]
fn a_new_lobby_gets_an_id_of_five_letters_and_digits() {
    let mut lobbies = Lobbies::new();
    let mut seen = Vec::new();
    for n in 0..20u64 {
        let id = open_lobby(&mut lobbies, &format!("u{}", n), n);
        assert_eq!(id.chars().count(), 5);
        assert!(id.chars().all(|c| c.is_ascii_alphanumeric()));
        seen.push(id);
    }
    seen.sort();
    seen.dedup();
    assert!(seen.len() > 1);
    assert_eq!(lobbies.len(), seen.len());
}

#[test]
fn a_lobby_id_that_is_in_use_closes_with_cant_create_lobby() {
    let mut lobbies = Lobbies::new();
    let (session, out) = lobbies.create_lobby(guest("u1", 1), "abcde".to_string());
    assert!(matches!(session, Session::InSession(_, _)));
    assert_eq!(out.len(), 1);
    let (session, out) = lobbies.create_lobby(guest("u2", 2), "abcde".to_string());
    assert!(matches!(session, Session::Finished));
    assert!(only_close(&out, 2, CloseCodes::CantCreateLobby));
    assert_eq!(lobbies.len(), 1);
    assert_eq!(lobbies.get("abcde").unwrap().players().len(), 1);
}

#[test]
fn joining_a_lobby_that_does_not_exist_closes_the_connection() {
    let mut lobbies = Lobbies::new();
    open_lobby(&mut lobbies, "u1", 1);
    let (session, out) = lobbies.join_lobby(guest("u2", 2), "nowhere".to_string());
    assert!(matches!(session, Session::Finished));
    assert!(only_close(&out, 2, CloseCodes::CantJoinLobbyDoestExist));
    assert_eq!(lobbies.len(), 1);
}

#[test]
fn a_lobby_without_a_free_color_is_full() {
    let mut lobbies = Lobbies::new();
    let lobby = open_lobby(&mut lobbies, "u0", 0);
    for n in 1..9u64 {
        let out = enter_lobby(&mut lobbies, &format!("u{}", n), n, &lobby);
        assert_eq!(out.len(), n as usize + 1);
    }
    assert_eq!(lobbies.get(&lobby).unwrap().players().len(), 9);
    assert_eq!(lobbies.get(&lobby).unwrap().get_available_color(), None);
    let (session, out) = lobbies.join_lobby(guest("u9", 9), lobby.clone());
    assert!(matches!(session, Session::Finished));
    assert!(only_close(&out, 9, CloseCodes::LobbyFull));
    assert_eq!(lobbies.get(&lobby).unwrap().players().len(), 9);
}

#[test]
fn every_player_of_a_lobby_has_a_color_of_its_own() {
    let mut lobbies = Lobbies::new();
    let lobby = open_lobby(&mut lobbies, "u0", 0);
    for n in 1..9u64 {
        enter_lobby(&mut lobbies, &format!("u{}", n), n, &lobby);
    }
    let mut colors: Vec<Color> = lobbies
        .get(&lobby)
        .unwrap()
        .players()
        .iter()
        .map(|p| p.status.color().unwrap())
        .collect();
    assert_eq!(
        colors,
        vec![
            Color::Red,
            Color::Green,
            Color::DarkRed,
            Color::LightRed,
            Color::Blue,
            Color::Yellow,
            Color::Transparent,
            Color::BackgroundP1,
            Color::BackgroundP2,
        ]
    );
    colors.dedup();
    assert_eq!(colors.len(), 9);
}

#[test]
fn a_second_message_that_picks_no_lobby_ends_the_handler_in_silence() {
    let seconds = vec![
        Inbound::Message(PlayerMessage::Ping),
        Inbound::Message(PlayerMessage::Initialize("u1".to_string(), "Alice".to_string())),
        Inbound::Message(PlayerMessage::StartGame(GameType::TwoPlayer, TeamMode::Solo)),
        Inbound::Malformed,
        Inbound::Binary,
        Inbound::Close,
        Inbound::Failed,
        Inbound::End,
    ];
    for second in seconds {
        let mut lobbies = Lobbies::new();
        let (session, _) = lobbies.user_connected(Session::AwaitingHandshake, 4, hello("u1", "Alice"));
        let (session, out) = lobbies.user_connected(session, 4, second);
        assert!(matches!(session, Session::Finished));
        assert!(out.is_empty());
        assert_eq!(lobbies.len(), 0);
    }
}

#[test]
fn a_finished_handler_takes_no_more_events() {
    let mut lobbies = Lobbies::new();
    let (session, out) = lobbies.user_connected(Session::Finished, 4, hello("u1", "Alice"));
    assert!(matches!(session, Session::Finished));
    assert!(out.is_empty());
}

#[test]
fn scenario_join_and_start() {
    let mut lobbies = Lobbies::new();
    let lobby = open_lobby(&mut lobbies, "u1", 1);
    let out = enter_lobby(&mut lobbies, "u2", 2, &lobby);
    assert_eq!(addressed(&out), vec![1, 2]);
    assert!(matches!(
        &out[0].frame,
        Frame::Message(SocketMessage::PlayerJoined(p, Color::Green)) if p.id == "u2"
    ));
    match &out[1].frame {
        Frame::Message(SocketMessage::LobbyJoined(snapshot, color)) => {
            assert_eq!(*color, Color::Green);
            assert_eq!(snapshot.id, lobby);
            assert_eq!(snapshot.players.len(), 2);
            assert_eq!(snapshot.players[0].id, "u1");
            assert_eq!(snapshot.players[1].id, "u2");
            assert!(matches!(&snapshot.state, State::Lobby(l) if l == "u1"));
        }
        other => panic!("not the lobby: {:?}", other),
    }

    let (session, out) = lobbies.user_connected(
        in_session("u1", &lobby),
        1,
        Inbound::Message(PlayerMessage::StartGame(GameType::TwoPlayer, TeamMode::Solo)),
    );
    assert!(matches!(session, Session::InSession(_, _)));
    assert_eq!(addressed(&out), vec![1, 2]);
    let mut boards = Vec::new();
    for delivery in &out {
        match &delivery.frame {
            Frame::Message(SocketMessage::GameStart(State::Game(board))) => {
                assert_eq!(board.turn(), Color::Red);
                assert_eq!(board.max_size(), 8);
                let mut red = Vec::new();
                let mut green = Vec::new();
                for (point, color) in board.pieces() {
                    match color {
                        Color::Red => red.push(point),
                        Color::Green => green.push(point),
                        other => panic!("a piece of {:?}", other),
                    }
                }
                red.sort();
                green.sort();
                assert_eq!(red, vec![(-7, 7), (7, 0)]);
                assert_eq!(green, vec![(-7, 0), (7, -7)]);
                boards.push((board.points(), board.pieces()));
            }
            other => panic!("not the start of a game: {:?}", other),
        }
    }
    assert_eq!(boards[0], boards[1]);
}

#[test]
fn scenario_illegal_move() {
    let mut lobbies = Lobbies::new();
    let lobby = open_lobby(&mut lobbies, "u1", 1);
    enter_lobby(&mut lobbies, "u2", 2, &lobby);
    lobbies.player_message("u1", &lobby, PlayerMessage::StartGame(GameType::TwoPlayer, TeamMode::Solo));
    let before = match lobbies.get(&lobby).unwrap().state() {
        State::Game(board) => (board.turn(), board.pieces()),
        other => panic!("no game: {:?}", other),
    };
    let (session, out) = lobbies.user_connected(
        in_session("u2", &lobby),
        2,
        Inbound::Message(PlayerMessage::Move(Move { from: (7, -7), to: (6, -6) })),
    );
    assert!(matches!(session, Session::InSession(_, _)));
    assert!(out.is_empty());
    let after = match lobbies.get(&lobby).unwrap().state() {
        State::Game(board) => (board.turn(), board.pieces()),
        other => panic!("no game: {:?}", other),
    };
    assert_eq!(before, after);
    assert_eq!(after.0, Color::Red);
}

#[test]
fn a_legal_move_is_sent_to_both_players() {
    let mut lobbies = Lobbies::new();
    let lobby = open_lobby(&mut lobbies, "u1", 1);
    enter_lobby(&mut lobbies, "u2", 2, &lobby);
    lobbies.player_message("u1", &lobby, PlayerMessage::StartGame(GameType::TwoPlayer, TeamMode::Solo));
    let out = lobbies.player_message(
        "u1",
        &lobby,
        PlayerMessage::Move(Move { from: (7, 0), to: (5, 1) }),
    );
    assert_eq!(addressed(&out), vec![1, 2]);
    for delivery in &out {
        match &delivery.frame {
            Frame::Message(SocketMessage::Moved(board, mov)) => {
                assert_eq!(board.turn(), Color::Green);
                assert_eq!(board.piece_at(&(7, 0)), None);
                assert_eq!(board.piece_at(&(5, 1)), Some(Color::Red));
                assert_eq!((mov.from, mov.to), ((7, 0), (5, 1)));
            }
            other => panic!("not a move: {:?}", other),
        }
    }
}

#[test]
fn a_ping_is_answered_with_a_pong() {
    let mut lobbies = Lobbies::new();
    let lobby = open_lobby(&mut lobbies, "u1", 1);
    enter_lobby(&mut lobbies, "u2", 2, &lobby);
    let out = lobbies.player_message("u2", &lobby, PlayerMessage::Ping);
    assert_eq!(out.len(), 1);
    assert_eq!(out[0].channel, 2);
    assert!(matches!(out[0].frame, Frame::Message(SocketMessage::Pong)));
}

#[test]
fn messages_that_a_session_does_not_expect_are_dropped() {
    let mut lobbies = Lobbies::new();
    let lobby = open_lobby(&mut lobbies, "u1", 1);
    assert!(lobbies.player_message("u1", &lobby, PlayerMessage::CreateLobby).is_empty());
    assert!(lobbies
        .player_message("u1", &lobby, PlayerMessage::JoinLobby(lobby.clone()))
        .is_empty());
    assert!(lobbies
        .player_message("u1", &lobby, PlayerMessage::Initialize("u1".to_string(), "A".to_string()))
        .is_empty());
    assert!(lobbies.player_message("nobody", &lobby, PlayerMessage::Ping).is_empty());
    assert!(lobbies.player_message("u1", "nowhere", PlayerMessage::Ping).is_empty());
    assert_eq!(lobbies.len(), 1);
    assert_eq!(lobbies.get(&lobby).unwrap().players().len(), 1);
}

#[test]
fn a_session_goes_on_over_frames_that_hold_no_message() {
    let mut lobbies = Lobbies::new();
    let lobby = open_lobby(&mut lobbies, "u1", 1);
    for event in vec![Inbound::Malformed, Inbound::Binary] {
        let (session, out) = lobbies.user_connected(in_session("u1", &lobby), 1, event);
        assert!(matches!(session, Session::InSession(p, l) if p == "u1" && l == lobby));
        assert!(out.is_empty());
    }
    assert_eq!(lobbies.len(), 1);
}

#[test]
fn a_failure_of_the_transport_ends_the_session_with_the_cleanup() {
    let mut lobbies = Lobbies::new();
    let lobby = open_lobby(&mut lobbies, "u1", 1);
    enter_lobby(&mut lobbies, "u2", 2, &lobby);
    let (session, out) = lobbies.user_connected(in_session("u2", &lobby), 2, Inbound::Failed);
    assert!(matches!(session, Session::Finished));
    assert_eq!(addressed(&out), vec![1]);
    assert!(matches!(
        &out[0].frame,
        Frame::Message(SocketMessage::PlayerDisconnected(p)) if p.id == "u2"
    ));
    assert_eq!(lobbies.get(&lobby).unwrap().players().len(), 1);
    let (session, out) = lobbies.user_connected(in_session("u1", &lobby), 1, Inbound::Failed);
    assert!(matches!(session, Session::Finished));
    assert_eq!(addressed(&out), vec![1]);
    assert!(lobbies.get(&lobby).is_none());
    assert_eq!(lobbies.len(), 0);
}

#[test]
fn every_way_a_session_ends_runs_the_cleanup() {
    for ending in vec![Inbound::Close, Inbound::Failed, Inbound::End] {
        let mut lobbies = Lobbies::new();
        let lobby = open_lobby(&mut lobbies, "u1", 1);
        enter_lobby(&mut lobbies, "u2", 2, &lobby);
        let (session, out) = lobbies.user_connected(in_session("u2", &lobby), 2, ending);
        assert!(matches!(session, Session::Finished));
        assert_eq!(addressed(&out), vec![1]);
        assert_eq!(lobbies.get(&lobby).unwrap().players().len(), 1);
    }
}

#[test]
fn scenario_disconnect_mid_game() {
    let mut lobbies = Lobbies::new();
    let lobby = open_lobby(&mut lobbies, "u1", 1);
    enter_lobby(&mut lobbies, "u2", 2, &lobby);
    lobbies.player_message("u1", &lobby, PlayerMessage::StartGame(GameType::TwoPlayer, TeamMode::Solo));
    let (session, out) = lobbies.user_connected(in_session("u1", &lobby), 1, Inbound::End);
    assert!(matches!(session, Session::Finished));
    assert_eq!(addressed(&out), vec![2]);
    assert!(matches!(
        &out[0].frame,
        Frame::Message(SocketMessage::PlayerDisconnected(p)) if p.id == "u1"
    ));
    let left = lobbies.get(&lobby).unwrap();
    assert_eq!(left.players().len(), 1);
    assert!(matches!(left.state(), State::Game(_)));
}

#[test]
fn a_leader_that_disconnects_before_the_game_is_followed() {
    let mut lobbies = Lobbies::new();
    let lobby = open_lobby(&mut lobbies, "u1", 1);
    enter_lobby(&mut lobbies, "u2", 2, &lobby);
    let (session, out) = lobbies.user_connected(in_session("u1", &lobby), 1, Inbound::Close);
    assert!(matches!(session, Session::Finished));
    assert_eq!(addressed(&out), vec![1, 2, 2]);
    assert!(matches!(
        &out[0].frame,
        Frame::Message(SocketMessage::LeaderChange(State::Lobby(l))) if l == "u2"
    ));
    assert!(matches!(
        &out[1].frame,
        Frame::Message(SocketMessage::LeaderChange(State::Lobby(l))) if l == "u2"
    ));
    assert!(matches!(
        &out[2].frame,
        Frame::Message(SocketMessage::PlayerDisconnected(p)) if p.id == "u1"
    ));
    assert_eq!(lobbies.get(&lobby).unwrap().state().leader(), "u2");
}

#[test]
fn the_last_player_takes_the_lobby_along() {
    let mut lobbies = Lobbies::new();
    let first = open_lobby(&mut lobbies, "u1", 1);
    let second = open_lobby(&mut lobbies, "u3", 3);
    enter_lobby(&mut lobbies, "u2", 2, &first);
    assert_eq!(lobbies.len(), 2);
    lobbies.player_disconnect("u1", &first);
    assert_eq!(lobbies.len(), 2);
    assert_eq!(lobbies.get(&first).unwrap().players().len(), 1);
    lobbies.player_disconnect("u2", &first);
    assert_eq!(lobbies.len(), 1);
    assert!(lobbies.get(&first).is_none());
    assert!(lobbies.get(&second).is_some());
    lobbies.player_disconnect("u3", &second);
    assert_eq!(lobbies.len(), 0);
}

#[test]
fn a_disconnect_from_a_lobby_that_is_gone_does_nothing() {
    let mut lobbies = Lobbies::new();
    let lobby = open_lobby(&mut lobbies, "u1", 1);
    assert!(lobbies.player_disconnect("u1", "nowhere").is_empty());
    assert!(lobbies.player_disconnect("nobody", &lobby).is_empty());
    assert_eq!(lobbies.len(), 1);
}

#[test]
fn a_second_session_of_a_player_replaces_the_first() {
    let mut lobbies = Lobbies::new();
    let lobby = open_lobby(&mut lobbies, "u1", 1);
    enter_lobby(&mut lobbies, "u2", 2, &lobby);
    let out = enter_lobby(&mut lobbies, "u2", 22, &lobby);
    assert_eq!(addressed(&out), vec![1, 2, 2, 22]);
    assert!(matches!(out[2].frame, Frame::Close(CloseCodes::NewSessionOpened)));
    assert!(matches!(
        &out[3].frame,
        Frame::Message(SocketMessage::LobbyJoined(_, Color::DarkRed))
    ));
    let players = lobbies.get(&lobby).unwrap().players();
    assert_eq!(players.len(), 2);
    assert_eq!(players[1].send_channel, 22);
}
