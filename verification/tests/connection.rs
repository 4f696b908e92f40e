use game_server::connection::{handle_request, ConnectionState, GameChannel, Reply, RequestKind, Step};
use game_server::map::{map_string_to_vec, Point, Slot};
use game_server::request::{
    decode_request, ChooseCharacter, GameCreation, GameData, GameJoining, GameStarting, Malformed,
    PlayerCreation, Request,
};
use game_server::session::Store;

const ALICE: &str = "aaaaaaaa-aaaa-4aaa-8aaa-aaaaaaaaaaaa";
const BOB: &str = "bbbbbbbb-bbbb-4bbb-8bbb-bbbbbbbbbbbb";
const GAME: &str = "99999999-9999-4999-8999-999999999999";
const UNKNOWN: &str = "00000000-0000-4000-8000-000000000000";
const OPEN: &str = "0000000000\n0000000000\n0000000000\n0000000000\n0000000000";

fn lobby() -> Store {
    let mut store = Store::new();
    assert_eq!(store.add_player("alice", ALICE.to_string()), Ok(()));
    assert_eq!(store.add_player("bob", BOB.to_string()), Ok(()));
    assert_eq!(store.add_game(ALICE, GAME.to_string(), Slot::One, map_string_to_vec(OPEN)), Ok(()));
    assert!(store.join_game(BOB, GAME).is_ok());
    store
}

fn status_only(step: &Step) -> Option<u64> {
    match step.reply {
        Reply::Status(code) => Some(code),
        _ => None,
    }
}

#[test]
fn first_request_must_create_a_player() {
    let mut store = Store::new();
    let step = handle_request(
        ConnectionState::Connected,
        &mut store,
        Ok(Request::GameCreation(GameCreation::new(ALICE.to_string()))),
    );
    assert_eq!(step.state, ConnectionState::Terminated);
    assert_eq!(status_only(&step), Some(31));
    assert!(!step.publish);
    let step = handle_request(ConnectionState::Connected, &mut store, Ok(Request::Terminate));
    assert_eq!(step.state, ConnectionState::Terminated);
    assert_eq!(status_only(&step), Some(31));
    let step = handle_request(ConnectionState::Connected, &mut store, Err(Malformed));
    assert_eq!(step.state, ConnectionState::Terminated);
    assert_eq!(status_only(&step), Some(31));
}

#[test]
fn whole_session_from_connection_to_game() {
    let mut store = Store::new();
    let mut host = ConnectionState::Connected;
    let mut guest = ConnectionState::Connected;

    let step = handle_request(host, &mut store, decode_request(br#"{"request_type":11,"pseudo":"alice"}"#));
    host = step.state;
    assert_eq!(host, ConnectionState::PlayerCreated);
    assert!(!step.publish);
    let alice = match step.reply {
        Reply::PlayerCreated(b) => b.player_token,
        other => panic!("{:?}", other),
    };

    let step = handle_request(host, &mut store, Ok(Request::GameCreation(GameCreation::new(alice.clone()))));
    host = step.state;
    assert_eq!(host, ConnectionState::Hosting);
    assert!(!step.publish);
    let game = match step.reply {
        Reply::GameCreated(b) => b.game_token,
        other => panic!("{:?}", other),
    };

    let step = handle_request(guest, &mut store, Ok(Request::PlayerCreation(PlayerCreation::new("bob".to_string()))));
    guest = step.state;
    let bob = match step.reply {
        Reply::PlayerCreated(b) => b.player_token,
        other => panic!("{:?}", other),
    };
    assert_ne!(alice, bob);

    let step = handle_request(guest, &mut store, Ok(Request::GameJoining(GameJoining::new(bob.clone(), game.clone()))));
    guest = step.state;
    assert_eq!(guest, ConnectionState::Joined);
    assert!(step.publish);
    match step.reply {
        Reply::GameJoined(b) => {
            assert_eq!(b.status, 23);
            assert_eq!(b.pseudo, "bob");
            assert_eq!(b.player_vec.len(), 2);
        }
        other => panic!("{:?}", other),
    }
    host = host.on_broadcast(23);
    assert_eq!(host, ConnectionState::Hosting);

    let step = handle_request(
        host,
        &mut store,
        Ok(Request::ChooseCharacter(ChooseCharacter::new(alice.clone(), game.clone(), "bar".to_string()))),
    );
    host = step.state;
    assert_eq!(host, ConnectionState::CharacterChosen);
    assert!(step.publish);
    assert!(matches!(step.reply, Reply::CharacterChosen(_)));
    guest = guest.on_broadcast(24);
    assert_eq!(guest, ConnectionState::Joined);

    let step = handle_request(
        guest,
        &mut store,
        Ok(Request::ChooseCharacter(ChooseCharacter::new(bob.clone(), game.clone(), "mag".to_string()))),
    );
    guest = step.state;
    assert_eq!(guest, ConnectionState::CharacterChosen);
    host = host.on_broadcast(24);
    assert_eq!(host, ConnectionState::InLobby);

    let step = handle_request(guest, &mut store, Ok(Request::GameStarting(GameStarting::new(bob.clone(), game.clone()))));
    assert_eq!(step.state, ConnectionState::CharacterChosen);
    assert!(matches!(step.reply, Reply::Nothing));
    assert!(!step.publish);

    let step = handle_request(host, &mut store, Ok(Request::GameStarting(GameStarting::new(alice.clone(), game.clone()))));
    host = step.state;
    assert_eq!(host, ConnectionState::InGame);
    assert!(step.publish);
    let first = match step.reply {
        Reply::GameStarted(b) => {
            assert_eq!(b.status, 25);
            b.player_turn
        }
        other => panic!("{:?}", other),
    };
    guest = guest.on_broadcast(25);
    assert_eq!(guest, ConnectionState::InGame);

    let (who, state) = if first == "1" { (&alice, host) } else { (&bob, guest) };
    let step = handle_request(
        state,
        &mut store,
        Ok(Request::GameData(GameData::new(52, who.clone(), game.clone(), Point(0, 0)))),
    );
    assert_eq!(step.state, ConnectionState::InGame);
    assert!(step.publish);
    match step.reply {
        Reply::GameData(b) => {
            assert_eq!(b.player_num, first);
            assert_ne!(b.player_turn, first);
            assert_eq!(b.data_type, 52);
        }
        other => panic!("{:?}", other),
    }
    let step = handle_request(
        state,
        &mut store,
        Ok(Request::GameData(GameData::new(52, who.clone(), game.clone(), Point(0, 0)))),
    );
    assert!(matches!(step.reply, Reply::Nothing));
    assert!(!step.publish);
    assert_eq!(step.state, ConnectionState::InGame);

    let step = handle_request(host, &mut store, Ok(Request::Terminate));
    assert_eq!(step.state, ConnectionState::Terminated);
    assert_eq!(status_only(&step), Some(20));
    assert!(!step.publish);
    assert_eq!(guest.on_broadcast(26), ConnectionState::InGame);
}

#[test]
fn refused_request_leaves_the_connection_where_it_was() {
    let mut store = lobby();
    let step = handle_request(
        ConnectionState::Connected,
        &mut store,
        Ok(Request::PlayerCreation(PlayerCreation::new("not valid".to_string()))),
    );
    assert_eq!(step.state, ConnectionState::Connected);
    assert_eq!(status_only(&step), Some(32));
    let step = handle_request(
        ConnectionState::PlayerCreated,
        &mut store,
        Ok(Request::GameCreation(GameCreation::new(UNKNOWN.to_string()))),
    );
    assert_eq!(step.state, ConnectionState::PlayerCreated);
    assert_eq!(status_only(&step), Some(33));
    let step = handle_request(
        ConnectionState::PlayerCreated,
        &mut store,
        Ok(Request::GameCreation(GameCreation::new(ALICE.to_string()))),
    );
    assert_eq!(step.state, ConnectionState::PlayerCreated);
    assert_eq!(status_only(&step), Some(31));
    let step = handle_request(
        ConnectionState::PlayerCreated,
        &mut store,
        Ok(Request::GameJoining(GameJoining::new(BOB.to_string(), UNKNOWN.to_string()))),
    );
    assert_eq!(step.state, ConnectionState::PlayerCreated);
    assert_eq!(status_only(&step), Some(34));
    assert!(!step.publish);
    let step = handle_request(
        ConnectionState::PlayerCreated,
        &mut store,
        Ok(Request::GameJoining(GameJoining::new(BOB.to_string(), GAME.to_string()))),
    );
    assert_eq!(status_only(&step), Some(36));
    let step = handle_request(
        ConnectionState::Joined,
        &mut store,
        Ok(Request::ChooseCharacter(ChooseCharacter::new(BOB.to_string(), GAME.to_string(), "elf".to_string()))),
    );
    assert_eq!(step.state, ConnectionState::Joined);
    assert_eq!(status_only(&step), Some(31));
    let step = handle_request(
        ConnectionState::Joined,
        &mut store,
        Ok(Request::GameData(GameData::new(52, BOB.to_string(), GAME.to_string(), Point(0, 0)))),
    );
    assert_eq!(step.state, ConnectionState::Joined);
    assert_eq!(status_only(&step), Some(39));
    let step = handle_request(
        ConnectionState::InGame,
        &mut store,
        Ok(Request::GameData(GameData::new(77, BOB.to_string(), GAME.to_string(), Point(0, 0)))),
    );
    assert_eq!(step.state, ConnectionState::InGame);
    assert_eq!(status_only(&step), Some(31));
    assert_eq!(store.player_count(GAME), Some(2));
    assert_eq!(store.map(GAME).unwrap(), OPEN);
}

#[test]
fn unexpected_request_ends_the_connection() {
    let mut store = lobby();
    for (state, request) in [
        (ConnectionState::PlayerCreated, Request::PlayerCreation(PlayerCreation::new("zed".to_string()))),
        (ConnectionState::PlayerCreated, Request::GameStarting(GameStarting::new(ALICE.to_string(), GAME.to_string()))),
        (ConnectionState::Hosting, Request::GameJoining(GameJoining::new(ALICE.to_string(), GAME.to_string()))),
        (ConnectionState::InGame, Request::GameCreation(GameCreation::new(BOB.to_string()))),
        (ConnectionState::InLobby, Request::PlayerCreation(PlayerCreation::new("zed".to_string()))),
        (ConnectionState::Terminated, Request::Terminate),
    ] {
        let step = handle_request(state, &mut store, Ok(request));
        assert_eq!(step.state, ConnectionState::Terminated);
        assert_eq!(status_only(&step), Some(31));
        assert!(!step.publish);
    }
    assert_eq!(store.player(BOB).unwrap().hosting, 0);
}

#[test]
fn malformed_body_drops_only_a_connection_without_a_game() {
    let mut store = lobby();
    for state in [ConnectionState::Connected, ConnectionState::PlayerCreated, ConnectionState::Terminated] {
        let step = handle_request(state, &mut store, decode_request(b"{"));
        assert_eq!(step.state, ConnectionState::Terminated);
        assert_eq!(status_only(&step), Some(31));
    }
    for state in [
        ConnectionState::Hosting,
        ConnectionState::Joined,
        ConnectionState::CharacterChosen,
        ConnectionState::InLobby,
        ConnectionState::InGame,
    ] {
        let step = handle_request(state, &mut store, decode_request(br#"{"request_type":16}"#));
        assert_eq!(step.state, state);
        assert_eq!(status_only(&step), Some(31));
        assert!(!step.publish);
    }
}

#[test]
fn states_take_the_requests_of_their_stage() {
    let all = [
        RequestKind::Terminate,
        RequestKind::PlayerCreation,
        RequestKind::GameCreation,
        RequestKind::GameJoining,
        RequestKind::ChooseCharacter,
        RequestKind::GameStarting,
        RequestKind::GameData,
    ];
    let taken = |s: ConnectionState| all.iter().filter(|k| s.takes(**k)).copied().collect::<Vec<_>>();
    assert_eq!(taken(ConnectionState::Connected), vec![RequestKind::PlayerCreation]);
    assert_eq!(
        taken(ConnectionState::PlayerCreated),
        vec![RequestKind::Terminate, RequestKind::GameCreation, RequestKind::GameJoining]
    );
    let in_game =
        vec![RequestKind::Terminate, RequestKind::ChooseCharacter, RequestKind::GameStarting, RequestKind::GameData];
    for s in [
        ConnectionState::Hosting,
        ConnectionState::Joined,
        ConnectionState::CharacterChosen,
        ConnectionState::InLobby,
        ConnectionState::InGame,
    ] {
        assert_eq!(taken(s), in_game);
        assert!(s.is_in_a_game());
    }
    assert_eq!(taken(ConnectionState::Terminated), Vec::new());
    assert!(!ConnectionState::Connected.is_in_a_game());
    assert!(!ConnectionState::PlayerCreated.is_in_a_game());
    assert!(!ConnectionState::Terminated.is_in_a_game());
}

#[test]
fn states_follow_the_requests_that_took_effect() {
    assert_eq!(ConnectionState::Connected.after(RequestKind::PlayerCreation), ConnectionState::PlayerCreated);
    assert_eq!(ConnectionState::PlayerCreated.after(RequestKind::GameCreation), ConnectionState::Hosting);
    assert_eq!(ConnectionState::PlayerCreated.after(RequestKind::GameJoining), ConnectionState::Joined);
    assert_eq!(ConnectionState::Hosting.after(RequestKind::ChooseCharacter), ConnectionState::CharacterChosen);
    assert_eq!(ConnectionState::Joined.after(RequestKind::ChooseCharacter), ConnectionState::CharacterChosen);
    assert_eq!(ConnectionState::InLobby.after(RequestKind::ChooseCharacter), ConnectionState::InLobby);
    assert_eq!(ConnectionState::CharacterChosen.after(RequestKind::GameStarting), ConnectionState::InGame);
    assert_eq!(ConnectionState::Hosting.after(RequestKind::GameStarting), ConnectionState::InGame);
    assert_eq!(ConnectionState::InGame.after(RequestKind::GameData), ConnectionState::InGame);
    assert_eq!(ConnectionState::InGame.after(RequestKind::Terminate), ConnectionState::Terminated);
}

#[test]
fn peer_messages_move_the_lobby_and_start_the_game() {
    assert_eq!(ConnectionState::CharacterChosen.on_broadcast(23), ConnectionState::InLobby);
    assert_eq!(ConnectionState::CharacterChosen.on_broadcast(24), ConnectionState::InLobby);
    assert_eq!(ConnectionState::CharacterChosen.on_broadcast(26), ConnectionState::CharacterChosen);
    assert_eq!(ConnectionState::Hosting.on_broadcast(23), ConnectionState::Hosting);
    for s in [
        ConnectionState::Hosting,
        ConnectionState::Joined,
        ConnectionState::CharacterChosen,
        ConnectionState::InLobby,
        ConnectionState::InGame,
    ] {
        assert_eq!(s.on_broadcast(25), ConnectionState::InGame);
    }
    for s in [ConnectionState::Connected, ConnectionState::PlayerCreated, ConnectionState::Terminated] {
        assert_eq!(s.on_broadcast(25), s);
    }
}

#[test]
fn published_message_goes_to_everybody_else() {
    let mut channel = GameChannel::new();
    assert_eq!(channel.player_count, 1);
    assert_eq!(channel.recipients(), 0);
    channel.join();
    assert_eq!(channel.player_count, 2);
    assert_eq!(channel.recipients(), 1);
    channel.join();
    assert_eq!(channel.player_count, 2);
    assert_eq!(GameChannel { player_count: 0 }.recipients(), 0);
}

#[test]
fn first_player_and_first_game_are_always_answered_with_a_token() {
    for _ in 0..20 {
        let mut store = Store::new();
        let step = handle_request(
            ConnectionState::Connected,
            &mut store,
            Ok(Request::PlayerCreation(PlayerCreation::new("alice".to_string()))),
        );
        let alice = match step.reply {
            Reply::PlayerCreated(b) => b.player_token,
            other => panic!("{:?}", other),
        };
        let step = handle_request(
            ConnectionState::PlayerCreated,
            &mut store,
            Ok(Request::GameCreation(GameCreation::new(alice))),
        );
        assert!(matches!(step.reply, Reply::GameCreated(_)));
        assert_eq!(step.state, ConnectionState::Hosting);
    }
}
