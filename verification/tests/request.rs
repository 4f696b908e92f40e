use game_server::map::{GameDataType, Point};
use game_server::request::{
    decode_request, read_fields, read_target, ChooseCharacter, GameCreation, GameData, GameJoining,
    GameStarting, Malformed, PlayerCreation, Request, RequestFields,
};

const P: &str = "123e4567-e89b-42d3-a456-426614174000";
const G: &str = "9f1c2d3e-0000-4abc-8def-0123456789ab";

fn no_fields() -> RequestFields {
    RequestFields {
        request_type: None,
        pseudo: None,
        player_token: None,
        game_token: None,
        character: None,
        gm_code: None,
        target_x: None,
        target_y: None,
    }
}

#[test]
fn request_bodies_carry_their_type() {
    assert_eq!(PlayerCreation::new("alice".to_string()).request_type, 11);
    assert_eq!(GameCreation::new(P.to_string()).request_type, 12);
    assert_eq!(GameJoining::new(P.to_string(), G.to_string()).request_type, 13);
    assert_eq!(ChooseCharacter::new(P.to_string(), G.to_string(), "bar".to_string()).request_type, 14);
    assert_eq!(GameStarting::new(P.to_string(), G.to_string()).request_type, 15);
    let data = GameData::new(50, P.to_string(), G.to_string(), Point(3, 1));
    assert_eq!(data.request_type, 16);
    assert_eq!(data.gm_code, 50);
    assert_eq!(data.player_token, P);
    assert_eq!(data.game_token, G);
    assert_eq!(data.target, Point(3, 1));
}

#[test]
fn action_codes_name_actions() {
    let at = |code| GameData::new(code, P.to_string(), G.to_string(), Point(3, 1)).action();
    assert_eq!(at(50), Some(GameDataType::Movement(Point(3, 1))));
    assert_eq!(at(51), Some(GameDataType::Attack(Point(3, 1))));
    assert_eq!(at(52), Some(GameDataType::Skip));
    assert_eq!(at(53), None);
    assert_eq!(at(0), None);
}

#[test]
fn player_creation_is_read_from_json() {
    match decode_request(br#"{"request_type":11,"pseudo":"alice"}"#) {
        Ok(Request::PlayerCreation(b)) => {
            assert_eq!(b.request_type, 11);
            assert_eq!(b.pseudo, "alice");
        }
        other => panic!("{:?}", other),
    }
}

#[test]
fn game_requests_are_read_from_json() {
    let body = format!(r#"{{"request_type":12,"player_token":"{P}"}}"#);
    match decode_request(body.as_bytes()) {
        Ok(Request::GameCreation(b)) => assert_eq!(b.player_token, P),
        other => panic!("{:?}", other),
    }
    let body = format!(r#"{{"game_token":"{G}","request_type":13,"player_token":"{P}"}}"#);
    match decode_request(body.as_bytes()) {
        Ok(Request::GameJoining(b)) => {
            assert_eq!(b.player_token, P);
            assert_eq!(b.game_token, G);
        }
        other => panic!("{:?}", other),
    }
    let body = format!(r#"{{"request_type":15,"player_token":"{P}","game_token":"{G}"}}"#);
    match decode_request(body.as_bytes()) {
        Ok(Request::GameStarting(b)) => {
            assert_eq!(b.player_token, P);
            assert_eq!(b.game_token, G);
        }
        other => panic!("{:?}", other),
    }
    let body = format!(r#"{{"request_type":14,"player_token":"{P}","game_token":"{G}","character":"mag"}}"#);
    match decode_request(body.as_bytes()) {
        Ok(Request::ChooseCharacter(b)) => {
            assert_eq!(b.player_token, P);
            assert_eq!(b.game_token, G);
            assert_eq!(b.character, "mag");
        }
        other => panic!("{:?}", other),
    }
}

#[test]
fn game_data_is_read_from_json() {
    let body = format!(r#"{{"request_type":16,"gm_code":50,"player_token":"{P}","game_token":"{G}","target":[3,1]}}"#);
    match decode_request(body.as_bytes()) {
        Ok(Request::GameData(b)) => {
            assert_eq!(b.gm_code, 50);
            assert_eq!(b.target, Point(3, 1));
            assert_eq!(b.player_token, P);
            assert_eq!(b.game_token, G);
            assert_eq!(b.action(), Some(GameDataType::Movement(Point(3, 1))));
        }
        other => panic!("{:?}", other),
    }
    let body = format!(r#"{{"request_type":16,"gm_code":51,"player_token":"{P}","game_token":"{G}","target":[9,4,7]}}"#);
    match decode_request(body.as_bytes()) {
        Ok(Request::GameData(b)) => assert_eq!(b.action(), Some(GameDataType::Attack(Point(9, 4)))),
        other => panic!("{:?}", other),
    }
    let body = format!(r#"{{"request_type":16,"gm_code":52,"player_token":"{P}","game_token":"{G}"}}"#);
    match decode_request(body.as_bytes()) {
        Ok(Request::GameData(b)) => {
            assert_eq!(b.target, Point(0, 0));
            assert_eq!(b.action(), Some(GameDataType::Skip));
        }
        other => panic!("{:?}", other),
    }
}

#[test]
fn terminate_needs_nothing_but_its_type() {
    assert!(matches!(decode_request(br#"{"request_type":10}"#), Ok(Request::Terminate)));
    assert!(matches!(decode_request(br#"{"request_type":10,"pseudo":3}"#), Ok(Request::Terminate)));
}

#[test]
fn bodies_that_are_no_request_are_malformed() {
    let bad: [&[u8]; 16] = [
        b"",
        b"not json",
        b"[]",
        b"11",
        b"{}",
        br#"{"request_type":"11","pseudo":"alice"}"#,
        br#"{"request_type":-11,"pseudo":"alice"}"#,
        br#"{"request_type":11.0,"pseudo":"alice"}"#,
        br#"{"request_type":17}"#,
        br#"{"request_type":11}"#,
        br#"{"request_type":11,"pseudo":5}"#,
        br#"{"request_type":12,"pseudo":"alice"}"#,
        br#"{"request_type":13,"player_token":"p"}"#,
        br#"{"request_type":14,"player_token":"p","game_token":"g"}"#,
        br#"{"request_type":11,"pseudo":"alice"} trailing"#,
        br#"{"request_type":11,"pseudo":"alice""#,
    ];
    for body in bad {
        assert!(matches!(decode_request(body), Err(Malformed)), "{:?}", std::str::from_utf8(body));
    }
}

#[test]
fn game_data_without_a_usable_target_is_malformed() {
    let with = |rest: &str| format!(r#"{{"request_type":16,"player_token":"{P}","game_token":"{G}"{rest}}}"#);
    for rest in [
        "",
        r#","gm_code":50"#,
        r#","gm_code":51,"target":[3]"#,
        r#","gm_code":50,"target":3"#,
        r#","gm_code":50,"target":"3,1""#,
        r#","gm_code":50,"target":[-3,1]"#,
        r#","gm_code":50,"target":[3,1.5]"#,
        r#","gm_code":50,"target":[32768,1]"#,
        r#","gm_code":50,"target":[1,18446744073709551615]"#,
        r#","gm_code":53,"target":[3,1]"#,
        r#","gm_code":"50","target":[3,1]"#,
    ] {
        assert!(matches!(decode_request(with(rest).as_bytes()), Err(Malformed)), "{rest}");
    }
    assert!(decode_request(with(r#","gm_code":50,"target":[32767,0]"#).as_bytes()).is_ok());
}

#[test]
fn fields_are_the_members_of_the_body() {
    let body = format!(r#"{{"request_type":16,"gm_code":51,"player_token":"{P}","pseudo":"bob","target":[7,2],"character":"bow"}}"#);
    let f = read_fields(body.as_bytes());
    assert_eq!(f.request_type, Some(16));
    assert_eq!(f.gm_code, Some(51));
    assert_eq!(f.player_token.as_deref(), Some(P));
    assert_eq!(f.game_token, None);
    assert_eq!(f.pseudo.as_deref(), Some("bob"));
    assert_eq!(f.character.as_deref(), Some("bow"));
    assert_eq!(f.target_x, Some(7));
    assert_eq!(f.target_y, Some(2));
    let none = read_fields(b"{");
    assert_eq!(none.request_type, None);
    assert_eq!(none.pseudo, None);
    assert_eq!(none.target_x, None);
}

#[test]
fn fields_spell_a_request() {
    let mut f = no_fields();
    assert!(matches!(Request::from_fields(f), Err(Malformed)));
    f = no_fields();
    f.request_type = Some(11);
    f.pseudo = Some("carol".to_string());
    match Request::from_fields(f) {
        Ok(Request::PlayerCreation(b)) => assert_eq!(b.pseudo, "carol"),
        other => panic!("{:?}", other),
    }
    f = no_fields();
    f.request_type = Some(16);
    f.player_token = Some(P.to_string());
    f.game_token = Some(G.to_string());
    f.gm_code = Some(51);
    f.target_x = Some(2);
    assert!(matches!(Request::from_fields(f), Err(Malformed)));
}

#[test]
fn targets_fit_a_point() {
    assert_eq!(read_target(Some(50), Some(3), Some(4)), Some(Point(3, 4)));
    assert_eq!(read_target(Some(51), Some(32767), Some(0)), Some(Point(32767, 0)));
    assert_eq!(read_target(Some(51), Some(32768), Some(0)), None);
    assert_eq!(read_target(Some(50), None, Some(0)), None);
    assert_eq!(read_target(Some(52), None, None), Some(Point(0, 0)));
    assert_eq!(read_target(Some(52), Some(5), Some(6)), Some(Point(0, 0)));
    assert_eq!(read_target(Some(49), Some(5), Some(6)), None);
    assert_eq!(read_target(None, Some(5), Some(6)), None);
}
