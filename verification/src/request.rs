//! What a client asks: the request bodies, and how such a body is read from
//! the members of a JSON object.

use vstd::prelude::*;
use crate::json::{body_list_number, body_number, body_text, json_list_number, json_number, json_text};
use crate::map::{GameDataType, Point};
use crate::packet::game_data_code::{GM_DATA_ATK, GM_DATA_MOV, GM_DATA_SKIP};
use crate::packet::request_codes::{
    CHAR_CHOOSING, GM_CREAT, GM_DATA, GM_JOIN, GM_START, PL_CREAT, TERM_CON,
};

verus! {

/// Asks for a new player with the given name.
#[derive(Debug)]
pub struct PlayerCreation {
    pub request_type: u64,
    pub pseudo: String,
}

impl PlayerCreation {
    /// The request body with these members and the type of its kind.
    pub fn new(pseudo: String) -> (body: Self)
        ensures
            body.request_type == PL_CREAT,
            body.pseudo == pseudo,
    {
        PlayerCreation { request_type: PL_CREAT, pseudo }
    }
}

/// Asks for a new game hosted by the player.
#[derive(Debug)]
pub struct GameCreation {
    pub request_type: u64,
    pub player_token: String,
}

impl GameCreation {
    /// The request body with these members and the type of its kind.
    pub fn new(player_token: String) -> (body: Self)
        ensures
            body.request_type == GM_CREAT,
            body.player_token == player_token,
    {
        GameCreation { request_type: GM_CREAT, player_token }
    }
}

/// Asks to join a game.
#[derive(Debug)]
pub struct GameJoining {
    pub request_type: u64,
    pub player_token: String,
    pub game_token: String,
}

impl GameJoining {
    /// The request body with these members and the type of its kind.
    pub fn new(player_token: String, game_token: String) -> (body: Self)
        ensures
            body.request_type == GM_JOIN,
            body.player_token == player_token,
            body.game_token == game_token,
    {
        GameJoining { request_type: GM_JOIN, player_token, game_token }
    }
}

/// Asks to start a game.
#[derive(Debug)]
pub struct GameStarting {
    pub request_type: u64,
    pub player_token: String,
    pub game_token: String,
}

impl GameStarting {
    /// The request body with these members and the type of its kind.
    pub fn new(player_token: String, game_token: String) -> (body: Self)
        ensures
            body.request_type == GM_START,
            body.player_token == player_token,
            body.game_token == game_token,
    {
        GameStarting { request_type: GM_START, player_token, game_token }
    }
}

/// Asks for a character, by its class tag.
#[derive(Debug)]
pub struct ChooseCharacter {
    pub request_type: u64,
    pub player_token: String,
    pub game_token: String,
    pub character: String,
}

impl ChooseCharacter {
    /// The request body with these members and the type of its kind.
    pub fn new(player_token: String, game_token: String, character: String) -> (body: Self)
        ensures
            body.request_type == CHAR_CHOOSING,
            body.player_token == player_token,
            body.game_token == game_token,
            body.character == character,
    {
        ChooseCharacter { request_type: CHAR_CHOOSING, player_token, game_token, character }
    }
}

/// A turn's action: its code and its target.
#[derive(Debug)]
pub struct GameData {
    pub request_type: u64,
    pub gm_code: u64,
    pub player_token: String,
    pub game_token: String,
    pub target: Point,
}

/// The action that a code and a target stand for.
pub open spec fn action_of(gm_code: u64, target: Point) -> Option<GameDataType> {
    if gm_code == GM_DATA_MOV {
        Some(GameDataType::Movement(target))
    } else if gm_code == GM_DATA_ATK {
        Some(GameDataType::Attack(target))
    } else if gm_code == GM_DATA_SKIP {
        Some(GameDataType::Skip)
    } else {
        None
    }
}

impl GameData {
    /// The request body with these members and the type of its kind.
    pub fn new(gm_code: u64, player_token: String, game_token: String, target: Point) -> (body: Self)
        ensures
            body.request_type == GM_DATA,
            body.gm_code == gm_code,
            body.player_token == player_token,
            body.game_token == game_token,
            body.target == target,
    {
        GameData { request_type: GM_DATA, gm_code, player_token, game_token, target }
    }

    /// The action asked for, where the code is that of an action.
    pub fn action(&self) -> (action: Option<GameDataType>)
        ensures
            action == action_of(self.gm_code, self.target),
    {
        if self.gm_code == GM_DATA_MOV {
            Some(GameDataType::Movement(self.target))
        } else if self.gm_code == GM_DATA_ATK {
            Some(GameDataType::Attack(self.target))
        } else if self.gm_code == GM_DATA_SKIP {
            Some(GameDataType::Skip)
        } else {
            None
        }
    }
}

/// A request, by kind.
#[derive(Debug)]
pub enum Request {
    Terminate,
    PlayerCreation(PlayerCreation),
    GameCreation(GameCreation),
    GameJoining(GameJoining),
    ChooseCharacter(ChooseCharacter),
    GameStarting(GameStarting),
    GameData(GameData),
}

/// A body that is no request: the type is missing or unknown, or a member
/// that the type asks for is missing or of the wrong kind.
#[derive(Clone, Copy, Debug, PartialEq, Eq, Structural)]
pub struct Malformed;

/// The members of a request body, each as far as the body has it.
#[derive(Debug)]
pub struct RequestFields {
    pub request_type: Option<u64>,
    pub pseudo: Option<String>,
    pub player_token: Option<String>,
    pub game_token: Option<String>,
    pub character: Option<String>,
    pub gm_code: Option<u64>,
    pub target_x: Option<u64>,
    pub target_y: Option<u64>,
}

/// The target that an action with the given code has, where the members
/// give one: a move and an attack need both coordinates, each small enough
/// for a `Point`; a skipped turn has the origin for a target.
pub open spec fn target_of(gm_code: Option<u64>, x: Option<u64>, y: Option<u64>) -> Option<Point> {
    match gm_code {
        Some(code) => if code == GM_DATA_SKIP {
            Some(Point(0, 0))
        } else if code == GM_DATA_MOV || code == GM_DATA_ATK {
            match (x, y) {
                (Some(x), Some(y)) => if x <= i16::MAX && y <= i16::MAX {
                    Some(Point(x as i16, y as i16))
                } else {
                    None
                },
                _ => None,
            }
        } else {
            None
        },
        None => None,
    }
}

/// The request that the members spell.
pub open spec fn request_of(f: RequestFields) -> Result<Request, Malformed> {
    match f.request_type {
        None => Err(Malformed),
        Some(kind) => if kind == TERM_CON {
            Ok(Request::Terminate)
        } else if kind == PL_CREAT {
            match f.pseudo {
                Some(pseudo) => Ok(Request::PlayerCreation(PlayerCreation { request_type: PL_CREAT, pseudo })),
                None => Err(Malformed),
            }
        } else if kind == GM_CREAT {
            match f.player_token {
                Some(player_token) => Ok(
                    Request::GameCreation(GameCreation { request_type: GM_CREAT, player_token }),
                ),
                None => Err(Malformed),
            }
        } else if kind == GM_JOIN {
            match (f.player_token, f.game_token) {
                (Some(player_token), Some(game_token)) => Ok(
                    Request::GameJoining(GameJoining { request_type: GM_JOIN, player_token, game_token }),
                ),
                _ => Err(Malformed),
            }
        } else if kind == GM_START {
            match (f.player_token, f.game_token) {
                (Some(player_token), Some(game_token)) => Ok(
                    Request::GameStarting(
                        GameStarting { request_type: GM_START, player_token, game_token },
                    ),
                ),
                _ => Err(Malformed),
            }
        } else if kind == CHAR_CHOOSING {
            match (f.player_token, f.game_token, f.character) {
                (Some(player_token), Some(game_token), Some(character)) => Ok(
                    Request::ChooseCharacter(
                        ChooseCharacter { request_type: CHAR_CHOOSING, player_token, game_token, character },
                    ),
                ),
                _ => Err(Malformed),
            }
        } else if kind == GM_DATA {
            match (f.player_token, f.game_token, f.gm_code, target_of(f.gm_code, f.target_x, f.target_y)) {
                (Some(player_token), Some(game_token), Some(gm_code), Some(target)) => Ok(
                    Request::GameData(
                        GameData { request_type: GM_DATA, gm_code, player_token, game_token, target },
                    ),
                ),
                _ => Err(Malformed),
            }
        } else {
            Err(Malformed)
        },
    }
}

impl Request {
    /// The request that the members spell.
    pub fn from_fields(fields: RequestFields) -> (request: Result<Request, Malformed>)
        ensures
            request == request_of(fields),
    {
        let kind = match fields.request_type {
            Some(kind) => kind,
            None => {
                return Err(Malformed);
            },
        };
        if kind == TERM_CON {
            Ok(Request::Terminate)
        } else if kind == PL_CREAT {
            match fields.pseudo {
                Some(pseudo) => Ok(Request::PlayerCreation(PlayerCreation::new(pseudo))),
                None => Err(Malformed),
            }
        } else if kind == GM_CREAT {
            match fields.player_token {
                Some(player_token) => Ok(Request::GameCreation(GameCreation::new(player_token))),
                None => Err(Malformed),
            }
        } else if kind == GM_JOIN {
            match (fields.player_token, fields.game_token) {
                (Some(player_token), Some(game_token)) => Ok(
                    Request::GameJoining(GameJoining::new(player_token, game_token)),
                ),
                _ => Err(Malformed),
            }
        } else if kind == GM_START {
            match (fields.player_token, fields.game_token) {
                (Some(player_token), Some(game_token)) => Ok(
                    Request::GameStarting(GameStarting::new(player_token, game_token)),
                ),
                _ => Err(Malformed),
            }
        } else if kind == CHAR_CHOOSING {
            match (fields.player_token, fields.game_token, fields.character) {
                (Some(player_token), Some(game_token), Some(character)) => Ok(
                    Request::ChooseCharacter(ChooseCharacter::new(player_token, game_token, character)),
                ),
                _ => Err(Malformed),
            }
        } else if kind == GM_DATA {
            let target = read_target(fields.gm_code, fields.target_x, fields.target_y);
            match (fields.player_token, fields.game_token, fields.gm_code, target) {
                (Some(player_token), Some(game_token), Some(gm_code), Some(target)) => Ok(
                    Request::GameData(GameData::new(gm_code, player_token, game_token, target)),
                ),
                _ => Err(Malformed),
            }
        } else {
            Err(Malformed)
        }
    }
}

/// The target that an action with the given code has, where the members
/// give one.
pub fn read_target(gm_code: Option<u64>, x: Option<u64>, y: Option<u64>) -> (target: Option<Point>)
    ensures
        target == target_of(gm_code, x, y),
{
    let code = match gm_code {
        Some(code) => code,
        None => {
            return None;
        },
    };
    if code == GM_DATA_SKIP {
        Some(Point(0, 0))
    } else if code == GM_DATA_MOV || code == GM_DATA_ATK {
        match (x, y) {
            (Some(x), Some(y)) => {
                if x <= i16::MAX as u64 && y <= i16::MAX as u64 {
                    Some(Point(x as i16, y as i16))
                } else {
                    None
                }
            },
            _ => None,
        }
    } else {
        None
    }
}

/// Whether a member that was read is the member that the body has.
pub open spec fn is_text(read: Option<String>, member: Option<Seq<char>>) -> bool {
    match (read, member) {
        (Some(r), Some(m)) => r@ == m,
        (None, None) => true,
        _ => false,
    }
}

/// Whether `f` holds the members of the JSON object that `body` spells.
pub open spec fn are_fields_of(f: RequestFields, body: Seq<u8>) -> bool {
    &&& f.request_type == json_number(body, "request_type"@)
    &&& is_text(f.pseudo, json_text(body, "pseudo"@))
    &&& is_text(f.player_token, json_text(body, "player_token"@))
    &&& is_text(f.game_token, json_text(body, "game_token"@))
    &&& is_text(f.character, json_text(body, "character"@))
    &&& f.gm_code == json_number(body, "gm_code"@)
    &&& f.target_x == json_list_number(body, "target"@, 0)
    &&& f.target_y == json_list_number(body, "target"@, 1)
}

/// The members of the JSON object that `body` spells.
pub fn read_fields(body: &[u8]) -> (fields: RequestFields)
    ensures
        are_fields_of(fields, body@),
{
    RequestFields {
        request_type: body_number(body, "request_type"),
        pseudo: body_text(body, "pseudo"),
        player_token: body_text(body, "player_token"),
        game_token: body_text(body, "game_token"),
        character: body_text(body, "character"),
        gm_code: body_number(body, "gm_code"),
        target_x: body_list_number(body, "target", 0),
        target_y: body_list_number(body, "target", 1),
    }
}

/// The request that a body spells: the request of the members of the JSON
/// object in it.
pub fn decode_request(body: &[u8]) -> (request: Result<Request, Malformed>)
    ensures
        exists|f: RequestFields| are_fields_of(f, body@) && request == #[trigger] request_of(f),
{
    Request::from_fields(read_fields(body))
}

} // verus!
