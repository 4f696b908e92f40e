//! What the server answers: the bodies of the success responses and the
//! record kept for each member of a game.

use vstd::prelude::*;
use crate::packet::status_codes::{
    OK_CHAR_CHOOSING, OK_GM_CREAT, OK_GM_DATA, OK_GM_JOIN, OK_GM_START, OK_PL_CREAT,
};

pub mod packet_sizes;

verus! {

/// What a game keeps of one of its members once a character is chosen: the
/// slot as it is written ("1" or "2"), the class tag, and the live
/// statistics (attack, hit points, move speed, range).
#[derive(Debug)]
pub struct GamePlayerInfos {
    pub player_num: String,
    pub character: String,
    pub stats: (u8, u8, u8, u8),
}

impl Clone for GamePlayerInfos {
    fn clone(&self) -> (copy: Self)
        ensures
            copy == *self,
    {
        GamePlayerInfos {
            player_num: self.player_num.clone(),
            character: self.character.clone(),
            stats: (self.stats.0, self.stats.1, self.stats.2, self.stats.3),
        }
    }
}

/// Answer to a player creation: the new player's token.
#[derive(Debug)]
pub struct PlayerCreation {
    pub status: u64,
    pub player_token: String,
}

impl PlayerCreation {
    /// The response body with these members and the status of its kind.
    pub fn new(player_token: String) -> (body: Self)
        ensures
            body.status == OK_PL_CREAT,
            body.player_token == player_token,
    {
        PlayerCreation { status: OK_PL_CREAT, player_token }
    }
}

/// Answer to a game creation: the new game's token.
#[derive(Debug)]
pub struct GameCreation {
    pub status: u64,
    pub game_token: String,
}

impl GameCreation {
    /// The response body with these members and the status of its kind.
    pub fn new(game_token: String) -> (body: Self)
        ensures
            body.status == OK_GM_CREAT,
            body.game_token == game_token,
    {
        GameCreation { status: OK_GM_CREAT, game_token }
    }
}

/// Answer to a join: the name of the player who joined, and for every
/// member of the game its slot, its name, its character tag (empty until
/// one is chosen) and whether it hosts the game ("1") or not ("0").
#[derive(Debug)]
pub struct GameJoining {
    pub status: u64,
    pub pseudo: String,
    pub player_vec: Vec<[String; 4]>,
}

impl GameJoining {
    /// The response body with these members and the status of its kind.
    pub fn new(pseudo: String, player_vec: Vec<[String; 4]>) -> (body: Self)
        ensures
            body.status == OK_GM_JOIN,
            body.pseudo == pseudo,
            body.player_vec == player_vec,
    {
        GameJoining { status: OK_GM_JOIN, pseudo, player_vec }
    }
}

/// Answer to a character choice: who chose, and which class tag.
#[derive(Debug)]
pub struct CharacterChoosing {
    pub status: u64,
    pub pseudo: String,
    pub character: String,
}

impl CharacterChoosing {
    /// The response body with these members and the status of its kind.
    pub fn new(pseudo: String, character: String) -> (body: Self)
        ensures
            body.status == OK_CHAR_CHOOSING,
            body.pseudo == pseudo,
            body.character == character,
    {
        CharacterChoosing { status: OK_CHAR_CHOOSING, pseudo, character }
    }
}

/// Answer to a game start: the slot that plays first, and the map.
#[derive(Debug)]
pub struct GameStarting {
    pub status: u64,
    pub player_turn: String,
    pub map: String,
}

impl GameStarting {
    /// The response body with these members and the status of its kind.
    pub fn new(player_turn: String, map: String) -> (body: Self)
        ensures
            body.status == OK_GM_START,
            body.player_turn == player_turn,
            body.map == map,
    {
        GameStarting { status: OK_GM_START, player_turn, map }
    }
}

/// Answer to a resolved turn: the kind of action, the slot that acted, the
/// slot that plays next, the map, and for an attack the slot that was hit
/// with the hit points it has left (else an empty slot and 0).
#[derive(Debug)]
pub struct GameData {
    pub status: u64,
    pub data_type: u64,
    pub player_num: String,
    pub player_turn: String,
    pub map: String,
    pub enemy: (String, u8),
}

impl GameData {
    /// The response body with these members and the status of its kind.
    pub fn new(data_type: u64, player_turn: String, player_num: String, map: String, enemy: (String, u8)) -> (body:
        Self)
        ensures
            body.status == OK_GM_DATA,
            body.data_type == data_type,
            body.player_turn == player_turn,
            body.player_num == player_num,
            body.map == map,
            body.enemy == enemy,
    {
        GameData { status: OK_GM_DATA, data_type, player_num, player_turn, map, enemy }
    }
}

} // verus!
