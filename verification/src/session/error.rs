//! Why an operation of the session store does not take effect, and how the
//! client hears of it.

use vstd::prelude::*;
use crate::packet::status_codes::{
    ERR_GM_AL_START, ERR_GM_FULL, ERR_GM_NOT_FULL, ERR_GM_NOT_JOIN, ERR_GM_NOT_START,
    ERR_INTERNAL_SERV, ERR_INV_GM_TOK, ERR_INV_PL_TOK, ERR_INV_PSEUD, ERR_MAL_REQ,
};

verus! {

/// Why an operation of the store did not take effect.
#[derive(Clone, Copy, Debug, PartialEq, Eq, Structural)]
pub enum SessionError {
    /// The name is too long or not alphanumeric.
    InvalidName,
    /// No player has this token.
    InvalidPlayerToken,
    /// No game has this token.
    InvalidGameToken,
    /// The player hosts a game already.
    AlreadyHosting,
    /// The game has started.
    GameAlreadyStarted,
    /// The game has two players.
    GameFull,
    /// The player is in the game already.
    AlreadyJoined,
    /// The player is not in the game.
    NotJoined,
    /// The tag names no character class.
    InvalidCharacterClass,
    /// Only the host starts the game.
    NotHost,
    /// The game has fewer than two players.
    GameNotFull,
    /// The game has not started.
    GameNotStarted,
    /// It is the other player's turn.
    NotYourTurn,
    /// The move or attack is not legal.
    IllegalAction,
    /// The token offered is taken, or is no token.
    TokenCollision,
    /// The store could not do its part.
    Internal,
}

impl SessionError {
    /// The status code that tells the client of the error. The three errors
    /// that are passed over in silence have none.
    pub open spec fn spec_status(self) -> Option<u64> {
        match self {
            SessionError::InvalidName => Some(ERR_INV_PSEUD),
            SessionError::InvalidPlayerToken => Some(ERR_INV_PL_TOK),
            SessionError::InvalidGameToken => Some(ERR_INV_GM_TOK),
            SessionError::AlreadyHosting => Some(ERR_MAL_REQ),
            SessionError::GameAlreadyStarted => Some(ERR_GM_AL_START),
            SessionError::GameFull => Some(ERR_GM_FULL),
            SessionError::AlreadyJoined => None,
            SessionError::NotJoined => Some(ERR_GM_NOT_JOIN),
            SessionError::InvalidCharacterClass => Some(ERR_MAL_REQ),
            SessionError::NotHost => None,
            SessionError::GameNotFull => Some(ERR_GM_NOT_FULL),
            SessionError::GameNotStarted => Some(ERR_GM_NOT_START),
            SessionError::NotYourTurn => None,
            SessionError::IllegalAction => Some(ERR_MAL_REQ),
            SessionError::TokenCollision => Some(ERR_INTERNAL_SERV),
            SessionError::Internal => Some(ERR_INTERNAL_SERV),
        }
    }

    /// The status code that tells the client of the error, if one does.
    pub fn status(&self) -> (code: Option<u64>)
        ensures
            code == self.spec_status(),
    {
        match self {
            SessionError::InvalidName => Some(ERR_INV_PSEUD),
            SessionError::InvalidPlayerToken => Some(ERR_INV_PL_TOK),
            SessionError::InvalidGameToken => Some(ERR_INV_GM_TOK),
            SessionError::AlreadyHosting => Some(ERR_MAL_REQ),
            SessionError::GameAlreadyStarted => Some(ERR_GM_AL_START),
            SessionError::GameFull => Some(ERR_GM_FULL),
            SessionError::AlreadyJoined => None,
            SessionError::NotJoined => Some(ERR_GM_NOT_JOIN),
            SessionError::InvalidCharacterClass => Some(ERR_MAL_REQ),
            SessionError::NotHost => None,
            SessionError::GameNotFull => Some(ERR_GM_NOT_FULL),
            SessionError::GameNotStarted => Some(ERR_GM_NOT_START),
            SessionError::NotYourTurn => None,
            SessionError::IllegalAction => Some(ERR_MAL_REQ),
            SessionError::TokenCollision => Some(ERR_INTERNAL_SERV),
            SessionError::Internal => Some(ERR_INTERNAL_SERV),
        }
    }
}

} // verus!
