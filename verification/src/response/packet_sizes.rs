//! The body lengths of the responses whose length never changes.

use vstd::prelude::*;

verus! {

/// A response that holds a status code and nothing else.
pub const DEF: u16 = 13;

/// Connection terminated.
pub const TERM_CON_SIZE: u16 = DEF;

/// Player created.
pub const PL_CREAT_SIZE: u16 = 67;

/// Game created.
pub const GM_CREAT_SIZE: u16 = 65;

/// Malformed request.
pub const MAL_REQ_SIZE: u16 = DEF;

/// Invalid pseudo.
pub const INV_PSEUD_SIZE: u16 = DEF;

/// Invalid player token.
pub const INV_PL_TOK_SIZE: u16 = DEF;

/// Invalid game token.
pub const INV_GM_TOK_SIZE: u16 = DEF;

/// The game has already started.
pub const GM_AL_START_SIZE: u16 = DEF;

/// The game is full.
pub const GM_FULL_SIZE: u16 = DEF;

/// The game is not full and cannot start.
pub const GM_NOT_FULL_SIZE: u16 = DEF;

/// The player has not joined the game.
pub const GM_NOT_JOIN_SIZE: u16 = DEF;

/// The game has not started.
pub const GM_NOT_START_SIZE: u16 = DEF;

} // verus!
