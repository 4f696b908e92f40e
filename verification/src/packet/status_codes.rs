//! The integer `status` that every response carries: one success code for
//! each request type, and the error codes they share.

use vstd::prelude::*;

verus! {

/// Connection terminated.
pub const OK_TERM_CON: u64 = 20;

/// Player created.
pub const OK_PL_CREAT: u64 = 21;

/// Game created.
pub const OK_GM_CREAT: u64 = 22;

/// Game joined.
pub const OK_GM_JOIN: u64 = 23;

/// Character chosen.
pub const OK_CHAR_CHOOSING: u64 = 24;

/// Game started.
pub const OK_GM_START: u64 = 25;

/// Turn resolved.
pub const OK_GM_DATA: u64 = 26;

/// The server failed.
pub const ERR_INTERNAL_SERV: u64 = 30;

/// Malformed request.
pub const ERR_MAL_REQ: u64 = 31;

/// Invalid pseudo.
pub const ERR_INV_PSEUD: u64 = 32;

/// Invalid player token.
pub const ERR_INV_PL_TOK: u64 = 33;

/// Invalid game token.
pub const ERR_INV_GM_TOK: u64 = 34;

/// The game has already started.
pub const ERR_GM_AL_START: u64 = 35;

/// The game is full.
pub const ERR_GM_FULL: u64 = 36;

/// The player has not joined the game.
pub const ERR_GM_NOT_JOIN: u64 = 37;

/// The game is not full and cannot start.
pub const ERR_GM_NOT_FULL: u64 = 38;

/// The game has not started.
pub const ERR_GM_NOT_START: u64 = 39;

} // verus!
