//! The integer tag that every request carries as its `request_type`.

use vstd::prelude::*;

verus! {

/// Terminate the connection.
pub const TERM_CON: u64 = 10;

/// Create a player.
pub const PL_CREAT: u64 = 11;

/// Create a game.
pub const GM_CREAT: u64 = 12;

/// Join a game.
pub const GM_JOIN: u64 = 13;

/// Choose a character.
pub const CHAR_CHOOSING: u64 = 14;

/// Start the game.
pub const GM_START: u64 = 15;

/// A turn's action.
pub const GM_DATA: u64 = 16;

} // verus!
