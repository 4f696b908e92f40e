//! The integer `gm_code` of a turn's action.

use vstd::prelude::*;

verus! {

/// The player moves.
pub const GM_DATA_MOV: u64 = 50;

/// The player attacks.
pub const GM_DATA_ATK: u64 = 51;

/// The player skips the turn.
pub const GM_DATA_SKIP: u64 = 52;

} // verus!
