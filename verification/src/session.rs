//! The session store: every player, every game and every membership, and the
//! operations that change them.

pub mod error;
pub mod index;
pub mod model;
pub mod store;

pub use crate::session::error::SessionError;
pub use crate::session::model::{GameView, MemberView, PlayerView, StoreView, MAP_HEIGHT, MAP_WIDTH, MAX_PSEUDO, TOKEN_LEN};
pub use crate::session::store::{Store, TOKEN_TRIES};
