//! Turn-based two-player match server logic: protocol codes and framing,
//! character statistics, the grid map, the turn resolver and the session
//! store, with their behaviour stated in contracts.

pub mod action_check;
pub mod chance;
pub mod character;
pub mod connection;
pub mod json;
pub mod laws;
pub mod map;
pub mod packet;
pub mod path;
pub mod request;
pub mod response;
pub mod session;
pub mod text;
