//! Session core of a bughouse chess server: users, participants, the pairing
//! planner, dual game clocks, the game-state machine and the session registry.

pub mod data;
pub mod game;
pub mod pairings;
pub mod parse;
pub mod event;
pub mod req;
pub mod resp;
pub mod registry;
pub mod session;

pub use data::{AuthToken, SessionId, User, UserId, UserStatus};
