use crate::data::{AuthToken, UserId};
use vstd::prelude::*;

verus! {

/// Create a session, its owner named `owner_name`.
#[derive(Clone, Debug)]
pub struct Create {
    pub owner_name: String,
}

/// End a session; only its owner may.
#[derive(Clone, Debug)]
pub struct Delete {
    pub auth_token: AuthToken,
}

/// Join a session for the first time, or connect again with a known token.
#[derive(Clone, Debug)]
pub enum Join {
    Connect { auth_token: AuthToken },
    Join { user_name: String },
}

/// Start the next game; only the owner may.
#[derive(Clone, Debug)]
pub struct Start {
    pub auth_token: AuthToken,
}

/// An active participant gives up.
#[derive(Clone, Debug)]
pub struct Resign {
    pub auth_token: AuthToken,
}

/// A change to a chessboard.
#[derive(Clone, Debug)]
pub enum Board {
    /// Place a piece from the pool on square `pos`.
    Deploy { auth_token: AuthToken, piece: String, pos: String },
    /// Move a piece.
    Move { auth_token: AuthToken, change: String },
    /// Move a pawn and upgrade it to `upgrade_to`.
    Promote { auth_token: AuthToken, change: String, upgrade_to: String },
}

/// Replace the list of users who take part in pairings; only the owner may.
#[derive(Clone, Debug)]
pub struct Participants {
    pub auth_token: AuthToken,
    pub participants: Vec<UserId>,
}

} // verus!
