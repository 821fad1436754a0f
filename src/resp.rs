use crate::data::{AuthToken, SessionId, UserId};
use vstd::prelude::*;

verus! {

/// Reply to a session's creation.
#[derive(Clone, Debug)]
pub struct Created {
    pub session_id: SessionId,
    pub user_id: UserId,
    pub auth_token: AuthToken,
}

/// Reply to a join or a reconnection.
#[derive(Clone, Debug)]
pub struct Joined {
    pub user_id: UserId,
    pub user_name: String,
    pub auth_token: AuthToken,
}

} // verus!
