use rand::{distributions::Alphanumeric, thread_rng, Rng};
use vstd::prelude::*;
use vstd::string::StrSliceExecFns;

verus! {

/// Characters minted into session ids and auth tokens.
pub open spec fn is_alphanumeric_ascii(c: char) -> bool {
    let n = c as u32;
    (48 <= n <= 57) || (65 <= n <= 90) || (97 <= n <= 122)
}

pub open spec fn all_alphanumeric(s: Seq<char>) -> bool {
    forall|i: int| 0 <= i < s.len() ==> is_alphanumeric_ascii(#[trigger] s[i])
}

/// Relies on rand's `Alphanumeric` distribution sampled from `thread_rng`:
/// each character is one of `A-Z`, `a-z`, `0-9`.
#[verifier::external_body]
fn rand_alphanum_string(len: usize) -> (r: String)
    ensures
        r@.len() == len,
        all_alphanumeric(r@),
{
    let mut rng = thread_rng();
    std::iter::repeat(()).map(|()| rng.sample(Alphanumeric)).take(len).collect()
}

/// A fresh random auth token: 32 alphanumeric characters.
pub fn rand_auth_token() -> (r: String)
    ensures
        r@.len() == 32,
        all_alphanumeric(r@),
{
    rand_alphanum_string(32)
}

/// A fresh random session id: 4 alphanumeric characters.
pub fn rand_session_id() -> (r: String)
    ensures
        r@.len() == 4,
        all_alphanumeric(r@),
{
    rand_alphanum_string(4)
}

/// Whether `char::is_alphabetic` holds of a character (Unicode `Alphabetic`).
pub uninterp spec fn alphabetic(c: char) -> bool;

/// Unicode `White_Space`: the characters `char::is_whitespace` accepts.
pub open spec fn whitespace(c: char) -> bool {
    let n = c as u32;
    (0x9 <= n <= 0xD) || n == 0x20 || n == 0x85 || n == 0xA0 || n == 0x1680 || (0x2000 <= n
        <= 0x200A) || n == 0x2028 || n == 0x2029 || n == 0x202F || n == 0x205F || n == 0x3000
}

/// Relies on `char::is_alphabetic`.
#[verifier::external_body]
fn char_is_alphabetic(c: char) -> (r: bool)
    ensures
        r == alphabetic(c),
{
    c.is_alphabetic()
}

/// Whether `c` has the Unicode `White_Space` property.
pub fn is_white_space(c: char) -> (r: bool)
    ensures
        r == whitespace(c),
{
    let n = c as u32;
    (0x9 <= n && n <= 0xD) || n == 0x20 || n == 0x85 || n == 0xA0 || n == 0x1680 || (0x2000 <= n
        && n <= 0x200A) || n == 0x2028 || n == 0x2029 || n == 0x202F || n == 0x205F || n == 0x3000
}

/// A display name is valid when it is non-empty and every character is
/// alphabetic or whitespace.
pub open spec fn valid_user_name(s: Seq<char>) -> bool {
    s.len() > 0 && forall|i: int| 0 <= i < s.len() ==> alphabetic(#[trigger] s[i]) || whitespace(s[i])
}

pub fn validate_user_name(name: &str) -> (r: bool)
    ensures
        r == valid_user_name(name@),
{
    let n = name.unicode_len();
    if n == 0 {
        return false;
    }
    let mut i: usize = 0;
    while i < n
        invariant
            n == name@.len(),
            i <= n,
            forall|k: int| 0 <= k < i ==> alphabetic(#[trigger] name@[k]) || whitespace(name@[k]),
        decreases n - i,
    {
        let c = name.get_char(i);
        if !char_is_alphabetic(c) && !is_white_space(c) {
            return false;
        }
        i += 1;
    }
    true
}

/// In-session user id; `0` is the owner.
#[derive(Clone, Copy, Debug, PartialEq, Eq, Structural, Hash)]
pub struct UserId(pub u8);

impl UserId {
    /// The session owner's id.
    pub fn owner() -> (r: UserId)
        ensures
            r.0 == 0,
    {
        UserId(0)
    }

    pub fn new(id: u8) -> (r: UserId)
        ensures
            r.0 == id,
    {
        UserId(id)
    }
}

/// The credential a client presents: an opaque string.
#[derive(Clone, Debug)]
pub struct AuthToken(pub String);

impl View for AuthToken {
    type V = Seq<char>;

    open spec fn view(&self) -> Seq<char> {
        self.0@
    }
}

impl AuthToken {
    /// Mints a fresh token of 32 random alphanumeric characters.
    pub fn new() -> (r: AuthToken)
        ensures
            r@.len() == 32,
            all_alphanumeric(r@),
    {
        AuthToken(rand_auth_token())
    }

    pub fn from_string(s: String) -> (r: AuthToken)
        ensures
            r@ == s@,
    {
        AuthToken(s)
    }

    pub fn as_str(&self) -> (r: &str)
        ensures
            r@ == self@,
    {
        self.0.as_str()
    }

    pub fn same(&self, other: &AuthToken) -> (r: bool)
        ensures
            r == (self@ == other@),
    {
        self.0 == other.0
    }

    pub fn duplicate(&self) -> (r: AuthToken)
        ensures
            r@ == self@,
    {
        AuthToken(self.0.clone())
    }
}

/// Short opaque id of a session.
#[derive(Clone, Debug)]
pub struct SessionId(pub String);

impl View for SessionId {
    type V = Seq<char>;

    open spec fn view(&self) -> Seq<char> {
        self.0@
    }
}

impl SessionId {
    /// Mints a fresh id of 4 random alphanumeric characters.
    pub fn new() -> (r: SessionId)
        ensures
            r@.len() == 4,
            all_alphanumeric(r@),
    {
        SessionId(rand_session_id())
    }

    pub fn from_string(s: String) -> (r: SessionId)
        ensures
            r@ == s@,
    {
        SessionId(s)
    }

    pub fn as_str(&self) -> (r: &str)
        ensures
            r@ == self@,
    {
        self.0.as_str()
    }

    pub fn same(&self, other: &SessionId) -> (r: bool)
        ensures
            r == (self@ == other@),
    {
        self.0 == other.0
    }

    pub fn duplicate(&self) -> (r: SessionId)
        ensures
            r@ == self@,
    {
        SessionId(self.0.clone())
    }
}

/// Whether a user takes part in pairings, and where they play.
#[derive(Clone, Copy, Debug, PartialEq, Eq, Structural)]
pub enum UserStatus {
    /// Playing on `board` (true = first) with `white`.
    Active(bool, bool),
    Inactive,
    Spectator,
}

#[derive(Clone, Debug)]
pub struct User {
    pub name: String,
    pub score: usize,
    pub status: UserStatus,
}

impl User {
    /// A new spectator with score 0, or `None` when the name is invalid.
    pub fn new(name: String) -> (r: Option<User>)
        ensures
            r is Some <==> valid_user_name(name@),
            r matches Some(u) ==> u.name@ == name@ && u.score == 0 && u.status == UserStatus::Spectator,
    {
        if validate_user_name(name.as_str()) {
            Some(User { name, score: 0, status: UserStatus::Spectator })
        } else {
            None
        }
    }

    pub fn name(&self) -> (r: &str)
        ensures
            r@ == self.name@,
    {
        self.name.as_str()
    }

    pub fn score(&self) -> (r: &usize)
        ensures
            *r == self.score,
    {
        &self.score
    }

    pub fn score_mut(&mut self) -> (r: &mut usize)
        ensures
            *r == old(self).score,
            final(self).name == old(self).name,
            final(self).status == old(self).status,
            final(self).score == *final(r),
    {
        &mut self.score
    }

    pub fn is_active(&self) -> (r: bool)
        ensures
            r == (self.status is Active),
    {
        match self.status {
            UserStatus::Active(_, _) => true,
            _ => false,
        }
    }

    pub fn is_inactive(&self) -> (r: bool)
        ensures
            r == (self.status is Inactive),
    {
        match self.status {
            UserStatus::Inactive => true,
            _ => false,
        }
    }

    /// Participants are the users considered for pairings.
    pub fn is_participant(&self) -> (r: bool)
        ensures
            r == !(self.status is Spectator),
    {
        self.is_active() || self.is_inactive()
    }
}

} // verus!
