use crate::data::{all_alphanumeric, valid_user_name, AuthToken, SessionId, User, UserId, UserStatus};
use crate::event::{Event, EventType};
use crate::game::{
    fresh_game, position_of, winner_of, ActiveParticipants, Game, GameState, Winner,
    PROMOTE_ADDED_TIME_MS,
};
use crate::parse::{parse_piece, parse_pos, piece_of, square_of, Piece};
use crate::req::Board;
use crate::pairings::{create_pairings, lemma_pairings_in_range, pairing_in_range, pairings, Pairing};
use crate::resp::{Created, Joined};
use std::collections::VecDeque;
use vstd::prelude::*;
use vstd::pervasive::VecAdditionalExecFns;

verus! {

/// Consecutive broadcasts without a subscriber that a session tolerates.
pub const BROADCAST_MAX_FAILURE: usize = 20;

/// Why a command was refused.
#[derive(Clone, Copy, Debug, PartialEq, Eq, Structural)]
pub enum Error {
    AuthTokenInvalid,
    UserNameInvalid,
    SessionIdInvalid,
    MustBeSessionOwner,
    TooManyUsers,
    TooManyParticipants,
    PreconditionFailure,
    IllegalMove,
    CannotParse,
}

/// The first index of `t` in `ts`.
pub open spec fn index_of(ts: Seq<Seq<char>>, t: Seq<char>) -> Option<nat>
    decreases ts.len(),
{
    if ts.len() == 0 {
        None
    } else {
        match index_of(ts.drop_last(), t) {
            Some(i) => Some(i),
            None => if ts.last() == t {
                Some((ts.len() - 1) as nat)
            } else {
                None
            },
        }
    }
}

pub proof fn lemma_index_of(ts: Seq<Seq<char>>, t: Seq<char>)
    ensures
        index_of(ts, t) matches Some(i) ==> i < ts.len() && ts[i as int] == t && forall|j: int|
            0 <= j < i ==> ts[j] != t,
        index_of(ts, t) is None <==> forall|j: int| 0 <= j < ts.len() ==> ts[j] != t,
    decreases ts.len(),
{
    if ts.len() > 0 {
        lemma_index_of(ts.drop_last(), t);
        assert(forall|j: int| 0 <= j < ts.len() - 1 ==> ts.drop_last()[j] == ts[j]);
    }
}

/// `ts[i]` is the first occurrence of its value.
pub proof fn lemma_index_of_first(ts: Seq<Seq<char>>, t: Seq<char>, i: int)
    requires
        0 <= i < ts.len(),
        ts[i] == t,
        forall|j: int| 0 <= j < i ==> ts[j] != t,
    ensures
        index_of(ts, t) == Some(i as nat),
{
    lemma_index_of(ts, t);
}

/// What a user's status is, given the game state and the participants.
pub open spec fn status_for(state: GameState, parts: Seq<UserId>, u: UserId) -> UserStatus {
    let idle = if parts.contains(u) {
        UserStatus::Inactive
    } else {
        UserStatus::Spectator
    };
    match state {
        GameState::Started { game, .. } => match position_of(game.active_participants, u) {
            Some(p) => UserStatus::Active(p.0, p.1),
            None => idle,
        },
        _ => idle,
    }
}

/// The four players of a pairing are distinct participants.
pub open spec fn valid_pairing(ap: ActiveParticipants, parts: Seq<UserId>) -> bool {
    let ((a, b), (c, d)) = ap;
    &&& parts.contains(a) && parts.contains(b) && parts.contains(c) && parts.contains(d)
    &&& a != b && a != c && a != d && b != c && b != d && c != d
}

/// A participant list names known users, each once.
pub open spec fn valid_participants(ps: Seq<UserId>, n: nat) -> bool {
    &&& forall|k: int| 0 <= k < ps.len() ==> (#[trigger] ps[k]).0 < n
    &&& forall|i: int, j: int| 0 <= i < j < ps.len() ==> #[trigger] ps[i] != #[trigger] ps[j]
}

/// The players of pairing `p`, whose numbers `1..=n` index `parts`.
pub open spec fn map_pairing(parts: Seq<UserId>, p: Pairing) -> ActiveParticipants {
    let ((a, b), (c, d)) = p;
    ((parts[a - 1], parts[b - 1]), (parts[c - 1], parts[d - 1]))
}

/// The pairing queue of a participant list.
pub open spec fn pairings_of(parts: Seq<UserId>) -> Seq<ActiveParticipants> {
    pairings(parts.len()).map_values(|p: Pairing| map_pairing(parts, p))
}

proof fn lemma_mapped_pairing(parts: Seq<UserId>, p: Pairing)
    requires
        pairing_in_range(p, parts.len()),
        forall|i: int, j: int| 0 <= i < j < parts.len() ==> #[trigger] parts[i] != #[trigger] parts[j],
    ensures
        valid_pairing(map_pairing(parts, p), parts),
{
    let ((a, b), (c, d)) = p;
    let ia = a - 1;
    let ib = b - 1;
    let ic = c - 1;
    let id = d - 1;
    assert(parts[ia] == parts[ia]);
    assert(parts.contains(parts[ia]));
    assert(parts.contains(parts[ib]));
    assert(parts.contains(parts[ic]));
    assert(parts.contains(parts[id]));
    assert forall|i: int, j: int| 0 <= i < parts.len() && 0 <= j < parts.len() && i != j implies parts[i]
        != parts[j] by {
        if i < j {
            assert(parts[i] != parts[j]);
        } else {
            assert(parts[j] != parts[i]);
        }
    }
}

/// A score raised by one, saturating.
pub open spec fn credit(score: usize) -> usize {
    if score < usize::MAX {
        (score + 1) as usize
    } else {
        score
    }
}

/// The winning team of a game with players `ap`: team one on `W1` or `B2`,
/// team two on `B1` or `W2`, nobody otherwise.
pub open spec fn winners_of(ap: ActiveParticipants, w: Winner) -> Option<(UserId, UserId)> {
    match w {
        Winner::W1 | Winner::B2 => Some(ap.0),
        Winner::B1 | Winner::W2 => Some(ap.1),
        _ => None,
    }
}

/// The event announcing the end of a game won by `ws`.
pub open spec fn game_ended_event(ws: Option<(UserId, UserId)>) -> Event {
    Event {
        caused_by: match ws {
            Some(t) => t.0,
            None => UserId(0),
        },
        ev: EventType::GameEnded { winners: ws },
    }
}

/// `t + d`, saturating.
pub open spec fn add_time(t: u64, d: u64) -> u64 {
    if t as int + d as int <= u64::MAX as int {
        (t + d) as u64
    } else {
        u64::MAX
    }
}

/// What a board request asks of the rules engine.
#[derive(Clone, Copy, Debug, PartialEq, Eq)]
pub enum BoardAction {
    Deploy { piece: Piece, col: usize, row: usize },
    Move { change: [usize; 4] },
    Promote { change: [usize; 4], upgrade_to: Piece },
}

/// An authorised board request: who plays it, on which board and colour,
/// whether white was to move on each board, and what to do.
#[derive(Clone, Copy, Debug, PartialEq, Eq)]
pub struct BoardPlan {
    pub user_id: UserId,
    pub board: bool,
    pub white: bool,
    pub white_active: (bool, bool),
    pub action: BoardAction,
}

pub open spec fn board_token(req: Board) -> Seq<char> {
    match req {
        Board::Deploy { auth_token, .. } => auth_token@,
        Board::Move { auth_token, .. } => auth_token@,
        Board::Promote { auth_token, .. } => auth_token@,
    }
}

/// The game after an accepted board request: on each board the elapsed time
/// taken off the side that was to move and the clock re-anchored at `now`,
/// then the promotion bonus credited to the mover.
pub open spec fn board_applied(game: Game, plan: BoardPlan, now: u64) -> Game {
    let g1 = game.ticked(plan.white_active, now);
    if plan.action is Promote {
        g1.with_remaining(
            plan.board,
            plan.white,
            add_time(g1.remaining(plan.board, plan.white), PROMOTE_ADDED_TIME_MS),
        )
    } else {
        g1
    }
}

pub open spec fn piece_event(plan: BoardPlan) -> Event {
    Event {
        caused_by: plan.user_id,
        ev: match plan.action {
            BoardAction::Deploy { .. } => EventType::PieceDeployed,
            BoardAction::Move { .. } => EventType::PieceMoved,
            BoardAction::Promote { .. } => EventType::PiecePromoted,
        },
    }
}

/// The broadcast counter and termination flag after one broadcast.
pub open spec fn broadcast_step(failures: nat, terminated: bool, delivered: bool) -> (nat, bool) {
    let f = if delivered {
        0
    } else if failures < usize::MAX {
        failures + 1
    } else {
        failures
    };
    (f, terminated || f > BROADCAST_MAX_FAILURE)
}

/// The broadcast counter and termination flag after `k` undelivered broadcasts.
pub open spec fn after_failures(failures: nat, terminated: bool, k: nat) -> (nat, bool)
    decreases k,
{
    if k == 0 {
        (failures, terminated)
    } else {
        let (f, t) = broadcast_step(failures, terminated, false);
        after_failures(f, t, (k - 1) as nat)
    }
}

/// A session's authoritative state.
pub struct Session {
    id: SessionId,
    /// `tokens[i]` authenticates the user with id `i`.
    tokens: Vec<AuthToken>,
    /// `users[i]` is the user with id `i`.
    users: Vec<User>,
    participants: Vec<UserId>,
    queue: VecDeque<ActiveParticipants>,
    game: GameState,
    failed_broadcasts: usize,
    terminated: bool,
    max_user: usize,
    max_participant: usize,
}

impl Session {
    pub closed spec fn session_id(self) -> Seq<char> {
        self.id@
    }

    /// The tokens, indexed by user id.
    pub closed spec fn token_seq(self) -> Seq<Seq<char>> {
        self.tokens@.map_values(|t: AuthToken| t@)
    }

    /// The users, indexed by user id.
    pub closed spec fn user_seq(self) -> Seq<User> {
        self.users@
    }

    pub closed spec fn participant_seq(self) -> Seq<UserId> {
        self.participants@
    }

    pub closed spec fn queue_seq(self) -> Seq<ActiveParticipants> {
        self.queue@
    }

    pub closed spec fn state(self) -> GameState {
        self.game
    }

    pub closed spec fn failures(self) -> nat {
        self.failed_broadcasts as nat
    }

    pub closed spec fn is_terminated(self) -> bool {
        self.terminated
    }

    pub closed spec fn user_cap(self) -> nat {
        self.max_user as nat
    }

    pub closed spec fn participant_cap(self) -> nat {
        self.max_participant as nat
    }

    pub open spec fn user_count(self) -> nat {
        self.user_seq().len()
    }

    /// The id of the user that `t` authenticates.
    pub open spec fn lookup(self, t: Seq<char>) -> Option<nat> {
        index_of(self.token_seq(), t)
    }

    pub open spec fn owner_token(self) -> Seq<char> {
        self.token_seq()[0]
    }

    /// Everything but the users and their tokens is the same.
    pub open spec fn same_lobby(self, o: Session) -> bool {
        &&& self.session_id() == o.session_id()
        &&& self.participant_seq() == o.participant_seq()
        &&& self.queue_seq() == o.queue_seq()
        &&& self.state() == o.state()
        &&& self.failures() == o.failures()
        &&& self.is_terminated() == o.is_terminated()
        &&& self.user_cap() == o.user_cap()
        &&& self.participant_cap() == o.participant_cap()
    }

    /// The users and their tokens, names and scores are the same.
    pub open spec fn same_accounts(self, o: Session) -> bool {
        &&& self.token_seq() == o.token_seq()
        &&& self.user_count() == o.user_count()
        &&& forall|i: int|
            0 <= i < self.user_count() ==> (#[trigger] self.user_seq()[i]).name == o.user_seq()[i].name
                && self.user_seq()[i].score == o.user_seq()[i].score
    }

    /// The queue that the next start draws from: before the first game, every
    /// pairing of the participants.
    pub open spec fn planned_queue(self) -> Seq<ActiveParticipants> {
        if self.state() is Starting {
            pairings_of(self.participant_seq())
        } else {
            self.queue_seq()
        }
    }

    /// Everything but the game state and the scores is the same.
    pub open spec fn same_but_game(self, o: Session) -> bool {
        &&& self.token_seq() == o.token_seq()
        &&& self.user_count() == o.user_count()
        &&& forall|i: int|
            0 <= i < self.user_count() ==> (#[trigger] self.user_seq()[i]).name == o.user_seq()[i].name
        &&& self.session_id() == o.session_id()
        &&& self.participant_seq() == o.participant_seq()
        &&& self.queue_seq() == o.queue_seq()
        &&& self.failures() == o.failures()
        &&& self.is_terminated() == o.is_terminated()
        &&& self.user_cap() == o.user_cap()
        &&& self.participant_cap() == o.participant_cap()
    }

    /// The scores are those of `o`, with the members of `ws` credited.
    pub open spec fn scores_credited(self, o: Session, ws: Option<(UserId, UserId)>) -> bool {
        forall|i: int|
            0 <= i < self.user_count() ==> (#[trigger] self.user_seq()[i]).score == if ws matches Some(t) && (
            t.0 == UserId(i as u8) || t.1 == UserId(i as u8)) {
                credit(o.user_seq()[i].score)
            } else {
                o.user_seq()[i].score
            }
    }

    /// `self` is `o` after game `id`, played as `game`, ended with winner `w`.
    pub open spec fn ended_from(self, o: Session, id: usize, game: Game, w: Winner) -> bool {
        &&& self.state() == GameState::Ended { id }
        &&& self.same_but_game(o)
        &&& self.scores_credited(o, winners_of(game.active_participants, w))
    }

    /// What a board request comes to: the plan, or why it is refused.
    /// `change` is the parsed move, `white_active` whether white is to move on
    /// each board.
    pub open spec fn board_plan(self, req: Board, change: Option<[usize; 4]>, white_active: (bool, bool)) -> Result<BoardPlan, Error> {
        match self.lookup(board_token(req)) {
            None => Err(Error::AuthTokenInvalid),
            Some(i) => match self.state() {
                GameState::Started { game, .. } => match position_of(game.active_participants, UserId(i as u8)) {
                    None => Err(Error::PreconditionFailure),
                    Some(p) => {
                        let (b, w) = p;
                        let to_move = if b {
                            white_active.0
                        } else {
                            white_active.1
                        };
                        let u = UserId(i as u8);
                        match req {
                            Board::Deploy { piece, pos, .. } => match (piece_of(piece@), square_of(pos@)) {
                                (Some(pc), Some(sq)) => Ok(BoardPlan { user_id: u, board: b, white: w, white_active, action: BoardAction::Deploy { piece: pc, col: sq.0, row: sq.1 } }),
                                _ => Err(Error::CannotParse),
                            },
                            Board::Move { .. } => if to_move != w {
                                Err(Error::PreconditionFailure)
                            } else {
                                match change {
                                    Some(c) => Ok(BoardPlan { user_id: u, board: b, white: w, white_active, action: BoardAction::Move { change: c } }),
                                    None => Err(Error::CannotParse),
                                }
                            },
                            Board::Promote { upgrade_to, .. } => if to_move != w {
                                Err(Error::PreconditionFailure)
                            } else {
                                match (change, piece_of(upgrade_to@)) {
                                    (Some(c), Some(pc)) => Ok(BoardPlan { user_id: u, board: b, white: w, white_active, action: BoardAction::Promote { change: c, upgrade_to: pc } }),
                                    _ => Err(Error::CannotParse),
                                }
                            },
                        }
                    },
                },
                _ => Err(Error::PreconditionFailure),
            },
        }
    }

    /// Who resigns, on which board and colour, or why it is refused.
    pub open spec fn resign_plan(self, t: Seq<char>) -> Result<(UserId, bool, bool), Error> {
        match self.lookup(t) {
            None => Err(Error::AuthTokenInvalid),
            Some(i) => match self.state() {
                GameState::Started { game, .. } => match position_of(game.active_participants, UserId(i as u8)) {
                    Some(p) => Ok((UserId(i as u8), p.0, p.1)),
                    None => Err(Error::PreconditionFailure),
                },
                _ => Err(Error::PreconditionFailure),
            },
        }
    }

    /// The ids that some token leads to.
    pub open spec fn user_ids(self) -> Set<nat> {
        Set::new(|i: nat| exists|t: Seq<char>| self.lookup(t) == Some(i))
    }

    pub closed spec fn wf(self) -> bool {
        &&& self.users@.len() == self.tokens@.len()
        &&& 1 <= self.users@.len() <= self.max_user <= 256
        &&& self.max_participant <= 255
        &&& forall|i: int, j: int|
            0 <= i < j < self.tokens@.len() ==> #[trigger] self.tokens@[i]@ != #[trigger] self.tokens@[j]@
        &&& forall|k: int|
            0 <= k < self.participants@.len() ==> (#[trigger] self.participants@[k]).0 < self.users@.len()
        &&& forall|i: int, j: int|
            0 <= i < j < self.participants@.len() ==> #[trigger] self.participants@[i]
                != #[trigger] self.participants@[j]
        &&& self.game matches GameState::Started { game, .. } ==> valid_pairing(
            game.active_participants,
            self.participants@,
        )
        &&& forall|k: int|
            0 <= k < self.queue@.len() ==> valid_pairing(#[trigger] self.queue@[k], self.participants@)
        &&& self.game is Starting ==> self.queue@.len() == 0
        &&& forall|i: int|
            0 <= i < self.users@.len() ==> (#[trigger] self.users@[i]).status == status_for(
                self.game,
                self.participants@,
                UserId(i as u8),
            )
    }

    proof fn lemma_token_seq(self)
        ensures
            self.token_seq().len() == self.tokens@.len(),
            forall|i: int| 0 <= i < self.tokens@.len() ==> #[trigger] self.token_seq()[i] == self.tokens@[i]@,
    {
    }

    /// A session owned by `owner_name`, authenticated by `owner_token`, or
    /// `None` when the name is invalid. The owner's joining is the first event.
    pub fn new(
        id: SessionId,
        owner_name: String,
        owner_token: AuthToken,
        max_user: usize,
        max_participant: usize,
    ) -> (r: Option<(Session, Event)>)
        requires
            1 <= max_user <= 256,
            max_participant <= 255,
        ensures
            r is Some <==> valid_user_name(owner_name@),
            r matches Some((s, e)) ==> {
                &&& s.wf()
                &&& s.session_id() == id@
                &&& s.token_seq() == seq![owner_token@]
                &&& s.user_seq().len() == 1
                &&& s.user_seq()[0].name@ == owner_name@
                &&& s.user_seq()[0].score == 0
                &&& s.participant_seq().len() == 0
                &&& s.queue_seq().len() == 0
                &&& s.state() is Starting
                &&& s.failures() == 0
                &&& !s.is_terminated()
                &&& s.user_cap() == max_user
                &&& s.participant_cap() == max_participant
                &&& e == Event { caused_by: UserId(0), ev: EventType::Joined }
            },
    {
        let owner = match User::new(owner_name) {
            Some(u) => u,
            None => return None,
        };
        let mut users: Vec<User> = Vec::new();
        users.push(owner);
        let mut tokens: Vec<AuthToken> = Vec::new();
        tokens.push(owner_token);
        let s = Session {
            id,
            tokens,
            users,
            participants: Vec::new(),
            queue: VecDeque::new(),
            game: GameState::Starting,
            failed_broadcasts: 0,
            terminated: false,
            max_user,
            max_participant,
        };
        proof {
            s.lemma_token_seq();
            assert(s.token_seq() =~= seq![s.tokens@[0]@]);
            assert(s.participants@ =~= Seq::<UserId>::empty());
        }
        Some((s, Event::new(UserId::owner(), EventType::Joined)))
    }

    /// The id of the user that `auth_token` authenticates.
    pub fn user_id(&self, auth_token: &AuthToken) -> (r: Option<UserId>)
        requires
            self.wf(),
        ensures
            r is Some <==> self.lookup(auth_token@) is Some,
            r matches Some(u) ==> self.lookup(auth_token@) == Some(u.0 as nat),
    {
        proof {
            self.lemma_token_seq();
            lemma_index_of(self.token_seq(), auth_token@);
        }
        let mut i: usize = 0;
        while i < self.tokens.len()
            invariant
                self.wf(),
                i <= self.tokens@.len(),
                forall|j: int| 0 <= j < i ==> self.token_seq()[j] != auth_token@,
            decreases self.tokens@.len() - i,
        {
            if self.tokens[i].same(auth_token) {
                proof {
                    lemma_index_of_first(self.token_seq(), auth_token@, i as int);
                }
                return Some(UserId(i as u8));
            }
            i += 1;
        }
        None
    }

    /// Whether `auth_token` authenticates the owner.
    pub fn is_owner(&self, auth_token: &AuthToken) -> (r: bool)
        requires
            self.wf(),
        ensures
            r == (self.lookup(auth_token@) == Some(0nat)),
    {
        match self.user_id(auth_token) {
            Some(u) => u.0 == 0,
            None => false,
        }
    }

    /// Creates session `id` for `owner_name` with a freshly minted owner
    /// token; `None` when the name is invalid.
    pub fn create(id: SessionId, owner_name: String, max_user: usize, max_participant: usize) -> (r: Option<(Session, Created, Event)>)
        requires
            1 <= max_user <= 256,
            max_participant <= 255,
        ensures
            r is Some <==> valid_user_name(owner_name@),
            r matches Some((s, c, e)) ==> {
                &&& s.wf()
                &&& s.session_id() == id@
                &&& s.token_seq() == seq![c.auth_token@]
                &&& s.user_count() == 1
                &&& s.user_seq()[0].name@ == owner_name@
                &&& s.state() is Starting
                &&& s.participant_seq().len() == 0
                &&& s.failures() == 0
                &&& !s.is_terminated()
                &&& c.session_id@ == id@
                &&& c.user_id == UserId(0)
                &&& c.auth_token@.len() == 32
                &&& all_alphanumeric(c.auth_token@)
                &&& e == Event { caused_by: UserId(0), ev: EventType::Joined }
            },
    {
        let token = AuthToken::new();
        let created = Created { session_id: id.duplicate(), user_id: UserId::owner(), auth_token: token.duplicate() };
        match Session::new(id, owner_name, token, max_user, max_participant) {
            Some((s, e)) => Some((s, created, e)),
            None => None,
        }
    }

    /// Adds a user named `name` with a freshly minted token.
    pub fn add_user(&mut self, name: String) -> (r: Result<(Joined, Event), Error>)
        requires
            old(self).wf(),
        ensures
            final(self).wf(),
            !valid_user_name(name@) ==> r == Err::<(Joined, Event), Error>(Error::UserNameInvalid),
            valid_user_name(name@) && old(self).user_count() >= old(self).user_cap() ==> r == Err::<
                (Joined, Event),
                Error,
            >(Error::TooManyUsers),
            r is Err ==> *final(self) == *old(self),
            r matches Err(e) ==> e == Error::UserNameInvalid || e == Error::TooManyUsers || e
                == Error::AuthTokenInvalid,
            r == Err::<(Joined, Event), Error>(Error::AuthTokenInvalid) ==> {
                &&& valid_user_name(name@)
                &&& old(self).user_count() < old(self).user_cap()
                &&& exists|t: Seq<char>|
                    t.len() == 32 && all_alphanumeric(t) && (#[trigger] old(self).lookup(t)) is Some
            },
            r matches Ok((j, e)) ==> {
                &&& j.user_id.0 as nat == old(self).user_count()
                &&& j.user_id == UserId(old(self).user_count() as u8)
                &&& j.user_name@ == name@
                &&& j.auth_token@.len() == 32
                &&& all_alphanumeric(j.auth_token@)
                &&& old(self).lookup(j.auth_token@) is None
                &&& e == Event { caused_by: j.user_id, ev: EventType::Joined }
                &&& final(self).token_seq() == old(self).token_seq().push(j.auth_token@)
                &&& final(self).user_count() == old(self).user_count() + 1
                &&& final(self).user_seq().drop_last() == old(self).user_seq()
                &&& final(self).user_seq().last().name@ == name@
                &&& final(self).user_seq().last().score == 0
                &&& final(self).same_lobby(*old(self))
            },
    {
        let token = AuthToken::new();
        self.join(name, token)
    }

    /// Adds a user named `user_name` who will authenticate with `auth_token`.
    pub fn join(&mut self, user_name: String, auth_token: AuthToken) -> (r: Result<(Joined, Event), Error>)
        requires
            old(self).wf(),
        ensures
            final(self).wf(),
            !valid_user_name(user_name@) ==> r == Err::<(Joined, Event), Error>(Error::UserNameInvalid),
            valid_user_name(user_name@) && old(self).user_count() >= old(self).user_cap() ==> r == Err::<
                (Joined, Event),
                Error,
            >(Error::TooManyUsers),
            valid_user_name(user_name@) && old(self).user_count() < old(self).user_cap() && old(
                self,
            ).lookup(auth_token@) is Some ==> r == Err::<(Joined, Event), Error>(Error::AuthTokenInvalid),
            valid_user_name(user_name@) && old(self).user_count() < old(self).user_cap() && old(
                self,
            ).lookup(auth_token@) is None ==> r is Ok,
            r is Err ==> *final(self) == *old(self),
            r matches Ok((j, e)) ==> {
                &&& j.user_id.0 as nat == old(self).user_count()
                &&& j.user_id == UserId(old(self).user_count() as u8)
                &&& j.user_name@ == user_name@
                &&& j.auth_token@ == auth_token@
                &&& e == Event { caused_by: j.user_id, ev: EventType::Joined }
                &&& final(self).token_seq() == old(self).token_seq().push(auth_token@)
                &&& final(self).user_count() == old(self).user_count() + 1
                &&& final(self).user_seq().drop_last() == old(self).user_seq()
                &&& final(self).user_seq().last().name@ == user_name@
                &&& final(self).user_seq().last().score == 0
                &&& final(self).same_lobby(*old(self))
            },
    {
        if !crate::data::validate_user_name(user_name.as_str()) {
            return Err(Error::UserNameInvalid);
        }
        if self.users.len() >= self.max_user {
            return Err(Error::TooManyUsers);
        }
        if self.user_id(&auth_token).is_some() {
            return Err(Error::AuthTokenInvalid);
        }
        let name_copy = user_name.clone();
        let user = match User::new(user_name) {
            Some(u) => u,
            None => return Err(Error::UserNameInvalid),
        };
        let user_id = UserId(self.users.len() as u8);
        let ghost old_self = *self;
        let token_copy = auth_token.duplicate();
        proof {
            self.lemma_token_seq();
            lemma_index_of(self.token_seq(), auth_token@);
        }
        self.tokens.push(auth_token);
        self.users.push(user);
        proof {
            self.lemma_token_seq();
            old_self.lemma_token_seq();
            assert(self.token_seq() =~= old_self.token_seq().push(token_copy@));
            assert(self.users@.drop_last() =~= old_self.users@);
            assert forall|i: int, j: int| 0 <= i < j < self.tokens@.len() implies #[trigger] self.tokens@[i]@
                != #[trigger] self.tokens@[j]@ by {
                assert(self.tokens@[i] == old_self.tokens@[i]);
                if j < old_self.tokens@.len() {
                    assert(self.tokens@[j] == old_self.tokens@[j]);
                } else {
                    assert(old_self.token_seq()[i] != token_copy@);
                }
            }
            assert forall|i: int| 0 <= i < self.users@.len() implies (#[trigger] self.users@[i]).status
                == status_for(self.game, self.participants@, UserId(i as u8)) by {
                if i == self.users@.len() - 1 {
                    if self.participants@.contains(UserId(i as u8)) {
                        let k = choose|k: int|
                            0 <= k < self.participants@.len() && self.participants@[k] == UserId(
                                i as u8,
                            );
                        assert(self.participants@[k].0 < old_self.users@.len());
                    }
                    if let GameState::Started { game, .. } = self.game {
                        assert(valid_pairing(game.active_participants, self.participants@));
                    }
                } else {
                    assert(self.users@[i] == old_self.users@[i]);
                }
            }
        }
        Ok((Joined { user_id, user_name: name_copy, auth_token: token_copy }, Event::new(user_id, EventType::Joined)))
    }

    /// The identity behind a known token, for a user connecting again.
    pub fn rejoin(&self, auth_token: &AuthToken) -> (r: Result<Joined, Error>)
        requires
            self.wf(),
        ensures
            r is Err <==> self.lookup(auth_token@) is None,
            r is Err ==> r == Err::<Joined, Error>(Error::AuthTokenInvalid),
            r matches Ok(j) ==> {
                &&& self.lookup(auth_token@) == Some(j.user_id.0 as nat)
                &&& j.user_name@ == self.user_seq()[j.user_id.0 as int].name@
                &&& j.auth_token@ == auth_token@
            },
    {
        match self.user_id(auth_token) {
            Some(u) => {
                proof {
                    lemma_index_of(self.token_seq(), auth_token@);
                    self.lemma_token_seq();
                }
                let name = self.users[u.0 as usize].name.clone();
                Ok(Joined { user_id: u, user_name: name, auth_token: auth_token.duplicate() })
            },
            None => Err(Error::AuthTokenInvalid),
        }
    }

    /// Ends the session at the owner's request.
    pub fn delete(&mut self, auth_token: &AuthToken) -> (r: Result<(), Error>)
        requires
            old(self).wf(),
        ensures
            final(self).wf(),
            r is Ok <==> old(self).lookup(auth_token@) == Some(0nat),
            r is Err ==> r == Err::<(), Error>(Error::MustBeSessionOwner) && *final(self) == *old(self),
            r is Ok ==> final(self).is_terminated() && final(self).same_accounts(*old(self))
                && final(self).user_seq() == old(self).user_seq() && final(self).participant_seq() == old(
                self,
            ).participant_seq() && final(self).queue_seq() == old(self).queue_seq() && final(self).state()
                == old(self).state(),
    {
        if !self.is_owner(auth_token) {
            return Err(Error::MustBeSessionOwner);
        }
        self.terminated = true;
        Ok(())
    }

    fn status_of(&self, u: UserId) -> (r: UserStatus)
        ensures
            r == status_for(self.game, self.participants@, u),
    {
        let mut listed = false;
        let mut i: usize = 0;
        while i < self.participants.len()
            invariant
                i <= self.participants@.len(),
                listed <==> exists|k: int| 0 <= k < i && self.participants@[k] == u,
            decreases self.participants@.len() - i,
        {
            if self.participants[i] == u {
                listed = true;
            }
            i += 1;
        }
        let idle = if listed {
            UserStatus::Inactive
        } else {
            UserStatus::Spectator
        };
        match &self.game {
            GameState::Started { game, .. } => match game.board_and_color(&u) {
                Some((b, w)) => UserStatus::Active(b, w),
                None => idle,
            },
            _ => idle,
        }
    }

    /// Sets every user's status from the participants and the game.
    fn refresh_statuses(&mut self)
        requires
            old(self).users@.len() <= 256,
        ensures
            final(self).users@.len() == old(self).users@.len(),
            forall|i: int|
                0 <= i < final(self).users@.len() ==> (#[trigger] final(self).users@[i]).name == old(
                    self,
                ).users@[i].name && final(self).users@[i].score == old(self).users@[i].score
                    && final(self).users@[i].status == status_for(
                    old(self).game,
                    old(self).participants@,
                    UserId(i as u8),
                ),
            final(self).tokens@ == old(self).tokens@,
            final(self).participants@ == old(self).participants@,
            final(self).queue@ == old(self).queue@,
            final(self).game == old(self).game,
            final(self).id@ == old(self).id@,
            final(self).failed_broadcasts == old(self).failed_broadcasts,
            final(self).terminated == old(self).terminated,
            final(self).max_user == old(self).max_user,
            final(self).max_participant == old(self).max_participant,
    {
        let ghost start = self.users@;
        let mut i: usize = 0;
        while i < self.users.len()
            invariant
                i <= self.users@.len(),
                self.users@.len() == start.len(),
                start.len() <= 256,
                forall|j: int|
                    0 <= j < i ==> (#[trigger] self.users@[j]).name == start[j].name
                        && self.users@[j].score == start[j].score && self.users@[j].status
                        == status_for(self.game, self.participants@, UserId(j as u8)),
                forall|j: int| i <= j < start.len() ==> #[trigger] self.users@[j] == start[j],
                self.tokens@ == old(self).tokens@,
                self.participants@ == old(self).participants@,
                self.queue@ == old(self).queue@,
                self.game == old(self).game,
                self.id@ == old(self).id@,
                self.failed_broadcasts == old(self).failed_broadcasts,
                self.terminated == old(self).terminated,
                self.max_user == old(self).max_user,
                self.max_participant == old(self).max_participant,
            decreases start.len() - i,
        {
            let st = self.status_of(UserId(i as u8));
            let mut tmp = User { name: String::new(), score: 0, status: UserStatus::Spectator };
            self.users.set_and_swap(i, &mut tmp);
            tmp.status = st;
            self.users.set_and_swap(i, &mut tmp);
            i += 1;
        }
    }

    fn check_participants(&self, ps: &Vec<UserId>) -> (r: bool)
        ensures
            r == valid_participants(ps@, self.users@.len() as nat),
    {
        let mut i: usize = 0;
        while i < ps.len()
            invariant
                i <= ps@.len(),
                forall|k: int| 0 <= k < i ==> (#[trigger] ps@[k]).0 < self.users@.len(),
                forall|a: int, b: int| 0 <= a < b < i ==> #[trigger] ps@[a] != #[trigger] ps@[b],
            decreases ps@.len() - i,
        {
            if ps[i].0 as usize >= self.users.len() {
                return false;
            }
            let mut j: usize = 0;
            while j < i
                invariant
                    j <= i < ps@.len(),
                    forall|a: int| 0 <= a < j ==> ps@[a] != ps@[i as int],
                decreases i - j,
            {
                if ps[j] == ps[i] {
                    return false;
                }
                j += 1;
            }
            i += 1;
        }
        true
    }

    /// Replaces the participant list; only the owner may, and only before the
    /// first game.
    pub fn set_participants(&mut self, auth_token: &AuthToken, participants: Vec<UserId>) -> (r: Result<Event, Error>)
        requires
            old(self).wf(),
        ensures
            final(self).wf(),
            old(self).lookup(auth_token@) != Some(0nat) ==> r == Err::<Event, Error>(Error::MustBeSessionOwner),
            old(self).lookup(auth_token@) == Some(0nat) && !(old(self).state() is Starting) ==> r == Err::<
                Event,
                Error,
            >(Error::PreconditionFailure),
            old(self).lookup(auth_token@) == Some(0nat) && old(self).state() is Starting
                && !valid_participants(participants@, old(self).user_count()) ==> r == Err::<
                Event,
                Error,
            >(Error::PreconditionFailure),
            old(self).lookup(auth_token@) == Some(0nat) && old(self).state() is Starting
                && valid_participants(participants@, old(self).user_count()) ==> r is Ok,
            r is Err ==> *final(self) == *old(self),
            r matches Ok(e) ==> {
                &&& e == Event { caused_by: UserId(0), ev: EventType::ParticipantsChanged }
                &&& final(self).participant_seq() == participants@
                &&& final(self).same_accounts(*old(self))
                &&& final(self).queue_seq() == old(self).queue_seq()
                &&& final(self).state() == old(self).state()
                &&& final(self).failures() == old(self).failures()
                &&& final(self).is_terminated() == old(self).is_terminated()
                &&& final(self).session_id() == old(self).session_id()
                &&& final(self).user_cap() == old(self).user_cap()
                &&& final(self).participant_cap() == old(self).participant_cap()
            },
    {
        if !self.is_owner(auth_token) {
            return Err(Error::MustBeSessionOwner);
        }
        if !self.game.is_starting() {
            return Err(Error::PreconditionFailure);
        }
        if !self.check_participants(&participants) {
            return Err(Error::PreconditionFailure);
        }
        let ghost old_self = *self;
        self.participants = participants;
        self.refresh_statuses();
        proof {
            self.lemma_token_seq();
            old_self.lemma_token_seq();
            assert(self.token_seq() =~= old_self.token_seq());
        }
        Ok(Event::new(UserId::owner(), EventType::ParticipantsChanged))
    }

    /// Every pairing of the participants, as a queue.
    fn all_pairings(&self) -> (q: VecDeque<ActiveParticipants>)
        requires
            self.wf(),
            self.participants@.len() <= 255,
        ensures
            q@ == pairings_of(self.participants@),
            forall|k: int| 0 <= k < q@.len() ==> valid_pairing(#[trigger] q@[k], self.participants@),
    {
        let n = self.participants.len();
        let ps = create_pairings(n);
        let ghost parts = self.participants@;
        proof {
            lemma_pairings_in_range(n as nat);
        }
        let mut q: VecDeque<ActiveParticipants> = VecDeque::new();
        let mut k: usize = 0;
        while k < ps.len()
            invariant
                k <= ps@.len(),
                ps@ == pairings(n as nat),
                n == parts.len(),
                parts == self.participants@,
                self.wf(),
                forall|i: int| 0 <= i < ps@.len() ==> pairing_in_range(#[trigger] ps@[i], n as nat),
                q@ == ps@.take(k as int).map_values(|p: Pairing| map_pairing(parts, p)),
                forall|i: int| 0 <= i < q@.len() ==> valid_pairing(#[trigger] q@[i], parts),
            decreases ps@.len() - k,
        {
            let ((a, b), (c, d)) = ps[k];
            assert(pairing_in_range(ps@[k as int], n as nat));
            let ap = (
                (self.participants[(a - 1) as usize], self.participants[(b - 1) as usize]),
                (self.participants[(c - 1) as usize], self.participants[(d - 1) as usize]),
            );
            proof {
                lemma_mapped_pairing(parts, ps@[k as int]);
            }
            q.push_back(ap);
            assert(q@ =~= ps@.take(k as int + 1).map_values(|p: Pairing| map_pairing(parts, p)));
            k += 1;
        }
        assert(ps@.take(k as int) =~= ps@);
        q
    }

    /// Starts the next game from the head of the queue; only the owner may,
    /// with 4 to `max_participant` participants and no game running.
    pub fn start(&mut self, auth_token: &AuthToken, now: u64) -> (r: Result<Event, Error>)
        requires
            old(self).wf(),
        ensures
            final(self).wf(),
            old(self).lookup(auth_token@) != Some(0nat) ==> r == Err::<Event, Error>(Error::MustBeSessionOwner),
            old(self).lookup(auth_token@) == Some(0nat) && old(self).participant_seq().len() < 4 ==> r == Err::<
                Event,
                Error,
            >(Error::PreconditionFailure),
            old(self).lookup(auth_token@) == Some(0nat) && old(self).participant_seq().len() >= 4 && old(
                self,
            ).participant_seq().len() > old(self).participant_cap() ==> r == Err::<Event, Error>(
                Error::TooManyParticipants,
            ),
            old(self).lookup(auth_token@) == Some(0nat) && 4 <= old(self).participant_seq().len() <= old(
                self,
            ).participant_cap() && (old(self).state() is Started || old(self).planned_queue().len() == 0
                || old(self).state().spec_id() == usize::MAX) ==> r == Err::<Event, Error>(
                Error::PreconditionFailure,
            ),
            r is Ok <==> old(self).lookup(auth_token@) == Some(0nat) && 4 <= old(
                self,
            ).participant_seq().len() <= old(self).participant_cap() && !(old(self).state() is Started)
                && old(self).planned_queue().len() > 0 && old(self).state().spec_id() < usize::MAX,
            r is Err ==> *final(self) == *old(self),
            r matches Ok(e) ==> {
                &&& e == Event { caused_by: UserId(0), ev: EventType::GameStarted }
                &&& final(self).state() == GameState::Started {
                    id: (old(self).state().spec_id() + 1) as usize,
                    game: fresh_game(old(self).planned_queue()[0], now),
                }
                &&& final(self).queue_seq() == old(self).planned_queue().drop_first()
                &&& final(self).participant_seq() == old(self).participant_seq()
                &&& final(self).same_accounts(*old(self))
                &&& final(self).failures() == old(self).failures()
                &&& final(self).is_terminated() == old(self).is_terminated()
                &&& final(self).session_id() == old(self).session_id()
                &&& final(self).user_cap() == old(self).user_cap()
                &&& final(self).participant_cap() == old(self).participant_cap()
            },
    {
        if !self.is_owner(auth_token) {
            return Err(Error::MustBeSessionOwner);
        }
        let n = self.participants.len();
        if n < 4 {
            return Err(Error::PreconditionFailure);
        }
        if n > self.max_participant {
            return Err(Error::TooManyParticipants);
        }
        if self.game.did_start() {
            return Err(Error::PreconditionFailure);
        }
        let id = self.game.id();
        if id == usize::MAX {
            return Err(Error::PreconditionFailure);
        }
        let ghost old_self = *self;
        if self.game.is_starting() {
            let q = self.all_pairings();
            if q.len() == 0 {
                return Err(Error::PreconditionFailure);
            }
            self.queue = q;
        } else if self.queue.len() == 0 {
            return Err(Error::PreconditionFailure);
        }
        assert(self.queue@ == old_self.planned_queue());
        let ap = match self.queue.pop_front() {
            Some(ap) => ap,
            None => return Err(Error::PreconditionFailure),
        };
        self.game = GameState::Started { id: id + 1, game: Game::new(ap, now) };
        let ghost mid = *self;
        self.refresh_statuses();
        proof {
            self.lemma_token_seq();
            old_self.lemma_token_seq();
            assert(self.token_seq() =~= old_self.token_seq());
            assert(self.queue@ =~= old_self.planned_queue().drop_first());
            assert forall|k: int| 0 <= k < self.queue@.len() implies valid_pairing(
                #[trigger] self.queue@[k],
                self.participants@,
            ) by {
                assert(self.queue@[k] == mid.queue@[k]);
            }
        }
        Ok(Event::new(UserId::owner(), EventType::GameStarted))
    }

    /// Raises the score of user `u` by one, saturating.
    fn credit_user(&mut self, u: UserId)
        requires
            (u.0 as int) < old(self).users@.len(),
        ensures
            final(self).users@ == old(self).users@.update(
                u.0 as int,
                User { score: credit(old(self).users@[u.0 as int].score), ..old(self).users@[u.0 as int] },
            ),
            final(self).tokens@ == old(self).tokens@,
            final(self).participants@ == old(self).participants@,
            final(self).queue@ == old(self).queue@,
            final(self).game == old(self).game,
            final(self).id@ == old(self).id@,
            final(self).failed_broadcasts == old(self).failed_broadcasts,
            final(self).terminated == old(self).terminated,
            final(self).max_user == old(self).max_user,
            final(self).max_participant == old(self).max_participant,
    {
        let i = u.0 as usize;
        let mut tmp = User { name: String::new(), score: 0, status: UserStatus::Spectator };
        self.users.set_and_swap(i, &mut tmp);
        if tmp.score < usize::MAX {
            tmp.score = tmp.score + 1;
        }
        self.users.set_and_swap(i, &mut tmp);
    }

    /// Ends the running game when a side's time ran out while to move, or the
    /// rules' verdict `reported` decides it: the winners' scores rise by one
    /// and the game is `Ended` under the same id.
    pub fn check_end_conditions(&mut self, white_active: (bool, bool), reported: Winner) -> (r: Option<Event>)
        requires
            old(self).wf(),
        ensures
            final(self).wf(),
            match old(self).state() {
                GameState::Started { id, game } => {
                    let w = winner_of(game, white_active, reported);
                    if w == Winner::Continue {
                        r is None && *final(self) == *old(self)
                    } else {
                        &&& final(self).ended_from(*old(self), id, game, w)
                        &&& r == Some(game_ended_event(winners_of(game.active_participants, w)))
                    }
                },
                _ => r is None && *final(self) == *old(self),
            },
    {
        let (id, game) = match &self.game {
            GameState::Started { id, game } => (*id, *game),
            _ => return None,
        };
        let w = game.winner(white_active, reported);
        let ((u1, u2), (u3, u4)) = game.active_participants;
        let ghost old_self = *self;
        proof {
            assert(valid_pairing(game.active_participants, self.participants@));
            assert(self.participants@.contains(u1));
            assert(self.participants@.contains(u2));
            assert(self.participants@.contains(u3));
            assert(self.participants@.contains(u4));
        }
        let winners = match w {
            Winner::W1 | Winner::B2 => Some((u1, u2)),
            Winner::B1 | Winner::W2 => Some((u3, u4)),
            Winner::P => None,
            Winner::Continue => return None,
        };
        match winners {
            Some((x, y)) => {
                self.credit_user(x);
                self.credit_user(y);
            },
            None => {},
        }
        self.game = GameState::Ended { id };
        self.refresh_statuses();
        proof {
            self.lemma_token_seq();
            old_self.lemma_token_seq();
            assert(self.token_seq() =~= old_self.token_seq());
        }
        let caused_by = match winners {
            Some((x, _)) => x,
            None => UserId::owner(),
        };
        Some(Event::new(caused_by, EventType::GameEnded { winners }))
    }

    /// Reconciles both clocks at `now` and checks whether the game ended.
    pub fn tick(&mut self, now: u64, white_active: (bool, bool), reported: Winner) -> (r: Option<Event>)
        requires
            old(self).wf(),
        ensures
            final(self).wf(),
            match old(self).state() {
                GameState::Started { id, game } => {
                    let g = game.ticked(white_active, now);
                    let w = winner_of(g, white_active, reported);
                    if w == Winner::Continue {
                        &&& r is None
                        &&& final(self).state() == GameState::Started { id, game: g }
                        &&& final(self).same_but_game(*old(self))
                        &&& final(self).scores_credited(*old(self), None)
                    } else {
                        &&& final(self).ended_from(*old(self), id, g, w)
                        &&& r == Some(game_ended_event(winners_of(g.active_participants, w)))
                    }
                },
                _ => r is None && *final(self) == *old(self),
            },
    {
        let ghost old_self = *self;
        match &mut self.game {
            GameState::Started { game, .. } => {
                game.tick(white_active, now);
            },
            _ => {
                return None;
            },
        }
        proof {
            self.lemma_token_seq();
            old_self.lemma_token_seq();
            assert(self.token_seq() =~= old_self.token_seq());
        }
        self.check_end_conditions(white_active, reported)
    }

    /// Authorises a board request. `change` is the move as the rules engine
    /// parsed it; `white_active` tells, per board, whether white is to move.
    pub fn plan_board(&self, req: &Board, change: Option<[usize; 4]>, white_active: (bool, bool)) -> (r: Result<BoardPlan, Error>)
        requires
            self.wf(),
        ensures
            r == self.board_plan(*req, change, white_active),
    {
        let token = match req {
            Board::Deploy { auth_token, .. } => auth_token,
            Board::Move { auth_token, .. } => auth_token,
            Board::Promote { auth_token, .. } => auth_token,
        };
        let user_id = match self.user_id(token) {
            Some(u) => u,
            None => return Err(Error::AuthTokenInvalid),
        };
        let game = match &self.game {
            GameState::Started { game, .. } => game,
            _ => return Err(Error::PreconditionFailure),
        };
        let (b, w) = match game.board_and_color(&user_id) {
            Some(p) => p,
            None => return Err(Error::PreconditionFailure),
        };
        let to_move = if b {
            white_active.0
        } else {
            white_active.1
        };
        match req {
            Board::Deploy { piece, pos, .. } => {
                let pc = match parse_piece(piece.as_str()) {
                    Some(pc) => pc,
                    None => return Err(Error::CannotParse),
                };
                let (col, row) = match parse_pos(pos.as_str()) {
                    Some(sq) => sq,
                    None => return Err(Error::CannotParse),
                };
                Ok(BoardPlan { user_id, board: b, white: w, white_active, action: BoardAction::Deploy { piece: pc, col, row } })
            },
            Board::Move { .. } => {
                if to_move != w {
                    return Err(Error::PreconditionFailure);
                }
                match change {
                    Some(c) => Ok(BoardPlan { user_id, board: b, white: w, white_active, action: BoardAction::Move { change: c } }),
                    None => Err(Error::CannotParse),
                }
            },
            Board::Promote { upgrade_to, .. } => {
                if to_move != w {
                    return Err(Error::PreconditionFailure);
                }
                let c = match change {
                    Some(c) => c,
                    None => return Err(Error::CannotParse),
                };
                match parse_piece(upgrade_to.as_str()) {
                    Some(pc) => Ok(BoardPlan { user_id, board: b, white: w, white_active, action: BoardAction::Promote { change: c, upgrade_to: pc } }),
                    None => Err(Error::CannotParse),
                }
            },
        }
    }

    /// Records the rules engine's answer to a planned board request. When it
    /// was `accepted`, both clocks are reconciled at `now` with the sides that
    /// were to move when it was planned (a promotion then credits the mover a
    /// bonus), and the end of the game is checked with the engine's state
    /// after the change. The piece event comes first, then any end of game.
    pub fn apply_board(
        &mut self,
        plan: &BoardPlan,
        now: u64,
        accepted: bool,
        white_active: (bool, bool),
        reported: Winner,
    ) -> (r: Result<Vec<Event>, Error>)
        requires
            old(self).wf(),
        ensures
            final(self).wf(),
            !accepted ==> r == Err::<Vec<Event>, Error>(Error::IllegalMove),
            accepted && !(old(self).state() is Started) ==> r == Err::<Vec<Event>, Error>(
                Error::PreconditionFailure,
            ),
            r is Err ==> *final(self) == *old(self),
            accepted ==> match old(self).state() {
                GameState::Started { id, game } => {
                    let g = board_applied(game, *plan, now);
                    let w = winner_of(g, white_active, reported);
                    &&& r is Ok
                    &&& if w == Winner::Continue {
                        &&& r->Ok_0@ == seq![piece_event(*plan)]
                        &&& final(self).state() == GameState::Started { id, game: g }
                        &&& final(self).same_but_game(*old(self))
                        &&& final(self).scores_credited(*old(self), None)
                    } else {
                        &&& r->Ok_0@ == seq![
                            piece_event(*plan),
                            game_ended_event(winners_of(g.active_participants, w)),
                        ]
                        &&& final(self).ended_from(*old(self), id, g, w)
                    }
                },
                _ => true,
            },
    {
        if !accepted {
            return Err(Error::IllegalMove);
        }
        let ghost old_self = *self;
        match &mut self.game {
            GameState::Started { game, .. } => {
                game.tick(plan.white_active, now);
                match plan.action {
                    BoardAction::Promote { .. } => {
                        game.extend_remaining_time(plan.board, plan.white, PROMOTE_ADDED_TIME_MS);
                    },
                    _ => {},
                }
            },
            _ => {
                return Err(Error::PreconditionFailure);
            },
        }
        proof {
            self.lemma_token_seq();
            old_self.lemma_token_seq();
            assert(self.token_seq() =~= old_self.token_seq());
        }
        let piece_ev = Event::new(
            plan.user_id,
            match plan.action {
                BoardAction::Deploy { .. } => EventType::PieceDeployed,
                BoardAction::Move { .. } => EventType::PieceMoved,
                BoardAction::Promote { .. } => EventType::PiecePromoted,
            },
        );
        let mut events: Vec<Event> = Vec::new();
        events.push(piece_ev);
        match self.check_end_conditions(white_active, reported) {
            Some(e) => events.push(e),
            None => {},
        }
        Ok(events)
    }

    /// Authorises a resignation: the resigning user, their board and colour.
    pub fn plan_resign(&self, auth_token: &AuthToken) -> (r: Result<(UserId, bool, bool), Error>)
        requires
            self.wf(),
        ensures
            r == self.resign_plan(auth_token@),
    {
        let user_id = match self.user_id(auth_token) {
            Some(u) => u,
            None => return Err(Error::AuthTokenInvalid),
        };
        match &self.game {
            GameState::Started { game, .. } => match game.board_and_color(&user_id) {
                Some((b, w)) => Ok((user_id, b, w)),
                None => Err(Error::PreconditionFailure),
            },
            _ => Err(Error::PreconditionFailure),
        }
    }

    /// Accounts for one broadcast: a delivered one resets the failure counter,
    /// an undelivered one raises it; past `BROADCAST_MAX_FAILURE` the session
    /// terminates. Returns whether the session is still running.
    pub fn record_broadcast(&mut self, delivered: bool) -> (r: bool)
        requires
            old(self).wf(),
        ensures
            final(self).wf(),
            (final(self).failures(), final(self).is_terminated()) == broadcast_step(
                old(self).failures(),
                old(self).is_terminated(),
                delivered,
            ),
            r == !final(self).is_terminated(),
            final(self).user_seq() == old(self).user_seq(),
            final(self).token_seq() == old(self).token_seq(),
            final(self).participant_seq() == old(self).participant_seq(),
            final(self).queue_seq() == old(self).queue_seq(),
            final(self).state() == old(self).state(),
    {
        if delivered {
            self.failed_broadcasts = 0;
        } else if self.failed_broadcasts < usize::MAX {
            self.failed_broadcasts = self.failed_broadcasts + 1;
        }
        if self.failed_broadcasts > BROADCAST_MAX_FAILURE {
            self.terminated = true;
        }
        proof {
            self.lemma_token_seq();
        }
        !self.terminated
    }

    /// The full-state snapshot event sent on the broadcast interval.
    pub fn periodic_event(&self) -> (r: Event)
        ensures
            r == (Event { caused_by: UserId(0), ev: EventType::Periodic }),
    {
        Event::new(UserId::owner(), EventType::Periodic)
    }

    pub fn id(&self) -> (r: &SessionId)
        ensures
            r@ == self.session_id(),
    {
        &self.id
    }

    pub fn users(&self) -> (r: &Vec<User>)
        ensures
            r@ == self.user_seq(),
    {
        &self.users
    }

    pub fn participants(&self) -> (r: &Vec<UserId>)
        ensures
            r@ == self.participant_seq(),
    {
        &self.participants
    }

    pub fn game(&self) -> (r: &GameState)
        ensures
            *r == self.state(),
    {
        &self.game
    }

    pub fn is_closed(&self) -> (r: bool)
        ensures
            r == self.is_terminated(),
    {
        self.terminated
    }

    pub fn failed_broadcasts(&self) -> (r: usize)
        ensures
            r == self.failures(),
    {
        self.failed_broadcasts
    }
}


/// Exactly one token authenticates the owner (user 0): the token the session
/// was created with, which stays first among the tokens.
pub proof fn lemma_owner_unique(s: Session, t: Seq<char>)
    requires
        s.wf(),
    ensures
        s.lookup(s.owner_token()) == Some(0nat),
        s.lookup(t) == Some(0nat) <==> t == s.owner_token(),
{
    s.lemma_token_seq();
    lemma_index_of(s.token_seq(), t);
    lemma_index_of_first(s.token_seq(), s.owner_token(), 0);
}

/// Every known token authenticates exactly one user, the user holding it, and
/// each user's token leads back to that user.
pub proof fn lemma_token_bijection(s: Session, t1: Seq<char>, t2: Seq<char>)
    requires
        s.wf(),
    ensures
        forall|i: int| 0 <= i < s.user_count() ==> s.lookup(#[trigger] s.token_seq()[i]) == Some(i as nat),
        s.lookup(t1) matches Some(i) ==> i < s.user_count() && s.token_seq()[i as int] == t1,
        s.lookup(t1) is Some && s.lookup(t1) == s.lookup(t2) ==> t1 == t2,
{
    s.lemma_token_seq();
    lemma_index_of(s.token_seq(), t1);
    lemma_index_of(s.token_seq(), t2);
    assert forall|i: int| 0 <= i < s.user_count() implies s.lookup(#[trigger] s.token_seq()[i]) == Some(
        i as nat,
    ) by {
        assert forall|j: int| 0 <= j < i implies s.token_seq()[j] != s.token_seq()[i] by {
            assert(s.tokens@[j]@ != s.tokens@[i]@);
        }
        lemma_index_of_first(s.token_seq(), s.token_seq()[i], i);
    }
}

/// The ids that tokens lead to are exactly `0..n` for `n` users.
pub proof fn lemma_ids_contiguous(s: Session)
    requires
        s.wf(),
    ensures
        s.user_ids() == Set::new(|i: nat| i < s.user_count()),
{
    s.lemma_token_seq();
    assert forall|i: nat| #[trigger] s.user_ids().contains(i) <==> i < s.user_count() by {
        if i < s.user_count() {
            lemma_token_bijection(s, s.token_seq()[i as int], s.token_seq()[i as int]);
            assert(s.lookup(s.token_seq()[i as int]) == Some(i));
        }
        if s.user_ids().contains(i) {
            let t = choose|t: Seq<char>| s.lookup(t) == Some(i);
            lemma_index_of(s.token_seq(), t);
        }
    }
    assert(s.user_ids() =~= Set::new(|i: nat| i < s.user_count()));
}

/// Every participant is a known user, and none is listed twice.
pub proof fn lemma_participants_known(s: Session)
    requires
        s.wf(),
    ensures
        valid_participants(s.participant_seq(), s.user_count()),
{
}

/// While a game runs, the four players are distinct participants.
pub proof fn lemma_players_are_participants(s: Session)
    requires
        s.wf(),
    ensures
        s.state() matches GameState::Started { game, .. } ==> valid_pairing(
            game.active_participants,
            s.participant_seq(),
        ),
{
}

/// Each user's status follows from the participant list and the running
/// game: playing users are `Active` on their board and colour, other
/// participants `Inactive`, everyone else a `Spectator`.
pub proof fn lemma_statuses(s: Session)
    requires
        s.wf(),
    ensures
        forall|i: int|
            0 <= i < s.user_count() ==> (#[trigger] s.user_seq()[i]).status == status_for(
                s.state(),
                s.participant_seq(),
                UserId(i as u8),
            ),
{
}

/// Every pairing that `start` can draw (the participants being within the
/// cap, as `start` demands), the first game's included, names four distinct
/// participants.
pub proof fn lemma_planned_pairings(s: Session)
    requires
        s.wf(),
        s.participant_seq().len() <= s.participant_cap(),
    ensures
        forall|k: int|
            0 <= k < s.planned_queue().len() ==> valid_pairing(#[trigger] s.planned_queue()[k], s.participant_seq()),
{
    if s.state() is Starting {
        let parts = s.participant_seq();
        let n = parts.len();
        lemma_pairings_in_range(n);
        assert forall|k: int| 0 <= k < s.planned_queue().len() implies valid_pairing(
            #[trigger] s.planned_queue()[k],
            parts,
        ) by {
            assert(pairing_in_range(pairings(n)[k], n));
            lemma_mapped_pairing(parts, pairings(n)[k]);
        }
    }
}

/// Reconciling the clocks never adds time to anyone.
pub proof fn lemma_tick_never_adds_time(g: Game, white_active: (bool, bool), now: u64, board: bool, white: bool)
    ensures
        g.ticked(white_active, now).remaining(board, white) <= g.remaining(board, white),
{
}

/// A move or a deployment never adds time to anyone; only a promotion earns
/// a bonus.
pub proof fn lemma_board_never_adds_time(g: Game, plan: BoardPlan, now: u64, board: bool, white: bool)
    requires
        !(plan.action is Promote),
    ensures
        board_applied(g, plan, now).remaining(board, white) <= g.remaining(board, white),
{
}

/// When the side to move has no time left, the game ends and the other side
/// of that board is credited; the first board is looked at first.
pub proof fn lemma_end_on_zero(g: Game, white_active: (bool, bool), reported: Winner)
    requires
        g.remaining(true, white_active.0) == 0 || g.remaining(false, white_active.1) == 0,
    ensures
        winner_of(g, white_active, reported) != Winner::Continue,
        g.remaining(true, white_active.0) == 0 ==> winners_of(
            g.active_participants,
            winner_of(g, white_active, reported),
        ) == Some(
            if white_active.0 {
                g.active_participants.1
            } else {
                g.active_participants.0
            },
        ),
        g.remaining(true, white_active.0) != 0 ==> winners_of(
            g.active_participants,
            winner_of(g, white_active, reported),
        ) == Some(
            if white_active.1 {
                g.active_participants.0
            } else {
                g.active_participants.1
            },
        ),
{
}

proof fn lemma_after_failures(f: nat, t: bool, k: nat)
    requires
        f <= usize::MAX,
    ensures
        after_failures(f, t, k).0 == if f + k <= usize::MAX {
            f + k
        } else {
            usize::MAX as nat
        },
        after_failures(f, t, k).1 == (t || (k > 0 && after_failures(f, t, k).0 > BROADCAST_MAX_FAILURE)),
    decreases k,
{
    if k > 0 {
        let (f1, t1) = broadcast_step(f, t, false);
        lemma_after_failures(f1, t1, (k - 1) as nat);
    }
}

/// After `BROADCAST_MAX_FAILURE + 1` broadcasts in a row that reach no
/// subscriber, the session has terminated, whatever the counter was.
pub proof fn lemma_abandonment(failures: nat, terminated: bool)
    requires
        failures <= usize::MAX,
    ensures
        after_failures(failures, terminated, (BROADCAST_MAX_FAILURE + 1) as nat).1,
{
    lemma_after_failures(failures, terminated, (BROADCAST_MAX_FAILURE + 1) as nat);
}

} // verus!
