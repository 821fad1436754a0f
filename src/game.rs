use crate::data::UserId;
use vstd::prelude::*;

verus! {

/// Starting time of each side, in milliseconds.
pub const GAME_DURATION_MS: u64 = 300000;

/// Time credited to a side that promotes a piece, in milliseconds.
pub const PROMOTE_ADDED_TIME_MS: u64 = 3000;

/// Outcome reported for a game: a side of a board won, a draw, or no result yet.
/// `W1`/`B1` are white/black of the first board, `W2`/`B2` of the second.
#[derive(Clone, Copy, Debug, PartialEq, Eq, Structural)]
pub enum Winner {
    W1,
    B1,
    W2,
    B2,
    P,
    Continue,
}

/// The four players of a game: `((a, b), (c, d))`. Team one is `(a, b)`,
/// team two `(c, d)`. On the first board `a` plays white against `c`; on the
/// second board `d` plays white against `b`.
pub type ActiveParticipants = ((UserId, UserId), (UserId, UserId));

/// Time elapsed between `anchor` and `now`, zero when the clock reads earlier.
pub open spec fn elapsed(anchor: u64, now: u64) -> u64 {
    if now >= anchor {
        (now - anchor) as u64
    } else {
        0
    }
}

pub open spec fn saturating_sub(r: u64, d: u64) -> u64 {
    if r >= d {
        (r - d) as u64
    } else {
        0
    }
}

/// The board and colour `(board, white)` played by the user at each position
/// of the active participants.
pub open spec fn position_of(ap: ActiveParticipants, u: UserId) -> Option<(bool, bool)> {
    if ap.0.0 == u {
        Some((true, true))
    } else if ap.0.1 == u {
        Some((false, false))
    } else if ap.1.0 == u {
        Some((true, false))
    } else if ap.1.1 == u {
        Some((false, true))
    } else {
        None
    }
}

/// The winner on time, checking the side to move on the first board, then on
/// the second; otherwise what the rules report.
pub open spec fn winner_of(g: Game, white_active: (bool, bool), reported: Winner) -> Winner {
    if g.remaining(true, white_active.0) == 0 {
        if white_active.0 {
            Winner::B1
        } else {
            Winner::W1
        }
    } else if g.remaining(false, white_active.1) == 0 {
        if white_active.1 {
            Winner::B2
        } else {
            Winner::W2
        }
    } else {
        reported
    }
}

/// A game with both clocks running from `now` and full time for everyone.
pub open spec fn fresh_game(ap: ActiveParticipants, now: u64) -> Game {
    Game {
        active_participants: ap,
        clock: ((now, false), (now, false)),
        remaining_time: ((GAME_DURATION_MS, GAME_DURATION_MS), (GAME_DURATION_MS, GAME_DURATION_MS)),
    }
}

/// One running game.
#[derive(Clone, Copy, Debug)]
pub struct Game {
    pub active_participants: ActiveParticipants,
    /// Per board: the instant (ms) the remaining time was last reconciled,
    /// and whether the clock is paused.
    pub clock: ((u64, bool), (u64, bool)),
    /// Remaining time (ms) of each player, in the layout of
    /// `active_participants`.
    pub remaining_time: ((u64, u64), (u64, u64)),
}

impl Game {
    pub open spec fn anchor(self, board: bool) -> u64 {
        if board {
            self.clock.0.0
        } else {
            self.clock.1.0
        }
    }

    pub open spec fn paused(self, board: bool) -> bool {
        if board {
            self.clock.0.1
        } else {
            self.clock.1.1
        }
    }

    /// Remaining time of the side `white` of `board`.
    pub open spec fn remaining(self, board: bool, white: bool) -> u64 {
        let ((r1, r2), (r3, r4)) = self.remaining_time;
        if board {
            if white {
                r1
            } else {
                r3
            }
        } else {
            if white {
                r4
            } else {
                r2
            }
        }
    }

    pub open spec fn with_remaining(self, board: bool, white: bool, v: u64) -> Game {
        let ((r1, r2), (r3, r4)) = self.remaining_time;
        let rt = if board {
            if white {
                ((v, r2), (r3, r4))
            } else {
                ((r1, r2), (v, r4))
            }
        } else {
            if white {
                ((r1, r2), (r3, v))
            } else {
                ((r1, v), (r3, r4))
            }
        };
        Game { remaining_time: rt, ..self }
    }

    pub open spec fn with_anchor(self, board: bool, now: u64) -> Game {
        let ((a1, paused1), (a2, paused2)) = self.clock;
        let c = if board {
            ((now, paused1), (a2, paused2))
        } else {
            ((a1, paused1), (now, paused2))
        };
        Game { clock: c, ..self }
    }

    /// The time since the anchor of `board` taken off the side to move there,
    /// unless the clock is paused.
    pub open spec fn deducted(self, board: bool, white_to_move: bool, now: u64) -> Game {
        if self.paused(board) {
            self
        } else {
            self.with_remaining(
                board,
                white_to_move,
                saturating_sub(self.remaining(board, white_to_move), elapsed(self.anchor(board), now)),
            )
        }
    }

    /// A game on both boards reconciled at `now`.
    pub open spec fn ticked(self, white_active: (bool, bool), now: u64) -> Game {
        self.deducted(true, white_active.0, now).with_anchor(true, now).deducted(
            false,
            white_active.1,
            now,
        ).with_anchor(false, now)
    }

    /// A game with both clocks running from `now` and full time for everyone.
    pub fn new(active_participants: ActiveParticipants, now: u64) -> (r: Game)
        ensures
            r == fresh_game(active_participants, now),
    {
        Game {
            active_participants,
            clock: ((now, false), (now, false)),
            remaining_time: ((GAME_DURATION_MS, GAME_DURATION_MS), (
                GAME_DURATION_MS,
                GAME_DURATION_MS,
            )),
        }
    }

    /// The board and colour of `user_id`, or `None` when they do not play.
    pub fn board_and_color(&self, user_id: &UserId) -> (r: Option<(bool, bool)>)
        ensures
            r == position_of(self.active_participants, *user_id),
    {
        let ((a, b), (c, d)) = self.active_participants;
        if a == *user_id {
            Some((true, true))
        } else if b == *user_id {
            Some((false, false))
        } else if c == *user_id {
            Some((true, false))
        } else if d == *user_id {
            Some((false, true))
        } else {
            None
        }
    }

    pub fn remaining_of(&self, board: bool, white: bool) -> (r: u64)
        ensures
            r == self.remaining(board, white),
    {
        let ((r1, r2), (r3, r4)) = self.remaining_time;
        if board {
            if white {
                r1
            } else {
                r3
            }
        } else {
            if white {
                r4
            } else {
                r2
            }
        }
    }

    fn set_remaining(&mut self, board: bool, white: bool, v: u64)
        ensures
            *final(self) == old(self).with_remaining(board, white, v),
    {
        let ((r1, r2), (r3, r4)) = self.remaining_time;
        self.remaining_time = if board {
            if white {
                ((v, r2), (r3, r4))
            } else {
                ((r1, r2), (v, r4))
            }
        } else {
            if white {
                ((r1, r2), (r3, v))
            } else {
                ((r1, v), (r3, r4))
            }
        };
    }

    /// Sets the anchor of `board`'s clock to `now`.
    pub fn refresh_clock(&mut self, board: bool, now: u64)
        ensures
            *final(self) == old(self).with_anchor(board, now),
    {
        let ((a1, paused1), (a2, paused2)) = self.clock;
        self.clock = if board {
            ((now, paused1), (a2, paused2))
        } else {
            ((a1, paused1), (now, paused2))
        };
    }

    /// Credits `duration` to the side to move on `board`, saturating.
    pub fn extend_remaining_time(&mut self, board: bool, white_to_move: bool, duration: u64)
        ensures
            *final(self) == old(self).with_remaining(
                board,
                white_to_move,
                if old(self).remaining(board, white_to_move) as int + duration as int
                    <= u64::MAX as int {
                    (old(self).remaining(board, white_to_move) + duration) as u64
                } else {
                    u64::MAX
                },
            ),
    {
        let r = self.remaining_of(board, white_to_move);
        let v = if r <= u64::MAX - duration {
            r + duration
        } else {
            u64::MAX
        };
        self.set_remaining(board, white_to_move, v);
    }

    /// Takes the time elapsed since the anchor of `board` off the side to move
    /// there, saturating at zero; a paused clock is left alone.
    pub fn update_remaining_time(&mut self, board: bool, white_to_move: bool, now: u64)
        ensures
            *final(self) == old(self).deducted(board, white_to_move, now),
    {
        let (c, p) = if board {
            self.clock.0
        } else {
            self.clock.1
        };
        if p {
            return ;
        }
        let e = if now >= c {
            now - c
        } else {
            0
        };
        let r = self.remaining_of(board, white_to_move);
        let v = if r >= e {
            r - e
        } else {
            0
        };
        self.set_remaining(board, white_to_move, v);
    }

    /// Reconciles both boards at `now`; `white_active` tells, per board,
    /// whether white is to move.
    pub fn tick(&mut self, white_active: (bool, bool), now: u64)
        ensures
            *final(self) == old(self).ticked(white_active, now),
    {
        self.update_remaining_time(true, white_active.0, now);
        self.refresh_clock(true, now);
        self.update_remaining_time(false, white_active.1, now);
        self.refresh_clock(false, now);
    }

    /// The winner: a side whose time ran out while to move loses, the first
    /// board checked first; otherwise the rules' verdict `reported`.
    pub fn winner(&self, white_active: (bool, bool), reported: Winner) -> (r: Winner)
        ensures
            r == winner_of(*self, white_active, reported),
    {
        if self.remaining_of(true, white_active.0) == 0 {
            if white_active.0 {
                Winner::B1
            } else {
                Winner::W1
            }
        } else if self.remaining_of(false, white_active.1) == 0 {
            if white_active.1 {
                Winner::B2
            } else {
                Winner::W2
            }
        } else {
            reported
        }
    }
}

/// Where a session stands: in the lobby, playing game `id`, or after game `id`.
#[derive(Clone, Copy, Debug)]
pub enum GameState {
    Starting,
    Started { id: usize, game: Game },
    Ended { id: usize },
}

impl GameState {
    pub open spec fn spec_id(self) -> usize {
        match self {
            GameState::Starting => 0,
            GameState::Started { id, .. } => id,
            GameState::Ended { id } => id,
        }
    }

    pub fn is_starting(&self) -> (r: bool)
        ensures
            r == (*self is Starting),
    {
        match self {
            GameState::Starting => true,
            _ => false,
        }
    }

    pub fn did_start(&self) -> (r: bool)
        ensures
            r == (*self is Started),
    {
        match self {
            GameState::Started { .. } => true,
            _ => false,
        }
    }

    pub fn did_end(&self) -> (r: bool)
        ensures
            r == (*self is Ended),
    {
        match self {
            GameState::Ended { .. } => true,
            _ => false,
        }
    }

    pub fn get(&self) -> (r: Option<&Game>)
        ensures
            r matches Some(g) ==> *self matches GameState::Started { game, .. } && *g == game,
            r is None <==> !(*self is Started),
    {
        match self {
            GameState::Started { game, .. } => Some(game),
            _ => None,
        }
    }

    /// The game id: 0 in the lobby.
    pub fn id(&self) -> (r: usize)
        ensures
            r == self.spec_id(),
    {
        match self {
            GameState::Starting => 0,
            GameState::Started { id, .. } => *id,
            GameState::Ended { id } => *id,
        }
    }
}

} // verus!
