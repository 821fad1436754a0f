use bughouse_server::event::{Event, EventType};
use bughouse_server::game::{GameState, Winner, GAME_DURATION_MS};
use bughouse_server::pairings::create_pairings;
use bughouse_server::parse::Piece;
use bughouse_server::req::Board;
use bughouse_server::session::{BoardAction, Error, Session, BROADCAST_MAX_FAILURE};
use bughouse_server::{AuthToken, SessionId, UserId, UserStatus};

fn tok(s: &str) -> AuthToken {
    AuthToken::from_string(s.to_string())
}

fn ids(v: &[u8]) -> Vec<UserId> {
    v.iter().map(|&i| UserId(i)).collect()
}

/// Alice owns the session; Bob, Cara and Dan join as users 1, 2 and 3.
fn lobby() -> Session {
    let (mut s, ev) = Session::new(SessionId::from_string("abcd".to_string()), "Alice".to_string(), tok("tokA"), 20, 5).unwrap();
    assert_eq!(ev, Event::new(UserId(0), EventType::Joined));
    for (name, t) in [("Bob", "tokB"), ("Cara", "tokC"), ("Dan", "tokD")] {
        s.join(name.to_string(), tok(t)).unwrap();
    }
    s
}

/// The lobby with participants `[1, 2, 3, 0]` and the first game started at 1000 ms.
fn started() -> Session {
    let mut s = lobby();
    s.set_participants(&tok("tokA"), ids(&[1, 2, 3, 0])).unwrap();
    s.start(&tok("tokA"), 1000).unwrap();
    s
}

fn running_game(s: &Session) -> (usize, bughouse_server::game::Game) {
    match s.game() {
        GameState::Started { id, game } => (*id, *game),
        _ => panic!("no game is running"),
    }
}

#[test]
fn happy_path_create_join_start() {
    let (mut s, _) = Session::new(SessionId::from_string("abcd".to_string()), "Alice".to_string(), tok("tokA"), 20, 5).unwrap();
    let (jb, eb) = s.join("Bob".to_string(), tok("tokB")).unwrap();
    assert_eq!(jb.user_id, UserId(1));
    assert_eq!(jb.user_name, "Bob");
    assert_eq!(jb.auth_token.as_str(), "tokB");
    assert_eq!(eb, Event::new(UserId(1), EventType::Joined));
    let (jc, _) = s.join("Cara".to_string(), tok("tokC")).unwrap();
    assert_eq!(jc.user_id, UserId(2));
    let (jd, _) = s.join("Dan".to_string(), tok("tokD")).unwrap();
    assert_eq!(jd.user_id, UserId(3));
    let e = s.set_participants(&tok("tokA"), ids(&[1, 2, 3, 0])).unwrap();
    assert_eq!(e, Event::new(UserId(0), EventType::ParticipantsChanged));
    let e = s.start(&tok("tokA"), 1000).unwrap();
    assert_eq!(e, Event::new(UserId(0), EventType::GameStarted));
    let (id, game) = running_game(&s);
    assert_eq!(id, 1);
    let parts = [UserId(1), UserId(2), UserId(3), UserId(0)];
    let all: Vec<_> = create_pairings(4)
        .iter()
        .map(|&((a, b), (c, d))| {
            ((parts[a as usize - 1], parts[b as usize - 1]), (parts[c as usize - 1], parts[d as usize - 1]))
        })
        .collect();
    assert_eq!(all.len(), 24);
    assert!(all.contains(&game.active_participants));
    assert_eq!(game.active_participants, ((UserId(1), UserId(2)), (UserId(3), UserId(0))));
    assert_eq!(game.remaining_time, ((GAME_DURATION_MS, GAME_DURATION_MS), (GAME_DURATION_MS, GAME_DURATION_MS)));
    assert_eq!(s.users()[1].status, UserStatus::Active(true, true));
    assert_eq!(s.users()[2].status, UserStatus::Active(false, false));
    assert_eq!(s.users()[3].status, UserStatus::Active(true, false));
    assert_eq!(s.users()[0].status, UserStatus::Active(false, true));
}

#[test]
fn rejoin_returns_same_identity() {
    let s = lobby();
    let j = s.rejoin(&tok("tokB")).unwrap();
    assert_eq!(j.user_id, UserId(1));
    assert_eq!(j.user_name, "Bob");
    assert_eq!(s.users().len(), 4);
    assert_eq!(s.rejoin(&tok("nope")).unwrap_err(), Error::AuthTokenInvalid);
}

#[test]
fn non_owner_cannot_start() {
    let mut s = lobby();
    s.set_participants(&tok("tokA"), ids(&[1, 2, 3, 0])).unwrap();
    assert_eq!(s.start(&tok("tokB"), 1000).unwrap_err(), Error::MustBeSessionOwner);
    assert!(matches!(s.game(), GameState::Starting));
}

#[test]
fn illegal_move_keeps_the_clock() {
    let mut s = started();
    let req = Board::Move { auth_token: tok("tokB"), change: "a0a0".to_string() };
    let plan = s.plan_board(&req, Some([0, 0, 0, 0]), (true, true)).unwrap();
    assert_eq!(plan.user_id, UserId(1));
    assert!(plan.board && plan.white);
    assert_eq!(s.apply_board(&plan, 2500, false, (true, true), Winner::Continue).unwrap_err(), Error::IllegalMove);
    let (_, game) = running_game(&s);
    assert_eq!(game.remaining_of(true, true), GAME_DURATION_MS);
    assert_eq!(game.clock.0 .0, 1000);
}

#[test]
fn clock_exhaustion_awards_the_opponent() {
    let mut s = started();
    let before = s.tick(1000 + 2000, (true, true), Winner::Continue);
    assert!(before.is_none());
    let (_, game) = running_game(&s);
    assert_eq!(game.remaining_of(true, true), GAME_DURATION_MS - 2000);
    assert_eq!(game.remaining_of(false, true), GAME_DURATION_MS - 2000);
    assert_eq!(game.remaining_of(true, false), GAME_DURATION_MS);
    let ev = s.tick(1000 + GAME_DURATION_MS + 1000, (true, true), Winner::Continue).unwrap();
    // White of the first board (Bob, team one) ran out: team two wins.
    assert_eq!(ev, Event::new(UserId(3), EventType::GameEnded { winners: Some((UserId(3), UserId(0))) }));
    assert!(matches!(s.game(), GameState::Ended { id: 1 }));
    assert_eq!(*s.users()[3].score(), 1);
    assert_eq!(*s.users()[0].score(), 1);
    assert_eq!(*s.users()[1].score(), 0);
    assert_eq!(s.users()[1].status, UserStatus::Inactive);
}

#[test]
fn second_board_expiry_with_black_to_move() {
    let mut s = started();
    let ev = s.tick(1000 + GAME_DURATION_MS, (true, false), Winner::Continue).unwrap();
    // Board one's white also ran out and is looked at first.
    assert_eq!(ev.ev, EventType::GameEnded { winners: Some((UserId(3), UserId(0))) });
}

#[test]
fn abandonment_after_too_many_failed_broadcasts() {
    let mut s = lobby();
    for _ in 0..BROADCAST_MAX_FAILURE {
        assert!(s.record_broadcast(false));
    }
    assert!(s.record_broadcast(true));
    assert_eq!(s.failed_broadcasts(), 0);
    for _ in 0..BROADCAST_MAX_FAILURE {
        assert!(s.record_broadcast(false));
    }
    assert!(!s.record_broadcast(false));
    assert!(s.is_closed());
}

#[test]
fn join_errors() {
    let (mut s, _) = Session::new(SessionId::from_string("abcd".to_string()), "Alice".to_string(), tok("tokA"), 2, 5).unwrap();
    assert_eq!(s.join("_INVALID_".to_string(), tok("t1")).unwrap_err(), Error::UserNameInvalid);
    assert_eq!(s.join("".to_string(), tok("t1")).unwrap_err(), Error::UserNameInvalid);
    assert_eq!(s.join("Bob".to_string(), tok("tokA")).unwrap_err(), Error::AuthTokenInvalid);
    s.join("Bob".to_string(), tok("tokB")).unwrap();
    assert_eq!(s.join("Cara".to_string(), tok("tokC")).unwrap_err(), Error::TooManyUsers);
    assert_eq!(s.users().len(), 2);
}

#[test]
fn invalid_owner_name_gives_no_session() {
    assert!(Session::new(SessionId::from_string("abcd".to_string()), "_INVALID_".to_string(), tok("tokA"), 20, 5).is_none());
}

#[test]
fn participant_errors() {
    let mut s = lobby();
    assert_eq!(s.set_participants(&tok("tokB"), ids(&[1, 2, 3, 0])).unwrap_err(), Error::MustBeSessionOwner);
    assert_eq!(s.set_participants(&tok("unknown"), ids(&[1, 2, 3, 0])).unwrap_err(), Error::MustBeSessionOwner);
    assert_eq!(s.set_participants(&tok("tokA"), ids(&[1, 2, 9])).unwrap_err(), Error::PreconditionFailure);
    assert_eq!(s.set_participants(&tok("tokA"), ids(&[1, 2, 1])).unwrap_err(), Error::PreconditionFailure);
    assert_eq!(s.participants().len(), 0);
    s.set_participants(&tok("tokA"), ids(&[1, 2])).unwrap();
    assert_eq!(s.users()[1].status, UserStatus::Inactive);
    assert_eq!(s.users()[3].status, UserStatus::Spectator);
    let mut s = started();
    assert_eq!(s.set_participants(&tok("tokA"), ids(&[1, 2, 3, 0])).unwrap_err(), Error::PreconditionFailure);
}

#[test]
fn start_errors() {
    let mut s = lobby();
    s.set_participants(&tok("tokA"), ids(&[1, 2, 3])).unwrap();
    assert_eq!(s.start(&tok("tokA"), 0).unwrap_err(), Error::PreconditionFailure);
    s.join("Eve".to_string(), tok("tokE")).unwrap();
    s.join("Fay".to_string(), tok("tokF")).unwrap();
    s.set_participants(&tok("tokA"), ids(&[0, 1, 2, 3, 4, 5])).unwrap();
    assert_eq!(s.start(&tok("tokA"), 0).unwrap_err(), Error::TooManyParticipants);
    s.set_participants(&tok("tokA"), ids(&[0, 1, 2, 3, 4])).unwrap();
    s.start(&tok("tokA"), 0).unwrap();
    assert_eq!(s.start(&tok("tokA"), 0).unwrap_err(), Error::PreconditionFailure);
}

#[test]
fn games_follow_the_queue_until_it_runs_out() {
    let mut s = started();
    for k in 1..=24usize {
        let (id, _) = running_game(&s);
        assert_eq!(id, k);
        let ev = s.check_end_conditions((true, true), Winner::P).unwrap();
        assert_eq!(ev, Event::new(UserId(0), EventType::GameEnded { winners: None }));
        if k < 24 {
            s.start(&tok("tokA"), 0).unwrap();
        }
    }
    assert_eq!(s.start(&tok("tokA"), 0).unwrap_err(), Error::PreconditionFailure);
    assert!(matches!(s.game(), GameState::Ended { id: 24 }));
}

#[test]
fn second_game_uses_next_pairing() {
    let mut s = started();
    s.check_end_conditions((true, true), Winner::W1).unwrap();
    assert_eq!(*s.users()[1].score(), 1);
    assert_eq!(*s.users()[2].score(), 1);
    s.start(&tok("tokA"), 5).unwrap();
    let (id, game) = running_game(&s);
    assert_eq!(id, 2);
    assert_eq!(game.active_participants, ((UserId(1), UserId(2)), (UserId(0), UserId(3))));
}

#[test]
fn delete_needs_the_owner() {
    let mut s = lobby();
    assert_eq!(s.delete(&tok("tokB")).unwrap_err(), Error::MustBeSessionOwner);
    assert!(!s.is_closed());
    s.delete(&tok("tokA")).unwrap();
    assert!(s.is_closed());
}

#[test]
fn promotion_credits_the_mover() {
    let mut s = started();
    let req = Board::Promote { auth_token: tok("tokB"), change: "a6a7".to_string(), upgrade_to: "Q".to_string() };
    let plan = s.plan_board(&req, Some([6, 0, 7, 0]), (true, true)).unwrap();
    assert_eq!(plan.action, BoardAction::Promote { change: [6, 0, 7, 0], upgrade_to: Piece::Q });
    let events = s.apply_board(&plan, 3000, true, (false, true), Winner::Continue).unwrap();
    assert_eq!(events, vec![Event::new(UserId(1), EventType::PiecePromoted)]);
    let (_, game) = running_game(&s);
    assert_eq!(game.remaining_of(true, true), GAME_DURATION_MS - 2000 + 3000);
    // The other board's clock is reconciled too.
    assert_eq!(game.remaining_of(false, true), GAME_DURATION_MS - 2000);
    assert_eq!(game.clock.0 .0, 3000);
    assert_eq!(game.clock.1 .0, 3000);
}

#[test]
fn deploy_requests() {
    let mut s = started();
    let req = Board::Deploy { auth_token: tok("tokC"), piece: "q".to_string(), pos: "e4".to_string() };
    let plan = s.plan_board(&req, None, (true, true)).unwrap();
    assert_eq!(plan.action, BoardAction::Deploy { piece: Piece::q, col: 4, row: 4 });
    assert!(!plan.board && !plan.white);
    let events = s.apply_board(&plan, 1500, true, (true, false), Winner::Continue).unwrap();
    assert_eq!(events, vec![Event::new(UserId(2), EventType::PieceDeployed)]);
    let (_, game) = running_game(&s);
    // White was to move on both boards, so Alice's and Bob's time ran.
    assert_eq!(game.remaining_of(false, true), GAME_DURATION_MS - 500);
    assert_eq!(game.remaining_of(true, true), GAME_DURATION_MS - 500);
    assert_eq!(game.remaining_of(false, false), GAME_DURATION_MS);
    let bad_piece = Board::Deploy { auth_token: tok("tokC"), piece: "x".to_string(), pos: "e4".to_string() };
    assert_eq!(s.plan_board(&bad_piece, None, (true, true)).unwrap_err(), Error::CannotParse);
    let bad_square = Board::Deploy { auth_token: tok("tokC"), piece: "q".to_string(), pos: "z9".to_string() };
    assert_eq!(s.plan_board(&bad_square, None, (true, true)).unwrap_err(), Error::CannotParse);
}

#[test]
fn board_request_errors() {
    let mut s = lobby();
    let mv = |t: &str| Board::Move { auth_token: tok(t), change: "e1e3".to_string() };
    assert_eq!(s.plan_board(&mv("tokB"), Some([1, 4, 3, 4]), (true, true)).unwrap_err(), Error::PreconditionFailure);
    s.join("Eve".to_string(), tok("tokE")).unwrap();
    s.set_participants(&tok("tokA"), ids(&[1, 2, 3, 0])).unwrap();
    s.start(&tok("tokA"), 0).unwrap();
    assert_eq!(s.plan_board(&mv("nope"), Some([1, 4, 3, 4]), (true, true)).unwrap_err(), Error::AuthTokenInvalid);
    assert_eq!(s.plan_board(&mv("tokE"), Some([1, 4, 3, 4]), (true, true)).unwrap_err(), Error::PreconditionFailure);
    assert_eq!(s.plan_board(&mv("tokB"), Some([1, 4, 3, 4]), (false, true)).unwrap_err(), Error::PreconditionFailure);
    assert_eq!(s.plan_board(&mv("tokB"), None, (true, true)).unwrap_err(), Error::CannotParse);
    let promote = Board::Promote { auth_token: tok("tokB"), change: "a6a7".to_string(), upgrade_to: "K2".to_string() };
    assert_eq!(s.plan_board(&promote, Some([6, 0, 7, 0]), (true, true)).unwrap_err(), Error::CannotParse);
}

#[test]
fn move_that_ends_the_game() {
    let mut s = started();
    let req = Board::Move { auth_token: tok("tokD"), change: "e6e4".to_string() };
    let plan = s.plan_board(&req, Some([6, 4, 4, 4]), (false, true)).unwrap();
    let events = s.apply_board(&plan, 2000, true, (true, true), Winner::B1).unwrap();
    assert_eq!(
        events,
        vec![
            Event::new(UserId(3), EventType::PieceMoved),
            Event::new(UserId(3), EventType::GameEnded { winners: Some((UserId(3), UserId(0))) }),
        ]
    );
    assert!(matches!(s.game(), GameState::Ended { id: 1 }));
    let after = s.apply_board(&plan, 2500, true, (true, true), Winner::Continue);
    assert_eq!(after.unwrap_err(), Error::PreconditionFailure);
}

#[test]
fn resignation() {
    let mut s = started();
    assert_eq!(s.plan_resign(&tok("tokC")).unwrap(), (UserId(2), false, false));
    assert_eq!(s.plan_resign(&tok("nope")).unwrap_err(), Error::AuthTokenInvalid);
    let ev = s.check_end_conditions((true, true), Winner::W2).unwrap();
    assert_eq!(ev.ev, EventType::GameEnded { winners: Some((UserId(3), UserId(0))) });
    assert_eq!(s.plan_resign(&tok("tokC")).unwrap_err(), Error::PreconditionFailure);
    assert!(s.check_end_conditions((true, true), Winner::W1).is_none());
}

#[test]
fn periodic_snapshot_event() {
    let mut s = lobby();
    assert_eq!(s.periodic_event(), Event::new(UserId(0), EventType::Periodic));
    assert_eq!(s.id().as_str(), "abcd");
    assert!(s.tick(5, (true, true), Winner::W1).is_none());
}

#[test]
fn create_mints_the_owner_token() {
    let (s, created, ev) = Session::create(SessionId::from_string("wxyz".to_string()), "Alice".to_string(), 20, 5).unwrap();
    assert_eq!(created.session_id.as_str(), "wxyz");
    assert_eq!(created.user_id, UserId(0));
    assert_eq!(created.auth_token.as_str().len(), 32);
    assert!(created.auth_token.as_str().chars().all(|c| c.is_ascii_alphanumeric()));
    assert_eq!(ev, Event::new(UserId(0), EventType::Joined));
    assert_eq!(s.user_id(&created.auth_token), Some(UserId(0)));
    assert!(s.is_owner(&created.auth_token));
    assert!(Session::create(SessionId::from_string("wxyz".to_string()), "4lice".to_string(), 20, 5).is_none());
}

#[test]
fn add_user_mints_a_token() {
    let mut s = lobby();
    let (j, ev) = s.add_user("Eve".to_string()).unwrap();
    assert_eq!(j.user_id, UserId(4));
    assert_eq!(j.user_name, "Eve");
    assert_eq!(j.auth_token.as_str().len(), 32);
    assert_eq!(ev, Event::new(UserId(4), EventType::Joined));
    assert_eq!(s.user_id(&j.auth_token), Some(UserId(4)));
    assert!(!s.is_owner(&j.auth_token));
    assert_eq!(s.add_user("E_ve".to_string()).unwrap_err(), Error::UserNameInvalid);
}

#[test]
fn board_command_catches_timeout_on_the_other_board() {
    let mut s = started();
    // Bob (first board, white) moves just before Alice's clock on the second
    // board runs out; the command itself ends the game.
    let req = Board::Move { auth_token: tok("tokB"), change: "e1e3".to_string() };
    let plan = s.plan_board(&req, Some([1, 4, 3, 4]), (true, true)).unwrap();
    let events = s.apply_board(&plan, 1000 + GAME_DURATION_MS, true, (false, true), Winner::Continue).unwrap();
    assert_eq!(
        events,
        vec![
            Event::new(UserId(1), EventType::PieceMoved),
            Event::new(UserId(1), EventType::GameEnded { winners: Some((UserId(1), UserId(2))) }),
        ]
    );
}
