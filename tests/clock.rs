use bughouse_server::game::{Game, Winner, GAME_DURATION_MS};
use bughouse_server::UserId;

fn game() -> Game {
    Game::new(((UserId(1), UserId(2)), (UserId(3), UserId(0))), 100)
}

#[test]
fn board_and_color_table() {
    let g = game();
    assert_eq!(g.board_and_color(&UserId(1)), Some((true, true)));
    assert_eq!(g.board_and_color(&UserId(2)), Some((false, false)));
    assert_eq!(g.board_and_color(&UserId(3)), Some((true, false)));
    assert_eq!(g.board_and_color(&UserId(0)), Some((false, true)));
    assert_eq!(g.board_and_color(&UserId(4)), None);
}

#[test]
fn deduction_saturates_and_respects_pause() {
    let mut g = game();
    g.update_remaining_time(true, false, 1100);
    assert_eq!(g.remaining_of(true, false), GAME_DURATION_MS - 1000);
    g.update_remaining_time(false, true, 100 + GAME_DURATION_MS + 5);
    assert_eq!(g.remaining_of(false, true), 0);
    g.clock.0 .1 = true;
    g.update_remaining_time(true, true, 50_000);
    assert_eq!(g.remaining_of(true, true), GAME_DURATION_MS);
    g.update_remaining_time(false, false, 50);
    assert_eq!(g.remaining_of(false, false), GAME_DURATION_MS);
}

#[test]
fn tick_reanchors_both_boards() {
    let mut g = game();
    g.tick((false, false), 700);
    assert_eq!(g.clock, ((700, false), (700, false)));
    assert_eq!(g.remaining_time, ((GAME_DURATION_MS, GAME_DURATION_MS - 600), (GAME_DURATION_MS - 600, GAME_DURATION_MS)));
}

#[test]
fn extend_adds_time() {
    let mut g = game();
    g.extend_remaining_time(false, false, 3000);
    assert_eq!(g.remaining_of(false, false), GAME_DURATION_MS + 3000);
    g.refresh_clock(false, 900);
    assert_eq!(g.clock.1 .0, 900);
    assert_eq!(g.clock.0 .0, 100);
}

#[test]
fn winner_by_time_then_reported() {
    let mut g = game();
    assert_eq!(g.winner((true, true), Winner::Continue), Winner::Continue);
    assert_eq!(g.winner((true, true), Winner::P), Winner::P);
    g.remaining_time = ((0, GAME_DURATION_MS), (GAME_DURATION_MS, 0));
    assert_eq!(g.winner((true, true), Winner::Continue), Winner::B1);
    assert_eq!(g.winner((false, true), Winner::Continue), Winner::B2);
    assert_eq!(g.winner((false, false), Winner::W1), Winner::W1);
    g.remaining_time = ((GAME_DURATION_MS, 0), (0, GAME_DURATION_MS));
    assert_eq!(g.winner((false, false), Winner::Continue), Winner::W1);
    assert_eq!(g.winner((true, false), Winner::Continue), Winner::W2);
}
