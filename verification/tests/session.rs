use tetris_core::game::{fall_period_ms, Action, Game, GameState};
use tetris_core::grid::{Block, Color, GridPosition};
use tetris_core::lines::is_occupied;
use tetris_core::score::ScoreKeeper;
use tetris_core::tetromino::Shape;

fn stone(x: i32, y: i32) -> Block {
    Block { position: GridPosition { x, y }, color: Color { r: 5, g: 5, b: 5, a: 5 } }
}

fn active_cells(g: &Game) -> Vec<(i32, i32)> {
    let mut v: Vec<(i32, i32)> = g
        .active
        .as_ref()
        .expect("an active piece")
        .blocks
        .iter()
        .map(|p| (p.x, p.y))
        .collect();
    v.sort();
    v
}

#[test]
fn start_spawns_the_buffered_piece() {
    let mut g = Game::new(Shape::T);
    assert_eq!(g.state, GameState::Title);
    g.apply_action(Action::StartGame, Shape::I);
    assert_eq!(g.state, GameState::Playing);
    assert_eq!(g.active.as_ref().unwrap().shape, Shape::T);
    assert_eq!(g.next_piece, Shape::I);
}

#[test]
fn movement_ignored_outside_playing() {
    let mut g = Game::new(Shape::T);
    g.apply_action(Action::MoveLeft, Shape::I);
    g.apply_action(Action::HardDrop, Shape::I);
    assert_eq!(g.state, GameState::Title);
    assert!(g.active.is_none());
    assert!(g.static_blocks.is_empty());
}

#[test]
fn pause_toggles_and_blocks_movement() {
    let mut g = Game::new(Shape::O);
    g.apply_action(Action::StartGame, Shape::O);
    let before = active_cells(&g);
    g.apply_action(Action::TogglePause, Shape::O);
    assert_eq!(g.state, GameState::Paused);
    g.apply_action(Action::MoveLeft, Shape::O);
    assert_eq!(active_cells(&g), before);
    g.apply_action(Action::TogglePause, Shape::O);
    assert_eq!(g.state, GameState::Playing);
    g.apply_action(Action::MoveLeft, Shape::O);
    assert_ne!(active_cells(&g), before);
}

#[test]
fn gravity_descends_after_one_period() {
    let mut g = Game::new(Shape::O);
    g.apply_action(Action::StartGame, Shape::O);
    let before = active_cells(&g);
    g.advance(999, Shape::O);
    assert_eq!(active_cells(&g), before);
    assert_eq!(g.fall_acc_ms, 999);
    g.advance(1, Shape::O);
    let after = active_cells(&g);
    let expected: Vec<(i32, i32)> = before.iter().map(|&(x, y)| (x, y - 1)).collect();
    assert_eq!(after, expected);
    assert_eq!(g.fall_acc_ms, 0);
}

#[test]
fn gravity_periods_shrink_with_level() {
    assert_eq!(fall_period_ms(1), 1000);
    assert_eq!(fall_period_ms(2), 900);
    assert_eq!(fall_period_ms(3), 810);
    assert_eq!(fall_period_ms(4), 729);
    // a single rounding at the end: 1000 * 0.9^7 = 478.29... gives 478
    assert_eq!(fall_period_ms(8), 478);
    // the period bottoms out at one millisecond
    assert_eq!(fall_period_ms(60), 1);
    assert_eq!(fall_period_ms(100), 1);
}

#[test]
fn gravity_landing_runs_the_spawn_cycle() {
    let mut g = Game::new(Shape::O);
    g.apply_action(Action::StartGame, Shape::T);
    // the square starts on rows 19 and 20; nineteen periods put it on
    // the floor, and the twentieth finds the row below blocked and lands
    for _ in 0..20 {
        g.advance(1000, Shape::T);
    }
    for (x, y) in [(4, 0), (5, 0), (4, 1), (5, 1)] {
        assert!(is_occupied(&g.static_blocks, x, y));
    }
    assert_eq!(g.static_blocks.len(), 4);
    assert_eq!(g.state, GameState::Playing);
    assert_eq!(g.active.as_ref().unwrap().shape, Shape::T);
}

#[test]
fn hard_drop_lands_and_respawns() {
    let mut g = Game::new(Shape::I);
    g.apply_action(Action::StartGame, Shape::T);
    g.apply_action(Action::HardDrop, Shape::L);
    // the I piece settled on the floor as static blocks
    for x in 3..7 {
        assert!(is_occupied(&g.static_blocks, x, 0));
    }
    // and the buffered T spawned, with L buffered next
    assert_eq!(g.state, GameState::Playing);
    assert_eq!(g.active.as_ref().unwrap().shape, Shape::T);
    assert_eq!(g.next_piece, Shape::L);
}

#[test]
fn five_squares_clear_two_rows() {
    let mut g = Game::new(Shape::O);
    g.apply_action(Action::StartGame, Shape::O);
    // the square spawns on columns 4 and 5; walk it to each pair of
    // columns and drop it, always drawing another square
    for shift in [-4i32, -2, 0, 2, 4] {
        for _ in 0..shift.abs() {
            let step = if shift < 0 { Action::MoveLeft } else { Action::MoveRight };
            g.apply_action(step, Shape::O);
        }
        g.apply_action(Action::HardDrop, Shape::O);
    }
    // the fifth drop completed rows 0 and 1, which were cleared at once
    assert_eq!(g.score_keeper.lines, 2);
    assert_eq!(g.score_keeper.score, 200);
    assert_eq!(g.score_keeper.level, 1);
    assert!(g.static_blocks.is_empty());
    assert_eq!(g.state, GameState::Playing);
}

#[test]
fn blocked_spawn_is_game_over_and_keeps_board() {
    let g0 = Game {
        static_blocks: vec![stone(4, 19)],
        active: None,
        next_piece: Shape::T,
        score_keeper: ScoreKeeper::new(),
        state: GameState::Title,
        fall_acc_ms: 0,
    };
    let mut g = g0;
    g.apply_action(Action::StartGame, Shape::S);
    assert_eq!(g.state, GameState::GameOver);
    assert!(g.active.is_none());
    // the board was not touched by the failed spawn
    assert_eq!(g.static_blocks.len(), 1);
    assert!(is_occupied(&g.static_blocks, 4, 19));
    // the buffer still advanced
    assert_eq!(g.next_piece, Shape::S);
    assert_eq!(g.score_keeper.score, 0);
}

#[test]
fn reset_from_playing() {
    let mut g = Game::new(Shape::J);
    g.apply_action(Action::StartGame, Shape::J);
    g.apply_action(Action::HardDrop, Shape::J);
    assert!(!g.static_blocks.is_empty());
    g.apply_action(Action::Reset, Shape::J);
    assert_eq!(g.state, GameState::Title);
    assert!(g.static_blocks.is_empty());
    assert!(g.active.is_none());
    assert_eq!(g.score_keeper.score, 0);
    assert_eq!(g.score_keeper.lines, 0);
    assert_eq!(g.score_keeper.level, 1);
}

#[test]
fn reset_from_paused() {
    let mut g = Game::new(Shape::Z);
    g.apply_action(Action::StartGame, Shape::Z);
    g.apply_action(Action::TogglePause, Shape::Z);
    g.apply_action(Action::Reset, Shape::Z);
    assert_eq!(g.state, GameState::Title);
    assert!(g.static_blocks.is_empty());
    assert!(g.active.is_none());
    assert_eq!(g.score_keeper.score, 0);
    assert_eq!(g.score_keeper.lines, 0);
    assert_eq!(g.score_keeper.level, 1);
}

#[test]
fn reset_from_game_over() {
    let mut g = Game {
        static_blocks: vec![stone(4, 19), stone(4, 20)],
        active: None,
        next_piece: Shape::T,
        score_keeper: ScoreKeeper::new(),
        state: GameState::Title,
        fall_acc_ms: 0,
    };
    g.apply_action(Action::StartGame, Shape::T);
    assert_eq!(g.state, GameState::GameOver);
    g.apply_action(Action::Reset, Shape::T);
    assert_eq!(g.state, GameState::Title);
    assert!(g.static_blocks.is_empty());
    assert_eq!(g.score_keeper.level, 1);
}

#[test]
fn reset_ignored_on_title() {
    let mut g = Game::new(Shape::T);
    g.apply_action(Action::Reset, Shape::I);
    assert_eq!(g.state, GameState::Title);
    assert_eq!(g.next_piece, Shape::T);
}

#[test]
fn random_draws_always_give_a_shape() {
    // the random source only ever hands back one of the seven shapes,
    // and the random entry points keep the session consistent
    let mut g = Game::new_random();
    assert_eq!(g.state, GameState::Title);
    g.apply_action_random(Action::StartGame);
    assert_eq!(g.state, GameState::Playing);
    let shapes = [Shape::I, Shape::O, Shape::T, Shape::L, Shape::J, Shape::S, Shape::Z];
    assert!(shapes.contains(&g.active.as_ref().unwrap().shape));
    assert!(shapes.contains(&g.next_piece));
    g.advance_random(1000);
    assert_eq!(g.state, GameState::Playing);
}
