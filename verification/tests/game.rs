use tetris::board::{empty_color_grid, empty_grid, Color, ColorGrid, Grid, COLS, ROWS};
use tetris::game::{Game, Input, Phase, Sound, GAME_OVER_FRAMES, SCORE_PER_LINE};

fn idle() -> Input {
    Input { gravity_due: false, left: false, right: false, down: false, rotate: false }
}

fn gravity() -> Input {
    Input { gravity_due: true, ..idle() }
}

fn color_number(color: Color) -> usize {
    match color {
        Color::Red => 1,
        Color::Green => 2,
        Color::Blue => 3,
        Color::Yellow => 4,
        Color::Orange => 5,
        Color::Pink => 6,
        Color::Purple => 7,
        Color::SkyBlue => 8,
    }
}

/// Sum over the filled cells of their position in the playfield, counted
/// from one, row by row.
fn cell_sum(grid: &Grid) -> usize {
    let mut sum = 0;
    for row in 0..ROWS {
        for col in 0..COLS {
            sum += (row * COLS + col + 1) * grid[row][col] as usize;
        }
    }
    sum
}

/// The same sum, each position weighted by the number of its colour.
fn color_sum(color_grid: &ColorGrid) -> usize {
    let mut sum = 0;
    for row in 0..ROWS {
        for col in 0..COLS {
            if let Some(color) = color_grid[row][col] {
                sum += (row * COLS + col + 1) * color_number(color);
            }
        }
    }
    sum
}

#[test]
fn constants_of_a_round() {
    assert_eq!(SCORE_PER_LINE, 1);
    assert_eq!(GAME_OVER_FRAMES, 120);
}

#[test]
fn new_game_is_a_fresh_round() {
    let game = Game::new(42);
    assert_eq!(*game.grid(), empty_grid());
    assert_eq!(*game.color_grid(), empty_color_grid());
    assert_eq!(game.score(), 0);
    assert_eq!(game.phase(), Phase::Playing);
    assert_eq!(game.piece().shape, vec![vec![1, 0, 0], vec![1, 1, 1]]);
    assert_eq!(game.piece().color, Color::Orange);
    assert_eq!((game.piece().x, game.piece().y), (4, 0));
    assert_eq!(game.rng_state(), 378494188);
    assert!(game.has_score_room());
}

#[test]
fn idle_frame_changes_nothing() {
    let mut game = Game::new(42);
    let outcome = game.step(idle());
    assert!(outcome.sounds.is_empty());
    assert!(!outcome.restart_timer);
    assert_eq!((game.piece().x, game.piece().y), (4, 0));
    assert_eq!(game.rng_state(), 378494188);
    assert_eq!(game.phase(), Phase::Playing);
}

#[test]
fn gravity_lets_the_piece_fall_by_one_row() {
    let mut game = Game::new(42);
    let outcome = game.step(gravity());
    assert!(outcome.sounds.is_empty());
    assert!(outcome.restart_timer);
    assert_eq!((game.piece().x, game.piece().y), (4, 1));
}

#[test]
fn left_key_moves_until_the_wall() {
    let mut game = Game::new(42);
    for expected in [3, 2, 1, 0] {
        let outcome = game.step(Input { left: true, ..idle() });
        assert_eq!(outcome.sounds, vec![Sound::Move]);
        assert!(!outcome.restart_timer);
        assert_eq!(game.piece().x, expected);
    }
    for _ in 0..2 {
        let outcome = game.step(Input { left: true, ..idle() });
        assert!(outcome.sounds.is_empty());
        assert_eq!(game.piece().x, 0);
    }
}

#[test]
fn right_key_moves_until_the_wall() {
    let mut game = Game::new(42);
    for expected in [5, 6, 7] {
        let outcome = game.step(Input { right: true, ..idle() });
        assert_eq!(outcome.sounds, vec![Sound::Move]);
        assert_eq!(game.piece().x, expected);
    }
    for _ in 0..3 {
        let outcome = game.step(Input { right: true, ..idle() });
        assert!(outcome.sounds.is_empty());
        assert_eq!(game.piece().x, 7);
    }
}

#[test]
fn left_and_right_in_one_frame_cancel() {
    let mut game = Game::new(42);
    let outcome = game.step(Input { left: true, right: true, ..idle() });
    assert_eq!(outcome.sounds, vec![Sound::Move, Sound::Move]);
    assert_eq!(game.piece().x, 4);
}

#[test]
fn down_key_moves_by_one_row() {
    let mut game = Game::new(42);
    let outcome = game.step(Input { down: true, ..idle() });
    assert_eq!(outcome.sounds, vec![Sound::Move]);
    assert!(!outcome.restart_timer);
    assert_eq!((game.piece().x, game.piece().y), (4, 1));
}

#[test]
fn turn_key_turns_clockwise() {
    let mut game = Game::new(42);
    let turns: Vec<Vec<Vec<u8>>> = vec![
        vec![vec![1, 1], vec![1, 0], vec![1, 0]],
        vec![vec![1, 1, 1], vec![0, 0, 1]],
        vec![vec![0, 1], vec![0, 1], vec![1, 1]],
        vec![vec![1, 0, 0], vec![1, 1, 1]],
    ];
    for expected in turns {
        let outcome = game.step(Input { rotate: true, ..idle() });
        assert_eq!(outcome.sounds, vec![Sound::Move]);
        assert_eq!(game.piece().shape, expected);
        assert_eq!((game.piece().x, game.piece().y), (4, 0));
        assert_eq!(game.piece().color, Color::Orange);
    }
}

#[test]
fn turn_that_would_leave_the_board_is_refused() {
    let mut game = Game::new(6);
    assert_eq!(game.piece().shape, vec![vec![1, 1, 1, 1]]);
    game.step(Input { rotate: true, ..idle() });
    assert_eq!(game.piece().shape, vec![vec![1], vec![1], vec![1], vec![1]]);
    for _ in 0..5 {
        game.step(Input { right: true, ..idle() });
    }
    assert_eq!(game.piece().x, 9);
    let outcome = game.step(Input { rotate: true, ..idle() });
    assert!(outcome.sounds.is_empty());
    assert_eq!(game.piece().shape, vec![vec![1], vec![1], vec![1], vec![1]]);
    assert_eq!(game.piece().x, 9);
}

#[test]
fn timer_is_served_before_the_keys() {
    let mut game = Game::new(42);
    let outcome =
        game.step(Input { gravity_due: true, left: true, right: false, down: true, rotate: true });
    assert_eq!(outcome.sounds, vec![Sound::Move, Sound::Move, Sound::Move]);
    assert!(outcome.restart_timer);
    assert_eq!((game.piece().x, game.piece().y), (3, 2));
    assert_eq!(game.piece().shape, vec![vec![1, 1], vec![1, 0], vec![1, 0]]);
}

#[test]
fn gravity_on_the_floor_locks_the_piece() {
    let mut game = Game::new(42);
    for _ in 0..18 {
        let outcome = game.step(gravity());
        assert!(outcome.sounds.is_empty());
    }
    assert_eq!(game.piece().y, 18);
    let outcome = game.step(gravity());
    assert_eq!(outcome.sounds, vec![Sound::Lock]);
    assert!(outcome.restart_timer);
    assert_eq!(game.phase(), Phase::Playing);
    assert_eq!(game.score(), 0);
    // The second piece of seed 42 stands at the spawn position.
    assert_eq!(game.piece().shape, vec![vec![1, 0, 0], vec![1, 1, 1]]);
    assert_eq!(game.piece().color, Color::Purple);
    assert_eq!((game.piece().x, game.piece().y), (4, 0));
    assert_eq!(game.rng_state(), 955863294);
    let mut expected = empty_grid();
    let mut expected_colors = empty_color_grid();
    for (row, col) in [(18, 4), (19, 4), (19, 5), (19, 6)] {
        expected[row][col] = 1;
        expected_colors[row][col] = Some(Color::Orange);
    }
    assert_eq!(*game.grid(), expected);
    assert_eq!(*game.color_grid(), expected_colors);
}

#[test]
fn down_key_on_the_floor_locks_at_once() {
    let mut game = Game::new(42);
    for _ in 0..18 {
        game.step(gravity());
    }
    let outcome = game.step(Input { down: true, ..idle() });
    assert_eq!(outcome.sounds, vec![Sound::LineClear]);
    assert!(outcome.restart_timer);
    assert_eq!(game.piece().color, Color::Purple);
    assert_eq!((game.piece().x, game.piece().y), (4, 0));
    assert_eq!(game.rng_state(), 955863294);
    assert_eq!(cell_sum(game.grid()), 773);
    assert_eq!(color_sum(game.color_grid()), 3865);
}

#[test]
fn round_is_lost_when_the_stack_reaches_the_top() {
    let mut game = Game::new(42);
    let mut frames = 0;
    let mut last = game.step(gravity());
    frames += 1;
    while game.phase() == Phase::Playing {
        last = game.step(gravity());
        frames += 1;
    }
    assert_eq!(frames, 111);
    assert_eq!(last.sounds, vec![Sound::Lock, Sound::GameOver]);
    assert!(last.restart_timer);
    assert_eq!(game.phase(), Phase::GameOverAnimating(119));
    assert_eq!(game.score(), 0);
    assert_eq!(game.rng_state(), 1112253922);
    assert_eq!(game.piece().shape, vec![vec![1, 1, 0], vec![0, 1, 1]]);
    assert_eq!(game.piece().color, Color::Blue);
    assert_eq!(cell_sum(game.grid()), 4334);
    assert_eq!(color_sum(game.color_grid()), 19084);
}

#[test]
fn down_key_can_end_the_round() {
    let mut game = Game::new(0);
    let pressing = Input { down: true, rotate: true, ..idle() };
    let mut frames = 0;
    let mut last = game.step(pressing);
    frames += 1;
    while game.phase() == Phase::Playing {
        last = game.step(pressing);
        frames += 1;
    }
    assert_eq!(frames, 74);
    // The piece that ended the round was not turned after it was spawned.
    assert_eq!(last.sounds, vec![Sound::LineClear, Sound::GameOver]);
    assert!(last.restart_timer);
    assert_eq!(game.phase(), Phase::GameOverAnimating(119));
    assert_eq!(game.piece().shape, vec![vec![1, 1], vec![1, 1]]);
    assert_eq!(game.piece().color, Color::Blue);
    assert_eq!((game.piece().x, game.piece().y), (4, 0));
    assert_eq!(game.score(), 0);
    assert_eq!(game.rng_state(), 1338634754);
    assert_eq!(cell_sum(game.grid()), 2875);
    assert_eq!(color_sum(game.color_grid()), 11619);
}

#[test]
fn falling_piece_never_overlaps_the_stack() {
    let mut game = Game::new(99);
    for frame in 0..3000 {
        let input = Input {
            gravity_due: frame % 3 == 0,
            left: frame % 4 == 1,
            right: frame % 6 == 2,
            down: frame % 5 == 3,
            rotate: frame % 7 == 4,
        };
        game.step(input);
        let hit = tetris::collision::collide(game.grid(), game.piece(), 0, 0);
        assert_eq!(hit, game.phase() != Phase::Playing);
    }
}

#[test]
fn end_of_a_round_is_shown_for_its_frames_and_then_reset() {
    let mut game = Game::new(42);
    while game.phase() == Phase::Playing {
        game.step(gravity());
    }
    let busy = Input { gravity_due: true, left: true, right: false, down: true, rotate: true };
    // The frame that lost the round was the first to show its end.
    for shown in 2..=GAME_OVER_FRAMES {
        let outcome = game.step(busy);
        assert_eq!(outcome.sounds, vec![Sound::GameOver]);
        assert!(!outcome.restart_timer);
        let left = GAME_OVER_FRAMES - shown;
        if left == 0 {
            assert_eq!(game.phase(), Phase::Resetting);
        } else {
            assert_eq!(game.phase(), Phase::GameOverAnimating(left));
        }
        // Nothing else moves while the end is shown.
        assert_eq!(game.rng_state(), 1112253922);
        assert_eq!(cell_sum(game.grid()), 4334);
        assert_eq!((game.piece().x, game.piece().y), (4, 0));
    }
    // The next frame starts a new round and serves the keys, not the timer.
    let outcome = game.step(busy);
    assert_eq!(outcome.sounds, vec![Sound::Move, Sound::Move, Sound::Move]);
    assert!(outcome.restart_timer);
    assert_eq!(game.phase(), Phase::Playing);
    assert_eq!(game.score(), 0);
    assert_eq!(*game.grid(), empty_grid());
    assert_eq!(*game.color_grid(), empty_color_grid());
    assert_eq!(game.piece().shape, vec![vec![1, 0], vec![1, 0], vec![1, 1]]);
    assert_eq!(game.piece().color, Color::Orange);
    assert_eq!((game.piece().x, game.piece().y), (3, 1));
    // The generator went on from where it stood.
    assert_eq!(game.rng_state(), 3528319844);
}

#[test]
fn cells_and_colors_stay_in_step_through_a_round() {
    let mut game = Game::new(2024);
    for frame in 0..3000 {
        let input = Input {
            gravity_due: frame % 2 == 0,
            left: frame % 7 == 1,
            right: frame % 5 == 2,
            down: frame % 11 == 3,
            rotate: frame % 13 == 4,
        };
        game.step(input);
        for row in 0..ROWS {
            for col in 0..COLS {
                assert_eq!(game.grid()[row][col] == 1, game.color_grid()[row][col].is_some());
                assert!(game.grid()[row][col] <= 1);
            }
        }
        assert!(game.score() >= 0);
        assert!(game.piece().y >= 0);
    }
}

struct Mark {
    frame: usize,
    score: i32,
    x: i32,
    y: i32,
    shape: Vec<Vec<u8>>,
    color: Color,
    cell_sum: usize,
    color_sum: usize,
    rng_state: u32,
    sounds: [usize; 4],
    restarts: usize,
}

#[test]
fn scripted_round_follows_the_pinned_trace() {
    let marks = vec![
        Mark {
            frame: 1,
            score: 0,
            x: 3,
            y: 1,
            shape: vec![vec![1, 0, 0], vec![1, 1, 1]],
            color: Color::Orange,
            cell_sum: 0,
            color_sum: 0,
            rng_state: 378494188,
            sounds: [1, 0, 0, 0],
            restarts: 1,
        },
        Mark {
            frame: 100,
            score: 0,
            x: 6,
            y: 1,
            shape: vec![vec![1, 1, 0], vec![0, 1, 1]],
            color: Color::Blue,
            cell_sum: 1924,
            color_sum: 9122,
            rng_state: 508781842,
            sounds: [18, 3, 0, 0],
            restarts: 50,
        },
        Mark {
            frame: 1000,
            score: 0,
            x: 1,
            y: 4,
            shape: vec![vec![1, 1, 1, 1]],
            color: Color::Red,
            cell_sum: 8849,
            color_sum: 37699,
            rng_state: 657804912,
            sounds: [168, 35, 6, 120],
            restarts: 443,
        },
        Mark {
            frame: 3508,
            score: 0,
            x: 4,
            y: 18,
            shape: vec![vec![1, 1, 1], vec![0, 0, 1]],
            color: Color::Blue,
            cell_sum: 2271,
            color_sum: 9827,
            rng_state: 175654834,
            sounds: [545, 131, 10, 720],
            restarts: 1405,
        },
        Mark {
            frame: 3509,
            score: 1,
            x: 4,
            y: 0,
            shape: vec![vec![1, 1, 0], vec![0, 1, 1]],
            color: Color::Orange,
            cell_sum: 1171,
            color_sum: 4675,
            rng_state: 392918452,
            sounds: [545, 132, 10, 720],
            restarts: 1406,
        },
        Mark {
            frame: 4000,
            score: 1,
            x: 3,
            y: 1,
            shape: vec![vec![1, 1], vec![1, 1]],
            color: Color::Purple,
            cell_sum: 11238,
            color_sum: 45526,
            rng_state: 3306639630,
            sounds: [640, 153, 10, 720],
            restarts: 1651,
        },
    ];

    let mut game = Game::new(42);
    let mut spawns: i32 = 0;
    let mut sounds = [0usize; 4];
    let mut restarts = 0;
    let mut next_mark = 0;
    for frame in 0..4000usize {
        // Steer each piece to a column of its own, fall every other frame,
        // and press down and turn now and then.
        let target = (spawns * 2) % 9;
        let input = Input {
            gravity_due: frame % 2 == 0,
            left: game.piece().x > target,
            right: game.piece().x < target,
            down: frame % 29 == 7,
            rotate: frame % 17 == 5,
        };
        assert!(game.has_score_room());
        let state_before = game.rng_state();
        let outcome = game.step(input);
        if game.rng_state() != state_before {
            spawns += 1;
        }
        for sound in outcome.sounds {
            match sound {
                Sound::Move => sounds[0] += 1,
                Sound::Lock => sounds[1] += 1,
                Sound::LineClear => sounds[2] += 1,
                Sound::GameOver => sounds[3] += 1,
            }
        }
        if outcome.restart_timer {
            restarts += 1;
        }
        if next_mark < marks.len() && marks[next_mark].frame == frame + 1 {
            let mark = &marks[next_mark];
            assert_eq!(game.score(), mark.score, "score after frame {}", mark.frame);
            assert_eq!((game.piece().x, game.piece().y), (mark.x, mark.y));
            assert_eq!(game.piece().shape, mark.shape);
            assert_eq!(game.piece().color, mark.color);
            assert_eq!(game.phase(), Phase::Playing);
            assert_eq!(cell_sum(game.grid()), mark.cell_sum);
            assert_eq!(color_sum(game.color_grid()), mark.color_sum);
            assert_eq!(game.rng_state(), mark.rng_state);
            assert_eq!(sounds, mark.sounds);
            assert_eq!(restarts, mark.restarts);
            next_mark += 1;
        }
    }
    assert_eq!(next_mark, marks.len());
}
