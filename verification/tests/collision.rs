use tetris::board::{empty_color_grid, empty_grid, Color, ColorGrid, Grid, COLS, ROWS};
use tetris::collision::{collide, lock_piece};
use tetris::piece::{new_piece, template, Piece, SHAPE_COUNT};
use tetris::rng::SimpleRng;

fn piece_at(shape: Vec<Vec<u8>>, x: i32, y: i32) -> Piece {
    Piece { shape, x, y, color: Color::Green }
}

fn full_grid() -> Grid {
    [[1; COLS]; ROWS]
}

#[test]
fn empty_grids_are_empty() {
    let grid: Grid = empty_grid();
    let color_grid: ColorGrid = empty_color_grid();
    for row in 0..ROWS {
        for col in 0..COLS {
            assert_eq!(grid[row][col], 0);
            assert_eq!(color_grid[row][col], None);
        }
    }
}

#[test]
fn spawned_piece_is_free_on_an_empty_board() {
    let grid = empty_grid();
    let mut rng = SimpleRng::new(42);
    for _ in 0..200 {
        let piece = new_piece(&mut rng);
        assert!(!collide(&grid, &piece, 0, 0));
    }
}

#[test]
fn every_template_is_free_at_the_spawn_position() {
    let grid = empty_grid();
    for index in 0..SHAPE_COUNT {
        let piece = piece_at(template(index), 4, 0);
        assert!(!collide(&grid, &piece, 0, 0));
    }
}

#[test]
fn spawned_piece_is_free_when_only_lower_rows_are_filled() {
    let mut grid = empty_grid();
    for row in 2..ROWS {
        for col in 0..COLS {
            grid[row][col] = 1;
        }
    }
    let mut rng = SimpleRng::new(7);
    for _ in 0..50 {
        let piece = new_piece(&mut rng);
        assert!(!collide(&grid, &piece, 0, 0));
    }
}

#[test]
fn column_left_of_the_board_collides() {
    let grid = empty_grid();
    let piece = piece_at(vec![vec![1, 1], vec![1, 1]], 0, 5);
    assert!(!collide(&grid, &piece, 0, 0));
    assert!(collide(&grid, &piece, -1, 0));
    let outside = piece_at(vec![vec![1]], -1, 5);
    assert!(collide(&grid, &outside, 0, 0));
}

#[test]
fn column_right_of_the_board_collides() {
    let grid = empty_grid();
    let piece = piece_at(vec![vec![1, 1], vec![1, 1]], 8, 5);
    assert!(!collide(&grid, &piece, 0, 0));
    assert!(collide(&grid, &piece, 1, 0));
    let outside = piece_at(vec![vec![1]], COLS as i32, 5);
    assert!(collide(&grid, &outside, 0, 0));
}

#[test]
fn row_below_the_board_collides() {
    let grid = empty_grid();
    let piece = piece_at(vec![vec![1, 1], vec![1, 1]], 3, 18);
    assert!(!collide(&grid, &piece, 0, 0));
    assert!(collide(&grid, &piece, 0, 1));
    let outside = piece_at(vec![vec![1]], 3, ROWS as i32);
    assert!(collide(&grid, &outside, 0, 0));
}

#[test]
fn overlap_with_a_filled_cell_collides() {
    let mut grid = empty_grid();
    grid[10][4] = 1;
    let piece = piece_at(vec![vec![1, 1], vec![1, 1]], 3, 8);
    assert!(!collide(&grid, &piece, 0, 0));
    assert!(collide(&grid, &piece, 0, 1));
    grid[0][0] = 1;
    let corner = piece_at(vec![vec![1]], 0, 0);
    assert!(collide(&grid, &corner, 0, 0));
}

#[test]
fn empty_shape_cells_collide_with_nothing() {
    let mut grid = empty_grid();
    grid[5][5] = 1;
    // The empty corner of the shape lies on the filled cell.
    let piece = piece_at(vec![vec![1, 0], vec![1, 1]], 4, 5);
    assert!(!collide(&grid, &piece, 0, 0));
    // An empty column may hang over the edge.
    let hanging = piece_at(vec![vec![0, 1], vec![0, 1]], -1, 0);
    assert!(!collide(&grid, &hanging, 0, 0));
}

#[test]
fn piece_above_the_board_is_free() {
    let grid = full_grid();
    let piece = piece_at(vec![vec![1, 1], vec![1, 1]], 4, -2);
    assert!(!collide(&grid, &piece, 0, 0));
    let higher = piece_at(vec![vec![1, 1, 1, 1]], 0, -7);
    assert!(!collide(&grid, &higher, 6, 0));
    assert!(!collide(&grid, &higher, 0, 6));
    assert!(collide(&grid, &higher, 0, 7));
}

#[test]
fn piece_above_the_board_still_minds_the_sides() {
    let grid = empty_grid();
    let piece = piece_at(vec![vec![1, 1]], 9, -3);
    assert!(collide(&grid, &piece, 0, 0));
    assert!(!collide(&grid, &piece, -1, 0));
    let left = piece_at(vec![vec![1, 1]], -1, -3);
    assert!(collide(&grid, &left, 0, 0));
}

#[test]
fn piece_partly_above_the_board_minds_only_its_lower_cells() {
    let mut grid = empty_grid();
    let piece = piece_at(vec![vec![1], vec![1], vec![1]], 2, -1);
    assert!(!collide(&grid, &piece, 0, 0));
    grid[1][2] = 1;
    assert!(collide(&grid, &piece, 0, 0));
}

#[test]
fn only_cells_that_hold_one_are_obstacles() {
    let mut grid = empty_grid();
    grid[3][3] = 2;
    let piece = piece_at(vec![vec![1]], 3, 3);
    assert!(!collide(&grid, &piece, 0, 0));
}

#[test]
fn offsets_are_added_to_the_anchor() {
    let mut grid = empty_grid();
    grid[12][6] = 1;
    let piece = piece_at(vec![vec![1]], 2, 2);
    assert!(collide(&grid, &piece, 4, 10));
    assert!(!collide(&grid, &piece, 4, 9));
    assert!(!collide(&grid, &piece, 3, 10));
    assert!(collide(&grid, &piece, -3, 0));
    assert!(collide(&grid, &piece, 8, 0));
    assert!(collide(&grid, &piece, 0, 18));
    assert!(!collide(&grid, &piece, 0, 17));
}

#[test]
fn collide_takes_the_widest_operands() {
    let grid = empty_grid();
    let piece = piece_at(vec![vec![1]], i32::MAX, i32::MAX);
    assert!(collide(&grid, &piece, i32::MAX, i32::MAX));
    let far_left = piece_at(vec![vec![1]], i32::MIN, 0);
    assert!(collide(&grid, &far_left, i32::MIN, 0));
    let far_up = piece_at(vec![vec![1]], 0, i32::MIN);
    assert!(!collide(&grid, &far_up, 0, i32::MIN));
}

#[test]
fn lock_piece_fills_cells_and_colors() {
    let mut grid = empty_grid();
    let mut color_grid = empty_color_grid();
    let piece = Piece {
        shape: vec![vec![1, 0, 0], vec![1, 1, 1]],
        x: 2,
        y: 17,
        color: Color::Purple,
    };
    lock_piece(&mut grid, &mut color_grid, &piece);
    let filled = [(17, 2), (18, 2), (18, 3), (18, 4)];
    for row in 0..ROWS {
        for col in 0..COLS {
            if filled.contains(&(row, col)) {
                assert_eq!(grid[row][col], 1);
                assert_eq!(color_grid[row][col], Some(Color::Purple));
            } else {
                assert_eq!(grid[row][col], 0);
                assert_eq!(color_grid[row][col], None);
            }
        }
    }
}

#[test]
fn lock_piece_leaves_other_cells_alone() {
    let mut grid = empty_grid();
    let mut color_grid = empty_color_grid();
    grid[19][0] = 1;
    color_grid[19][0] = Some(Color::Red);
    // The empty cells of the shape lie on (17, 3) and (17, 4).
    grid[17][3] = 1;
    color_grid[17][3] = Some(Color::Blue);
    let piece = Piece {
        shape: vec![vec![1, 0, 0], vec![1, 1, 1]],
        x: 2,
        y: 17,
        color: Color::Yellow,
    };
    lock_piece(&mut grid, &mut color_grid, &piece);
    assert_eq!(grid[19][0], 1);
    assert_eq!(color_grid[19][0], Some(Color::Red));
    assert_eq!(grid[17][3], 1);
    assert_eq!(color_grid[17][3], Some(Color::Blue));
    assert_eq!(grid[17][4], 0);
    assert_eq!(color_grid[17][4], None);
    assert_eq!(color_grid[17][2], Some(Color::Yellow));
}

#[test]
fn lock_piece_takes_the_color_over_an_older_one() {
    let mut grid = empty_grid();
    let mut color_grid = empty_color_grid();
    grid[0][4] = 1;
    color_grid[0][4] = Some(Color::Red);
    let piece = Piece { shape: vec![vec![1, 1]], x: 4, y: 0, color: Color::SkyBlue };
    lock_piece(&mut grid, &mut color_grid, &piece);
    assert_eq!(grid[0][4], 1);
    assert_eq!(color_grid[0][4], Some(Color::SkyBlue));
    assert_eq!(color_grid[0][5], Some(Color::SkyBlue));
}

#[test]
fn locked_piece_is_an_obstacle() {
    let mut grid = empty_grid();
    let mut color_grid = empty_color_grid();
    let piece = piece_at(vec![vec![1, 1], vec![1, 1]], 4, 18);
    assert!(!collide(&grid, &piece, 0, 0));
    lock_piece(&mut grid, &mut color_grid, &piece);
    assert!(collide(&grid, &piece, 0, 0));
    let above = piece_at(vec![vec![1, 1], vec![1, 1]], 4, 16);
    assert!(!collide(&grid, &above, 0, 0));
    assert!(collide(&grid, &above, 0, 1));
}
