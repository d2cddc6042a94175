//! Whether a piece may stand at a position, and merging it into the
//! playfield once it has come to rest.

use crate::board::{cells_of, colors_of, in_sync, Color, ColorGrid, Grid, COLS, ROWS};
use crate::piece::{spawned_piece, Piece, PieceView, SPAWN_X, SPAWN_Y};
use vstd::prelude::*;

verus! {

impl PieceView {
    /// Row `r`, column `c` of the shape exists and is not empty: the cells
    /// that take part in collisions.
    pub open spec fn solid(self, r: int, c: int) -> bool {
        &&& 0 <= r < self.cells.len()
        &&& 0 <= c < self.cells[r].len()
        &&& self.cells[r][c] != 0
    }

    /// Row `r`, column `c` of the shape exists and holds 1: the cells that
    /// are written into the playfield when the piece locks. In a shape of
    /// zeros and ones these are the solid cells.
    pub open spec fn filled(self, r: int, c: int) -> bool {
        &&& 0 <= r < self.cells.len()
        &&& 0 <= c < self.cells[r].len()
        &&& self.cells[r][c] == 1
    }

    /// The playfield cell at `row`, `col` lies under a filled cell of the
    /// piece.
    pub open spec fn covers(self, row: int, col: int) -> bool {
        self.filled(row - self.y, col - self.x)
    }

    /// Every filled cell of the piece lies on the playfield.
    pub open spec fn on_board(self) -> bool {
        forall|r: int, c: int| #[trigger]
            self.filled(r, c) ==> 0 <= self.y + r < ROWS && 0 <= self.x + c < COLS
    }
}

/// A shape cell may not stand at `row`, `col`: the column is off the
/// playfield, the row is below it, or the cell there is filled. Rows above
/// the playfield block nothing.
pub open spec fn blocked(cells: Seq<Seq<u8>>, row: int, col: int) -> bool {
    ||| col < 0
    ||| col >= COLS
    ||| row >= ROWS
    ||| (row >= 0 && cells[row][col] == 1)
}

/// The piece, moved by `dx` columns and `dy` rows, has a solid cell where
/// none may stand.
pub open spec fn collides(cells: Seq<Seq<u8>>, piece: PieceView, dx: int, dy: int) -> bool {
    exists|r: int, c: int| #[trigger]
        piece.solid(r, c) && blocked(cells, piece.y + r + dy, piece.x + c + dx)
}

/// The occupancy after `piece` has locked: 1 under its filled cells, as
/// before elsewhere.
pub open spec fn locked_cells(cells: Seq<Seq<u8>>, piece: PieceView) -> Seq<Seq<u8>> {
    Seq::new(
        ROWS as nat,
        |row: int|
            Seq::new(
                COLS as nat,
                |col: int|
                    if piece.covers(row, col) {
                        1u8
                    } else {
                        cells[row][col]
                    },
            ),
    )
}

/// The colours after `piece` has locked: its colour under its filled cells,
/// as before elsewhere.
pub open spec fn locked_colors(colors: Seq<Seq<Option<Color>>>, piece: PieceView) -> Seq<
    Seq<Option<Color>>,
> {
    Seq::new(
        ROWS as nat,
        |row: int|
            Seq::new(
                COLS as nat,
                |col: int|
                    if piece.covers(row, col) {
                        Some(piece.color)
                    } else {
                        colors[row][col]
                    },
            ),
    )
}

/// A solid cell that would come to stand left or right of the playfield, or
/// below it, makes the placement collide, whatever the playfield holds.
pub proof fn lemma_leaving_the_board_collides(
    cells: Seq<Seq<u8>>,
    piece: PieceView,
    dx: int,
    dy: int,
    r: int,
    c: int,
)
    requires
        piece.solid(r, c),
        piece.x + c + dx < 0 || piece.x + c + dx >= COLS || piece.y + r + dy >= ROWS,
    ensures
        collides(cells, piece, dx, dy),
{
}

/// A solid cell that would come to stand on a filled cell, on the top row
/// or below it, makes the placement collide.
pub proof fn lemma_overlap_collides(
    cells: Seq<Seq<u8>>,
    piece: PieceView,
    dx: int,
    dy: int,
    r: int,
    c: int,
)
    requires
        piece.solid(r, c),
        piece.y + r + dy >= 0,
        cells[piece.y + r + dy][piece.x + c + dx] == 1,
    ensures
        collides(cells, piece, dx, dy),
{
}

/// A placement whose solid cells all stand above the top row, within the
/// playfield's columns, collides with nothing, whatever the playfield holds.
pub proof fn lemma_above_the_board_is_free(
    cells: Seq<Seq<u8>>,
    piece: PieceView,
    dx: int,
    dy: int,
)
    requires
        forall|r: int, c: int| #[trigger]
            piece.solid(r, c) ==> piece.y + r + dy < 0 && 0 <= piece.x + c + dx < COLS,
    ensures
        !collides(cells, piece, dx, dy),
{
}

/// The cells that a newly spawned piece can cover: two rows from the spawn
/// row down, four columns from the spawn column to the right.
pub open spec fn in_spawn_area(row: int, col: int) -> bool {
    SPAWN_Y <= row < SPAWN_Y + 2 && SPAWN_X <= col < SPAWN_X + 4
}

/// A newly spawned piece collides with nothing where it stands, provided the
/// spawn area holds no filled cell.
pub proof fn lemma_spawn_is_free(cells: Seq<Seq<u8>>, state: u32)
    requires
        forall|row: int, col: int| #[trigger] in_spawn_area(row, col) ==> cells[row][col] != 1,
    ensures
        !collides(cells, spawned_piece(state), 0, 0),
{
    let piece = spawned_piece(state);
    assert forall|r: int, c: int| #[trigger] piece.solid(r, c) implies !blocked(
        cells,
        piece.y + r,
        piece.x + c,
    ) by {
        assert(in_spawn_area(piece.y + r, piece.x + c));
    }
}

/// On a playfield without a filled cell, a newly spawned piece collides
/// with nothing.
pub proof fn lemma_spawn_is_free_on_empty_board(cells: Seq<Seq<u8>>, state: u32)
    requires
        forall|row: int, col: int|
            0 <= row < ROWS && 0 <= col < COLS ==> #[trigger] cells[row][col] != 1,
    ensures
        !collides(cells, spawned_piece(state), 0, 0),
{
    lemma_spawn_is_free(cells, state);
}

/// Locking keeps occupancy and colours in step.
pub proof fn lemma_lock_keeps_sync(
    cells: Seq<Seq<u8>>,
    colors: Seq<Seq<Option<Color>>>,
    piece: PieceView,
)
    requires
        in_sync(cells, colors),
    ensures
        in_sync(locked_cells(cells, piece), locked_colors(colors, piece)),
{
    let new_cells = locked_cells(cells, piece);
    let new_colors = locked_colors(colors, piece);
    assert forall|r: int, c: int| 0 <= r < ROWS && 0 <= c < COLS implies (#[trigger] new_cells[r][c]
        == 1 <==> (#[trigger] new_colors[r][c]) is Some) by {
        assert(cells[r][c] == 1 <==> colors[r][c] is Some);
    }
}

/// `base + index + delta`, in a type wide enough for any operands.
fn shifted(base: i32, index: usize, delta: i32) -> (sum: i128)
    ensures
        sum == base + index + delta,
{
    base as i128 + index as i128 + delta as i128
}

/// Reports whether the piece, moved by `dx` columns and `dy` rows, would
/// leave the playfield sideways or downwards or overlap a filled cell.
pub fn collide(grid: &Grid, piece: &Piece, dx: i32, dy: i32) -> (hit: bool)
    ensures
        hit == collides(cells_of(*grid), piece@, dx as int, dy as int),
{
    let ghost cells = cells_of(*grid);
    let ghost model = piece@;
    let mut y: usize = 0;
    while y < piece.shape.len()
        invariant
            cells == cells_of(*grid),
            model == piece@,
            y <= piece.shape.len(),
            forall|r: int, c: int|
                0 <= r < y && #[trigger] model.solid(r, c) ==> !blocked(
                    cells,
                    model.y + r + dy,
                    model.x + c + dx,
                ),
        decreases piece.shape.len() - y,
    {
        let mut x: usize = 0;
        while x < piece.shape[y].len()
            invariant
                cells == cells_of(*grid),
                model == piece@,
                y < piece.shape.len(),
                x <= piece.shape[y as int].len(),
                forall|r: int, c: int|
                    0 <= r < y && #[trigger] model.solid(r, c) ==> !blocked(
                        cells,
                        model.y + r + dy,
                        model.x + c + dx,
                    ),
                forall|c: int|
                    0 <= c < x && #[trigger] model.solid(y as int, c) ==> !blocked(
                        cells,
                        model.y + y + dy,
                        model.x + c + dx,
                    ),
            decreases piece.shape[y as int].len() - x,
        {
            if piece.shape[y][x] != 0 {
                let nx: i128 = shifted(piece.x, x, dx);
                let ny: i128 = shifted(piece.y, y, dy);
                assert(model.solid(y as int, x as int));
                if nx < 0 || nx >= COLS as i128 || ny >= ROWS as i128 {
                    return true;
                }
                if ny >= 0 && grid[ny as usize][nx as usize] == 1 {
                    return true;
                }
            }
            x += 1;
        }
        y += 1;
    }
    false
}

/// Writes the piece into the playfield: every cell under a filled cell of
/// the piece becomes filled and takes the piece's colour. The piece must lie
/// on the playfield.
pub fn lock_piece(grid: &mut Grid, color_grid: &mut ColorGrid, piece: &Piece)
    requires
        piece@.on_board(),
    ensures
        cells_of(*final(grid)) == locked_cells(cells_of(*old(grid)), piece@),
        colors_of(*final(color_grid)) == locked_colors(colors_of(*old(color_grid)), piece@),
        in_sync(cells_of(*old(grid)), colors_of(*old(color_grid))) ==> in_sync(
            cells_of(*final(grid)),
            colors_of(*final(color_grid)),
        ),
{
    let ghost cells = cells_of(*grid);
    let ghost colors = colors_of(*color_grid);
    let ghost model = piece@;
    let mut y: usize = 0;
    while y < piece.shape.len()
        invariant
            model == piece@,
            model.on_board(),
            y <= piece.shape.len(),
            forall|row: int, col: int|
                0 <= row < ROWS && 0 <= col < COLS ==> #[trigger] cells_of(*grid)[row][col] == (if row
                    - model.y < y && model.covers(row, col) {
                    1u8
                } else {
                    cells[row][col]
                }),
            forall|row: int, col: int|
                0 <= row < ROWS && 0 <= col < COLS ==> #[trigger] colors_of(
                    *color_grid,
                )[row][col] == (if row - model.y < y && model.covers(row, col) {
                    Some(model.color)
                } else {
                    colors[row][col]
                }),
        decreases piece.shape.len() - y,
    {
        let mut x: usize = 0;
        while x < piece.shape[y].len()
            invariant
                model == piece@,
                model.on_board(),
                y < piece.shape.len(),
                x <= piece.shape[y as int].len(),
                forall|row: int, col: int|
                    0 <= row < ROWS && 0 <= col < COLS ==> #[trigger] cells_of(
                        *grid,
                    )[row][col] == (if (row - model.y < y || (row - model.y == y && col - model.x
                        < x)) && model.covers(row, col) {
                        1u8
                    } else {
                        cells[row][col]
                    }),
                forall|row: int, col: int|
                    0 <= row < ROWS && 0 <= col < COLS ==> #[trigger] colors_of(
                        *color_grid,
                    )[row][col] == (if (row - model.y < y || (row - model.y == y && col - model.x
                        < x)) && model.covers(row, col) {
                        Some(model.color)
                    } else {
                        colors[row][col]
                    }),
            decreases piece.shape[y as int].len() - x,
        {
            if piece.shape[y][x] == 1 {
                assert(model.filled(y as int, x as int));
                let gx: usize = shifted(piece.x, x, 0) as usize;
                let gy: usize = shifted(piece.y, y, 0) as usize;
                let ghost cells_before = cells_of(*grid);
                let ghost colors_before = colors_of(*color_grid);
                grid[gy][gx] = 1;
                color_grid[gy][gx] = Some(piece.color);
                assert forall|row: int, col: int|
                    0 <= row < ROWS && 0 <= col < COLS implies #[trigger] cells_of(
                    *grid,
                )[row][col] == (if row == gy && col == gx {
                    1u8
                } else {
                    cells_before[row][col]
                }) by {}
                assert forall|row: int, col: int|
                    0 <= row < ROWS && 0 <= col < COLS implies #[trigger] colors_of(
                    *color_grid,
                )[row][col] == (if row == gy && col == gx {
                    Some(model.color)
                } else {
                    colors_before[row][col]
                }) by {}
            }
            x += 1;
        }
        y += 1;
    }
    assert(cells_of(*grid) =~~= locked_cells(cells, model));
    assert(colors_of(*color_grid) =~~= locked_colors(colors, model));
    proof {
        if in_sync(cells, colors) {
            lemma_lock_keeps_sync(cells, colors, model);
        }
    }
}

} // verus!
