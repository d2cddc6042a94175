//! The playfield: occupancy, the colours that go with it, and their models.

use vstd::prelude::*;

verus! {

/// Number of rows of the playfield.
pub const ROWS: usize = 20;

/// Number of columns of the playfield.
pub const COLS: usize = 10;

/// One colour of the fixed palette.
#[derive(Clone, Copy, Debug, PartialEq, Eq, Structural)]
pub enum Color {
    Red,
    Green,
    Blue,
    Yellow,
    Orange,
    Pink,
    Purple,
    SkyBlue,
}

/// Occupancy of the playfield, row by row from the top: a cell is filled
/// exactly when it holds 1.
pub type Grid = [[u8; COLS]; ROWS];

/// The colour of each filled cell, parallel to a `Grid`.
pub type ColorGrid = [[Option<Color>; COLS]; ROWS];

/// The rows of a grid as sequences of cells.
pub open spec fn cells_of(grid: Grid) -> Seq<Seq<u8>> {
    Seq::new(ROWS as nat, |r: int| grid[r]@)
}

/// The rows of a colour grid as sequences of cells.
pub open spec fn colors_of(color_grid: ColorGrid) -> Seq<Seq<Option<Color>>> {
    Seq::new(ROWS as nat, |r: int| color_grid[r]@)
}

/// A row of empty cells.
pub open spec fn blank_cells() -> Seq<u8> {
    Seq::new(COLS as nat, |c: int| 0u8)
}

/// A row without colours.
pub open spec fn blank_colors() -> Seq<Option<Color>> {
    Seq::new(COLS as nat, |c: int| None::<Color>)
}

/// The occupancy of a playfield without a filled cell.
pub open spec fn empty_cells() -> Seq<Seq<u8>> {
    Seq::new(ROWS as nat, |r: int| blank_cells())
}

/// The colours of a playfield without a filled cell.
pub open spec fn empty_colors() -> Seq<Seq<Option<Color>>> {
    Seq::new(ROWS as nat, |r: int| blank_colors())
}

/// Occupancy and colours agree: a cell is filled exactly when it has a
/// colour.
pub open spec fn in_sync(cells: Seq<Seq<u8>>, colors: Seq<Seq<Option<Color>>>) -> bool {
    forall|r: int, c: int|
        0 <= r < ROWS && 0 <= c < COLS ==> (#[trigger] cells[r][c] == 1 <==> (
        #[trigger] colors[r][c]) is Some)
}

/// A playfield with every cell empty.
pub fn empty_grid() -> (grid: Grid)
    ensures
        cells_of(grid) == empty_cells(),
{
    let grid: Grid = [[0u8; COLS]; ROWS];
    assert(cells_of(grid) =~~= empty_cells());
    grid
}

/// A colour grid with no cell coloured.
pub fn empty_color_grid() -> (color_grid: ColorGrid)
    ensures
        colors_of(color_grid) == empty_colors(),
{
    let color_grid: ColorGrid = [[None; COLS]; ROWS];
    assert(colors_of(color_grid) =~~= empty_colors());
    color_grid
}

} // verus!
