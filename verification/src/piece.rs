//! Falling pieces: their shape matrix, the seven templates, and spawning.

use crate::board::Color;
use crate::rng::{lcg_step, range_draw, SimpleRng};
use vstd::prelude::*;

verus! {

/// Number of shape templates.
pub const SHAPE_COUNT: usize = 7;

/// Number of colours in the palette.
pub const COLOR_COUNT: usize = 8;

/// Column at which a new piece is anchored.
pub const SPAWN_X: i32 = 4;

/// Row at which a new piece is anchored.
pub const SPAWN_Y: i32 = 0;

/// A piece in play: a matrix of cells, each 0 (empty) or 1 (filled), the
/// playfield position of the matrix's top-left corner, and a colour.
#[derive(Debug)]
pub struct Piece {
    pub shape: Vec<Vec<u8>>,
    pub x: i32,
    pub y: i32,
    pub color: Color,
}

/// The mathematical value of a `Piece`.
#[verifier::ext_equal]
pub ghost struct PieceView {
    pub cells: Seq<Seq<u8>>,
    pub x: int,
    pub y: int,
    pub color: Color,
}

/// The rows of a shape matrix as sequences of cells.
pub open spec fn shape_cells(shape: Vec<Vec<u8>>) -> Seq<Seq<u8>> {
    Seq::new(shape@.len(), |r: int| shape@[r]@)
}

impl View for Piece {
    type V = PieceView;

    open spec fn view(&self) -> PieceView {
        PieceView {
            cells: shape_cells(self.shape),
            x: self.x as int,
            y: self.y as int,
            color: self.color,
        }
    }
}

/// A copy of a shape matrix, row by row.
pub fn copied_shape(shape: &Vec<Vec<u8>>) -> (copy: Vec<Vec<u8>>)
    ensures
        shape_cells(copy) == shape_cells(*shape),
{
    let mut copy: Vec<Vec<u8>> = Vec::new();
    let mut y: usize = 0;
    while y < shape.len()
        invariant
            y <= shape.len(),
            copy@.len() == y,
            forall|r: int| 0 <= r < y ==> (#[trigger] copy@[r])@ == shape@[r]@,
        decreases shape.len() - y,
    {
        let mut row: Vec<u8> = Vec::new();
        let mut x: usize = 0;
        while x < shape[y].len()
            invariant
                y < shape.len(),
                x <= shape@[y as int]@.len(),
                row@ == shape@[y as int]@.take(x as int),
            decreases shape@[y as int]@.len() - x,
        {
            row.push(shape[y][x]);
            x += 1;
        }
        copy.push(row);
        y += 1;
    }
    assert(shape_cells(copy) =~= shape_cells(*shape));
    copy
}

impl Clone for Piece {
    /// A piece with the same shape, anchor and colour.
    fn clone(&self) -> (copy: Self)
        ensures
            copy@ == self@,
    {
        Piece { shape: copied_shape(&self.shape), x: self.x, y: self.y, color: self.color }
    }
}

/// A matrix with at least one row, all rows of one length.
pub open spec fn is_rectangular(cells: Seq<Seq<u8>>) -> bool {
    &&& cells.len() >= 1
    &&& forall|r: int| 0 <= r < cells.len() ==> (#[trigger] cells[r]).len() == cells[0].len()
}

/// Number of rows of a matrix.
pub open spec fn height(cells: Seq<Seq<u8>>) -> nat {
    cells.len()
}

/// Number of columns of a rectangular matrix.
pub open spec fn width(cells: Seq<Seq<u8>>) -> nat {
    cells[0].len()
}

/// Largest number of rows or columns of a shape in play.
pub const MAX_EXTENT: usize = 4;

/// A shape that a game can hold: rectangular, at most `MAX_EXTENT` rows and
/// columns, every cell 0 or 1, and at least one cell filled.
pub open spec fn is_playable(cells: Seq<Seq<u8>>) -> bool {
    &&& is_rectangular(cells)
    &&& height(cells) <= MAX_EXTENT
    &&& 1 <= width(cells) <= MAX_EXTENT
    &&& forall|r: int, c: int|
        0 <= r < height(cells) && 0 <= c < width(cells) ==> #[trigger] cells[r][c] <= 1
    &&& exists|r: int, c: int|
        0 <= r < height(cells) && 0 <= c < width(cells) && #[trigger] cells[r][c] == 1
}

/// The cells of template `index`. Templates 2 and 3 hold the same pattern.
pub open spec fn template_cells(index: int) -> Seq<Seq<u8>> {
    if index == 0 {
        seq![seq![1u8, 1u8], seq![1u8, 1u8]]
    } else if index == 1 {
        seq![seq![1u8, 1u8, 1u8, 1u8]]
    } else if index == 2 {
        seq![seq![1u8, 0u8, 0u8], seq![1u8, 1u8, 1u8]]
    } else if index == 3 {
        seq![seq![1u8, 0u8, 0u8], seq![1u8, 1u8, 1u8]]
    } else if index == 4 {
        seq![seq![0u8, 0u8, 1u8], seq![1u8, 1u8, 1u8]]
    } else if index == 5 {
        seq![seq![0u8, 0u8, 1u8], seq![1u8, 1u8, 0u8]]
    } else {
        seq![seq![1u8, 1u8, 0u8], seq![0u8, 1u8, 1u8]]
    }
}

/// The colour at position `index` of the palette.
pub open spec fn palette_color(index: int) -> Color {
    if index == 0 {
        Color::Red
    } else if index == 1 {
        Color::Green
    } else if index == 2 {
        Color::Blue
    } else if index == 3 {
        Color::Yellow
    } else if index == 4 {
        Color::Orange
    } else if index == 5 {
        Color::Pink
    } else if index == 6 {
        Color::Purple
    } else {
        Color::SkyBlue
    }
}

/// Every template is a playable shape of at most two rows.
pub proof fn lemma_templates_are_playable(index: int)
    ensures
        is_playable(template_cells(index)),
        height(template_cells(index)) <= 2,
{
    let cells = template_cells(index);
    assert(cells[0][if index == 4 || index == 5 {
        2int
    } else {
        0int
    }] == 1);
}

/// A fresh copy of template `index`.
pub fn template(index: usize) -> (shape: Vec<Vec<u8>>)
    requires
        index < SHAPE_COUNT,
    ensures
        shape_cells(shape) == template_cells(index as int),
{
    let shape: Vec<Vec<u8>> = if index == 0 {
        vec![vec![1, 1], vec![1, 1]]
    } else if index == 1 {
        vec![vec![1, 1, 1, 1]]
    } else if index == 2 {
        vec![vec![1, 0, 0], vec![1, 1, 1]]
    } else if index == 3 {
        vec![vec![1, 0, 0], vec![1, 1, 1]]
    } else if index == 4 {
        vec![vec![0, 0, 1], vec![1, 1, 1]]
    } else if index == 5 {
        vec![vec![0, 0, 1], vec![1, 1, 0]]
    } else {
        vec![vec![1, 1, 0], vec![0, 1, 1]]
    };
    assert(shape_cells(shape) =~~= template_cells(index as int));
    shape
}

/// The palette entry at `index`.
pub fn palette(index: usize) -> (color: Color)
    requires
        index < COLOR_COUNT,
    ensures
        color == palette_color(index as int),
{
    if index == 0 {
        Color::Red
    } else if index == 1 {
        Color::Green
    } else if index == 2 {
        Color::Blue
    } else if index == 3 {
        Color::Yellow
    } else if index == 4 {
        Color::Orange
    } else if index == 5 {
        Color::Pink
    } else if index == 6 {
        Color::Purple
    } else {
        Color::SkyBlue
    }
}

/// The piece that is spawned when the generator is in `state`: the first
/// draw picks the template, the second the colour.
pub open spec fn spawned_piece(state: u32) -> PieceView {
    PieceView {
        cells: template_cells(range_draw(state, 0, SHAPE_COUNT as int)),
        x: SPAWN_X as int,
        y: SPAWN_Y as int,
        color: palette_color(range_draw(lcg_step(state), 0, COLOR_COUNT as int)),
    }
}

/// The generator's state after a piece was spawned from `state`.
pub open spec fn state_after_spawn(state: u32) -> u32 {
    lcg_step(lcg_step(state))
}

/// Draws a template and then a colour, and anchors the new piece at the
/// spawn position.
pub fn new_piece(rng: &mut SimpleRng) -> (piece: Piece)
    ensures
        piece@ == spawned_piece(old(rng).state),
        final(rng).state == state_after_spawn(old(rng).state),
{
    let index: usize = rng.range(0, SHAPE_COUNT);
    let shape: Vec<Vec<u8>> = template(index);
    let color_index: usize = rng.range(0, COLOR_COUNT);
    let color: Color = palette(color_index);
    Piece { shape, x: SPAWN_X, y: SPAWN_Y, color }
}

} // verus!
