//! Quarter turns of a shape matrix.

use crate::piece::{
    height, is_playable, is_rectangular, lemma_templates_are_playable, shape_cells,
    template_cells, width, Piece, PieceView, SHAPE_COUNT,
};
use vstd::prelude::*;

verus! {

/// The matrix turned clockwise by a quarter: a matrix of `h` rows and `w`
/// columns becomes one of `w` rows and `h` columns, and the cell at row `y`,
/// column `x` moves to row `x`, column `h - 1 - y`.
pub open spec fn rotated(cells: Seq<Seq<u8>>) -> Seq<Seq<u8>> {
    Seq::new(
        width(cells),
        |x: int| Seq::new(height(cells), |j: int| cells[height(cells) - 1 - j][x]),
    )
}

/// A quarter turn swaps the dimensions and keeps the matrix rectangular, as
/// long as there is a column to turn into a row.
pub proof fn lemma_rotated_dimensions(cells: Seq<Seq<u8>>)
    requires
        is_rectangular(cells),
        width(cells) >= 1,
    ensures
        is_rectangular(rotated(cells)),
        height(rotated(cells)) == width(cells),
        width(rotated(cells)) == height(cells),
{
}

/// Every cell keeps its value through a quarter turn: what stood at row `y`,
/// column `x` stands at row `x`, column `h - 1 - y` afterwards.
pub proof fn lemma_rotated_cell(cells: Seq<Seq<u8>>, y: int, x: int)
    requires
        is_rectangular(cells),
        0 <= y < height(cells),
        0 <= x < width(cells),
    ensures
        rotated(cells)[x][height(cells) - 1 - y] == cells[y][x],
{
}

/// A quarter turn of a playable shape is a playable shape.
pub proof fn lemma_rotated_is_playable(cells: Seq<Seq<u8>>)
    requires
        is_playable(cells),
    ensures
        is_playable(rotated(cells)),
{
    lemma_rotated_dimensions(cells);
    let turned = rotated(cells);
    let (r, c) = choose|r: int, c: int|
        0 <= r < height(cells) && 0 <= c < width(cells) && cells[r][c] == 1;
    lemma_rotated_cell(cells, r, c);
    assert(turned[c][height(cells) - 1 - r] == 1);
}

/// Four quarter turns give back the matrix they started from, cell for cell,
/// whatever its dimensions.
pub proof fn lemma_four_rotations_are_identity(cells: Seq<Seq<u8>>)
    requires
        is_rectangular(cells),
        width(cells) >= 1,
    ensures
        rotated(rotated(rotated(rotated(cells)))) == cells,
{
    let once = rotated(cells);
    let twice = rotated(once);
    let thrice = rotated(twice);
    let back = rotated(thrice);
    lemma_rotated_dimensions(cells);
    lemma_rotated_dimensions(once);
    lemma_rotated_dimensions(twice);
    lemma_rotated_dimensions(thrice);
    let h = height(cells) as int;
    let w = width(cells) as int;
    assert forall|a: int, b: int| 0 <= a < h && 0 <= b < w implies twice[a][b] == cells[h - 1 - a][w
        - 1 - b] by {
        assert(twice[a][b] == once[w - 1 - b][a]);
    }
    assert forall|a: int, b: int| 0 <= a < w && 0 <= b < h implies thrice[a][b] == cells[b][w - 1
        - a] by {
        assert(thrice[a][b] == twice[h - 1 - b][a]);
    }
    assert forall|a: int| 0 <= a < h implies back[a] =~= cells[a] by {
        assert forall|b: int| 0 <= b < w implies back[a][b] == cells[a][b] by {
            assert(back[a][b] == thrice[w - 1 - b][a]);
        }
    }
    assert(back =~= cells);
}

/// The matrix after `turns` quarter turns.
pub open spec fn turned_by(cells: Seq<Seq<u8>>, turns: nat) -> Seq<Seq<u8>>
    decreases turns,
{
    if turns == 0 {
        cells
    } else {
        rotated(turned_by(cells, (turns - 1) as nat))
    }
}

/// One of the seven templates in one of its four orientations.
pub open spec fn is_oriented_template(cells: Seq<Seq<u8>>) -> bool {
    exists|index: int, turns: nat|
        0 <= index < SHAPE_COUNT && turns < 4 && cells == #[trigger] turned_by(
            template_cells(index),
            turns,
        )
}

/// A template is playable in every orientation.
pub proof fn lemma_oriented_template_is_playable(cells: Seq<Seq<u8>>)
    requires
        is_oriented_template(cells),
    ensures
        is_playable(cells),
{
    let (index, turns) = choose|index: int, turns: nat|
        0 <= index < SHAPE_COUNT && turns < 4 && cells == #[trigger] turned_by(
            template_cells(index),
            turns,
        );
    let upright = template_cells(index);
    lemma_templates_are_playable(index);
    assert(turned_by(upright, 0) == upright);
    if turns >= 1 {
        lemma_rotated_is_playable(turned_by(upright, 0));
        assert(turned_by(upright, 1) == rotated(turned_by(upright, 0)));
    }
    if turns >= 2 {
        lemma_rotated_is_playable(turned_by(upright, 1));
        assert(turned_by(upright, 2) == rotated(turned_by(upright, 1)));
    }
    if turns >= 3 {
        lemma_rotated_is_playable(turned_by(upright, 2));
        assert(turned_by(upright, 3) == rotated(turned_by(upright, 2)));
    }
}

/// A quarter turn takes a template from one of its orientations to the
/// next, and from the fourth back to the first.
pub proof fn lemma_rotation_keeps_orientation(cells: Seq<Seq<u8>>)
    requires
        is_oriented_template(cells),
    ensures
        is_oriented_template(rotated(cells)),
{
    let (index, turns) = choose|index: int, turns: nat|
        0 <= index < SHAPE_COUNT && turns < 4 && cells == #[trigger] turned_by(
            template_cells(index),
            turns,
        );
    let upright = template_cells(index);
    assert(rotated(cells) == turned_by(upright, turns + 1));
    if turns == 3 {
        lemma_templates_are_playable(index);
        lemma_four_rotations_are_identity(upright);
        assert(turned_by(upright, 0) == upright);
        assert(turned_by(upright, 1) == rotated(turned_by(upright, 0)));
        assert(turned_by(upright, 2) == rotated(turned_by(upright, 1)));
        assert(turned_by(upright, 3) == rotated(turned_by(upright, 2)));
        assert(rotated(cells) == turned_by(upright, 0));
    }
}

/// A quarter turn of `shape`, as a new matrix.
pub fn rotated_shape(shape: &Vec<Vec<u8>>) -> (turned: Vec<Vec<u8>>)
    requires
        is_rectangular(shape_cells(*shape)),
    ensures
        shape_cells(turned) == rotated(shape_cells(*shape)),
{
    let h: usize = shape.len();
    let w: usize = shape[0].len();
    let ghost cells = shape_cells(*shape);
    let mut turned: Vec<Vec<u8>> = Vec::new();
    let mut x: usize = 0;
    while x < w
        invariant
            cells == shape_cells(*shape),
            is_rectangular(cells),
            h == height(cells),
            w == width(cells),
            x <= w,
            turned@.len() == x,
            forall|i: int| 0 <= i < x ==> (#[trigger] turned@[i])@ == rotated(cells)[i],
        decreases w - x,
    {
        let mut row: Vec<u8> = Vec::new();
        let mut j: usize = 0;
        while j < h
            invariant
                cells == shape_cells(*shape),
                is_rectangular(cells),
                h == height(cells),
                w == width(cells),
                x < w,
                j <= h,
                row@.len() == j,
                forall|k: int| 0 <= k < j ==> #[trigger] row@[k] == cells[h - 1 - k][x as int],
            decreases h - j,
        {
            let y: usize = h - 1 - j;
            assert(cells[y as int].len() == w);
            row.push(shape[y][x]);
            j += 1;
        }
        assert(row@ =~= rotated(cells)[x as int]);
        turned.push(row);
        x += 1;
    }
    assert(shape_cells(turned) =~= rotated(cells));
    turned
}

/// Turns the piece clockwise by a quarter where it stands: the shape is
/// replaced as a whole, anchor and colour stay.
pub fn rotate(piece: &mut Piece)
    requires
        is_rectangular(old(piece)@.cells),
    ensures
        final(piece)@ == (PieceView { cells: rotated(old(piece)@.cells), ..old(piece)@ }),
{
    let turned: Vec<Vec<u8>> = rotated_shape(&piece.shape);
    piece.shape = turned;
}

} // verus!
