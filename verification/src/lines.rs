//! Removing full rows and letting the rows above them sink.

use crate::board::{
    blank_cells, blank_colors, cells_of, colors_of, in_sync, Color, ColorGrid, Grid, COLS, ROWS,
};
use vstd::prelude::*;

verus! {

/// Every cell of the row is filled.
pub open spec fn row_is_full(row: Seq<u8>) -> bool {
    forall|c: int| 0 <= c < row.len() ==> row[c] == 1
}

/// For each row, whether it is full.
pub open spec fn full_mask(cells: Seq<Seq<u8>>) -> Seq<bool> {
    Seq::new(cells.len(), |r: int| row_is_full(cells[r]))
}

/// How many rows the mask marks.
pub open spec fn full_count(full: Seq<bool>) -> nat
    decreases full.len(),
{
    if full.len() == 0 {
        0
    } else {
        (if full[0] {
            1nat
        } else {
            0nat
        }) + full_count(full.drop_first())
    }
}

/// The rows that the mask does not mark, in the order in which they stand.
pub open spec fn surviving<T>(rows: Seq<T>, full: Seq<bool>) -> Seq<T>
    decreases rows.len(),
{
    if rows.len() == 0 {
        Seq::empty()
    } else {
        let below = surviving(rows.drop_first(), full.drop_first());
        if full[0] {
            below
        } else {
            seq![rows[0]] + below
        }
    }
}

/// The rows after compaction: the surviving rows at the bottom, in their
/// order, and above them one `blank` row for each row that was removed.
pub open spec fn compacted<T>(rows: Seq<T>, full: Seq<bool>, blank: T) -> Seq<T> {
    Seq::new(full_count(full), |i: int| blank) + surviving(rows, full)
}

/// Each row either survives or is counted as full.
pub proof fn lemma_surviving_len<T>(rows: Seq<T>, full: Seq<bool>)
    requires
        full.len() == rows.len(),
    ensures
        surviving(rows, full).len() + full_count(full) == rows.len(),
    decreases rows.len(),
{
    if rows.len() > 0 {
        lemma_surviving_len(rows.drop_first(), full.drop_first());
    }
}

/// No more rows are marked than there are.
pub proof fn lemma_full_count_bound(full: Seq<bool>)
    ensures
        full_count(full) <= full.len(),
    decreases full.len(),
{
    if full.len() > 0 {
        lemma_full_count_bound(full.drop_first());
    }
}

/// The marked rows above row `k` and those from row `k` on add up to all
/// marked rows.
pub proof fn lemma_full_count_split(full: Seq<bool>, k: int)
    requires
        0 <= k <= full.len(),
    ensures
        full_count(full) == full_count(full.subrange(0, k)) + full_count(
            full.subrange(k, full.len() as int),
        ),
    decreases full.len(),
{
    if k == 0 {
        assert(full.subrange(0, 0) =~= Seq::empty());
        assert(full.subrange(0, full.len() as int) =~= full);
    } else {
        let tail = full.drop_first();
        lemma_full_count_split(tail, k - 1);
        assert(full.subrange(0, k).drop_first() =~= tail.subrange(0, k - 1));
        assert(tail.subrange(k - 1, tail.len() as int) =~= full.subrange(k, full.len() as int));
    }
}

/// How many marked rows stand below row `r`.
pub open spec fn full_below(full: Seq<bool>, r: int) -> nat {
    full_count(full.subrange(r + 1, full.len() as int))
}

/// The row on which row `r` comes to rest: it sinks by one row for each
/// marked row below it.
pub open spec fn landing_row(full: Seq<bool>, r: int) -> int {
    r + full_below(full, r)
}

/// A surviving row stands among the survivors at its own index less the
/// number of marked rows above it.
proof fn lemma_surviving_index<T>(rows: Seq<T>, full: Seq<bool>, r: int)
    requires
        full.len() == rows.len(),
        0 <= r < rows.len(),
        !full[r],
    ensures
        0 <= r - full_count(full.subrange(0, r)) < surviving(rows, full).len(),
        surviving(rows, full)[r - full_count(full.subrange(0, r))] == rows[r],
    decreases rows.len(),
{
    if r == 0 {
        assert(full.subrange(0, 0) =~= Seq::empty());
    } else {
        let tail = full.drop_first();
        lemma_surviving_index(rows.drop_first(), tail, r - 1);
        assert(full.subrange(0, r).drop_first() =~= tail.subrange(0, r - 1));
    }
}

/// The survivor at index `j` is some unmarked row, which has `j` unmarked
/// rows above it.
proof fn lemma_surviving_source(full: Seq<bool>, j: int) -> (r: int)
    requires
        0 <= j < full.len() - full_count(full),
    ensures
        0 <= r < full.len(),
        !full[r],
        r - full_count(full.subrange(0, r)) == j,
    decreases full.len(),
{
    let tail = full.drop_first();
    if !full[0] && j == 0 {
        assert(full.subrange(0, 0) =~= Seq::empty());
        0
    } else {
        let below = lemma_surviving_source(
            tail,
            if full[0] {
                j
            } else {
                j - 1
            },
        );
        assert(full.subrange(0, below + 1).drop_first() =~= tail.subrange(0, below));
        below + 1
    }
}

/// The compacted rows are as many as the rows were.
pub proof fn lemma_compacted_len<T>(rows: Seq<T>, full: Seq<bool>, blank: T)
    requires
        full.len() == rows.len(),
    ensures
        compacted(rows, full, blank).len() == rows.len(),
{
    lemma_surviving_len(rows, full);
}

/// After compaction the topmost rows, one for each row removed, are blank.
pub proof fn lemma_compacted_top_is_blank<T>(rows: Seq<T>, full: Seq<bool>, blank: T, i: int)
    requires
        0 <= i < full_count(full),
    ensures
        compacted(rows, full, blank)[i] == blank,
{
}

/// A row that is not removed is found again on its landing row: everything
/// above a removed row sinks by one row, and by nothing else.
pub proof fn lemma_row_lands<T>(rows: Seq<T>, full: Seq<bool>, blank: T, r: int)
    requires
        full.len() == rows.len(),
        0 <= r < rows.len(),
        !full[r],
    ensures
        full_count(full) <= landing_row(full, r) < rows.len(),
        compacted(rows, full, blank)[landing_row(full, r)] == rows[r],
{
    lemma_surviving_index(rows, full, r);
    lemma_surviving_len(rows, full);
    lemma_full_count_split(full, r);
    let from_r = full.subrange(r, full.len() as int);
    assert(from_r.drop_first() =~= full.subrange(r + 1, full.len() as int));
    assert(full_count(from_r) == full_below(full, r));
}

/// Compaction keeps the order of the rows: of two rows that are not removed,
/// the upper one lands above the lower one.
pub proof fn lemma_landing_keeps_order(full: Seq<bool>, upper: int, lower: int)
    requires
        0 <= upper < lower < full.len(),
        !full[lower],
    ensures
        landing_row(full, upper) < landing_row(full, lower),
{
    let len = full.len() as int;
    let after_upper = full.subrange(upper + 1, len);
    lemma_full_count_split(after_upper, lower - upper);
    let between = after_upper.subrange(0, lower - upper);
    assert(after_upper.subrange(lower - upper, after_upper.len() as int) =~= full.subrange(
        lower + 1,
        len,
    ));
    // `between` ends with row `lower`, which is not marked.
    lemma_full_count_split(between, lower - upper - 1);
    let last = between.subrange(lower - upper - 1, between.len() as int);
    assert(last[0] == full[lower]);
    assert(last.drop_first() =~= Seq::<bool>::empty());
    assert(full_count(last) == 0) by {
        assert(full_count(last.drop_first()) == 0);
    }
    lemma_full_count_bound(between.subrange(0, lower - upper - 1));
}

/// Below the blank rows, every row of the compacted sequence is the landing
/// row of a row that was not removed: nothing is removed but the marked rows,
/// and nothing is added but the blank rows.
pub proof fn lemma_landing_is_onto(full: Seq<bool>, i: int) -> (r: int)
    requires
        full_count(full) <= i < full.len(),
    ensures
        0 <= r < full.len(),
        !full[r],
        landing_row(full, r) == i,
{
    let r = lemma_surviving_source(full, i - full_count(full));
    lemma_full_count_split(full, r);
    let from_r = full.subrange(r, full.len() as int);
    assert(from_r.drop_first() =~= full.subrange(r + 1, full.len() as int));
    assert(full_count(from_r) == full_below(full, r));
    r
}

/// The rows of a playfield that survive are those that a filter for rows
/// with a gap lets through.
pub proof fn lemma_surviving_rows_are_filtered(cells: Seq<Seq<u8>>)
    ensures
        surviving(cells, full_mask(cells)) == cells.filter(|row: Seq<u8>| !row_is_full(row)),
    decreases cells.len(),
{
    let has_gap = |row: Seq<u8>| !row_is_full(row);
    reveal_with_fuel(Seq::filter, 2);
    if cells.len() > 0 {
        let top = seq![cells[0]];
        let below = cells.drop_first();
        lemma_surviving_rows_are_filtered(below);
        assert(full_mask(cells).drop_first() =~= full_mask(below));
        assert(cells =~= top + below);
        Seq::filter_distributes_over_add(top, below, has_gap);
        assert(top.drop_last() =~= Seq::<Seq<u8>>::empty());
        assert(top.filter(has_gap) =~= if row_is_full(cells[0]) {
            Seq::<Seq<u8>>::empty()
        } else {
            top
        });
        assert(surviving(cells, full_mask(cells)) =~= cells.filter(has_gap));
    }
}

/// Where no row is marked, compaction changes nothing.
pub proof fn lemma_nothing_full_nothing_moves<T>(rows: Seq<T>, full: Seq<bool>, blank: T)
    requires
        full.len() == rows.len(),
        full_count(full) == 0,
    ensures
        compacted(rows, full, blank) == rows,
    decreases rows.len(),
{
    if rows.len() > 0 {
        let tail = rows.drop_first();
        lemma_nothing_full_nothing_moves(tail, full.drop_first(), blank);
        assert(surviving(tail, full.drop_first()) =~= compacted(tail, full.drop_first(), blank));
        assert(surviving(rows, full) =~= rows);
    }
    assert(compacted(rows, full, blank) =~= rows);
}

/// Compaction keeps occupancy and colours in step: the same rows are removed
/// from both, and the rows that come in at the top are empty and colourless.
pub proof fn lemma_compaction_keeps_sync(cells: Seq<Seq<u8>>, colors: Seq<Seq<Option<Color>>>)
    requires
        cells.len() == ROWS,
        colors.len() == ROWS,
        in_sync(cells, colors),
    ensures
        in_sync(
            compacted(cells, full_mask(cells), blank_cells()),
            compacted(colors, full_mask(cells), blank_colors()),
        ),
{
    let full = full_mask(cells);
    let new_cells = compacted(cells, full, blank_cells());
    let new_colors = compacted(colors, full, blank_colors());
    assert forall|i: int, c: int| 0 <= i < ROWS && 0 <= c < COLS implies (#[trigger] new_cells[i][c]
        == 1 <==> (#[trigger] new_colors[i][c]) is Some) by {
        if i >= full_count(full) {
            let r = lemma_landing_is_onto(full, i);
            lemma_row_lands(cells, full, blank_cells(), r);
            lemma_row_lands(colors, full, blank_colors(), r);
            assert(cells[r][c] == 1 <==> colors[r][c] is Some);
        }
    }
}

/// Tells whether every cell of `row` is filled.
pub fn is_full_row(row: &[u8; COLS]) -> (full: bool)
    ensures
        full == row_is_full(row@),
{
    let mut x: usize = 0;
    while x < COLS
        invariant
            x <= COLS,
            forall|c: int| 0 <= c < x ==> row@[c] == 1,
        decreases COLS - x,
    {
        if row[x] != 1 {
            assert(row@[x as int] != 1);
            return false;
        }
        x += 1;
    }
    true
}

/// Removes every full row. The rows that are left keep their order and sink
/// to the bottom; empty rows without colour take the freed place at the top.
/// The colour grid is rearranged row for row as the occupancy is. Returns the
/// number of rows removed.
pub fn clear_lines(grid: &mut Grid, color_grid: &mut ColorGrid) -> (count: i32)
    ensures
        cells_of(*final(grid)) == compacted(
            cells_of(*old(grid)),
            full_mask(cells_of(*old(grid))),
            blank_cells(),
        ),
        colors_of(*final(color_grid)) == compacted(
            colors_of(*old(color_grid)),
            full_mask(cells_of(*old(grid))),
            blank_colors(),
        ),
        count == full_count(full_mask(cells_of(*old(grid)))),
        0 <= count <= ROWS,
        count == 0 ==> cells_of(*final(grid)) == cells_of(*old(grid)) && colors_of(
            *final(color_grid),
        ) == colors_of(*old(color_grid)),
        in_sync(cells_of(*old(grid)), colors_of(*old(color_grid))) ==> in_sync(
            cells_of(*final(grid)),
            colors_of(*final(color_grid)),
        ),
{
    let ghost cells = cells_of(*grid);
    let ghost colors = colors_of(*color_grid);
    let ghost full = full_mask(cells);
    let mut new_grid: Grid = [[0u8; COLS]; ROWS];
    let mut new_color_grid: ColorGrid = [[None; COLS]; ROWS];
    let mut free: usize = ROWS;
    let mut lines_cleared: i32 = 0;
    let mut y: usize = ROWS;
    assert(cells.subrange(ROWS as int, ROWS as int) =~= Seq::empty());
    assert(colors.subrange(ROWS as int, ROWS as int) =~= Seq::empty());
    assert(full.subrange(ROWS as int, ROWS as int) =~= Seq::empty());
    while y > 0
        invariant
            cells == cells_of(*grid),
            colors == colors_of(*color_grid),
            full == full_mask(cells),
            y <= ROWS,
            free <= ROWS,
            lines_cleared == full_count(full.subrange(y as int, ROWS as int)),
            free + surviving(
                cells.subrange(y as int, ROWS as int),
                full.subrange(y as int, ROWS as int),
            ).len() == ROWS,
            free + surviving(
                colors.subrange(y as int, ROWS as int),
                full.subrange(y as int, ROWS as int),
            ).len() == ROWS,
            lines_cleared + (ROWS - free) == ROWS - y,
            forall|i: int| 0 <= i < free ==> #[trigger] cells_of(new_grid)[i] == blank_cells(),
            forall|i: int|
                0 <= i < free ==> #[trigger] colors_of(new_color_grid)[i] == blank_colors(),
            forall|i: int|
                free <= i < ROWS ==> #[trigger] cells_of(new_grid)[i] == surviving(
                    cells.subrange(y as int, ROWS as int),
                    full.subrange(y as int, ROWS as int),
                )[i - free],
            forall|i: int|
                free <= i < ROWS ==> #[trigger] colors_of(new_color_grid)[i] == surviving(
                    colors.subrange(y as int, ROWS as int),
                    full.subrange(y as int, ROWS as int),
                )[i - free],
        decreases y,
    {
        y -= 1;
        proof {
            assert(cells.subrange(y as int, ROWS as int).drop_first() =~= cells.subrange(
                y + 1,
                ROWS as int,
            ));
            assert(colors.subrange(y as int, ROWS as int).drop_first() =~= colors.subrange(
                y + 1,
                ROWS as int,
            ));
            assert(full.subrange(y as int, ROWS as int).drop_first() =~= full.subrange(
                y + 1,
                ROWS as int,
            ));
        }
        if is_full_row(&grid[y]) {
            lines_cleared += 1;
            continue ;
        }
        let ghost cells_before = cells_of(new_grid);
        let ghost colors_before = colors_of(new_color_grid);
        free -= 1;
        new_grid[free] = grid[y];
        new_color_grid[free] = color_grid[y];
        assert forall|i: int| 0 <= i < ROWS implies #[trigger] cells_of(new_grid)[i] == (if i
            == free {
            cells[y as int]
        } else {
            cells_before[i]
        }) by {}
        assert forall|i: int| 0 <= i < ROWS implies #[trigger] colors_of(new_color_grid)[i] == (if i
            == free {
            colors[y as int]
        } else {
            colors_before[i]
        }) by {}
    }
    proof {
        assert(cells.subrange(0, ROWS as int) =~= cells);
        assert(colors.subrange(0, ROWS as int) =~= colors);
        assert(full.subrange(0, ROWS as int) =~= full);
        lemma_surviving_len(cells, full);
        assert(cells_of(new_grid) =~= compacted(cells, full, blank_cells()));
        assert(colors_of(new_color_grid) =~= compacted(colors, full, blank_colors()));
        if lines_cleared == 0 {
            lemma_nothing_full_nothing_moves(cells, full, blank_cells());
            lemma_nothing_full_nothing_moves(colors, full, blank_colors());
        }
        if in_sync(cells, colors) {
            lemma_compaction_keeps_sync(cells, colors);
        }
    }
    *grid = new_grid;
    *color_grid = new_color_grid;
    lines_cleared
}

} // verus!
