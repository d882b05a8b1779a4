use vstd::prelude::*;
use crate::cell::Cell;
use crate::grid::{
    Grid, count_live, live_at, rm_to_xy, lemma_coords_of_index, lemma_count_zero,
    lemma_index_of_coords,
};

verus! {

/// 1 for true, 0 for false.
pub open spec fn bit(b: bool) -> int {
    if b { 1 } else { 0 }
}

/// The number of live cells among the eight positions around `(x, y)`,
/// orthogonal and diagonal. Positions off the grid are absent.
pub open spec fn live_neighbours(cells: Seq<Cell>, cols: int, rows: int, x: int, y: int) -> int {
    bit(live_at(cells, cols, rows, x - 1, y - 1)) + bit(live_at(cells, cols, rows, x, y - 1))
        + bit(live_at(cells, cols, rows, x + 1, y - 1)) + bit(live_at(cells, cols, rows, x - 1, y))
        + bit(live_at(cells, cols, rows, x + 1, y)) + bit(live_at(cells, cols, rows, x - 1, y + 1))
        + bit(live_at(cells, cols, rows, x, y + 1)) + bit(live_at(cells, cols, rows, x + 1, y + 1))
}

/// Conway's rule: a live cell with two or three live neighbours stays alive,
/// a dead cell with exactly three comes alive, every other cell is dead.
pub open spec fn survives(alive: bool, neighbours: int) -> bool {
    if alive {
        neighbours == 2 || neighbours == 3
    } else {
        neighbours == 3
    }
}

/// The state of position `(x, y)` in the next generation.
pub open spec fn next_cell(cells: Seq<Cell>, cols: int, rows: int, x: int, y: int) -> Cell {
    if survives(live_at(cells, cols, rows, x, y), live_neighbours(cells, cols, rows, x, y)) {
        Cell::Live
    } else {
        Cell::Dead
    }
}

/// The next generation of a row-major field, each cell computed from the
/// current generation alone.
pub open spec fn next_generation(cells: Seq<Cell>, cols: int, rows: int) -> Seq<Cell> {
    Seq::new(cells.len(), |i: int| next_cell(cells, cols, rows, i % cols, i / cols))
}

/// Counts the live neighbours of `(x, y)`.
fn count_neighbours(grid: &Grid, x: usize, y: usize) -> (r: u8)
    requires
        grid.wf(),
        x < grid.cols,
        y < grid.rows,
    ensures
        r == live_neighbours(grid.cells@, grid.cols as int, grid.rows as int, x as int, y as int),
{
    let cols = grid.cols;
    let rows = grid.rows;
    let mut live_neighbours: u8 = 0;
    if y > 0 && x > 0 && grid.is_live_at(x - 1, y - 1) {
        live_neighbours += 1;
    }
    if y > 0 && grid.is_live_at(x, y - 1) {
        live_neighbours += 1;
    }
    if y > 0 && x + 1 < cols && grid.is_live_at(x + 1, y - 1) {
        live_neighbours += 1;
    }
    if x > 0 && grid.is_live_at(x - 1, y) {
        live_neighbours += 1;
    }
    if x + 1 < cols && grid.is_live_at(x + 1, y) {
        live_neighbours += 1;
    }
    if y + 1 < rows && x > 0 && grid.is_live_at(x - 1, y + 1) {
        live_neighbours += 1;
    }
    if y + 1 < rows && grid.is_live_at(x, y + 1) {
        live_neighbours += 1;
    }
    if y + 1 < rows && x + 1 < cols && grid.is_live_at(x + 1, y + 1) {
        live_neighbours += 1;
    }
    live_neighbours
}

/// Computes the next generation of `grid` by Conway's rules, on a finite
/// field without wraparound.
pub fn step(grid: &Grid) -> (r: Grid)
    requires
        grid.wf(),
    ensures
        r.wf(),
        r.cols == grid.cols,
        r.rows == grid.rows,
        r.cells@ == next_generation(grid.cells@, grid.cols as int, grid.rows as int),
{
    let cols = grid.cols;
    let n = grid.cells.len();
    let ghost target = next_generation(grid.cells@, grid.cols as int, grid.rows as int);
    let mut next: Vec<Cell> = Vec::new();
    let mut i: usize = 0;
    while i < n
        invariant
            grid.wf(),
            cols == grid.cols,
            n == grid.cells@.len(),
            target == next_generation(grid.cells@, grid.cols as int, grid.rows as int),
            i <= n,
            next@ == target.subrange(0, i as int),
        decreases n - i,
    {
        let (x, y) = rm_to_xy(i, cols);
        proof {
            lemma_coords_of_index(grid.cols as int, grid.rows as int, i as int);
        }
        let live_neighbours = count_neighbours(grid, x, y);
        let alive = grid.cells[i].is_live();
        let cell = if alive && (live_neighbours < 2 || live_neighbours > 3) {
            Cell::Dead
        } else if !alive && live_neighbours == 3 {
            Cell::Live
        } else {
            grid.cells[i]
        };
        next.push(cell);
        i += 1;
        assert(next@ =~= target.subrange(0, i as int));
    }
    assert(next@ =~= target);
    Grid { cols: grid.cols, rows: grid.rows, cells: next }
}

/// In the next generation, a position on the grid is alive exactly when
/// Conway's rule says so of its current state and neighbours.
pub proof fn lemma_next_live(cells: Seq<Cell>, cols: int, rows: int, x: int, y: int)
    requires
        cells.len() == cols * rows,
        0 <= x < cols,
        0 <= y < rows,
    ensures
        live_at(next_generation(cells, cols, rows), cols, rows, x, y) == survives(
            live_at(cells, cols, rows, x, y),
            live_neighbours(cells, cols, rows, x, y),
        ),
{
    lemma_index_of_coords(cols, rows, x, y);
}

/// Two fields of the same shape that agree on which positions are alive are
/// the same field.
pub proof fn lemma_same_live_same_cells(a: Seq<Cell>, b: Seq<Cell>, cols: int, rows: int)
    requires
        cols >= 1,
        a.len() == cols * rows,
        b.len() == cols * rows,
        forall|x: int, y: int|
            0 <= x < cols && 0 <= y < rows ==> #[trigger] live_at(a, cols, rows, x, y) == live_at(
                b,
                cols,
                rows,
                x,
                y,
            ),
    ensures
        a == b,
{
    assert forall|i: int| 0 <= i < a.len() implies a[i] == b[i] by {
        lemma_coords_of_index(cols, rows, i);
        assert(live_at(a, cols, rows, i % cols, i / cols) == live_at(b, cols, rows, i % cols, i / cols));
    }
    assert(a =~= b);
}

/// A field with no live cell is its own next generation.
pub proof fn lemma_empty_is_fixed_point(g: Grid)
    requires
        g.wf(),
        count_live(g.cells@) == 0,
    ensures
        next_generation(g.cells@, g.cols as int, g.rows as int) == g.cells@,
{
    let (cells, cols, rows) = (g.cells@, g.cols as int, g.rows as int);
    lemma_count_zero(cells);
    assert forall|x: int, y: int| 0 <= x < cols && 0 <= y < rows implies !#[trigger] live_at(
        cells,
        cols,
        rows,
        x,
        y,
    ) by {
        lemma_index_of_coords(cols, rows, x, y);
    }
    let next = next_generation(cells, cols, rows);
    assert forall|x: int, y: int| 0 <= x < cols && 0 <= y < rows implies #[trigger] live_at(
        next,
        cols,
        rows,
        x,
        y,
    ) == live_at(cells, cols, rows, x, y) by {
        lemma_next_live(cells, cols, rows, x, y);
    }
    lemma_same_live_same_cells(next, cells, cols, rows);
}

/// The next generation is a function of the field's shape and contents alone:
/// two grids that hold the same cells have the same successor.
pub proof fn lemma_step_depends_on_contents(a: Grid, b: Grid)
    requires
        a.wf(),
        b.wf(),
        a.cols == b.cols,
        a.rows == b.rows,
        a.cells@ == b.cells@,
    ensures
        next_generation(a.cells@, a.cols as int, a.rows as int) == next_generation(
            b.cells@,
            b.cols as int,
            b.rows as int,
        ),
{
}

/// Whether `(x, y)` lies in the 2x2 block whose top-left corner is `(bx, by)`.
pub open spec fn in_block(bx: int, by: int, x: int, y: int) -> bool {
    bx <= x <= bx + 1 && by <= y <= by + 1
}

/// A 2x2 block of live cells with nothing else alive is a still life.
pub proof fn lemma_block_is_still(g: Grid, bx: int, by: int)
    requires
        g.wf(),
        0 <= bx && bx + 1 < g.cols,
        0 <= by && by + 1 < g.rows,
        forall|x: int, y: int|
            0 <= x < g.cols && 0 <= y < g.rows ==> #[trigger] live_at(
                g.cells@,
                g.cols as int,
                g.rows as int,
                x,
                y,
            ) == in_block(bx, by, x, y),
    ensures
        next_generation(g.cells@, g.cols as int, g.rows as int) == g.cells@,
{
    let (cells, cols, rows) = (g.cells@, g.cols as int, g.rows as int);
    let next = next_generation(cells, cols, rows);
    assert forall|x: int, y: int| 0 <= x < cols && 0 <= y < rows implies #[trigger] live_at(
        next,
        cols,
        rows,
        x,
        y,
    ) == live_at(cells, cols, rows, x, y) by {
        lemma_next_live(cells, cols, rows, x, y);
    }
    lemma_same_live_same_cells(next, cells, cols, rows);
}

/// Whether `(x, y)` is one of three cells in a row centred on `(cx, cy)`.
pub open spec fn in_row_of_three(cx: int, cy: int, x: int, y: int) -> bool {
    y == cy && cx - 1 <= x <= cx + 1
}

/// Whether `(x, y)` is one of three cells in a column centred on `(cx, cy)`.
pub open spec fn in_column_of_three(cx: int, cy: int, x: int, y: int) -> bool {
    x == cx && cy - 1 <= y <= cy + 1
}

/// A row of three live cells, alone on the field and away from its edges,
/// becomes a column of three through the same centre.
pub proof fn lemma_row_becomes_column(cells: Seq<Cell>, cols: int, rows: int, cx: int, cy: int)
    requires
        cells.len() == cols * rows,
        1 <= cx && cx + 1 < cols,
        1 <= cy && cy + 1 < rows,
        forall|x: int, y: int|
            0 <= x < cols && 0 <= y < rows ==> #[trigger] live_at(cells, cols, rows, x, y)
                == in_row_of_three(cx, cy, x, y),
    ensures
        forall|x: int, y: int|
            0 <= x < cols && 0 <= y < rows ==> #[trigger] live_at(
                next_generation(cells, cols, rows),
                cols,
                rows,
                x,
                y,
            ) == in_column_of_three(cx, cy, x, y),
{
    assert forall|x: int, y: int| 0 <= x < cols && 0 <= y < rows implies #[trigger] live_at(
        next_generation(cells, cols, rows),
        cols,
        rows,
        x,
        y,
    ) == in_column_of_three(cx, cy, x, y) by {
        lemma_next_live(cells, cols, rows, x, y);
    }
}

/// A column of three live cells, alone on the field and away from its edges,
/// becomes a row of three through the same centre.
pub proof fn lemma_column_becomes_row(cells: Seq<Cell>, cols: int, rows: int, cx: int, cy: int)
    requires
        cells.len() == cols * rows,
        1 <= cx && cx + 1 < cols,
        1 <= cy && cy + 1 < rows,
        forall|x: int, y: int|
            0 <= x < cols && 0 <= y < rows ==> #[trigger] live_at(cells, cols, rows, x, y)
                == in_column_of_three(cx, cy, x, y),
    ensures
        forall|x: int, y: int|
            0 <= x < cols && 0 <= y < rows ==> #[trigger] live_at(
                next_generation(cells, cols, rows),
                cols,
                rows,
                x,
                y,
            ) == in_row_of_three(cx, cy, x, y),
{
    assert forall|x: int, y: int| 0 <= x < cols && 0 <= y < rows implies #[trigger] live_at(
        next_generation(cells, cols, rows),
        cols,
        rows,
        x,
        y,
    ) == in_row_of_three(cx, cy, x, y) by {
        lemma_next_live(cells, cols, rows, x, y);
    }
}

/// The blinker oscillates with period two: a lone horizontal row of three
/// turns vertical after one step, and two steps give back the original field.
pub proof fn lemma_blinker_period_two(g: Grid, cx: int, cy: int)
    requires
        g.wf(),
        1 <= cx && cx + 1 < g.cols,
        1 <= cy && cy + 1 < g.rows,
        forall|x: int, y: int|
            0 <= x < g.cols && 0 <= y < g.rows ==> #[trigger] live_at(
                g.cells@,
                g.cols as int,
                g.rows as int,
                x,
                y,
            ) == in_row_of_three(cx, cy, x, y),
    ensures
        forall|x: int, y: int|
            0 <= x < g.cols && 0 <= y < g.rows ==> #[trigger] live_at(
                next_generation(g.cells@, g.cols as int, g.rows as int),
                g.cols as int,
                g.rows as int,
                x,
                y,
            ) == in_column_of_three(cx, cy, x, y),
        next_generation(
            next_generation(g.cells@, g.cols as int, g.rows as int),
            g.cols as int,
            g.rows as int,
        ) == g.cells@,
{
    let (cells, cols, rows) = (g.cells@, g.cols as int, g.rows as int);
    let once = next_generation(cells, cols, rows);
    let twice = next_generation(once, cols, rows);
    lemma_row_becomes_column(cells, cols, rows, cx, cy);
    lemma_column_becomes_row(once, cols, rows, cx, cy);
    assert forall|x: int, y: int| 0 <= x < cols && 0 <= y < rows implies #[trigger] live_at(
        twice,
        cols,
        rows,
        x,
        y,
    ) == live_at(cells, cols, rows, x, y) by {}
    lemma_same_live_same_cells(twice, cells, cols, rows);
}

/// The corner cell `(0, 0)` has at most three neighbours, whatever the field.
pub proof fn lemma_corner_neighbours(cells: Seq<Cell>, cols: int, rows: int)
    ensures
        live_neighbours(cells, cols, rows, 0, 0) <= 3,
{
}

/// The field does not wrap around: when only the corner `(0, 0)` is alive, it
/// is counted as a neighbour by the three positions next to it and by no other.
pub proof fn lemma_corner_not_wrapped(cells: Seq<Cell>, cols: int, rows: int)
    requires
        cols >= 1,
        rows >= 1,
        cells.len() == cols * rows,
        forall|x: int, y: int|
            0 <= x < cols && 0 <= y < rows ==> #[trigger] live_at(cells, cols, rows, x, y) == (x
                == 0 && y == 0),
    ensures
        forall|x: int, y: int|
            #[trigger] live_neighbours(cells, cols, rows, x, y) == bit(
                -1 <= x <= 1 && -1 <= y <= 1 && !(x == 0 && y == 0),
            ),
{
}

} // verus!
