use vstd::prelude::*;
use crate::cell::Cell;
use crate::grid::{Grid, rm_to_xy, lemma_coords_of_index};

verus! {

/// The square of `v`.
pub open spec fn sq(v: int) -> int {
    v * v
}

/// Whether the influence circle of radius `radius` centred on `cursor` reaches
/// the cell at `(x, y)`.
///
/// Pixel coordinates are those of the grid itself: the cell at `(x, y)` is the
/// square of side `cell_dim` whose top-left corner is `(x * cell_dim, y * cell_dim)`.
/// The cell is reached when the distance from its centre to the cursor is less
/// than half its side plus the radius. Both sides of that comparison are
/// doubled and squared, which keeps it exact in integers.
pub open spec fn within_influence(x: int, y: int, cursor: (i32, i32), radius: int, cell_dim: int) -> bool {
    sq(2 * x * cell_dim + cell_dim - 2 * cursor.0) + sq(2 * y * cell_dim + cell_dim - 2 * cursor.1)
        < sq(cell_dim + 2 * radius)
}

/// The field `cells` with every cell that the influence circle reaches made alive.
pub open spec fn influenced(
    cells: Seq<Cell>,
    cols: int,
    cursor: (i32, i32),
    radius: int,
    cell_dim: int,
) -> Seq<Cell> {
    Seq::new(
        cells.len(),
        |i: int|
            if cells[i] == Cell::Live || within_influence(i % cols, i / cols, cursor, radius, cell_dim) {
                Cell::Live
            } else {
                Cell::Dead
            },
    )
}

/// The square of a value small enough for it to fit.
fn square(v: i128) -> (r: i128)
    requires
        -0x10_0000_0000 < v < 0x10_0000_0000,
    ensures
        r == sq(v as int),
        0 <= r < 0x100_0000_0000_0000_0000,
{
    proof {
        assert(v * v < 0x100_0000_0000_0000_0000) by (nonlinear_arith)
            requires -0x10_0000_0000 < v < 0x10_0000_0000;
        assert(v * v >= 0) by (nonlinear_arith);
    }
    v * v
}

/// Makes alive every cell of `grid` that the influence circle of radius
/// `radius` around `cursor` reaches; cells already alive stay alive.
pub fn apply_influence(grid: &Grid, cursor: (i32, i32), radius: u32, cell_dim: i32) -> (r: Grid)
    requires
        grid.wf(),
        cell_dim > 0,
        grid.cols * cell_dim <= i32::MAX,
        grid.rows * cell_dim <= i32::MAX,
    ensures
        r.wf(),
        r.cols == grid.cols,
        r.rows == grid.rows,
        r.cells@ == influenced(grid.cells@, grid.cols as int, cursor, radius as int, cell_dim as int),
        forall|i: int|
            0 <= i < grid.cells@.len() && grid.cells@[i] == Cell::Live ==> #[trigger] r.cells@[i]
                == Cell::Live,
{
    let cols = grid.cols;
    let n = grid.cells.len();
    let ghost target = influenced(grid.cells@, grid.cols as int, cursor, radius as int, cell_dim as int);
    let reach = square(cell_dim as i128 + 2 * radius as i128);
    let mut next: Vec<Cell> = Vec::new();
    let mut i: usize = 0;
    while i < n
        invariant
            grid.wf(),
            cols == grid.cols,
            n == grid.cells@.len(),
            cell_dim > 0,
            grid.cols * cell_dim <= i32::MAX,
            grid.rows * cell_dim <= i32::MAX,
            reach == sq(cell_dim + 2 * radius),
            target == influenced(grid.cells@, grid.cols as int, cursor, radius as int, cell_dim as int),
            i <= n,
            next@ == target.subrange(0, i as int),
        decreases n - i,
    {
        let (x, y) = rm_to_xy(i, cols);
        proof {
            lemma_coords_of_index(grid.cols as int, grid.rows as int, i as int);
            assert(x * cell_dim <= grid.cols * cell_dim) by (nonlinear_arith)
                requires x < grid.cols, cell_dim > 0;
            assert(y * cell_dim <= grid.rows * cell_dim) by (nonlinear_arith)
                requires y < grid.rows, cell_dim > 0;
        }
        let left = x as i128 * cell_dim as i128;
        let top = y as i128 * cell_dim as i128;
        let dx = square(2 * left + cell_dim as i128 - 2 * cursor.0 as i128);
        let dy = square(2 * top + cell_dim as i128 - 2 * cursor.1 as i128);
        proof {
            assert(2 * x * cell_dim == 2 * left) by (nonlinear_arith)
                requires left == x * cell_dim;
            assert(2 * y * cell_dim == 2 * top) by (nonlinear_arith)
                requires top == y * cell_dim;
        }
        let cell = if dx + dy < reach {
            Cell::Live
        } else {
            grid.cells[i]
        };
        next.push(cell);
        i += 1;
        assert(next@ =~= target.subrange(0, i as int));
    }
    assert(next@ =~= target);
    Grid { cols: grid.cols, rows: grid.rows, cells: next }
}

} // verus!
