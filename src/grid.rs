use vstd::prelude::*;
use vstd::arithmetic::div_mod::{lemma_fundamental_div_mod, lemma_fundamental_div_mod_converse};
use vstd::arithmetic::mul::lemma_mul_inequality;
use crate::cell::{Cell, flipped};

verus! {

/// Why a grid or controller operation was rejected.
#[derive(Copy, Clone, PartialEq, Eq, Debug, Structural)]
pub enum LifeError {
    /// A grid with no columns or no rows was asked for.
    InvalidDimensions,
    /// A coordinate or a cell index lies outside the current grid.
    OutOfBounds,
    /// A seed names a cell index outside the grid being created.
    IndexOutOfBounds,
    /// A setting lies outside its accepted range, or could not be read as a number.
    InvalidConfiguration,
}

/// The row-major index of position `(x, y)` in a grid with `cols` columns.
pub open spec fn cell_index(cols: int, x: int, y: int) -> int {
    y * cols + x
}

/// Whether position `(x, y)` lies on the grid and holds a live cell.
/// Positions off the grid count as dead: the field does not wrap around.
pub open spec fn live_at(cells: Seq<Cell>, cols: int, rows: int, x: int, y: int) -> bool {
    0 <= x < cols && 0 <= y < rows && cells[cell_index(cols, x, y)] == Cell::Live
}

/// The number of live cells in `cells`.
pub open spec fn count_live(cells: Seq<Cell>) -> nat
    decreases cells.len(),
{
    if cells.len() == 0 {
        0
    } else {
        count_live(cells.drop_last()) + if cells.last() == Cell::Live { 1nat } else { 0nat }
    }
}

/// `n` dead cells.
pub open spec fn dead_cells(n: nat) -> Seq<Cell> {
    Seq::new(n, |i: int| Cell::Dead)
}

/// `n` cells of which exactly those whose index occurs in `live` are alive.
pub open spec fn seeded_cells(n: nat, live: Seq<usize>) -> Seq<Cell> {
    Seq::new(n, |i: int| if live.contains(i as usize) { Cell::Live } else { Cell::Dead })
}

/// The position `(x, y)` of a valid index lies on the grid, and the index is
/// recovered from it.
pub proof fn lemma_coords_of_index(cols: int, rows: int, i: int)
    requires
        cols >= 1,
        0 <= i < cols * rows,
    ensures
        0 <= i % cols < cols,
        0 <= i / cols < rows,
        cell_index(cols, i % cols, i / cols) == i,
{
    lemma_fundamental_div_mod(i, cols);
    assert((i / cols) * cols == cols * (i / cols)) by (nonlinear_arith);
    assert(0 <= i % cols < cols) by (nonlinear_arith)
        requires cols >= 1;
    assert(0 <= i / cols) by (nonlinear_arith)
        requires cols >= 1, i >= 0;
    if i / cols >= rows {
        lemma_mul_inequality(rows, i / cols, cols);
        assert(cols * (i / cols) >= rows * cols) by (nonlinear_arith)
            requires rows * cols <= (i / cols) * cols;
    }
}

/// The index of a position on the grid is valid, and the position is
/// recovered from it.
pub proof fn lemma_index_of_coords(cols: int, rows: int, x: int, y: int)
    requires
        0 <= x < cols,
        0 <= y < rows,
    ensures
        0 <= cell_index(cols, x, y) < cols * rows,
        cell_index(cols, x, y) % cols == x,
        cell_index(cols, x, y) / cols == y,
{
    assert(0 <= y * cols + x < cols * rows) by (nonlinear_arith)
        requires 0 <= x < cols, 0 <= y < rows;
    lemma_fundamental_div_mod_converse(y * cols + x, cols, y, x);
}

/// A sequence of cells has no live cell exactly when its count is zero.
pub proof fn lemma_count_zero(cells: Seq<Cell>)
    ensures
        count_live(cells) == 0 <==> forall|i: int| 0 <= i < cells.len() ==> cells[i] == Cell::Dead,
        count_live(cells) <= cells.len(),
    decreases cells.len(),
{
    if cells.len() > 0 {
        lemma_count_zero(cells.drop_last());
        if count_live(cells) == 0 {
            assert forall|i: int| 0 <= i < cells.len() implies cells[i] == Cell::Dead by {
                if i < cells.len() - 1 {
                    assert(cells.drop_last()[i] == cells[i]);
                }
            }
        }
        if forall|i: int| 0 <= i < cells.len() ==> cells[i] == Cell::Dead {
            assert forall|i: int| 0 <= i < cells.drop_last().len() implies cells.drop_last()[i]
                == Cell::Dead by {
                assert(cells.drop_last()[i] == cells[i]);
            }
        }
    }
}

/// Transforms a row-major index into an `(x, y)` coordinate.
pub fn rm_to_xy(pos: usize, row_len: usize) -> (r: (usize, usize))
    requires
        row_len > 0,
    ensures
        r.0 == pos % row_len,
        r.1 == pos / row_len,
{
    let x = pos % row_len;
    let y = pos / row_len;
    (x, y)
}

/// A field of cells stored row-major: position `(x, y)` is `cells[y * cols + x]`.
pub struct Grid {
    pub cols: usize,
    pub rows: usize,
    pub cells: Vec<Cell>,
}

impl Grid {
    /// At least one column and one row, and exactly one cell per position.
    pub open spec fn wf(&self) -> bool {
        &&& self.cols >= 1
        &&& self.rows >= 1
        &&& self.cells@.len() == self.cols * self.rows
    }

    /// Whether position `(x, y)` holds a live cell.
    pub open spec fn live(&self, x: int, y: int) -> bool {
        live_at(self.cells@, self.cols as int, self.rows as int, x, y)
    }

    /// A grid of `cols` columns and `rows` rows, all dead.
    pub fn new(cols: usize, rows: usize) -> (r: Result<Grid, LifeError>)
        requires
            cols * rows <= usize::MAX,
        ensures
            r is Ok <==> (cols >= 1 && rows >= 1),
            r is Err ==> r == Err::<Grid, LifeError>(LifeError::InvalidDimensions),
            r matches Ok(g) ==> g.wf() && g.cols == cols && g.rows == rows && g.cells@ == dead_cells(
                (cols * rows) as nat,
            ),
    {
        if cols == 0 || rows == 0 {
            return Err(LifeError::InvalidDimensions);
        }
        let n = cols * rows;
        let mut cells: Vec<Cell> = Vec::new();
        let mut i: usize = 0;
        while i < n
            invariant
                i <= n,
                cells@ == dead_cells(i as nat),
            decreases n - i,
        {
            cells.push(Cell::Dead);
            i += 1;
            assert(cells@ =~= dead_cells(i as nat));
        }
        Ok(Grid { cols, rows, cells })
    }

    /// A grid of `cols` columns and `rows` rows in which exactly the cells
    /// whose index is listed in `live` are alive. An index outside the grid is
    /// an error, not silently dropped.
    pub fn create_with_seed(cols: usize, rows: usize, live: &Vec<usize>) -> (r: Result<Grid, LifeError>)
        requires
            cols * rows <= usize::MAX,
        ensures
            (cols == 0 || rows == 0) ==> r == Err::<Grid, LifeError>(LifeError::InvalidDimensions),
            (cols >= 1 && rows >= 1) ==> {
                if exists|k: int| 0 <= k < live@.len() && live@[k] >= cols * rows {
                    r == Err::<Grid, LifeError>(LifeError::IndexOutOfBounds)
                } else {
                    r matches Ok(g) && g.wf() && g.cols == cols && g.rows == rows && g.cells@
                        == seeded_cells((cols * rows) as nat, live@)
                }
            },
    {
        let mut grid = match Grid::new(cols, rows) {
            Ok(g) => g,
            Err(e) => return Err(e),
        };
        let n = cols * rows;
        let mut k: usize = 0;
        while k < live.len()
            invariant
                grid.wf(),
                grid.cols == cols,
                grid.rows == rows,
                n == cols * rows,
                k <= live@.len(),
                forall|j: int| 0 <= j < k ==> live@[j] < n,
                forall|i: int|
                    0 <= i < n ==> #[trigger] grid.cells@[i] == (if live@.subrange(0, k as int).contains(
                        i as usize,
                    ) {
                        Cell::Live
                    } else {
                        Cell::Dead
                    }),
            decreases live@.len() - k,
        {
            let idx = live[k];
            if idx >= n {
                return Err(LifeError::IndexOutOfBounds);
            }
            grid.cells.set(idx, Cell::Live);
            k += 1;
            assert forall|i: int| 0 <= i < n implies #[trigger] grid.cells@[i] == (if live@.subrange(
                0,
                k as int,
            ).contains(i as usize) {
                Cell::Live
            } else {
                Cell::Dead
            }) by {
                let prev = live@.subrange(0, k - 1);
                let cur = live@.subrange(0, k as int);
                assert(cur == prev.push(idx));
                if cur.contains(i as usize) && i != idx {
                    let j = choose|j: int| 0 <= j < cur.len() && cur[j] == i as usize;
                    assert(j != k - 1);
                    assert(prev[j] == i as usize);
                }
                if i == idx {
                    assert(cur[k - 1] == i as usize);
                }
            }
        }
        assert(live@.subrange(0, k as int) == live@);
        assert(grid.cells@ =~= seeded_cells(n as nat, live@));
        Ok(grid)
    }

    /// Whether the cell at `(x, y)` is alive.
    pub fn is_live_at(&self, x: usize, y: usize) -> (r: bool)
        requires
            self.wf(),
            x < self.cols,
            y < self.rows,
        ensures
            r == self.live(x as int, y as int),
    {
        let n = self.cells.len();
        proof {
            lemma_index_of_coords(self.cols as int, self.rows as int, x as int, y as int);
            assert(y * self.cols + x < n);
            assert(y * self.cols <= y * self.cols + x);
        }
        self.cells[y * self.cols + x].is_live()
    }

    /// The cell at `(x, y)`.
    pub fn get(&self, x: usize, y: usize) -> (r: Result<Cell, LifeError>)
        requires
            self.wf(),
        ensures
            (x < self.cols && y < self.rows) ==> r == Ok::<Cell, LifeError>(
                self.cells@[cell_index(self.cols as int, x as int, y as int)],
            ),
            !(x < self.cols && y < self.rows) ==> r == Err::<Cell, LifeError>(LifeError::OutOfBounds),
    {
        if x >= self.cols || y >= self.rows {
            return Err(LifeError::OutOfBounds);
        }
        let i = self.to_index(x, y);
        Ok(self.cells[i])
    }

    /// Puts `c` at `(x, y)`, leaving every other cell as it was.
    pub fn set(&mut self, x: usize, y: usize, c: Cell) -> (r: Result<(), LifeError>)
        requires
            old(self).wf(),
        ensures
            final(self).wf(),
            final(self).cols == old(self).cols,
            final(self).rows == old(self).rows,
            (x < old(self).cols && y < old(self).rows) ==> r == Ok::<(), LifeError>(()) && final(self).cells@ == old(self).cells@.update(cell_index(old(self).cols as int, x as int, y as int), c),
            !(x < old(self).cols && y < old(self).rows) ==> r == Err::<(), LifeError>(
                LifeError::OutOfBounds,
            ) && final(self).cells@ == old(self).cells@,
    {
        if x >= self.cols || y >= self.rows {
            return Err(LifeError::OutOfBounds);
        }
        let i = self.to_index(x, y);
        self.cells.set(i, c);
        Ok(())
    }

    /// Flips the cell at `(x, y)`, leaving every other cell as it was.
    pub fn toggle(&mut self, x: usize, y: usize) -> (r: Result<(), LifeError>)
        requires
            old(self).wf(),
        ensures
            final(self).wf(),
            final(self).cols == old(self).cols,
            final(self).rows == old(self).rows,
            (x < old(self).cols && y < old(self).rows) ==> r == Ok::<(), LifeError>(()) && final(self).cells@ == old(self).cells@.update(
                cell_index(old(self).cols as int, x as int, y as int),
                flipped(old(self).cells@[cell_index(old(self).cols as int, x as int, y as int)]),
            ),
            !(x < old(self).cols && y < old(self).rows) ==> r == Err::<(), LifeError>(
                LifeError::OutOfBounds,
            ) && final(self).cells@ == old(self).cells@,
    {
        if x >= self.cols || y >= self.rows {
            return Err(LifeError::OutOfBounds);
        }
        let i = self.to_index(x, y);
        let mut c = self.cells[i];
        c.toggle();
        self.cells.set(i, c);
        Ok(())
    }

    /// The position `(x, y)` of cell index `i`.
    pub fn to_xy(&self, i: usize) -> (r: (usize, usize))
        requires
            self.wf(),
            i < self.cells@.len(),
        ensures
            r.0 == i % self.cols,
            r.1 == i / self.cols,
            r.0 < self.cols,
            r.1 < self.rows,
            cell_index(self.cols as int, r.0 as int, r.1 as int) == i,
    {
        proof {
            lemma_coords_of_index(self.cols as int, self.rows as int, i as int);
        }
        rm_to_xy(i, self.cols)
    }

    /// The row-major index of position `(x, y)`.
    pub fn to_index(&self, x: usize, y: usize) -> (r: usize)
        requires
            self.wf(),
            x < self.cols,
            y < self.rows,
        ensures
            r == cell_index(self.cols as int, x as int, y as int),
            r < self.cells@.len(),
            r % self.cols == x,
            r / self.cols == y,
    {
        let n = self.cells.len();
        proof {
            lemma_index_of_coords(self.cols as int, self.rows as int, x as int, y as int);
            assert(y * self.cols <= y * self.cols + x);
        }
        y * self.cols + x
    }

    /// The number of live cells.
    pub fn count_alive(&self) -> (r: usize)
        ensures
            r == count_live(self.cells@),
    {
        let mut count: usize = 0;
        let mut i: usize = 0;
        while i < self.cells.len()
            invariant
                i <= self.cells@.len(),
                count == count_live(self.cells@.subrange(0, i as int)),
            decreases self.cells@.len() - i,
        {
            let ghost prefix = self.cells@.subrange(0, i as int);
            proof {
                lemma_count_zero(prefix);
            }
            assert(self.cells@.subrange(0, i + 1).drop_last() == prefix);
            if self.cells[i].is_live() {
                count += 1;
            }
            i += 1;
        }
        assert(self.cells@.subrange(0, i as int) == self.cells@);
        count
    }

    /// A new grid of `new_cols` columns and `new_rows` rows, all dead. The
    /// current contents are discarded.
    pub fn resize(&self, new_cols: usize, new_rows: usize) -> (r: Result<Grid, LifeError>)
        requires
            new_cols * new_rows <= usize::MAX,
        ensures
            r is Ok <==> (new_cols >= 1 && new_rows >= 1),
            r is Err ==> r == Err::<Grid, LifeError>(LifeError::InvalidDimensions),
            r matches Ok(g) ==> g.wf() && g.cols == new_cols && g.rows == new_rows && g.cells@
                == dead_cells((new_cols * new_rows) as nat),
    {
        Grid::new(new_cols, new_rows)
    }

    /// A grid of the same shape with every cell dead.
    pub fn clear(&self) -> (r: Grid)
        requires
            self.wf(),
        ensures
            r.wf(),
            r.cols == self.cols,
            r.rows == self.rows,
            r.cells@ == dead_cells(self.cells@.len()),
            count_live(r.cells@) == 0,
    {
        let n = self.cells.len();
        let mut cells: Vec<Cell> = Vec::new();
        let mut i: usize = 0;
        while i < n
            invariant
                i <= n,
                cells@ == dead_cells(i as nat),
            decreases n - i,
        {
            cells.push(Cell::Dead);
            i += 1;
            assert(cells@ =~= dead_cells(i as nat));
        }
        proof {
            lemma_count_zero(cells@);
        }
        Grid { cols: self.cols, rows: self.rows, cells }
    }
}

} // verus!
