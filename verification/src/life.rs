//! The generation step: a convolution over each cell's neighbourhood and
//! the liveness rule applied to its sum.

use crate::grid::{lemma_at_binary, lemma_empty_at, lemma_index_in_range, lemma_same_cells};
use crate::grid::{Grid, MatGol};
use vstd::arithmetic::div_mod::lemma_fundamental_div_mod_converse;
use vstd::prelude::*;

verus! {

impl Grid {
    /// The number of live cells among the eight neighbours of `(row, col)`.
    pub open spec fn live_neighbors(self, row: int, col: int) -> int {
        self.at(row - 1, col - 1) + self.at(row - 1, col) + self.at(row - 1, col + 1)
            + self.at(row, col - 1) + self.at(row, col + 1)
            + self.at(row + 1, col - 1) + self.at(row + 1, col) + self.at(row + 1, col + 1)
    }

    /// The weighted sum over the 3x3 neighbourhood of `(row, col)`: each
    /// neighbour counts once and the centre ten times.
    pub open spec fn convolution(self, row: int, col: int) -> int {
        self.live_neighbors(row, col) + 10 * self.at(row, col)
    }

    /// Whether the cell at `(row, col)` is alive in the next generation.
    pub open spec fn alive_next(self, row: int, col: int) -> bool {
        let sum = self.convolution(row, col);
        sum == 3 || sum == 12 || sum == 13
    }

    /// The state of the cell at `(row, col)` in the next generation.
    pub open spec fn next_cell(self, row: int, col: int) -> u8 {
        if self.alive_next(row, col) {
            1
        } else {
            0
        }
    }

    /// The next generation: a grid of the same dimensions in which every
    /// cell follows the liveness rule.
    pub open spec fn step(self) -> Grid {
        Grid {
            rows: self.rows,
            cols: self.cols,
            cells: Seq::new(
                self.rows * self.cols,
                |i: int| self.next_cell(i / self.cols as int, i % self.cols as int),
            ),
        }
    }

    /// The term that kernel entry `k`, counted row by row, adds to the
    /// convolution at `(row, col)`.
    spec fn kernel_term(self, row: int, col: int, k: int) -> int {
        let cell = self.at(row + k / 3 - 1, col + k % 3 - 1);
        if k == 4 {
            10 * cell
        } else {
            cell as int
        }
    }

    /// The sum of the first `k` kernel terms at `(row, col)`.
    spec fn kernel_prefix(self, row: int, col: int, k: nat) -> int
        decreases k,
    {
        if k == 0 {
            0
        } else {
            self.kernel_prefix(row, col, (k - 1) as nat) + self.kernel_term(row, col, k - 1)
        }
    }
}

/// All nine kernel terms together are the convolution.
proof fn lemma_kernel_total(g: Grid, row: int, col: int)
    ensures
        g.kernel_prefix(row, col, 9) == g.convolution(row, col),
{
    reveal_with_fuel(Grid::kernel_prefix, 10);
}

/// A cell of a well-formed grid has between 0 and 8 live neighbours, and
/// its convolution sum is at most 18.
pub proof fn lemma_convolution_range(g: Grid, row: int, col: int)
    requires
        g.wf(),
    ensures
        0 <= g.live_neighbors(row, col) <= 8,
        0 <= g.convolution(row, col) <= 18,
{
    lemma_at_binary(g, row - 1, col - 1);
    lemma_at_binary(g, row - 1, col);
    lemma_at_binary(g, row - 1, col + 1);
    lemma_at_binary(g, row, col - 1);
    lemma_at_binary(g, row, col);
    lemma_at_binary(g, row, col + 1);
    lemma_at_binary(g, row + 1, col - 1);
    lemma_at_binary(g, row + 1, col);
    lemma_at_binary(g, row + 1, col + 1);
}

/// The sum rule is the rule of the game: a cell is alive in the next
/// generation exactly when it is alive with two or three live neighbours,
/// or dead with three.
pub proof fn lemma_rule_of_life(g: Grid, row: int, col: int)
    requires
        g.wf(),
    ensures
        g.alive_next(row, col) <==> {
            let alive = g.at(row, col) == 1;
            let neighbors = g.live_neighbors(row, col);
            (alive && (neighbors == 2 || neighbors == 3)) || (!alive && neighbors == 3)
        },
{
    lemma_at_binary(g, row, col);
    lemma_convolution_range(g, row, col);
}

/// The next generation has the dimensions of this one, is well formed,
/// and holds at every cell what the rule gives for that cell.
pub proof fn lemma_step_at(g: Grid, row: int, col: int)
    requires
        g.contains(row, col),
    ensures
        g.step().rows == g.rows,
        g.step().cols == g.cols,
        g.step().wf(),
        g.step().at(row, col) == g.next_cell(row, col),
{
    let i = g.index(row, col);
    let with_len = Grid { cells: g.step().cells, ..g };
    lemma_index_in_range(with_len, row, col);
    lemma_fundamental_div_mod_converse(i, g.cols as int, row, col);
}

/// The next generation is well formed, whatever the grid.
pub proof fn lemma_step_wf(g: Grid)
    ensures
        g.step().wf(),
        g.step().rows == g.rows,
        g.step().cols == g.cols,
{
}

/// A grid is the next generation of `g` if it has the dimensions of `g`
/// and holds at every cell what the rule gives: there is no other.
pub proof fn lemma_step_unique(g: Grid, out: Grid)
    requires
        out.cells.len() == out.rows * out.cols,
        out.rows == g.rows,
        out.cols == g.cols,
        forall|row: int, col: int|
            g.contains(row, col) ==> out.at(row, col) == g.next_cell(row, col),
    ensures
        out == g.step(),
{
    assert forall|row: int, col: int| out.contains(row, col) implies out.at(row, col)
        == g.step().at(row, col) by {
        lemma_step_at(g, row, col);
    }
    lemma_same_cells(out, g.step());
}

/// Birth: a dead cell with exactly three live neighbours is alive in the
/// next generation.
pub proof fn lemma_birth(g: Grid, row: int, col: int)
    requires
        g.wf(),
        g.contains(row, col),
        g.at(row, col) == 0,
        g.live_neighbors(row, col) == 3,
    ensures
        g.step().at(row, col) == 1,
{
    lemma_step_at(g, row, col);
}

/// Survival: a live cell with two or three live neighbours stays alive.
pub proof fn lemma_survival(g: Grid, row: int, col: int)
    requires
        g.wf(),
        g.contains(row, col),
        g.at(row, col) == 1,
        g.live_neighbors(row, col) == 2 || g.live_neighbors(row, col) == 3,
    ensures
        g.step().at(row, col) == 1,
{
    lemma_step_at(g, row, col);
}

/// Death: a live cell with fewer than two or more than three live
/// neighbours is dead in the next generation.
pub proof fn lemma_death(g: Grid, row: int, col: int)
    requires
        g.wf(),
        g.contains(row, col),
        g.at(row, col) == 1,
        g.live_neighbors(row, col) <= 1 || g.live_neighbors(row, col) >= 4,
    ensures
        g.step().at(row, col) == 0,
{
    lemma_step_at(g, row, col);
    lemma_convolution_range(g, row, col);
}

/// A dead cell stays dead unless it has exactly three live neighbours.
pub proof fn lemma_stays_dead(g: Grid, row: int, col: int)
    requires
        g.wf(),
        g.contains(row, col),
        g.at(row, col) == 0,
        g.live_neighbors(row, col) != 3,
    ensures
        g.step().at(row, col) == 0,
{
    lemma_step_at(g, row, col);
    lemma_convolution_range(g, row, col);
}

/// Nothing is born from nothing: the next generation of the empty grid
/// is the empty grid.
pub proof fn lemma_empty_stays_empty(rows: nat, cols: nat)
    ensures
        Grid::empty(rows, cols).step() == Grid::empty(rows, cols),
{
    let g = Grid::empty(rows, cols);
    assert forall|row: int, col: int| g.contains(row, col) implies g.at(row, col)
        == g.next_cell(row, col) by {
        lemma_empty_at(rows, cols, row - 1, col - 1);
        lemma_empty_at(rows, cols, row - 1, col);
        lemma_empty_at(rows, cols, row - 1, col + 1);
        lemma_empty_at(rows, cols, row, col - 1);
        lemma_empty_at(rows, cols, row, col);
        lemma_empty_at(rows, cols, row, col + 1);
        lemma_empty_at(rows, cols, row + 1, col - 1);
        lemma_empty_at(rows, cols, row + 1, col);
        lemma_empty_at(rows, cols, row + 1, col + 1);
    }
    lemma_step_unique(g, g);
}

/// The step is a function of the grid: the next generations of two
/// equal grids are equal in dimensions and in every cell.
pub proof fn lemma_step_deterministic(a: MatGol, b: MatGol, next_a: MatGol, next_b: MatGol)
    requires
        a@ == b@,
        next_a@ == a@.step(),
        next_b@ == b@.step(),
    ensures
        next_a.rows == next_b.rows,
        next_a.cols == next_b.cols,
        next_a.matrix@ == next_b.matrix@,
{
}

/// The coordinate `i + k - 1`, if it lies in `[0, n)`.
fn shifted(i: usize, k: usize, n: usize) -> (out: Option<usize>)
    requires
        i < n,
        k < 3,
    ensures
        out == (if 0 <= i + k - 1 < n {
            Some((i + k - 1) as usize)
        } else {
            None
        }),
{
    if k == 0 {
        if i == 0 {
            None
        } else {
            Some(i - 1)
        }
    } else if k == 1 {
        Some(i)
    } else if i + 1 < n {
        Some(i + 1)
    } else {
        None
    }
}

impl MatGol {
    /// Reads the cell under kernel entry `(k_row, k_col)` when the kernel
    /// is centred on `(row, col)`; outside the grid it is dead.
    fn under_kernel(&self, row: usize, col: usize, k_row: usize, k_col: usize) -> (cell: u8)
        requires
            self.wf(),
            self@.contains(row as int, col as int),
            k_row < 3,
            k_col < 3,
        ensures
            cell == self@.at(row + k_row - 1, col + k_col - 1),
            cell <= 1,
    {
        match (shifted(row, k_row, self.rows), shifted(col, k_col, self.cols)) {
            (Some(r), Some(c)) => self.at_unchecked(r, c),
            _ => 0,
        }
    }

    /// Computes the convolution sum at the cell `(row, col)`.
    pub fn convolution(&self, row: usize, col: usize) -> (sum: u8)
        requires
            self.wf(),
            self@.contains(row as int, col as int),
        ensures
            sum == self@.convolution(row as int, col as int),
            sum <= 18,
    {
        let filter: [[u8; 3]; 3] = [[1, 1, 1], [1, 10, 1], [1, 1, 1]];
        let mut convolution: u8 = 0;
        for conv_row in 0..3usize
            invariant
                self.wf(),
                self@.contains(row as int, col as int),
                filter == [[1u8, 1u8, 1u8], [1u8, 10u8, 1u8], [1u8, 1u8, 1u8]],
                convolution == self@.kernel_prefix(row as int, col as int, (3 * conv_row) as nat),
                convolution <= 30 * conv_row,
        {
            for conv_col in 0..3usize
                invariant
                    self.wf(),
                    self@.contains(row as int, col as int),
                    conv_row < 3,
                    filter == [[1u8, 1u8, 1u8], [1u8, 10u8, 1u8], [1u8, 1u8, 1u8]],
                    convolution == self@.kernel_prefix(
                        row as int,
                        col as int,
                        (3 * conv_row + conv_col) as nat,
                    ),
                    convolution <= 30 * conv_row + 10 * conv_col,
            {
                let weight = filter[conv_row][conv_col];
                let cell = self.under_kernel(row, col, conv_row, conv_col);
                assert(weight == if conv_row == 1 && conv_col == 1 { 10u8 } else { 1u8 });
                assert(weight * cell == if cell == 0 { 0 } else { weight as int }) by (nonlinear_arith)
                    requires
                        cell <= 1,
                ;
                proof {
                    let k = (3 * conv_row + conv_col) as int;
                    assert(k / 3 == conv_row && k % 3 == conv_col);
                    assert(weight * cell == self@.kernel_term(row as int, col as int, k));
                }
                convolution += weight * cell;
            }
        }
        proof {
            lemma_kernel_total(self@, row as int, col as int);
            lemma_convolution_range(self@, row as int, col as int);
        }
        convolution
    }
}

/// Creates the next generation of `gol`: a cell is alive in it exactly
/// when its convolution sum in `gol` is 3, 12 or 13.
pub fn next(gol: MatGol) -> (out: MatGol)
    requires
        gol.wf(),
    ensures
        out@ == gol@.step(),
        out.wf(),
        out.rows == gol.rows,
        out.cols == gol.cols,
{
    assert(gol.matrix@.len() == gol.matrix.len());
    let mut result = MatGol::empty(gol.rows, gol.cols);
    assert(0 * gol.cols == 0);
    for row in 0..gol.rows
        invariant
            gol.wf(),
            result.wf(),
            result.rows == gol.rows,
            result.cols == gol.cols,
            forall|i: int|
                0 <= i < row * gol.cols ==> result@.cells[i] == #[trigger] gol@.step().cells[i],
            forall|i: int|
                row * gol.cols <= i < result@.cells.len() ==> #[trigger] result@.cells[i] == 0,
    {
        for col in 0..gol.cols
            invariant
                gol.wf(),
                result.wf(),
                result.rows == gol.rows,
                result.cols == gol.cols,
                row < gol.rows,
                forall|i: int|
                    0 <= i < row * gol.cols + col ==> result@.cells[i]
                        == #[trigger] gol@.step().cells[i],
                forall|i: int|
                    row * gol.cols + col <= i < result@.cells.len()
                        ==> #[trigger] result@.cells[i] == 0,
        {
            let convolution = gol.convolution(row, col);

            let is_alive = match convolution {
                3 => true,
                12 | 13 => true,
                _ => false,
            };

            proof {
                lemma_index_in_range(gol@, row as int, col as int);
                lemma_fundamental_div_mod_converse(
                    gol@.index(row as int, col as int),
                    gol.cols as int,
                    row as int,
                    col as int,
                );
                assert(is_alive == gol@.alive_next(row as int, col as int));
            }

            if is_alive {
                result = result.live(row, col);
            }
        }
        assert((row + 1) * gol.cols == row * gol.cols + gol.cols) by (nonlinear_arith);
    }
    assert(result@.cells =~= gol@.step().cells);
    result
}

} // verus!
