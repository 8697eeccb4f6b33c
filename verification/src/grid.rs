//! The cell grid: storage, dimensions and accessors.

use vstd::arithmetic::div_mod::lemma_div_pos_is_pos;
use vstd::arithmetic::div_mod::lemma_fundamental_div_mod;
use vstd::arithmetic::div_mod::lemma_fundamental_div_mod_converse;
use vstd::prelude::*;

verus! {

/// The mathematical model of a grid: its dimensions and its cells in
/// row-major order.
pub struct Grid {
    pub rows: nat,
    pub cols: nat,
    pub cells: Seq<u8>,
}

impl Grid {
    /// The cell sequence has one entry per coordinate, and every cell is
    /// dead (0) or alive (1).
    pub open spec fn wf(self) -> bool {
        &&& self.cells.len() == self.rows * self.cols
        &&& forall|i: int| 0 <= i < self.cells.len() ==> #[trigger] self.cells[i] <= 1
    }

    /// Whether `(row, col)` names a cell of the grid.
    pub open spec fn contains(self, row: int, col: int) -> bool {
        0 <= row < self.rows && 0 <= col < self.cols
    }

    /// The position of `(row, col)` in the row-major cell sequence.
    pub open spec fn index(self, row: int, col: int) -> int {
        row * self.cols + col
    }

    /// The cell at `(row, col)`, where every coordinate outside the grid
    /// is dead.
    pub open spec fn at(self, row: int, col: int) -> u8 {
        if self.contains(row, col) {
            self.cells[self.index(row, col)]
        } else {
            0
        }
    }

    /// The grid of the given dimensions in which every cell is dead.
    pub open spec fn empty(rows: nat, cols: nat) -> Grid {
        Grid { rows, cols, cells: Seq::new(rows * cols, |i: int| 0u8) }
    }

    /// This grid with the cell at `(row, col)` replaced by `value`.
    pub open spec fn set(self, row: int, col: int, value: u8) -> Grid {
        Grid { cells: self.cells.update(self.index(row, col), value), ..self }
    }
}

/// A position inside the grid lies inside the cell sequence.
pub proof fn lemma_index_in_range(g: Grid, row: int, col: int)
    requires
        g.cells.len() == g.rows * g.cols,
        g.contains(row, col),
    ensures
        0 <= row * g.cols <= g.index(row, col) < g.cells.len(),
{
    assert(row * g.cols + col < g.rows * g.cols) by (nonlinear_arith)
        requires
            0 <= row < g.rows,
            0 <= col < g.cols,
    ;
    assert(0 <= row * g.cols) by (nonlinear_arith)
        requires
            0 <= row,
            0 <= g.cols,
    ;
}

/// Every read of a well-formed grid, inside or outside, gives 0 or 1.
pub proof fn lemma_at_binary(g: Grid, row: int, col: int)
    requires
        g.wf(),
    ensures
        g.at(row, col) <= 1,
{
    if g.contains(row, col) {
        lemma_index_in_range(g, row, col);
    }
}

/// Two cells of the grid that share a position in the cell sequence are
/// the same cell.
pub proof fn lemma_index_injective(g: Grid, row1: int, col1: int, row2: int, col2: int)
    requires
        g.contains(row1, col1),
        g.contains(row2, col2),
        g.index(row1, col1) == g.index(row2, col2),
    ensures
        row1 == row2,
        col1 == col2,
{
    let cols = g.cols as int;
    lemma_fundamental_div_mod_converse(g.index(row1, col1), cols, row1, col1);
    lemma_fundamental_div_mod_converse(g.index(row2, col2), cols, row2, col2);
}

/// Inside the grid the two accessors agree: the padded read that `at`
/// returns is the plain read of the cell sequence that `at_unchecked`
/// returns.
pub proof fn lemma_at_inside(g: Grid, row: int, col: int)
    requires
        g.contains(row, col),
    ensures
        g.at(row, col) == g.cells[g.index(row, col)],
{
}

/// Padding: every coordinate outside the grid reads as dead.
pub proof fn lemma_at_outside(g: Grid, row: int, col: int)
    requires
        row < 0 || col < 0 || row >= g.rows || col >= g.cols,
    ensures
        g.at(row, col) == 0,
{
}

/// The empty grid is well formed and dead everywhere.
pub proof fn lemma_empty_at(rows: nat, cols: nat, row: int, col: int)
    ensures
        Grid::empty(rows, cols).wf(),
        Grid::empty(rows, cols).at(row, col) == 0,
{
    let g = Grid::empty(rows, cols);
    if g.contains(row, col) {
        lemma_index_in_range(g, row, col);
    }
}

/// Setting a cell to 0 or 1 keeps the grid well formed and its
/// dimensions unchanged.
pub proof fn lemma_set_wf(g: Grid, row: int, col: int, value: u8)
    requires
        g.wf(),
        g.contains(row, col),
        value <= 1,
    ensures
        g.set(row, col, value).wf(),
        g.set(row, col, value).rows == g.rows,
        g.set(row, col, value).cols == g.cols,
{
    lemma_index_in_range(g, row, col);
}

/// Setting a cell changes what is read at that cell and nowhere else.
pub proof fn lemma_set_at(g: Grid, row: int, col: int, value: u8, r: int, c: int)
    requires
        g.cells.len() == g.rows * g.cols,
        g.contains(row, col),
    ensures
        g.set(row, col, value).at(r, c) == (if r == row && c == col {
            value
        } else {
            g.at(r, c)
        }),
{
    lemma_index_in_range(g, row, col);
    if g.contains(r, c) {
        lemma_index_in_range(g, r, c);
        if g.index(r, c) == g.index(row, col) {
            lemma_index_injective(g, row, col, r, c);
        }
    }
}

/// Every position of the cell sequence belongs to the cell in row
/// `i / cols` and column `i % cols`.
pub proof fn lemma_position_has_cell(g: Grid, i: int)
    requires
        g.cells.len() == g.rows * g.cols,
        0 <= i < g.cells.len(),
    ensures
        g.cols > 0,
        g.contains(i / g.cols as int, i % g.cols as int),
        g.index(i / g.cols as int, i % g.cols as int) == i,
{
    let cols = g.cols as int;
    let rows = g.rows as int;
    if cols == 0 {
        assert(rows * cols == 0) by (nonlinear_arith)
            requires
                cols == 0,
        ;
    }
    lemma_fundamental_div_mod(i, cols);
    lemma_div_pos_is_pos(i, cols);
    assert(cols * (i / cols) == (i / cols) * cols) by (nonlinear_arith);
    if i / cols >= rows {
        assert((i / cols) * cols >= rows * cols) by (nonlinear_arith)
            requires
                i / cols >= rows,
                cols > 0,
        ;
    }
}

/// Two grids of the same dimensions that read alike at every cell are
/// the same grid.
pub proof fn lemma_same_cells(a: Grid, b: Grid)
    requires
        a.cells.len() == a.rows * a.cols,
        b.cells.len() == b.rows * b.cols,
        a.rows == b.rows,
        a.cols == b.cols,
        forall|row: int, col: int| a.contains(row, col) ==> a.at(row, col) == b.at(row, col),
    ensures
        a == b,
{
    assert forall|i: int| 0 <= i < a.cells.len() implies a.cells[i] == b.cells[i] by {
        lemma_position_has_cell(a, i);
        let cols = a.cols as int;
        assert(a.at(i / cols, i % cols) == b.at(i / cols, i % cols));
    }
    assert(a.cells =~= b.cells);
}

/// A grid of dead and live cells stored row by row.
#[derive(Debug, PartialEq, Eq)]
pub struct MatGol {
    pub rows: usize,
    pub cols: usize,
    pub matrix: Vec<u8>,
}

impl View for MatGol {
    type V = Grid;

    open spec fn view(&self) -> Grid {
        Grid { rows: self.rows as nat, cols: self.cols as nat, cells: self.matrix@ }
    }
}

impl Clone for MatGol {
    fn clone(&self) -> (out: Self)
        ensures
            out@ == self@,
    {
        MatGol { rows: self.rows, cols: self.cols, matrix: self.matrix.clone() }
    }
}

impl MatGol {
    /// The invariant of a grid, stated on its model.
    pub open spec fn wf(&self) -> bool {
        self@.wf()
    }

    /// Whether the grid is well formed: it has one cell per coordinate
    /// and every cell is 0 or 1.
    pub fn is_well_formed(&self) -> (ok: bool)
        ensures
            ok == self.wf(),
    {
        assert(self.matrix@.len() == self.matrix.len());
        match self.rows.checked_mul(self.cols) {
            None => false,
            Some(n) => {
                if self.matrix.len() != n {
                    return false;
                }
                for i in 0..n
                    invariant
                        n == self.matrix@.len(),
                        n == self.rows * self.cols,
                        forall|j: int| 0 <= j < i ==> #[trigger] self.matrix@[j] <= 1,
                {
                    if self.matrix[i] > 1 {
                        return false;
                    }
                }
                true
            },
        }
    }

    /// Whether `(row, col)` names a cell of the grid.
    pub fn contains(&self, row: usize, col: usize) -> (inside: bool)
        ensures
            inside == self@.contains(row as int, col as int),
    {
        row < self.rows && col < self.cols
    }

    /// Gets the cell at `(row, col)`, which the caller knows to be inside
    /// the grid.
    pub fn at_unchecked(&self, row: usize, col: usize) -> (cell: u8)
        requires
            self.wf(),
            self@.contains(row as int, col as int),
        ensures
            cell == self@.cells[self@.index(row as int, col as int)],
            cell == self@.at(row as int, col as int),
            cell <= 1,
    {
        proof {
            lemma_index_in_range(self@, row as int, col as int);
            assert(self.matrix@.len() == self.matrix.len());
        }
        self.matrix[row * self.cols + col]
    }

    /// Gets the cell at `(row, col)`; a coordinate outside the grid reads
    /// as dead.
    pub fn at(&self, row: i32, col: i32) -> (cell: u8)
        requires
            self.wf(),
        ensures
            cell == self@.at(row as int, col as int),
            !self@.contains(row as int, col as int) ==> cell == 0,
            cell <= 1,
    {
        if row < 0 || col < 0 {
            return 0;
        }
        let r = row as usize;
        let c = col as usize;
        if r >= self.rows || c >= self.cols {
            return 0;
        }
        self.at_unchecked(r, c)
    }

    /// Gets a mutable reference to the cell at `(row, col)`. The grid
    /// changes in that cell alone, to whatever is written through the
    /// reference; it stays well formed if that value is 0 or 1.
    pub fn at_mut(&mut self, row: usize, col: usize) -> (cell: &mut u8)
        requires
            old(self).wf(),
            old(self)@.contains(row as int, col as int),
        ensures
            *cell == old(self)@.at(row as int, col as int),
            final(self)@ == old(self)@.set(row as int, col as int, *final(cell)),
            final(self).rows == old(self).rows,
            final(self).cols == old(self).cols,
            *final(cell) <= 1 ==> final(self).wf(),
    {
        proof {
            lemma_index_in_range(self@, row as int, col as int);
            assert(self.matrix@.len() == self.matrix.len());
        }
        &mut self.matrix[row * self.cols + col]
    }

    /// Creates a grid of the given dimensions with every cell dead.
    pub fn empty(rows: usize, cols: usize) -> (out: Self)
        requires
            rows * cols <= usize::MAX,
        ensures
            out@ == Grid::empty(rows as nat, cols as nat),
            out.wf(),
            out.rows == rows,
            out.cols == cols,
    {
        assert(cols * rows == rows * cols) by (nonlinear_arith);
        let out = MatGol { rows, cols, matrix: vec![0; cols * rows] };
        assert(out@.cells =~= Grid::empty(rows as nat, cols as nat).cells);
        out
    }

    /// Creates a grid of the given dimensions with every cell dead, or
    /// nothing when the number of cells does not fit the index type.
    pub fn try_empty(rows: usize, cols: usize) -> (out: Option<Self>)
        ensures
            out is Some <==> rows * cols <= usize::MAX,
            out matches Some(g) ==> g@ == Grid::empty(rows as nat, cols as nat) && g.wf(),
    {
        match rows.checked_mul(cols) {
            Some(_) => Some(Self::empty(rows, cols)),
            None => None,
        }
    }

    /// Makes the cell at `(row, col)` alive.
    pub fn live(self, row: usize, col: usize) -> (out: Self)
        requires
            self.wf(),
            self@.contains(row as int, col as int),
        ensures
            out@ == self@.set(row as int, col as int, 1),
            out.wf(),
            out.rows == self.rows,
            out.cols == self.cols,
    {
        let mut out = self;
        *out.at_mut(row, col) = 1;
        out
    }

    /// Makes the cell at `(row, col)` dead.
    pub fn dead(self, row: usize, col: usize) -> (out: Self)
        requires
            self.wf(),
            self@.contains(row as int, col as int),
        ensures
            out@ == self@.set(row as int, col as int, 0),
            out.wf(),
            out.rows == self.rows,
            out.cols == self.cols,
    {
        let mut out = self;
        *out.at_mut(row, col) = 0;
        out
    }
}

} // verus!
