//! Rendering at half height: one glyph stands for two cells, one above
//! the other.

use crate::grid::{Grid, MatGol};
use vstd::prelude::*;
use vstd::string::StringExecFns;

verus! {

/// The four glyphs, by index: blank, upper half, lower half, full block.
pub open spec fn glyph_table() -> Seq<char> {
    seq![' ', '▀', '▄', '█']
}

/// The index of the glyph for a pair of cells: the upper cell counts 1,
/// the lower cell 2.
pub open spec fn glyph_index(top: u8, bottom: u8) -> int {
    top + bottom * 2
}

impl Grid {
    /// The glyph in column `col` of output line `line`, which shows the
    /// rows `2 * line` and `2 * line + 1`.
    pub open spec fn glyph_at(self, line: int, col: int) -> char {
        glyph_table()[glyph_index(self.at(2 * line, col), self.at(2 * line + 1, col))]
    }

    /// Output line `line`: one glyph per column.
    pub open spec fn glyph_line(self, line: int) -> Seq<char> {
        Seq::new(self.cols, |col: int| self.glyph_at(line, col))
    }

    /// The whole rendering: one line per pair of rows. A last row without
    /// a partner is not shown.
    pub open spec fn glyph_lines(self) -> Seq<Seq<char>> {
        Seq::new(self.rows / 2, |line: int| self.glyph_line(line))
    }

    /// The length of the main diagonal.
    pub open spec fn diagonal_len(self) -> nat {
        if self.rows <= self.cols {
            self.rows
        } else {
            self.cols
        }
    }

    /// The text line for the diagonal cell `(k, k)`: a diamond for a live
    /// cell, a dot for a dead one, then a dot and a line break.
    pub open spec fn diagonal_line(self, k: int) -> Seq<char> {
        if self.at(k, k) == 1 {
            seq!['♦', '.', '\n']
        } else {
            seq!['.', '.', '\n']
        }
    }

    /// The text lines for the first `n` cells of the main diagonal.
    pub open spec fn diagonal_text(self, n: nat) -> Seq<char>
        decreases n,
    {
        if n == 0 {
            Seq::empty()
        } else {
            self.diagonal_text((n - 1) as nat) + self.diagonal_line(n - 1)
        }
    }
}

/// The glyph of a pair of cells shows which of the two is alive: none,
/// the upper, the lower, or both.
pub proof fn lemma_glyph_of_pair(top: u8, bottom: u8)
    requires
        top <= 1,
        bottom <= 1,
    ensures
        glyph_table()[glyph_index(top, bottom)] == (if top == 0 && bottom == 0 {
            ' '
        } else if bottom == 0 {
            '▀'
        } else if top == 0 {
            '▄'
        } else {
            '█'
        }),
{
}

/// The rendering has one line for every two rows, rounded down, and one
/// glyph per column in each line. Every line shows two rows of the
/// grid; when the number of rows is odd, no line shows the last row.
pub proof fn lemma_render_shape(g: Grid, line: int)
    requires
        0 <= line < g.glyph_lines().len(),
    ensures
        g.glyph_lines().len() == g.rows / 2,
        g.glyph_lines()[line].len() == g.cols,
        2 * line + 1 < g.rows,
        g.rows % 2 == 1 ==> 2 * line + 1 < g.rows - 1,
{
}

/// Picks the glyph for a pair of cells, the upper and the lower.
pub fn glyph(top: u8, bottom: u8) -> (out: char)
    requires
        top <= 1,
        bottom <= 1,
    ensures
        out == glyph_table()[glyph_index(top, bottom)],
{
    let charmap: [char; 4] = [' ', '▀', '▄', '█'];
    charmap[(top + bottom * 2) as usize]
}

impl MatGol {
    /// Renders the grid as lines of glyphs, two rows to a line.
    pub fn render(&self) -> (lines: Vec<Vec<char>>)
        requires
            self.wf(),
        ensures
            lines.deep_view() == self@.glyph_lines(),
            lines@.len() == self.rows / 2,
    {
        let mut lines: Vec<Vec<char>> = Vec::new();
        for y in 0..self.rows / 2
            invariant
                self.wf(),
                lines@.len() == y,
                forall|l: int| 0 <= l < y ==> (#[trigger] lines@[l])@ == self@.glyph_line(l),
        {
            let r1 = 2 * y;
            let r2 = 2 * y + 1;
            let mut line: Vec<char> = Vec::new();
            for c in 0..self.cols
                invariant
                    self.wf(),
                    r1 == 2 * y,
                    r2 == 2 * y + 1,
                    r2 < self.rows,
                    line@.len() == c,
                    forall|k: int| 0 <= k < c ==> #[trigger] line@[k] == self@.glyph_at(y as int, k),
            {
                line.push(glyph(self.at_unchecked(r1, c), self.at_unchecked(r2, c)));
            }
            assert(line@ =~= self@.glyph_line(y as int));
            lines.push(line);
        }
        assert(lines.deep_view() =~~= self@.glyph_lines());
        lines
    }

    /// Writes the main diagonal of the grid as text, one line per cell.
    pub fn to_text(&self) -> (text: String)
        requires
            self.wf(),
        ensures
            text@ == self@.diagonal_text(self@.diagonal_len()),
    {
        let n = if self.rows <= self.cols {
            self.rows
        } else {
            self.cols
        };
        let mut text = String::new();
        for k in 0..n
            invariant
                self.wf(),
                n == self@.diagonal_len(),
                text@ == self@.diagonal_text(k as nat),
        {
            proof {
                reveal_strlit("♦.");
                reveal_strlit("..");
                reveal_strlit("\n");
            }
            if self.at_unchecked(k, k) == 1u8 {
                text.append("♦.");
            } else {
                text.append("..");
            }
            text.append("\n");
            assert(text@ =~= self@.diagonal_text(k as nat) + self@.diagonal_line(k as int));
        }
        text
    }
}

} // verus!
