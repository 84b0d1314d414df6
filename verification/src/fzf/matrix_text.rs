//! A printable picture of a matrix: its values in aligned columns, framed
//! by brackets.

use vstd::prelude::*;

use super::slab::{lemma_cell_index, Matrix, MatrixCell, MatrixItem};
use crate::chars::push_char;
use crate::text::{decimal, lemma_decimal_mono, push_decimal, push_spaces, spaces};

verus! {

/// The largest value among the first `k` values of `s`, `k` being at
/// least 1.
pub open spec fn max_upto<T: MatrixItem>(s: Seq<T>, k: int) -> int
    decreases k,
{
    if k <= 1 {
        s[0].spec_int()
    } else if s[k - 1].spec_int() <= max_upto(s, k - 1) {
        max_upto(s, k - 1)
    } else {
        s[k - 1].spec_int()
    }
}

/// The largest of the first `k` values bounds each of them.
pub proof fn lemma_max_upto<T: MatrixItem>(s: Seq<T>, k: int, i: int)
    requires
        0 <= i < k <= s.len(),
    ensures
        s[i].spec_int() <= max_upto(s, k),
        exists|j: int| 0 <= j < k && max_upto(s, k) == (#[trigger] s[j]).spec_int(),
    decreases k,
{
    if k > 1 {
        if i < k - 1 {
            lemma_max_upto(s, k - 1, i);
        } else {
            lemma_max_upto(s, k - 1, 0);
        }
        if s[k - 1].spec_int() > max_upto(s, k - 1) {
            assert(max_upto(s, k) == s[k - 1].spec_int());
        }
    }
}

impl<T: MatrixItem> Matrix<T> {
    /// The largest value of column `col` among the first `k` rows, `k` being
    /// at least 1.
    pub open spec fn col_max_upto(&self, col: int, k: int) -> int
        decreases k,
    {
        if k <= 1 {
            self.at(0, col).spec_int()
        } else if self.at(k - 1, col).spec_int() <= self.col_max_upto(col, k - 1) {
            self.col_max_upto(col, k - 1)
        } else {
            self.at(k - 1, col).spec_int()
        }
    }

    /// The printed width of the largest value of the matrix.
    pub open spec fn max_width(&self) -> int {
        decimal(max_upto(self.cells(), self.cells().len() as int) as nat).len() as int
    }

    /// The printed width of the largest value of the last column.
    pub open spec fn last_col_width(&self) -> int {
        decimal(self.col_max_upto(self.spec_width() - 1, self.spec_height() as int) as nat).len() as int
    }

    /// The printed width of the inside of the frame.
    pub open spec fn inner_width(&self) -> int {
        (self.spec_width() - 1) * (self.max_width() + 1) + self.last_col_width()
    }

    /// A value, followed by the spaces that align the next column.
    pub open spec fn cell_text(&self, v: T, is_last: bool) -> Seq<char> {
        decimal(v.spec_int() as nat) + spaces(
            if is_last {
                self.last_col_width() - decimal(v.spec_int() as nat).len()
            } else {
                self.max_width() - decimal(v.spec_int() as nat).len() + 1
            },
        )
    }

    /// The first `k` values of row `row`, as printed.
    pub open spec fn cols_text(&self, row: int, k: int) -> Seq<char>
        decreases k,
    {
        if k <= 0 {
            Seq::empty()
        } else {
            self.cols_text(row, k - 1) + self.cell_text(self.at(row, k - 1), k - 1 == self.spec_width() - 1)
        }
    }

    /// The first `k` rows, as printed between `open` and `close`.
    pub open spec fn rows_text(&self, k: int, open: char, close: char) -> Seq<char>
        decreases k,
    {
        if k <= 0 {
            Seq::empty()
        } else {
            self.rows_text(k - 1, open, close) + seq![open] + self.cols_text(k - 1, self.spec_width() as int)
                + seq![close, '\n']
        }
    }

    /// The matrix as printed: one row per line, the values aligned in
    /// columns; a single row between square brackets, several rows in a
    /// box.
    pub open spec fn spec_text(&self) -> Seq<char> {
        if self.spec_height() == 1 {
            self.rows_text(1, '[', ']')
        } else {
            seq!['┌'] + spaces(self.inner_width()) + seq!['┐', '\n'] + self.rows_text(
                self.spec_height() as int,
                '│',
                '│',
            ) + seq!['└'] + spaces(self.inner_width()) + seq!['┘']
        }
    }

    /// The matrix as printed: see [`Matrix::spec_text`].
    pub fn to_text(&self) -> (r: String)
        requires
            self.wf(),
            forall|k: int| 0 <= k < self.cells().len() ==> (#[trigger] self.cells()[k]).spec_int() >= 0,
            self.inner_width() <= usize::MAX,
        ensures
            r@ == self.spec_text(),
    {
        let width = self.width();
        let height = self.height();
        let ghost cells = self.cells();
        let total = height * width;
        proof {
            lemma_cell_index(height - 1, width - 1, width as int, height as int);
            assert(total == cells.len()) by (nonlinear_arith)
                requires
                    total == height * width,
                    cells.len() == height * width,
            ;
        }
        let mut max = self.get(MatrixCell(0));
        let mut k: usize = 1;
        while k < total
            invariant
                1 <= k <= total == cells.len(),
                cells == self.cells(),
                max.spec_int() == max_upto(cells, k as int),
            decreases total - k,
        {
            let v = self.get(MatrixCell(k));
            if !v.is_at_most(max) {
                max = v;
            }
            k += 1;
        }
        proof {
            lemma_max_upto(cells, total as int, 0);
        }
        let mut last_max = self.get_at(0, width - 1);
        let mut r: usize = 1;
        while r < height
            invariant
                self.wf(),
                width == self.spec_width(),
                height == self.spec_height(),
                1 <= r <= height,
                last_max.spec_int() == self.col_max_upto(width - 1, r as int),
            decreases height - r,
        {
            let v = self.get_at(r, width - 1);
            if !v.is_at_most(last_max) {
                last_max = v;
            }
            r += 1;
        }
        let ghost lw = self.last_col_width();
        let ghost mw = self.max_width();
        proof {
            lemma_max_upto(cells, total as int, 0);
            self.lemma_col_max(width - 1, height as int, 0);
        }
        let max_width = max.printed_width();
        let last_width = last_max.printed_width();
        proof {
            assert(0 <= (width - 1) * (max_width + 1) <= self.inner_width()) by (nonlinear_arith)
                requires
                    width >= 1,
                    max_width >= 1,
                    last_width >= 1,
                    self.inner_width() == (width - 1) * (max_width + 1) + last_width,
            ;
        }
        let inner = (width - 1) * (max_width + 1) + last_width;
        let mut out = String::new();
        let open: char;
        let close: char;
        if height == 1 {
            open = '[';
            close = ']';
        } else {
            push_char(&mut out, '┌');
            push_spaces(&mut out, inner);
            push_char(&mut out, '┐');
            push_char(&mut out, '\n');
            open = '│';
            close = '│';
        }
        let ghost head = out@;
        let mut row: usize = 0;
        while row < height
            invariant
                self.wf(),
                forall|k: int| 0 <= k < self.cells().len() ==> (#[trigger] self.cells()[k]).spec_int() >= 0,
                width == self.spec_width(),
                height == self.spec_height(),
                max_width == self.max_width(),
                last_width == self.last_col_width(),
                max.spec_int() == max_upto(self.cells(), self.cells().len() as int),
                last_max.spec_int() == self.col_max_upto(width - 1, height as int),
                row <= height,
                out@ == head + self.rows_text(row as int, open, close),
            decreases height - row,
        {
            let ghost before = out@;
            push_char(&mut out, open);
            let mut col: usize = 0;
            while col < width
                invariant
                    self.wf(),
                    forall|k: int| 0 <= k < self.cells().len() ==> (#[trigger] self.cells()[k]).spec_int() >= 0,
                    width == self.spec_width(),
                    height == self.spec_height(),
                    row < height,
                    max_width == self.max_width(),
                    last_width == self.last_col_width(),
                    max.spec_int() == max_upto(self.cells(), self.cells().len() as int),
                    last_max.spec_int() == self.col_max_upto(width - 1, height as int),
                    col <= width,
                    out@ == before + seq![open] + self.cols_text(row as int, col as int),
                decreases width - col,
            {
                let v = self.get_at(row, col);
                proof {
                    lemma_cell_index(row as int, col as int, width as int, height as int);
                    lemma_max_upto(self.cells(), self.cells().len() as int, row * width + col);
                    lemma_decimal_mono(v.spec_int() as nat, max.spec_int() as nat);
                    if col == width - 1 {
                        self.lemma_col_max(width - 1, height as int, row as int);
                        lemma_decimal_mono(v.spec_int() as nat, last_max.spec_int() as nat);
                    }
                }
                push_decimal(&mut out, v.to_u64());
                let w = v.printed_width();
                let num = if col == width - 1 {
                    last_width - w
                } else {
                    max_width - w + 1
                };
                push_spaces(&mut out, num);
                col += 1;
            }
            push_char(&mut out, close);
            push_char(&mut out, '\n');
            row += 1;
        }
        if height > 1 {
            push_char(&mut out, '└');
            push_spaces(&mut out, inner);
            push_char(&mut out, '┘');
        }
        out
    }

    /// The largest value of column `col` among the first `k` rows bounds
    /// each of them and is one of them.
    pub proof fn lemma_col_max(&self, col: int, k: int, i: int)
        requires
            0 <= i < k,
        ensures
            self.at(i, col).spec_int() <= self.col_max_upto(col, k),
            exists|j: int| 0 <= j < k && self.col_max_upto(col, k) == (#[trigger] self.at(j, col)).spec_int(),
        decreases k,
    {
        if k > 1 {
            if i < k - 1 {
                self.lemma_col_max(col, k - 1, i);
            } else {
                self.lemma_col_max(col, k - 1, 0);
            }
            if self.at(k - 1, col).spec_int() > self.col_max_upto(col, k - 1) {
                assert(self.col_max_upto(col, k) == self.at(k - 1, col).spec_int());
            }
        }
    }
}

} // verus!
