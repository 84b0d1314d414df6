//! Buffers that the fzf metrics reuse from one candidate to the next.

use vstd::prelude::*;

use crate::text::{decimal, printed_width};

use crate::candidate::{ascii_chars, Candidate};
use crate::chars::{byte_len, lemma_byte_len_encode};
use vstd::string::StringSliceAdditionalSpecFns;

verus! {

/// A buffer for the characters of non-ASCII candidates.
#[derive(Clone, Debug, Default)]
pub struct CandidateSlab {
    chars: Vec<char>,
}

impl CandidateSlab {
    /// The characters the buffer holds.
    pub closed spec fn spec_chars(&self) -> Seq<char> {
        self.chars@
    }

    /// An empty buffer, with room for 128 characters.
    pub fn new() -> (r: CandidateSlab)
        ensures
            r.spec_chars() == Seq::<char>::empty(),
    {
        CandidateSlab { chars: Vec::with_capacity(128) }
    }

    /// Fills the buffer with the characters of `text` and gives them back.
    pub fn allocate(&mut self, text: &str) -> (r: &[char])
        ensures
            r@ == text@,
            final(self).spec_chars() == text@,
    {
        self.chars.clear();
        for ch in it: text.chars()
            invariant
                self.chars@ == it.seq().take(it.index() as int),
                it.seq() == text@,
        {
            proof {
                assert(it.seq().take(it.index() + 1) =~= it.seq().take(it.index() as int).push(ch));
            }
            self.chars.push(ch);
        }
        assert(self.chars@ =~= text@);
        self.chars.as_slice()
    }
}

/// The bytes of an ASCII string stand for its characters.
pub proof fn lemma_ascii_str(text: &str)
    requires
        text.is_ascii(),
    ensures
        ascii_chars(text.spec_bytes()) == text@,
        forall|i: int| 0 <= i < text.spec_bytes().len() ==> #[trigger] text.spec_bytes()[i] < 128,
{
    vstd::string::is_ascii_spec_bytes(text);
    vstd::utf8::is_ascii_chars_nat_bound(text@);
    let b = text.spec_bytes();
    assert forall|i: int| 0 <= i < b.len() implies #[trigger] ascii_chars(b)[i] == text@[i] by {
        let c = text@[i];
        assert((c as nat) < 128);
        vstd::utf8::char_u32_cast(c, c as u32);
        assert(b[i] == c as u8);
        assert((b[i] as char) as u32 == c as u32);
    }
    assert(ascii_chars(b) =~= text@);
}

/// The candidate that a string stands for: its bytes when it is ASCII, its
/// characters, put in `slab`, otherwise.
pub fn candidate_of<'a>(text: &'a str, slab: &'a mut CandidateSlab) -> (r: Candidate<'a>)
    ensures
        r@ == text@,
        r.wf(),
        (r is Ascii) == text.is_ascii(),
{
    let bytes = text.as_bytes();
    let n = bytes.len();
    proof {
        lemma_byte_len_encode(text@);
    }
    if text.is_ascii() {
        proof {
            lemma_ascii_str(text);
        }
        Candidate::Ascii(bytes)
    } else {
        Candidate::Unicode(slab.allocate(text))
    }
}

/// A cached bonus: a value that is only meaningful once set.
#[derive(Clone, Copy, Debug, Default)]
pub struct Bonus {
    value: u8,
    is_set: bool,
}

impl Bonus {
    /// Whether a value was set.
    pub closed spec fn spec_is_set(&self) -> bool {
        self.is_set
    }

    /// The value that was set.
    pub closed spec fn spec_value(&self) -> i64 {
        self.value as i64
    }

    /// Whether a value was set.
    pub fn is_set(&self) -> (r: bool)
        ensures
            r == self.spec_is_set(),
    {
        self.is_set
    }

    /// Sets the value.
    pub fn set(&mut self, value: i64)
        requires
            0 <= value <= 255,
        ensures
            final(self).spec_is_set(),
            final(self).spec_value() == value,
    {
        self.value = value as u8;
        self.is_set = true;
    }

    /// The value that was set.
    pub fn value(&self) -> (r: i64)
        ensures
            r == self.spec_value(),
    {
        self.value as i64
    }
}

/// A buffer of cached bonuses.
#[derive(Clone, Debug, Default)]
pub struct BonusSlab {
    vec: Vec<Bonus>,
}

impl BonusSlab {
    /// The bonuses the buffer holds for later use.
    pub closed spec fn spec_buffer(&self) -> Seq<Bonus> {
        self.vec@
    }

    /// An empty buffer, with room for 128 bonuses.
    pub fn new() -> (r: BonusSlab)
        ensures
            r.spec_buffer() == Seq::<Bonus>::empty(),
    {
        BonusSlab { vec: Vec::with_capacity(128) }
    }

    /// Hands out `len` bonuses, none of them set; the buffer is handed out
    /// with them and left empty.
    pub fn allocate(&mut self, len: usize) -> (r: Vec<Bonus>)
        ensures
            final(self).spec_buffer() == Seq::<Bonus>::empty(),
            r@.len() == len,
            forall|i: int| 0 <= i < len ==> !(#[trigger] r@[i]).spec_is_set(),
    {
        let mut vec: Vec<Bonus> = Vec::new();
        std::mem::swap(&mut vec, &mut self.vec);
        vec.clear();
        let mut i: usize = 0;
        while i < len
            invariant
                i <= len,
                vec@.len() == i,
                forall|k: int| 0 <= k < i ==> !(#[trigger] vec@[k]).spec_is_set(),
            decreases len - i,
        {
            vec.push(Bonus { value: 0, is_set: false });
            i += 1;
        }
        vec
    }

    /// Takes a buffer back for later use.
    pub fn restore(&mut self, vec: Vec<Bonus>)
        ensures
            final(self).spec_buffer() == vec@,
    {
        self.vec = vec;
    }
}

/// A buffer for the places where the characters of a pattern are first
/// found.
#[derive(Clone, Debug, Default)]
pub struct MatchedIndicesSlab {
    vec: Vec<usize>,
}

impl MatchedIndicesSlab {
    /// The indices the buffer holds for later use.
    pub closed spec fn spec_buffer(&self) -> Seq<usize> {
        self.vec@
    }

    /// An empty buffer, with room for 128 indices.
    pub fn new() -> (r: MatchedIndicesSlab)
        ensures
            r.spec_buffer() == Seq::<usize>::empty(),
    {
        MatchedIndicesSlab { vec: Vec::with_capacity(128) }
    }

    /// Hands out `len` indices, all 0; the buffer is handed out with them and
    /// left empty.
    pub fn allocate(&mut self, len: usize) -> (r: Vec<usize>)
        ensures
            final(self).spec_buffer() == Seq::<usize>::empty(),
            r@ == Seq::new(len as nat, |i: int| 0usize),
    {
        let mut vec: Vec<usize> = Vec::new();
        std::mem::swap(&mut vec, &mut self.vec);
        vec.clear();
        let mut i: usize = 0;
        while i < len
            invariant
                i <= len,
                vec@ == Seq::new(i as nat, |k: int| 0usize),
            decreases len - i,
        {
            vec.push(0);
            i += 1;
            assert(vec@ =~= Seq::new(i as nat, |k: int| 0usize));
        }
        vec
    }

    /// Takes a buffer back for later use.
    pub fn restore(&mut self, vec: Vec<usize>)
        ensures
            final(self).spec_buffer() == vec@,
    {
        self.vec = vec;
    }
}

/// The values a matrix can hold.
pub trait MatrixItem: Copy {
    /// The value a new matrix is filled with.
    spec fn spec_fill() -> Self;

    /// The value as an integer.
    spec fn spec_int(self) -> int;

    /// The value a new matrix is filled with.
    fn fill() -> (r: Self)
        ensures
            r == Self::spec_fill(),
    ;

    /// Whether the value is at most `other`.
    fn is_at_most(self, other: Self) -> (r: bool)
        ensures
            r == (self.spec_int() <= other.spec_int()),
    ;

    /// The value, which is not negative, as a `u64`.
    fn to_u64(self) -> (r: u64)
        requires
            self.spec_int() >= 0,
        ensures
            r == self.spec_int(),
    ;

    /// The number of digits of the value, which is not negative.
    fn printed_width(&self) -> (r: usize)
        requires
            self.spec_int() >= 0,
        ensures
            r == decimal(self.spec_int() as nat).len(),
            1 <= r <= 20,
    {
        printed_width(self.to_u64())
    }
}

impl MatrixItem for i64 {
    open spec fn spec_fill() -> i64 {
        0
    }

    open spec fn spec_int(self) -> int {
        self as int
    }

    fn fill() -> (r: i64) {
        0
    }

    fn is_at_most(self, other: i64) -> (r: bool) {
        self <= other
    }

    fn to_u64(self) -> (r: u64) {
        self as u64
    }
}

impl MatrixItem for usize {
    open spec fn spec_fill() -> usize {
        0
    }

    open spec fn spec_int(self) -> int {
        self as int
    }

    fn fill() -> (r: usize) {
        0
    }

    fn is_at_most(self, other: usize) -> (r: bool) {
        self <= other
    }

    fn to_u64(self) -> (r: u64) {
        self as u64
    }
}

/// A cell of a matrix, by its index in row-major order.
#[derive(Clone, Copy, Debug, PartialEq, Eq, Structural)]
pub struct MatrixCell(pub usize);

/// A matrix of `height` rows of `width` values each, stored row after row.
#[derive(Clone, Debug)]
pub struct Matrix<T: MatrixItem> {
    slice: Vec<T>,
    height: usize,
    width: usize,
}

/// Where the cell of row `i` and column `j` lies in a row-major matrix of
/// the given width, and that row and column are recovered from it.
pub proof fn lemma_cell_index(i: int, j: int, width: int, height: int)
    requires
        0 <= i < height,
        0 <= j < width,
    ensures
        0 <= i * width + j < height * width,
        (i * width + j) / width == i,
        (i * width + j) % width == j,
        i * width + width <= height * width,
{
    assert(0 <= i * width + j < height * width) by (nonlinear_arith)
        requires
            0 <= i < height,
            0 <= j < width,
    ;
    assert((i * width + j) / width == i) by (nonlinear_arith)
        requires
            0 <= i,
            0 <= j < width,
    ;
    assert((i * width + j) % width == j) by (nonlinear_arith)
        requires
            0 <= i,
            0 <= j < width,
    ;
    assert(i * width + width <= height * width) by (nonlinear_arith)
        requires
            0 <= i < height,
            0 <= j < width,
    ;
}

impl<T: MatrixItem> Matrix<T> {
    /// The values, row after row.
    pub closed spec fn cells(&self) -> Seq<T> {
        self.slice@
    }

    /// The number of rows.
    pub closed spec fn spec_height(&self) -> nat {
        self.height as nat
    }

    /// The number of columns.
    pub closed spec fn spec_width(&self) -> nat {
        self.width as nat
    }

    /// The matrix has `height * width` cells, and at least one.
    pub open spec fn wf(&self) -> bool {
        &&& self.cells().len() == self.spec_height() * self.spec_width()
        &&& self.cells().len() <= usize::MAX
        &&& self.spec_width() > 0
        &&& self.spec_height() > 0
    }

    /// The value at row `i` and column `j`.
    pub open spec fn at(&self, i: int, j: int) -> T {
        self.cells()[i * self.spec_width() + j]
    }

    /// The value of a cell.
    pub fn get(&self, cell: MatrixCell) -> (r: T)
        requires
            cell.0 < self.cells().len(),
        ensures
            r == self.cells()[cell.0 as int],
    {
        self.slice[cell.0]
    }

    /// Sets the value of a cell.
    pub fn set(&mut self, cell: MatrixCell, value: T)
        requires
            cell.0 < old(self).cells().len(),
        ensures
            final(self).cells() == old(self).cells().update(cell.0 as int, value),
            final(self).spec_height() == old(self).spec_height(),
            final(self).spec_width() == old(self).spec_width(),
    {
        self.slice.set(cell.0, value);
    }

    /// The value at row `row` and column `col`.
    pub fn get_at(&self, row: usize, col: usize) -> (r: T)
        requires
            self.wf(),
            row < self.spec_height(),
            col < self.spec_width(),
        ensures
            r == self.at(row as int, col as int),
    {
        proof {
            lemma_cell_index(row as int, col as int, self.width as int, self.height as int);
        }
        self.slice[row * self.width + col]
    }

    /// Sets the value at row `row` and column `col`, leaving the others as
    /// they are.
    pub fn set_at(&mut self, row: usize, col: usize, value: T)
        requires
            old(self).wf(),
            row < old(self).spec_height(),
            col < old(self).spec_width(),
        ensures
            final(self).wf(),
            final(self).spec_height() == old(self).spec_height(),
            final(self).spec_width() == old(self).spec_width(),
            final(self).at(row as int, col as int) == value,
            forall|i: int, j: int|
                0 <= i < old(self).spec_height() && 0 <= j < old(self).spec_width() && (i != row || j
                    != col) ==> #[trigger] final(self).at(i, j) == old(self).at(i, j),
    {
        let ghost w = self.width as int;
        let ghost h = self.height as int;
        let ghost old_cells = self.slice@;
        proof {
            lemma_cell_index(row as int, col as int, w, h);
        }
        let idx = row * self.width + col;
        self.slice.set(idx, value);
        proof {
            assert forall|i: int, j: int|
                0 <= i < h && 0 <= j < w && (i != row || j != col) implies #[trigger] self.at(i, j)
                == old_cells[i * w + j] by {
                lemma_cell_index(i, j, w, h);
            }
        }
    }

    /// The cell of row `row` and column `col`.
    pub fn cell_at(&self, row: usize, col: usize) -> (r: MatrixCell)
        requires
            self.wf(),
            row < self.spec_height(),
            col < self.spec_width(),
        ensures
            r.0 == row * self.spec_width() + col,
            r.0 < self.cells().len(),
    {
        proof {
            lemma_cell_index(row as int, col as int, self.width as int, self.height as int);
        }
        MatrixCell(row * self.width + col)
    }

    /// The column of a cell.
    pub fn col_of(&self, cell: MatrixCell) -> (r: usize)
        requires
            self.wf(),
        ensures
            r == (cell.0 as nat) % self.spec_width(),
    {
        cell.0 % self.width
    }

    /// The row of a cell.
    pub fn row_of(&self, cell: MatrixCell) -> (r: usize)
        requires
            self.wf(),
        ensures
            r == (cell.0 as nat) / self.spec_width(),
    {
        cell.0 / self.width
    }

    /// The cells of the row of `starting_from`, from it to the last column.
    pub fn cols(&self, starting_from: MatrixCell) -> (r: Vec<MatrixCell>)
        requires
            self.wf(),
            starting_from.0 + self.spec_width() <= usize::MAX,
        ensures
            r@.len() == self.spec_width() - (starting_from.0 as nat) % self.spec_width(),
            forall|k: int| 0 <= k < r@.len() ==> (#[trigger] r@[k]).0 == starting_from.0 + k,
    {
        let remaining = self.width - self.col_of(starting_from);
        let mut out: Vec<MatrixCell> = Vec::new();
        let mut k: usize = 0;
        while k < remaining
            invariant
                remaining <= self.spec_width(),
                starting_from.0 + self.spec_width() <= usize::MAX,
                k <= remaining,
                out@.len() == k,
                forall|t: int| 0 <= t < k ==> (#[trigger] out@[t]).0 == starting_from.0 + t,
            decreases remaining - k,
        {
            out.push(MatrixCell(starting_from.0 + k));
            k += 1;
        }
        out
    }

    /// The cells of the column of `starting_from`, from it to the last row.
    pub fn rows(&self, starting_from: MatrixCell) -> (r: Vec<MatrixCell>)
        requires
            self.wf(),
            starting_from.0 < self.cells().len(),
        ensures
            r@.len() == self.spec_height() - (starting_from.0 as nat) / self.spec_width(),
            forall|k: int| 0 <= k < r@.len() ==> (#[trigger] r@[k]).0 == starting_from.0 + k * self.spec_width(),
    {
        let ghost w = self.width as int;
        let ghost h = self.height as int;
        let ghost s0 = starting_from.0 as int;
        let ghost r0 = s0 / w;
        let ghost c0 = s0 % w;
        proof {
            assert(s0 == r0 * w + c0 && 0 <= c0 < w) by (nonlinear_arith)
                requires
                    w > 0,
                    s0 >= 0,
                    r0 == s0 / w,
                    c0 == s0 % w,
            ;
            assert(0 <= r0 < h) by (nonlinear_arith)
                requires
                    w > 0,
                    0 <= s0 < h * w,
                    s0 == r0 * w + c0,
                    0 <= c0 < w,
            ;
        }
        let remaining = self.height - self.row_of(starting_from);
        let mut out: Vec<MatrixCell> = Vec::new();
        let mut next = starting_from.0;
        let mut k: usize = 0;
        while k < remaining
            invariant
                remaining == h - r0,
                0 <= r0 < h,
                0 <= c0 < w,
                w == self.spec_width(),
                h == self.spec_height(),
                s0 == starting_from.0,
                s0 == r0 * w + c0,
                self.wf(),
                k <= remaining,
                out@.len() == k,
                k < remaining ==> next == s0 + k * w,
                forall|t: int| 0 <= t < k ==> (#[trigger] out@[t]).0 == s0 + t * w,
            decreases remaining - k,
        {
            out.push(MatrixCell(next));
            if k + 1 < remaining {
                proof {
                    lemma_cell_index(r0 + k + 1, c0, w, h);
                    assert(s0 + (k + 1) * w == (r0 + k + 1) * w + c0) by (nonlinear_arith)
                        requires
                            s0 == r0 * w + c0,
                    ;
                    assert(s0 + (k + 1) * w == s0 + k * w + w) by (nonlinear_arith);
                }
                next = next + self.width;
            }
            k += 1;
        }
        out
    }

    /// The cell below.
    pub fn down(&self, cell: MatrixCell) -> (r: MatrixCell)
        requires
            cell.0 + self.spec_width() <= usize::MAX,
        ensures
            r.0 == cell.0 + self.spec_width(),
    {
        MatrixCell(cell.0 + self.width)
    }

    /// The cell above.
    pub fn up(&self, cell: MatrixCell) -> (r: MatrixCell)
        requires
            cell.0 >= self.spec_width(),
        ensures
            r.0 == cell.0 - self.spec_width(),
    {
        MatrixCell(cell.0 - self.width)
    }

    /// The cell on the left.
    pub fn left(&self, cell: MatrixCell) -> (r: MatrixCell)
        requires
            cell.0 > 0,
        ensures
            r.0 == cell.0 - 1,
    {
        MatrixCell(cell.0 - 1)
    }

    /// The cell on the right.
    pub fn right(&self, cell: MatrixCell) -> (r: MatrixCell)
        requires
            cell.0 < usize::MAX,
        ensures
            r.0 == cell.0 + 1,
    {
        MatrixCell(cell.0 + 1)
    }

    /// The number of rows.
    pub fn height(&self) -> (r: usize)
        ensures
            r == self.spec_height(),
    {
        self.height
    }

    /// The number of columns.
    pub fn width(&self) -> (r: usize)
        ensures
            r == self.spec_width(),
    {
        self.width
    }

    /// The cells of row `row`, to be changed in place.
    pub fn row_mut(&mut self, row: usize) -> (r: &mut [T])
        requires
            old(self).wf(),
            row < old(self).spec_height(),
        ensures
            r@ == old(self).cells().subrange(
                row * old(self).spec_width(),
                row * old(self).spec_width() + old(self).spec_width(),
            ),
            final(self).cells() == old(self).cells().take(row * old(self).spec_width()) + final(r)@
                + old(self).cells().skip(row * old(self).spec_width() + old(self).spec_width()),
            final(self).spec_height() == old(self).spec_height(),
            final(self).spec_width() == old(self).spec_width(),
    {
        let width = self.width;
        proof {
            lemma_cell_index(row as int, width - 1, width as int, self.height as int);
        }
        let start = row * width;
        let (_before, rest) = self.slice.as_mut_slice().split_at_mut(start);
        let (this_row, _after) = rest.split_at_mut(width);
        this_row
    }

    /// The cells of rows `row_a` and `row_b`, an earlier row and a later one,
    /// to be changed in place.
    pub fn two_rows_mut(&mut self, row_a: usize, row_b: usize) -> (r: (&mut [T], &mut [T]))
        requires
            old(self).wf(),
            row_a < row_b < old(self).spec_height(),
        ensures
            r.0@ == old(self).cells().subrange(
                row_a * old(self).spec_width(),
                row_a * old(self).spec_width() + old(self).spec_width(),
            ),
            r.1@ == old(self).cells().subrange(
                row_b * old(self).spec_width(),
                row_b * old(self).spec_width() + old(self).spec_width(),
            ),
            final(self).cells() == old(self).cells().take(row_a * old(self).spec_width()) + final(r.0)@
                + old(self).cells().subrange(
                row_a * old(self).spec_width() + old(self).spec_width(),
                row_b * old(self).spec_width(),
            ) + final(r.1)@ + old(self).cells().skip(
                row_b * old(self).spec_width() + old(self).spec_width(),
            ),
            final(self).spec_height() == old(self).spec_height(),
            final(self).spec_width() == old(self).spec_width(),
    {
        let width = self.width;
        proof {
            lemma_cell_index(row_b as int, width - 1, width as int, self.height as int);
            lemma_cell_index(row_a as int, width - 1, width as int, self.height as int);
            assert(row_a * width + width <= row_b * width) by (nonlinear_arith)
                requires
                    row_a < row_b,
            ;
        }
        let start_b = row_b * width;
        let start_a = row_a * width;
        let (part_a, part_b) = self.slice.as_mut_slice().split_at_mut(start_b);
        let (_before_a, from_a) = part_a.split_at_mut(start_a);
        let (this_a, _between) = from_a.split_at_mut(width);
        let (this_b, _after_b) = part_b.split_at_mut(width);
        (this_a, this_b)
    }

    /// The cell of the first row and first column.
    pub fn top_left(&self) -> (r: MatrixCell)
        ensures
            r.0 == 0,
    {
        MatrixCell(0)
    }

    /// Whether the cell is in the first column.
    pub fn is_in_first_col(&self, cell: MatrixCell) -> (r: bool)
        requires
            self.wf(),
        ensures
            r == ((cell.0 as nat) % self.spec_width() == 0),
    {
        self.col_of(cell) == 0
    }

    /// Whether the cell is in the first row.
    pub fn is_in_first_row(&self, cell: MatrixCell) -> (r: bool)
        requires
            self.wf(),
        ensures
            r == ((cell.0 as nat) / self.spec_width() == 0),
    {
        self.row_of(cell) == 0
    }

    /// Whether the cell is in the last column.
    pub fn is_in_last_col(&self, cell: MatrixCell) -> (r: bool)
        requires
            self.wf(),
        ensures
            r == ((cell.0 as nat) % self.spec_width() == self.spec_width() - 1),
    {
        self.col_of(cell) == self.width - 1
    }

    /// Whether the cell is in the last row.
    pub fn is_in_last_row(&self, cell: MatrixCell) -> (r: bool)
        requires
            self.wf(),
        ensures
            r == ((cell.0 as nat) / self.spec_width() == self.spec_height() - 1),
    {
        self.row_of(cell) == self.height - 1
    }
}

/// A buffer for matrices.
#[derive(Clone, Debug)]
pub struct MatrixSlab<T: MatrixItem> {
    vec: Vec<T>,
}

impl<T: MatrixItem> MatrixSlab<T> {
    /// The values the buffer holds for later use.
    pub closed spec fn spec_buffer(&self) -> Seq<T> {
        self.vec@
    }

    /// An empty buffer, with room for 256 cells.
    pub fn new() -> (r: MatrixSlab<T>)
        ensures
            r.spec_buffer() == Seq::<T>::empty(),
    {
        MatrixSlab { vec: Vec::with_capacity(256) }
    }

    /// Hands out a matrix of the given size, filled with
    /// [`MatrixItem::fill`]; the buffer is handed out in the matrix and left
    /// empty.
    pub fn allocate(&mut self, width: usize, height: usize) -> (r: Matrix<T>)
        requires
            width > 0,
            height > 0,
            width * height <= usize::MAX,
        ensures
            final(self).spec_buffer() == Seq::<T>::empty(),
            r.wf(),
            r.spec_width() == width,
            r.spec_height() == height,
            forall|k: int| 0 <= k < r.cells().len() ==> #[trigger] r.cells()[k] == T::spec_fill(),
    {
        let mut vec: Vec<T> = Vec::new();
        std::mem::swap(&mut vec, &mut self.vec);
        vec.clear();
        let len = height * width;
        let fill = T::fill();
        let mut k: usize = 0;
        while k < len
            invariant
                k <= len,
                vec@.len() == k,
                fill == T::spec_fill(),
                forall|t: int| 0 <= t < k ==> #[trigger] vec@[t] == T::spec_fill(),
            decreases len - k,
        {
            vec.push(fill);
            k += 1;
        }
        assert(height * width == width * height) by (nonlinear_arith);
        Matrix { slice: vec, height, width }
    }

    /// Takes the values of a matrix back for later use.
    pub fn restore(&mut self, matrix: Matrix<T>)
        ensures
            final(self).spec_buffer() == matrix.cells(),
    {
        self.vec = matrix.slice;
    }
}

/// The buffers of the v2 algorithm.
#[derive(Clone, Debug)]
pub struct V2Slab {
    /// The bonuses of the candidate characters.
    pub bonus: BonusSlab,
    /// The lengths of runs of consecutive matches.
    pub consecutive_matrix: MatrixSlab<usize>,
    /// The places where the pattern characters are first found.
    pub matched_indices: MatchedIndicesSlab,
    /// The scores.
    pub scoring_matrix: MatrixSlab<i64>,
}

impl V2Slab {
    /// Empty buffers.
    pub fn new() -> (r: V2Slab)
        ensures
            r.bonus.spec_buffer() == Seq::<Bonus>::empty(),
            r.consecutive_matrix.spec_buffer() == Seq::<usize>::empty(),
            r.matched_indices.spec_buffer() == Seq::<usize>::empty(),
            r.scoring_matrix.spec_buffer() == Seq::<i64>::empty(),
    {
        V2Slab {
            bonus: BonusSlab::new(),
            consecutive_matrix: MatrixSlab::new(),
            matched_indices: MatchedIndicesSlab::new(),
            scoring_matrix: MatrixSlab::new(),
        }
    }
}

} // verus!
