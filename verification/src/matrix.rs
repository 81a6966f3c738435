//! A dense rectangular matrix in row-major order, with owned and borrowed
//! views of a single row.

use crate::scalar::Scalar;
use vstd::prelude::*;

verus! {

/// A matrix of `rows` by `cols` entries; `data` holds them row after row.
#[derive(Debug, Clone)]
pub struct Matrix<T> {
    pub rows: usize,
    pub cols: usize,
    pub data: Vec<T>,
}

/// An owned copy of one row.
#[derive(Debug, Clone)]
pub struct Row<T> {
    pub data: Vec<T>,
}

/// A mutable borrow of one row, over the span the row has in its matrix.
#[derive(Debug)]
pub struct RowMut<'a, T> {
    pub data: &'a mut [T],
}

/// The index that a swap of `a` and `b` sends `i` to.
pub open spec fn swapped(i: int, a: int, b: int) -> int {
    if i == a {
        b
    } else if i == b {
        a
    } else {
        i
    }
}

/// Row `r` starts at `r * cols`, and a cell of it lies before the start of
/// every later row.
pub proof fn lemma_row_major(rows: int, cols: int, r: int, c: int)
    requires
        0 <= r < rows,
        0 <= c < cols,
    ensures
        0 <= r * cols <= r * cols + c < r * cols + cols <= rows * cols,
{
    assert(0 <= r * cols && r * cols + cols <= rows * cols) by (nonlinear_arith)
        requires
            0 <= r < rows,
            0 <= cols,
    ;
}

/// Row `r` spans `cols` positions from `r * cols`, all within the data.
pub proof fn lemma_row_span(rows: int, cols: int, r: int)
    requires
        0 <= r < rows,
        0 <= cols,
    ensures
        0 <= r * cols <= r * cols + cols <= rows * cols,
{
    assert(0 <= r * cols && r * cols + cols <= rows * cols) by (nonlinear_arith)
        requires
            0 <= r < rows,
            0 <= cols,
    ;
}

/// Rows do not overlap: an earlier row ends where a later one starts, or
/// before.
pub proof fn lemma_rows_apart(cols: int, r1: int, r2: int)
    requires
        0 <= cols,
        0 <= r1 < r2,
    ensures
        r1 * cols + cols <= r2 * cols,
{
    assert(r1 * cols + cols <= r2 * cols) by (nonlinear_arith)
        requires
            0 <= cols,
            0 <= r1 < r2,
    ;
}

/// Two cells at one position of the data are one cell.
pub proof fn lemma_cell_position(cols: int, r1: int, c1: int, r2: int, c2: int)
    requires
        0 <= r1,
        0 <= r2,
        0 <= c1 < cols,
        0 <= c2 < cols,
        r1 * cols + c1 == r2 * cols + c2,
    ensures
        r1 == r2,
        c1 == c2,
{
    if r1 < r2 {
        lemma_rows_apart(cols, r1, r2);
    } else if r2 < r1 {
        lemma_rows_apart(cols, r2, r1);
    }
}

/// Every position of the data is the cell of one row and one column.
pub proof fn lemma_position(rows: int, cols: int, i: int)
    requires
        0 <= i < rows * cols,
        0 <= rows,
        0 <= cols,
    ensures
        cols > 0,
        0 <= i / cols < rows,
        0 <= i % cols < cols,
        i == (i / cols) * cols + i % cols,
{
    assert(cols > 0) by (nonlinear_arith)
        requires
            0 <= i < rows * cols,
            0 <= cols,
    ;
    vstd::arithmetic::div_mod::lemma_fundamental_div_mod(i, cols);
    vstd::arithmetic::div_mod::lemma_mod_pos_bound(i, cols);
    let q = i / cols;
    assert(0 <= q < rows) by (nonlinear_arith)
        requires
            i == cols * q + i % cols,
            0 <= i % cols < cols,
            0 <= i < rows * cols,
            cols > 0,
    ;
    assert(cols * q == q * cols) by (nonlinear_arith);
}

impl<T> Matrix<T> {
    /// The data has one entry for every cell.
    pub open spec fn wf(&self) -> bool {
        self.data@.len() == self.rows * self.cols
    }

    /// The entry in row `r` and column `c`.
    pub open spec fn at(&self, r: int, c: int) -> T {
        self.data@[r * (self.cols as int) + c]
    }

    /// The entries of row `r`.
    pub open spec fn row_seq(&self, r: int) -> Seq<T> {
        self.data@.subrange(r * (self.cols as int), r * (self.cols as int) + self.cols)
    }

    /// Two matrices with as many rows and as many columns.
    pub open spec fn same_shape(&self, other: &Matrix<T>) -> bool {
        self.rows == other.rows && self.cols == other.cols
    }

    /// This matrix is `before` with the rows `r1` and `r2` exchanged.
    pub open spec fn rows_swapped(&self, before: &Matrix<T>, r1: int, r2: int) -> bool {
        &&& self.wf()
        &&& self.same_shape(before)
        &&& forall|r: int, c: int|
            0 <= r < self.rows && 0 <= c < self.cols ==> #[trigger] self.at(r, c) == before.at(
                swapped(r, r1, r2),
                c,
            )
    }

    /// This matrix is `before` with the columns `c1` and `c2` exchanged.
    pub open spec fn columns_swapped(&self, before: &Matrix<T>, c1: int, c2: int) -> bool {
        &&& self.wf()
        &&& self.same_shape(before)
        &&& forall|r: int, c: int|
            0 <= r < self.rows && 0 <= c < self.cols ==> #[trigger] self.at(r, c) == before.at(
                r,
                swapped(c, c1, c2),
            )
    }

    /// This matrix is `before` with row `r` replaced by `new_row`.
    pub open spec fn row_replaced(&self, before: &Matrix<T>, r: int, new_row: Seq<T>) -> bool {
        &&& self.wf()
        &&& self.same_shape(before)
        &&& self.row_seq(r) == new_row
        &&& forall|i: int| 0 <= i < self.rows && i != r ==> self.row_seq(i) == before.row_seq(i)
    }

    /// Writing a row of the right length over the span of row `r` replaces
    /// that row and no other.
    pub proof fn lemma_row_written(&self, before: &Matrix<T>, r: int, new_row: Seq<T>)
        requires
            before.wf(),
            0 <= r < before.rows,
            self.same_shape(before),
            new_row.len() == before.cols,
            self.data@ == before.data@.subrange(0, r * before.cols) + new_row
                + before.data@.subrange(r * before.cols + before.cols, before.data@.len() as int),
        ensures
            self.row_replaced(before, r, new_row),
    {
        lemma_row_span(before.rows as int, before.cols as int, r);
        assert(self.row_seq(r) =~= new_row);
        assert forall|i: int| 0 <= i < before.rows && i != r implies self.row_seq(i)
            == before.row_seq(i) by {
            lemma_row_span(before.rows as int, before.cols as int, i);
            if i < r {
                lemma_rows_apart(before.cols as int, i, r);
            } else {
                lemma_rows_apart(before.cols as int, r, i);
            }
            assert(self.row_seq(i) =~= before.row_seq(i));
        }
    }

    /// Two matrices of one shape with the same entry in every cell hold the
    /// same data.
    pub proof fn lemma_same_cells(&self, other: &Matrix<T>)
        requires
            self.wf(),
            other.wf(),
            self.same_shape(other),
            forall|r: int, c: int|
                0 <= r < self.rows && 0 <= c < self.cols ==> #[trigger] self.at(r, c)
                    == other.at(r, c),
        ensures
            self.data@ == other.data@,
    {
        assert forall|i: int| 0 <= i < self.data@.len() implies self.data@[i] == other.data@[i] by {
            lemma_position(self.rows as int, self.cols as int, i);
            let r = i / (self.cols as int);
            let c = i % (self.cols as int);
            assert(self.at(r, c) == other.at(r, c));
        }
        assert(self.data@ =~= other.data@);
    }

    /// Exchanging two rows twice gives the matrix back.
    pub proof fn lemma_swap_rows_involution(
        &self,
        once: &Matrix<T>,
        twice: &Matrix<T>,
        r1: int,
        r2: int,
    )
        requires
            self.wf(),
            0 <= r1 < self.rows,
            0 <= r2 < self.rows,
            once.rows_swapped(self, r1, r2),
            twice.rows_swapped(once, r1, r2),
        ensures
            twice.rows == self.rows,
            twice.cols == self.cols,
            twice.data@ == self.data@,
    {
        assert forall|r: int, c: int|
            0 <= r < self.rows && 0 <= c < self.cols implies #[trigger] twice.at(r, c) == self.at(
            r,
            c,
        ) by {
            assert(twice.at(r, c) == once.at(swapped(r, r1, r2), c));
            assert(once.at(swapped(r, r1, r2), c) == self.at(r, c));
        }
        twice.lemma_same_cells(self);
    }

    /// Exchanging two columns twice gives the matrix back.
    pub proof fn lemma_swap_columns_involution(
        &self,
        once: &Matrix<T>,
        twice: &Matrix<T>,
        c1: int,
        c2: int,
    )
        requires
            self.wf(),
            0 <= c1 < self.cols,
            0 <= c2 < self.cols,
            once.columns_swapped(self, c1, c2),
            twice.columns_swapped(once, c1, c2),
        ensures
            twice.rows == self.rows,
            twice.cols == self.cols,
            twice.data@ == self.data@,
    {
        assert forall|r: int, c: int|
            0 <= r < self.rows && 0 <= c < self.cols implies #[trigger] twice.at(r, c) == self.at(
            r,
            c,
        ) by {
            assert(twice.at(r, c) == once.at(r, swapped(c, c1, c2)));
            assert(once.at(r, swapped(c, c1, c2)) == self.at(r, c));
        }
        twice.lemma_same_cells(self);
    }

    /// An empty matrix of `cols` columns with room for `rows` rows.
    pub fn with_capacity(rows: usize, cols: usize) -> (m: Self)
        requires
            rows * cols <= usize::MAX,
        ensures
            m.rows == 0,
            m.cols == cols,
            m.data@.len() == 0,
            m.wf(),
    {
        Matrix { rows: 0, cols, data: Vec::with_capacity(rows * cols) }
    }

    fn linear_index(&self, r: usize, c: usize) -> (i: usize)
        requires
            self.wf(),
            r < self.rows,
            c < self.cols,
        ensures
            i == r * self.cols + c,
            i < self.data@.len(),
    {
        proof {
            lemma_row_major(self.rows as int, self.cols as int, r as int, c as int);
            assert(self.data@.len() == self.data.len());
        }
        r * self.cols + c
    }

    fn row_offset(&self, r: usize) -> (i: usize)
        requires
            self.wf(),
            r < self.rows,
        ensures
            i == r * self.cols,
            i + self.cols <= self.data@.len(),
            i + self.cols <= usize::MAX,
    {
        proof {
            lemma_row_span(self.rows as int, self.cols as int, r as int);
            assert(self.data@.len() == self.data.len());
        }
        r * self.cols
    }

    fn row_range(&self, r: usize) -> (range: core::ops::Range<usize>)
        requires
            self.wf(),
            r < self.rows,
        ensures
            range.start == r * self.cols,
            range.end == r * self.cols + self.cols,
            range.end <= self.data@.len(),
    {
        let start = self.row_offset(r);
        proof {
            assert(self.data@.len() == self.data.len());
        }
        start..start + self.cols
    }

    /// The entry in row `r` and column `c`.
    pub fn get(&self, r: usize, c: usize) -> (e: &T)
        requires
            self.wf(),
            r < self.rows,
            c < self.cols,
        ensures
            *e == self.at(r as int, c as int),
    {
        let i = self.linear_index(r, c);
        &self.data[i]
    }
}

impl<T: Copy> Matrix<T> {
    /// Puts `v` in row `r` and column `c`.
    pub fn set(&mut self, r: usize, c: usize, v: T)
        requires
            old(self).wf(),
            r < old(self).rows,
            c < old(self).cols,
        ensures
            final(self).wf(),
            final(self).same_shape(old(self)),
            final(self).data@ == old(self).data@.update(r * old(self).cols + c, v),
            final(self).at(r as int, c as int) == v,
            forall|r2: int, c2: int|
                0 <= r2 < old(self).rows && 0 <= c2 < old(self).cols && !(r2 == r && c2 == c)
                    ==> #[trigger] final(self).at(r2, c2) == old(self).at(r2, c2),
    {
        let i = self.linear_index(r, c);
        self.data[i] = v;
        proof {
            assert forall|r2: int, c2: int|
                0 <= r2 < self.rows && 0 <= c2 < self.cols && !(r2 == r && c2 == c) implies #[trigger] self.at(
                r2,
                c2,
            ) == old(self).at(r2, c2) by {
                lemma_row_major(self.rows as int, self.cols as int, r2, c2);
                if r2 * self.cols + c2 == i {
                    lemma_cell_position(self.cols as int, r2, c2, r as int, c as int);
                }
            }
        }
    }

    /// Exchanges the entries of two cells.
    pub fn swap_elements(&mut self, r1: usize, c1: usize, r2: usize, c2: usize)
        requires
            old(self).wf(),
            r1 < old(self).rows,
            c1 < old(self).cols,
            r2 < old(self).rows,
            c2 < old(self).cols,
        ensures
            final(self).wf(),
            final(self).same_shape(old(self)),
            final(self).data@ == old(self).data@.update(
                r1 * old(self).cols + c1,
                old(self).at(r2 as int, c2 as int),
            ).update(r2 * old(self).cols + c2, old(self).at(r1 as int, c1 as int)),
    {
        let idx1 = self.linear_index(r1, c1);
        let idx2 = self.linear_index(r2, c2);
        let a = self.data[idx1];
        let b = self.data[idx2];
        self.data[idx1] = b;
        self.data[idx2] = a;
    }

    /// Exchanges two columns, cell by cell down the rows.
    pub fn swap_columns(&mut self, c1: usize, c2: usize)
        requires
            old(self).wf(),
            c1 < old(self).cols,
            c2 < old(self).cols,
        ensures
            final(self).columns_swapped(old(self), c1 as int, c2 as int),
    {
        let ghost before = *self;
        let mut row: usize = 0;
        while row < self.rows
            invariant
                self.wf(),
                self.same_shape(&before),
                before.wf(),
                c1 < self.cols,
                c2 < self.cols,
                row <= self.rows,
                forall|r: int, c: int|
                    0 <= r < row && 0 <= c < self.cols ==> #[trigger] self.at(r, c) == before.at(
                        r,
                        swapped(c, c1 as int, c2 as int),
                    ),
                forall|i: int|
                    row * self.cols <= i < self.data@.len() ==> self.data@[i] == before.data@[i],
            decreases self.rows - row,
        {
            let ghost prev = *self;
            let row_offset = self.row_offset(row);
            proof {
                lemma_rows_apart(self.cols as int, row as int, row as int + 1);
            }
            let a = self.data[row_offset + c1];
            let b = self.data[row_offset + c2];
            self.data[row_offset + c1] = b;
            self.data[row_offset + c2] = a;
            proof {
                assert forall|r: int, c: int|
                    0 <= r < row + 1 && 0 <= c < self.cols implies #[trigger] self.at(r, c)
                    == before.at(r, swapped(c, c1 as int, c2 as int)) by {
                    if r < row {
                        lemma_rows_apart(self.cols as int, r, row as int);
                        assert(self.at(r, c) == prev.at(r, c));
                    }
                }
            }
            row += 1;
        }
    }

    /// Exchanges two rows, cell by cell.
    pub fn swap_rows(&mut self, r1: usize, r2: usize)
        requires
            old(self).wf(),
            r1 < old(self).rows,
            r2 < old(self).rows,
        ensures
            final(self).rows_swapped(old(self), r1 as int, r2 as int),
    {
        if r1 == r2 {
            return ;
        }
        let (r1, r2) = if r1 > r2 {
            (r2, r1)
        } else {
            (r1, r2)
        };
        let ghost before = *self;
        let row1 = self.row_offset(r1);
        let row2 = self.row_offset(r2);
        proof {
            lemma_rows_apart(self.cols as int, r1 as int, r2 as int);
        }
        let mut col: usize = 0;
        while col < self.cols
            invariant
                self.same_shape(&before),
                self.data@.len() == before.data@.len(),
                before.wf(),
                row1 == r1 * self.cols,
                row2 == r2 * self.cols,
                row1 + self.cols <= row2,
                row2 + self.cols <= self.data@.len(),
                row2 + self.cols <= usize::MAX,
                col <= self.cols,
                forall|i: int|
                    row1 <= i < row1 + col ==> #[trigger] self.data@[i] == before.data@[i - row1
                        + row2],
                forall|i: int|
                    row2 <= i < row2 + col ==> #[trigger] self.data@[i] == before.data@[i - row2
                        + row1],
                forall|i: int|
                    0 <= i < self.data@.len() && !(row1 <= i < row1 + col) && !(row2 <= i < row2
                        + col) ==> #[trigger] self.data@[i] == before.data@[i],
            decreases self.cols - col,
        {
            let a = self.data[row1 + col];
            let b = self.data[row2 + col];
            self.data[row1 + col] = b;
            self.data[row2 + col] = a;
            col += 1;
        }
        proof {
            assert forall|r: int, c: int|
                0 <= r < self.rows && 0 <= c < self.cols implies #[trigger] self.at(r, c)
                == before.at(swapped(r, r1 as int, r2 as int), c) by {
                lemma_row_major(self.rows as int, self.cols as int, r, c);
                if r == r1 {
                    assert(self.data@[row1 + c] == before.data@[row2 + c]);
                } else if r == r2 {
                    assert(self.data@[row2 + c] == before.data@[row1 + c]);
                } else {
                    if r < r1 {
                        lemma_rows_apart(self.cols as int, r, r1 as int);
                    } else {
                        lemma_rows_apart(self.cols as int, r1 as int, r);
                    }
                    if r < r2 {
                        lemma_rows_apart(self.cols as int, r, r2 as int);
                    } else {
                        lemma_rows_apart(self.cols as int, r2 as int, r);
                    }
                }
            }
        }
    }

    /// Appends a row.
    pub fn push_row(&mut self, new_row: &[T])
        requires
            old(self).wf(),
            new_row@.len() == old(self).cols,
            (old(self).rows + 1) * old(self).cols <= usize::MAX,
            old(self).rows < usize::MAX,
        ensures
            final(self).wf(),
            final(self).rows == old(self).rows + 1,
            final(self).cols == old(self).cols,
            final(self).data@ == old(self).data@ + new_row@,
            final(self).row_seq(old(self).rows as int) == new_row@,
            forall|r: int| 0 <= r < old(self).rows ==> final(self).row_seq(r) == old(self).row_seq(r),
    {
        let mut i: usize = 0;
        while i < new_row.len()
            invariant
                self.rows == old(self).rows,
                self.cols == old(self).cols,
                i <= new_row@.len(),
                self.data@ == old(self).data@ + new_row@.subrange(0, i as int),
            decreases new_row@.len() - i,
        {
            self.data.push(new_row[i]);
            i += 1;
            assert(self.data@ =~= old(self).data@ + new_row@.subrange(0, i as int));
        }
        assert(new_row@.subrange(0, i as int) =~= new_row@);
        self.rows += 1;
        proof {
            let (len, rows, cols) = (self.data@.len() as int, self.rows as int, self.cols as int);
            assert(len == rows * cols) by (nonlinear_arith)
                requires
                    len == (rows - 1) * cols + cols,
            ;
            assert(self.row_seq(rows - 1) =~= new_row@);
            assert forall|r: int| 0 <= r < rows - 1 implies self.row_seq(r) == old(self).row_seq(
                r,
            ) by {
                lemma_row_span(rows - 1, cols, r);
                assert(self.row_seq(r) =~= old(self).row_seq(r));
            }
        }
    }

    /// A copy of row `r`.
    pub fn row(&self, r: usize) -> (row: Row<T>)
        requires
            self.wf(),
            r < self.rows,
        ensures
            row.data@ == self.row_seq(r as int),
    {
        let range = self.row_range(r);
        let span = vstd::slice::slice_subrange(self.data.as_slice(), range.start, range.end);
        Row { data: vstd::slice::slice_to_vec(span) }
    }

    /// A mutable view of row `r`: what is written through it is written to
    /// the matrix, and the rest of the matrix stays.
    pub fn row_mut(&mut self, r: usize) -> (row: RowMut<'_, T>)
        requires
            old(self).wf(),
            r < old(self).rows,
        ensures
            row.data@ == old(self).row_seq(r as int),
            final(self).rows == old(self).rows,
            final(self).cols == old(self).cols,
            final(self).rows == old(self).rows,
            final(self).cols == old(self).cols,
            final(self).data@ == old(self).data@.subrange(0, r * old(self).cols)
                + final(row.data)@ + old(self).data@.subrange(
                r * old(self).cols + old(self).cols,
                old(self).data@.len() as int,
            ),
    {
        let range = self.row_range(r);
        let cols = self.cols;
        let (_, tail) = self.data.as_mut_slice().split_at_mut(range.start);
        let (span, _) = tail.split_at_mut(cols);
        proof {
            assert(span@ =~= old(self).row_seq(r as int));
        }
        RowMut { data: span }
    }
}

impl<T: Scalar> Matrix<T> {
    /// Every entry stands for zero.
    pub open spec fn is_zero(&self) -> bool {
        forall|i: int| 0 <= i < self.data@.len() ==> #[trigger] self.data@[i] == T::zero_spec()
    }

    /// The matrix of `rows` by `cols` zeros.
    pub fn new(rows: usize, cols: usize) -> (m: Self)
        requires
            rows * cols <= usize::MAX,
        ensures
            m.wf(),
            m.rows == rows,
            m.cols == cols,
            m.is_zero(),
    {
        let n = rows * cols;
        let mut data: Vec<T> = Vec::with_capacity(n);
        let mut i: usize = 0;
        while i < n
            invariant
                i <= n,
                data@.len() == i,
                forall|j: int| 0 <= j < i ==> #[trigger] data@[j] == T::zero_spec(),
            decreases n - i,
        {
            data.push(T::zero());
            i += 1;
        }
        Matrix { rows, cols, data }
    }

    /// Appends a row of zeros.
    pub fn push_empty_row(&mut self)
        requires
            old(self).wf(),
            (old(self).rows + 1) * old(self).cols <= usize::MAX,
            old(self).rows < usize::MAX,
        ensures
            final(self).wf(),
            final(self).rows == old(self).rows + 1,
            final(self).cols == old(self).cols,
            final(self).data@ == old(self).data@ + Seq::new(
                old(self).cols as nat,
                |i: int| T::zero_spec(),
            ),
    {
        let mut i: usize = 0;
        while i < self.cols
            invariant
                self.rows == old(self).rows,
                self.cols == old(self).cols,
                i <= self.cols,
                self.data@ == old(self).data@ + Seq::new(i as nat, |i: int| T::zero_spec()),
            decreases self.cols - i,
        {
            self.data.push(T::zero());
            i += 1;
            assert(self.data@ =~= old(self).data@ + Seq::new(i as nat, |i: int| T::zero_spec()));
        }
        self.rows += 1;
        proof {
            let (len, rows, cols) = (self.data@.len() as int, self.rows as int, self.cols as int);
            assert(len == rows * cols) by (nonlinear_arith)
                requires
                    len == (rows - 1) * cols + cols,
            ;
        }
    }

    /// This matrix is `before` with one more column at the right: `column`
    /// where there is one, zeros where there is none.
    pub open spec fn column_pushed(&self, before: &Matrix<T>, column: Option<Seq<T>>) -> bool {
        &&& self.wf()
        &&& self.rows == before.rows
        &&& self.cols == before.cols + 1
        &&& forall|r: int, c: int|
            0 <= r < self.rows && 0 <= c < self.cols ==> #[trigger] self.at(r, c) == if c
                < before.cols {
                before.at(r, c)
            } else {
                match column {
                    Some(col) => col[r],
                    None => T::zero_spec(),
                }
            }
    }

    /// Appends a column by laying the data out anew.
    pub fn push_column(&mut self, new_col: Option<&[T]>)
        requires
            old(self).wf(),
            new_col matches Some(col) ==> col@.len() == old(self).rows,
            old(self).rows * (old(self).cols + 1) <= usize::MAX,
            old(self).cols < usize::MAX,
        ensures
            final(self).column_pushed(
                old(self),
                match new_col {
                    Some(col) => Some(col@),
                    None => None,
                },
            ),
    {
        let ghost column = match new_col {
            Some(col) => Some(col@),
            None => None,
        };
        let wide = self.cols + 1;
        proof {
            let (rows, cols) = (self.rows as int, self.cols as int);
            assert((cols + 1) * rows == rows * (cols + 1)) by (nonlinear_arith);
        }
        let mut new_data: Vec<T> = Vec::with_capacity(wide * self.rows);
        let mut r: usize = 0;
        while r < self.rows
            invariant
                self.wf(),
                self.rows == old(self).rows,
                self.cols == old(self).cols,
                self.data@ == old(self).data@,
                wide == self.cols + 1,
                new_col matches Some(col) ==> col@.len() == self.rows,
                column == match new_col {
                    Some(col) => Some(col@),
                    None => None,
                },
                r <= self.rows,
                new_data@.len() == r * wide,
                forall|i: int, c: int|
                    0 <= i < r && 0 <= c < wide ==> #[trigger] new_data@[i * wide + c] == if c
                        < self.cols {
                        self.at(i, c)
                    } else {
                        match column {
                            Some(col) => col[i],
                            None => T::zero_spec(),
                        }
                    },
            decreases self.rows - r,
        {
            let row_start = self.row_offset(r);
            let ghost filled = new_data@;
            let mut c: usize = 0;
            while c < self.cols
                invariant
                    self.wf(),
                    r < self.rows,
                    row_start == r * self.cols,
                    row_start + self.cols <= self.data@.len(),
                    row_start + self.cols <= usize::MAX,
                    c <= self.cols,
                    new_data@ == filled + self.data@.subrange(
                        row_start as int,
                        row_start as int + c,
                    ),
                decreases self.cols - c,
            {
                new_data.push(self.data[row_start + c]);
                c += 1;
                assert(new_data@ =~= filled + self.data@.subrange(
                    row_start as int,
                    row_start as int + c,
                ));
            }
            let val = match new_col {
                Some(col) => col[r],
                None => T::zero(),
            };
            new_data.push(val);
            proof {
                assert(new_data@.len() == (r + 1) * wide) by (nonlinear_arith)
                    requires
                        new_data@.len() == r * wide + self.cols + 1,
                        wide == self.cols + 1,
                ;
                assert forall|i: int, c: int| 0 <= i < r + 1 && 0 <= c < wide implies #[trigger] new_data@[i
                    * wide + c] == if c < self.cols {
                    self.at(i, c)
                } else {
                    match column {
                        Some(col) => col[i],
                        None => T::zero_spec(),
                    }
                } by {
                    lemma_row_major(r as int + 1, wide as int, i, c);
                    if i < r {
                        lemma_row_major(r as int, wide as int, i, c);
                        assert(new_data@[i * wide + c] == filled[i * wide + c]);
                    } else {
                        assert(i * wide + c == filled.len() + c);
                    }
                }
            }
            r += 1;
        }
        self.cols = wide;
        self.data = new_data;
        proof {
            assert(self.data@.len() == self.rows * self.cols) by (nonlinear_arith)
                requires
                    self.data@.len() == r * wide,
                    r == self.rows,
                    wide == self.cols,
            ;
        }
    }
}

impl<T> vstd::std_specs::core::IndexSpecImpl<(usize, usize)> for Matrix<T> {
    open spec fn index_req(&self, index: &(usize, usize)) -> bool {
        self.wf() && index.0 < self.rows && index.1 < self.cols
    }
}

impl<T> core::ops::Index<(usize, usize)> for Matrix<T> {
    type Output = T;

    /// `m[(r, c)]`: the entry in row `r` and column `c`.
    fn index(&self, index: (usize, usize)) -> (e: &T)
        ensures
            *e == self.at(index.0 as int, index.1 as int),
    {
        let i = self.linear_index(index.0, index.1);
        &self.data[i]
    }
}

impl<T> core::ops::IndexMut<(usize, usize)> for Matrix<T> {
    /// `m[(r, c)] = v`: what is written through the reference becomes the
    /// entry in row `r` and column `c`.
    fn index_mut(&mut self, index: (usize, usize)) -> (e: &mut T)
        requires
            old(self).wf(),
            index.0 < old(self).rows,
            index.1 < old(self).cols,
        ensures
            *e == old(self).at(index.0 as int, index.1 as int),
            final(self).rows == old(self).rows,
            final(self).cols == old(self).cols,
            final(self).data@ == old(self).data@.update(
                index.0 * old(self).cols + index.1,
                *final(e),
            ),
    {
        let i = self.linear_index(index.0, index.1);
        &mut self.data[i]
    }
}

impl<T> core::ops::Deref for Row<T> {
    type Target = [T];

    fn deref(&self) -> (s: &[T])
        ensures
            s@ == self.data@,
    {
        self.data.as_slice()
    }
}

impl<T> core::ops::DerefMut for Row<T> {
    fn deref_mut(&mut self) -> (s: &mut [T])
        ensures
            s@ == old(self).data@,
            final(self).data@ == final(s)@,
    {
        self.data.as_mut_slice()
    }
}

impl<'a, T> core::ops::DerefMut for RowMut<'a, T> {
    fn deref_mut(&mut self) -> (s: &mut [T])
        ensures
            s@ == old(self).data@,
            final(self).data@ == final(s)@,
            final(final(self).data)@ == final(old(self).data)@,
    {
        self.data
    }
}

impl<'a, T> core::ops::Deref for RowMut<'a, T> {
    type Target = [T];

    fn deref(&self) -> (s: &[T])
        ensures
            s@ == old(self.data)@,
    {
        self.data
    }
}

impl<T> vstd::std_specs::core::IndexSpecImpl<usize> for Row<T> {
    open spec fn index_req(&self, index: &usize) -> bool {
        *index < self.data@.len()
    }
}

impl<T> core::ops::Index<usize> for Row<T> {
    type Output = T;

    fn index(&self, index: usize) -> (e: &T)
        ensures
            *e == self.data@[index as int],
    {
        &self.data[index]
    }
}

impl<T> core::ops::IndexMut<usize> for Row<T> {
    fn index_mut(&mut self, index: usize) -> (e: &mut T)
        requires
            index < old(self).data@.len(),
        ensures
            *e == old(self).data@[index as int],
            final(self).data@ == old(self).data@.update(index as int, *final(e)),
    {
        &mut self.data[index]
    }
}

impl<'a, T> vstd::std_specs::core::IndexSpecImpl<usize> for RowMut<'a, T> {
    open spec fn index_req(&self, index: &usize) -> bool {
        *index < self.data@.len()
    }
}

impl<'a, T> core::ops::Index<usize> for RowMut<'a, T> {
    type Output = T;

    fn index(&self, index: usize) -> (e: &T)
        ensures
            *e == old(self.data)@[index as int],
    {
        &self.data[index]
    }
}

impl<'a, T> core::ops::IndexMut<usize> for RowMut<'a, T> {
    fn index_mut(&mut self, index: usize) -> (e: &mut T)
        requires
            index < old(self).data@.len(),
        ensures
            *e == old(self).data@[index as int],
            final(self).data@ == old(self).data@.update(index as int, *final(e)),
            final(final(self).data)@ == final(old(self).data)@,
    {
        &mut self.data[index]
    }
}

} // verus!
