//! The simplex tableau: one logical matrix whose columns are the structural
//! variables, then the slack variables, then the right-hand side, with the
//! objective row beside it and the basis it stands in.

use crate::matrix::Matrix;
use crate::matrix::Row;
use crate::matrix::RowMut;
use crate::scalar::Scalar;
use vstd::prelude::*;

verus! {

/// The piece of the tableau that a logical column lies in, with the column's
/// index inside that piece.
#[derive(Clone, Copy, Debug, PartialEq, Eq, Structural)]
pub enum TableauColumn {
    Coeff(usize),
    Slack(usize),
    Rhs,
}

/// Where column `c` lies, for `a_len` structural and `s_len` slack columns.
pub open spec fn resolve_spec(a_len: int, s_len: int, c: int) -> TableauColumn {
    if c < a_len {
        TableauColumn::Coeff(c as usize)
    } else if c < a_len + s_len {
        TableauColumn::Slack((c - a_len) as usize)
    } else {
        TableauColumn::Rhs
    }
}

/// Resolves a logical column of a row with `a_len` structural and `s_len`
/// slack entries.
pub fn resolve_row_column(a_len: usize, s_len: usize, c: usize) -> (col: TableauColumn)
    requires
        a_len + s_len <= usize::MAX,
    ensures
        col == resolve_spec(a_len as int, s_len as int, c as int),
{
    if c < a_len {
        TableauColumn::Coeff(c)
    } else if c < a_len + s_len {
        TableauColumn::Slack(c - a_len)
    } else {
        TableauColumn::Rhs
    }
}

/// The tableau of `m` constraints over `n` structural variables.
///
/// `coefficients` is `m` by `n`, `slack` is `m` by `m`, `rhs` has one entry a
/// row; `z_coeffs`, `z_slack` and `z_rhs` are the objective row in the same
/// partition. `basis[i]` is the variable that is basic in row `i`, and
/// `nonbasis` lists the variables that are held at zero.
#[derive(Debug, Clone)]
pub struct Tableau<T> {
    pub coefficients: Matrix<T>,
    pub slack: Matrix<T>,
    pub rhs: Vec<T>,
    pub basis: Vec<usize>,
    pub nonbasis: Vec<usize>,
    pub z_coeffs: Vec<T>,
    pub z_slack: Vec<T>,
    pub z_rhs: T,
}

/// An owned copy of one row of the tableau, or of its objective row.
#[derive(Debug, Clone)]
pub struct TableauRow<T> {
    pub coefficients: Row<T>,
    pub slack: Row<T>,
    pub rhs: T,
}

/// A mutable borrow of one row of the tableau, or of its objective row.
pub struct TableauRowMut<'a, T> {
    pub coefficients: RowMut<'a, T>,
    pub slack: RowMut<'a, T>,
    pub rhs: &'a mut T,
}

/// The tableau as the one matrix it logically is: `rows[i]` is row `i` over
/// all `n + m + 1` columns, and `z` is the objective row.
pub struct TableauView<T> {
    pub n: nat,
    pub rows: Seq<Seq<T>>,
    pub z: Seq<T>,
    pub basis: Seq<usize>,
    pub nonbasis: Seq<usize>,
}

impl<T> TableauView<T> {
    /// The number of constraints.
    pub open spec fn m(self) -> nat {
        self.rows.len()
    }

    /// The number of logical columns.
    pub open spec fn width(self) -> nat {
        self.n + self.m() + 1
    }

    /// The entry of row `i` in the column of slack variable `j`.
    pub open spec fn slack(self, i: int, j: int) -> T {
        self.rows[i][self.n + j]
    }

    /// Every row and the objective row span all columns, every row has a
    /// basic variable, and that variable exists.
    pub open spec fn wf(self) -> bool {
        &&& forall|i: int| 0 <= i < self.m() ==> (#[trigger] self.rows[i]).len() == self.width()
        &&& self.z.len() == self.width()
        &&& self.basis.len() == self.m()
        &&& forall|i: int| 0 <= i < self.m() ==> (#[trigger] self.basis[i]) < self.n + self.m()
    }

    /// The basic and the nonbasic variables are, together and without
    /// repetition, all `n + m` variables.
    pub open spec fn partitioned(self) -> bool {
        &&& self.basis.no_duplicates()
        &&& self.nonbasis.no_duplicates()
        &&& forall|v: usize|
            (self.basis.contains(v) || self.nonbasis.contains(v)) <==> v < self.n + self.m()
        &&& forall|v: usize| !(self.basis.contains(v) && self.nonbasis.contains(v))
    }
}

impl<T> Tableau<T> {
    /// The pieces fit together: the shapes agree, the column count can be
    /// held, and every basic variable exists.
    pub open spec fn wf(&self) -> bool {
        &&& self.coefficients.wf()
        &&& self.slack.wf()
        &&& self.slack.rows == self.coefficients.rows
        &&& self.slack.cols == self.coefficients.rows
        &&& self.rhs@.len() == self.coefficients.rows
        &&& self.z_coeffs@.len() == self.coefficients.cols
        &&& self.z_slack@.len() == self.coefficients.rows
        &&& self.basis@.len() == self.coefficients.rows
        &&& self.coefficients.cols + self.coefficients.rows + 1 <= usize::MAX
        &&& forall|i: int|
            0 <= i < self.basis@.len() ==> (#[trigger] self.basis@[i]) < self.coefficients.cols
                + self.coefficients.rows
    }

    /// Row `r` over all logical columns.
    pub open spec fn row_view(&self, r: int) -> Seq<T> {
        self.coefficients.row_seq(r) + self.slack.row_seq(r) + seq![self.rhs@[r]]
    }

    /// The objective row over all logical columns.
    pub open spec fn z_view(&self) -> Seq<T> {
        self.z_coeffs@ + self.z_slack@ + seq![self.z_rhs]
    }

    /// The entry in row `r` and logical column `c`.
    pub open spec fn entry(&self, r: int, c: int) -> T {
        self.row_view(r)[c]
    }
}

impl<T> View for Tableau<T> {
    type V = TableauView<T>;

    open spec fn view(&self) -> TableauView<T> {
        TableauView {
            n: self.coefficients.cols as nat,
            rows: Seq::new(self.coefficients.rows as nat, |r: int| self.row_view(r)),
            z: self.z_view(),
            basis: self.basis@,
            nonbasis: self.nonbasis@,
        }
    }
}

impl<T> Tableau<T> {
    /// A well-formed tableau has a well-formed view.
    pub proof fn lemma_view_wf(&self)
        requires
            self.wf(),
        ensures
            self@.wf(),
            self@.m() == self.coefficients.rows,
            self@.n == self.coefficients.cols,
    {
        assert forall|i: int| 0 <= i < self@.m() implies (#[trigger] self@.rows[i]).len()
            == self@.width() by {
            crate::matrix::lemma_row_span(
                self.coefficients.rows as int,
                self.coefficients.cols as int,
                i,
            );
            crate::matrix::lemma_row_span(self.slack.rows as int, self.slack.cols as int, i);
        }
    }

    /// The number of constraint rows.
    pub fn rows(&self) -> (m: usize)
        ensures
            m == self.coefficients.rows,
    {
        self.coefficients.rows
    }

    /// The number of logical columns: structural, slack, and the right-hand
    /// side.
    pub fn cols(&self) -> (w: usize)
        requires
            self.wf(),
        ensures
            w == self.coefficients.cols + self.slack.cols + 1,
            w == self@.width(),
    {
        self.coefficients.cols + self.slack.cols + 1
    }

    fn resolve_column(&self, c: usize) -> (col: TableauColumn)
        requires
            self.wf(),
        ensures
            col == resolve_spec(self.coefficients.cols as int, self.slack.cols as int, c as int),
    {
        let a_cols = self.coefficients.cols;
        let s_cols = self.slack.cols;
        if c < a_cols {
            TableauColumn::Coeff(c)
        } else if c < a_cols + s_cols {
            TableauColumn::Slack(c - a_cols)
        } else {
            TableauColumn::Rhs
        }
    }
}

/// The vector `start, start + 1, ..` of `len` indices.
pub fn index_range(start: usize, len: usize) -> (v: Vec<usize>)
    requires
        start + len <= usize::MAX,
    ensures
        v@ == Seq::new(len as nat, |i: int| (start + i) as usize),
{
    let mut v: Vec<usize> = Vec::with_capacity(len);
    let mut i: usize = 0;
    while i < len
        invariant
            start + len <= usize::MAX,
            i <= len,
            v@ == Seq::new(i as nat, |j: int| (start + j) as usize),
        decreases len - i,
    {
        v.push(start + i);
        i += 1;
        assert(v@ =~= Seq::new(i as nat, |j: int| (start + j) as usize));
    }
    v
}

impl<T> TableauRow<T> {
    /// The row over all its logical columns.
    pub open spec fn flat(&self) -> Seq<T> {
        self.coefficients.data@ + self.slack.data@ + seq![self.rhs]
    }

    /// Two rows with as many structural and as many slack entries.
    pub open spec fn same_shape(&self, other: &TableauRow<T>) -> bool {
        &&& self.coefficients.data@.len() == other.coefficients.data@.len()
        &&& self.slack.data@.len() == other.slack.data@.len()
    }

    /// The number of logical columns of this row.
    pub fn cols(&self) -> (w: usize)
        requires
            self.coefficients.data@.len() + self.slack.data@.len() + 1 <= usize::MAX,
        ensures
            w == self.flat().len(),
    {
        self.coefficients.data.len() + self.slack.data.len() + 1
    }
}

impl<'a, T> TableauRowMut<'a, T> {
    /// The row over all its logical columns.
    pub open spec fn flat(&self) -> Seq<T> {
        self.coefficients.data@ + self.slack.data@ + seq![*self.rhs]
    }

    /// The number of logical columns of this row.
    pub fn cols(&self) -> (w: usize)
        requires
            self.coefficients.data@.len() + self.slack.data@.len() + 1 <= usize::MAX,
        ensures
            w == old(self.coefficients.data)@.len() + old(self.slack.data)@.len() + 1,
    {
        self.coefficients.data.len() + self.slack.data.len() + 1
    }
}

impl<T: Copy> Tableau<T> {
    /// Builds the tableau from its pieces, with the slack variables as the
    /// basis: `basis = [n, .., n + m)` and `nonbasis = [0, .., n)`.
    pub fn new(
        coefficients: Matrix<T>,
        slack: Matrix<T>,
        rhs: Vec<T>,
        z_coeffs: Vec<T>,
        z_slack: Vec<T>,
        z_rhs: T,
    ) -> (t: Self)
        requires
            coefficients.wf(),
            slack.wf(),
            slack.rows == coefficients.rows,
            slack.cols == coefficients.rows,
            rhs@.len() == coefficients.rows,
            z_coeffs@.len() == coefficients.cols,
            z_slack@.len() == coefficients.rows,
            coefficients.cols + coefficients.rows + 1 <= usize::MAX,
        ensures
            t.wf(),
            t.coefficients == coefficients,
            t.slack == slack,
            t.rhs == rhs,
            t.z_coeffs == z_coeffs,
            t.z_slack == z_slack,
            t.z_rhs == z_rhs,
            t.basis@ == Seq::new(
                coefficients.rows as nat,
                |i: int| (coefficients.cols + i) as usize,
            ),
            t.nonbasis@ == Seq::new(coefficients.cols as nat, |i: int| i as usize),
            t@.partitioned(),
    {
        let m = coefficients.rows;
        let n = coefficients.cols;
        let basis = index_range(n, m);
        let nonbasis = index_range(0, n);
        assert(nonbasis@ =~= Seq::new(n as nat, |i: int| i as usize));
        let t = Tableau { coefficients, slack, rhs, basis, nonbasis, z_coeffs, z_slack, z_rhs };
        proof {
            lemma_initial_partition(t@);
        }
        t
    }

    /// The entry in row `r` and logical column `c`.
    pub fn get(&self, r: usize, c: usize) -> (e: T)
        requires
            self.wf(),
            r < self.coefficients.rows,
            c < self@.width(),
        ensures
            e == self.entry(r as int, c as int),
            e == self@.rows[r as int][c as int],
    {
        proof {
            crate::matrix::lemma_row_span(
                self.coefficients.rows as int,
                self.coefficients.cols as int,
                r as int,
            );
            crate::matrix::lemma_row_span(self.slack.rows as int, self.slack.cols as int, r as int);
        }
        match self.resolve_column(c) {
            TableauColumn::Coeff(j) => *self.coefficients.get(r, j),
            TableauColumn::Slack(j) => *self.slack.get(r, j),
            TableauColumn::Rhs => self.rhs[r],
        }
    }

    /// The entry of the objective row in logical column `c`.
    pub fn z_get(&self, c: usize) -> (e: T)
        requires
            self.wf(),
            c < self@.width(),
        ensures
            e == self.z_view()[c as int],
    {
        match self.resolve_column(c) {
            TableauColumn::Coeff(j) => self.z_coeffs[j],
            TableauColumn::Slack(j) => self.z_slack[j],
            TableauColumn::Rhs => self.z_rhs,
        }
    }

    /// A copy of constraint row `r`.
    pub fn row(&self, r: usize) -> (row: TableauRow<T>)
        requires
            self.wf(),
            r < self.coefficients.rows,
        ensures
            row.coefficients.data@ == self.coefficients.row_seq(r as int),
            row.slack.data@ == self.slack.row_seq(r as int),
            row.rhs == self.rhs@[r as int],
            row.flat() == self.row_view(r as int),
            row.flat() == self@.rows[r as int],
    {
        TableauRow {
            coefficients: self.coefficients.row(r),
            slack: self.slack.row(r),
            rhs: self.rhs[r],
        }
    }

    /// A copy of the objective row.
    pub fn z_row(&self) -> (row: TableauRow<T>)
        ensures
            row.coefficients.data@ == self.z_coeffs@,
            row.slack.data@ == self.z_slack@,
            row.rhs == self.z_rhs,
            row.flat() == self.z_view(),
    {
        TableauRow {
            coefficients: Row { data: vstd::slice::slice_to_vec(self.z_coeffs.as_slice()) },
            slack: Row { data: vstd::slice::slice_to_vec(self.z_slack.as_slice()) },
            rhs: self.z_rhs,
        }
    }

    /// A mutable view of constraint row `r`: what is written through its
    /// three parts is written to that row, and nothing else changes.
    pub fn row_mut(&mut self, r: usize) -> (row: TableauRowMut<'_, T>)
        requires
            old(self).wf(),
            r < old(self).coefficients.rows,
        ensures
            row.coefficients.data@ == old(self).coefficients.row_seq(r as int),
            row.slack.data@ == old(self).slack.row_seq(r as int),
            *row.rhs == old(self).rhs@[r as int],
            final(self).row_written(
                old(self),
                r as int,
                final(row.coefficients.data)@,
                final(row.slack.data)@,
                *final(row.rhs),
            ),
    {
        TableauRowMut {
            coefficients: self.coefficients.row_mut(r),
            slack: self.slack.row_mut(r),
            rhs: &mut self.rhs[r],
        }
    }

    /// A mutable view of the objective row.
    pub fn z_row_mut(&mut self) -> (row: TableauRowMut<'_, T>)
        ensures
            row.coefficients.data@ == old(self).z_coeffs@,
            row.slack.data@ == old(self).z_slack@,
            *row.rhs == old(self).z_rhs,
            final(self).coefficients == old(self).coefficients,
            final(self).slack == old(self).slack,
            final(self).rhs == old(self).rhs,
            final(self).basis == old(self).basis,
            final(self).nonbasis == old(self).nonbasis,
            final(self).z_coeffs@ == final(row.coefficients.data)@,
            final(self).z_slack@ == final(row.slack.data)@,
            final(self).z_rhs == *final(row.rhs),
    {
        TableauRowMut {
            coefficients: RowMut { data: self.z_coeffs.as_mut_slice() },
            slack: RowMut { data: self.z_slack.as_mut_slice() },
            rhs: &mut self.z_rhs,
        }
    }
}

impl<T> Tableau<T> {
    /// This tableau is `before` with the three parts of row `r` overwritten
    /// in place by `coefficients`, `slack` and `rhs`.
    pub open spec fn row_written(
        &self,
        before: &Tableau<T>,
        r: int,
        coefficients: Seq<T>,
        slack: Seq<T>,
        rhs: T,
    ) -> bool {
        &&& self.coefficients.same_shape(&before.coefficients)
        &&& self.coefficients.data@ == before.coefficients.data@.subrange(
            0,
            r * before.coefficients.cols,
        ) + coefficients + before.coefficients.data@.subrange(
            r * before.coefficients.cols + before.coefficients.cols,
            before.coefficients.data@.len() as int,
        )
        &&& self.slack.same_shape(&before.slack)
        &&& self.slack.data@ == before.slack.data@.subrange(0, r * before.slack.cols) + slack
            + before.slack.data@.subrange(
            r * before.slack.cols + before.slack.cols,
            before.slack.data@.len() as int,
        )
        &&& self.rhs@ == before.rhs@.update(r, rhs)
        &&& self.basis == before.basis
        &&& self.nonbasis == before.nonbasis
        &&& self.z_coeffs == before.z_coeffs
        &&& self.z_slack == before.z_slack
        &&& self.z_rhs == before.z_rhs
    }

    /// Overwriting the parts of row `r` with parts of the same lengths
    /// replaces that row of the logical matrix, and nothing else.
    pub proof fn lemma_row_written(
        &self,
        before: &Tableau<T>,
        r: int,
        coefficients: Seq<T>,
        slack: Seq<T>,
        rhs: T,
    )
        requires
            before.wf(),
            0 <= r < before.coefficients.rows,
            coefficients.len() == before.coefficients.cols,
            slack.len() == before.slack.cols,
            self.row_written(before, r, coefficients, slack, rhs),
        ensures
            self.wf(),
            self@ == (TableauView {
                rows: before@.rows.update(r, coefficients + slack + seq![rhs]),
                ..before@
            }),
    {
        self.coefficients.lemma_row_written(&before.coefficients, r, coefficients);
        self.slack.lemma_row_written(&before.slack, r, slack);
        assert(self@.rows =~= before@.rows.update(r, coefficients + slack + seq![rhs])) by {
            assert forall|i: int| 0 <= i < self@.rows.len() implies self@.rows[i]
                == before@.rows.update(r, coefficients + slack + seq![rhs])[i] by {
                if i != r {
                    assert(self.row_view(i) == before.row_view(i));
                }
            }
        }
    }
}

impl<T: Scalar> TableauView<T> {
    /// The value of the objective row: its right-hand side.
    pub open spec fn objective_value(self) -> T {
        self.z[(self.n + self.m()) as int]
    }

    /// Whether some row has a negative right-hand side.
    pub open spec fn has_negative_rhs(self) -> bool {
        exists|i: int|
            0 <= i < self.m() && (#[trigger] self.rows[i])[(self.n + self.m()) as int].val()
                < 0real
    }
}

impl<T: Scalar> Tableau<T> {
    /// Whether some row has a negative right-hand side, so that the slack
    /// basis is not feasible.
    pub fn has_negative_rhs(&self) -> (b: bool)
        requires
            self.wf(),
        ensures
            b == self@.has_negative_rhs(),
            b == exists|i: int| 0 <= i < self.rhs@.len() && (#[trigger] self.rhs@[i]).val() < 0real,
    {
        let zero = T::zero();
        let mut i: usize = 0;
        proof {
            self.lemma_rhs_view();
        }
        while i < self.rhs.len()
            invariant
                self.wf(),
                zero.val() == 0real,
                i <= self.rhs@.len(),
                forall|j: int| 0 <= j < i ==> !((#[trigger] self.rhs@[j]).val() < 0real),
                forall|j: int|
                    0 <= j < self.rhs@.len() ==> (#[trigger] self@.rows[j])[(self@.n
                        + self@.m()) as int] == self.rhs@[j],
            decreases self.rhs@.len() - i,
        {
            if self.rhs[i].lt(zero) {
                proof {
                    assert(self@.rows[i as int][(self@.n + self@.m()) as int].val() < 0real);
                }
                return true;
            }
            i += 1;
        }
        proof {
            assert forall|j: int| 0 <= j < self@.m() implies !((#[trigger] self@.rows[j])[(self@.n
                + self@.m()) as int].val() < 0real) by {
                assert(!(self.rhs@[j].val() < 0real));
            }
        }
        false
    }

    /// The last logical column is the right-hand side, and the last entry of
    /// the objective row is the objective value.
    pub proof fn lemma_rhs_view(&self)
        requires
            self.wf(),
        ensures
            forall|j: int|
                0 <= j < self.rhs@.len() ==> (#[trigger] self@.rows[j])[(self@.n
                    + self@.m()) as int] == self.rhs@[j],
            self@.objective_value() == self.z_rhs,
    {
        assert forall|j: int| 0 <= j < self.rhs@.len() implies (#[trigger] self@.rows[j])[(self@.n
            + self@.m()) as int] == self.rhs@[j] by {
            crate::matrix::lemma_row_span(
                self.coefficients.rows as int,
                self.coefficients.cols as int,
                j,
            );
            crate::matrix::lemma_row_span(self.slack.rows as int, self.slack.cols as int, j);
        }
    }
}

impl<T: Scalar> Tableau<T> {
    /// Builds the tableau from the constraint matrix, the slack matrix, the
    /// right-hand side and the costs of all variables, structural first:
    /// the costs become the objective row, with a zero objective value, and
    /// the slack variables the basis.
    pub fn from_standard_form(
        constraints: Matrix<T>,
        slack: Matrix<T>,
        rhs: Vec<T>,
        cost: Vec<T>,
    ) -> (t: Self)
        requires
            constraints.wf(),
            slack.wf(),
            slack.rows == constraints.rows,
            slack.cols == constraints.rows,
            rhs@.len() == constraints.rows,
            cost@.len() == constraints.cols + constraints.rows,
            constraints.cols + constraints.rows + 1 <= usize::MAX,
        ensures
            t.wf(),
            t.coefficients == constraints,
            t.slack == slack,
            t.rhs == rhs,
            t.z_coeffs@ + t.z_slack@ == cost@,
            t.z_rhs == T::zero_spec(),
            t.basis@ == Seq::new(constraints.rows as nat, |i: int| (constraints.cols + i) as usize),
            t.nonbasis@ == Seq::new(constraints.cols as nat, |i: int| i as usize),
            t@.partitioned(),
    {
        let m = constraints.rows;
        let n = constraints.cols;
        let z_coeffs = vstd::slice::slice_to_vec(vstd::slice::slice_subrange(cost.as_slice(), 0, n));
        let z_slack = vstd::slice::slice_to_vec(
            vstd::slice::slice_subrange(cost.as_slice(), n, n + m),
        );
        assert(z_coeffs@ + z_slack@ =~= cost@);
        Tableau::new(constraints, slack, rhs, z_coeffs, z_slack, T::zero())
    }
}

/// The basis `[n, .., n + m)` and the nonbasis `[0, .., n)` of an initial
/// tableau are, together and without repetition, all `n + m` variables.
pub proof fn lemma_initial_partition<T>(view: TableauView<T>)
    requires
        view.n + view.m() <= usize::MAX,
        view.basis == Seq::new(view.m(), |i: int| (view.n + i) as usize),
        view.nonbasis == Seq::new(view.n, |i: int| i as usize),
    ensures
        view.partitioned(),
{
    assert forall|v: usize|
        (view.basis.contains(v) || view.nonbasis.contains(v)) <==> v < view.n + view.m() by {
        if v < view.n {
            assert(view.nonbasis[v as int] == v);
        } else if v < view.n + view.m() {
            assert(view.basis[v - view.n] == v);
        }
    }
}

impl<T> vstd::std_specs::core::IndexSpecImpl<(usize, usize)> for Tableau<T> {
    open spec fn index_req(&self, index: &(usize, usize)) -> bool {
        &&& self.wf()
        &&& index.0 < self.coefficients.rows
        &&& index.1 <= self.coefficients.cols + self.slack.cols
    }
}

impl<T> core::ops::Index<(usize, usize)> for Tableau<T> {
    type Output = T;

    /// `t[(r, c)]`: the entry in row `r` and logical column `c`.
    fn index(&self, index: (usize, usize)) -> (e: &T)
        ensures
            *e == self.entry(index.0 as int, index.1 as int),
    {
        let (r, c) = index;
        proof {
            crate::matrix::lemma_row_span(
                self.coefficients.rows as int,
                self.coefficients.cols as int,
                r as int,
            );
            crate::matrix::lemma_row_span(self.slack.rows as int, self.slack.cols as int, r as int);
        }
        match self.resolve_column(c) {
            TableauColumn::Coeff(j) => self.coefficients.get(r, j),
            TableauColumn::Slack(j) => self.slack.get(r, j),
            TableauColumn::Rhs => &self.rhs[r],
        }
    }
}

impl<T> core::ops::IndexMut<(usize, usize)> for Tableau<T> {
    /// `t[(r, c)] = v`: what is written through the reference becomes the
    /// entry in row `r` and logical column `c`, in the piece of the tableau
    /// that the column lies in.
    fn index_mut(&mut self, index: (usize, usize)) -> (e: &mut T)
        requires
            old(self).wf(),
            index.0 < old(self).coefficients.rows,
            index.1 <= old(self).coefficients.cols + old(self).slack.cols,
        ensures
            *e == old(self).entry(index.0 as int, index.1 as int),
            final(self).basis == old(self).basis,
            final(self).nonbasis == old(self).nonbasis,
            final(self).z_coeffs == old(self).z_coeffs,
            final(self).z_slack == old(self).z_slack,
            final(self).z_rhs == old(self).z_rhs,
            final(self).coefficients.same_shape(&old(self).coefficients),
            final(self).slack.same_shape(&old(self).slack),
            match resolve_spec(
                old(self).coefficients.cols as int,
                old(self).slack.cols as int,
                index.1 as int,
            ) {
                TableauColumn::Coeff(j) => {
                    &&& final(self).coefficients.data@ == old(self).coefficients.data@.update(
                        index.0 * old(self).coefficients.cols + j,
                        *final(e),
                    )
                    &&& final(self).slack == old(self).slack
                    &&& final(self).rhs == old(self).rhs
                },
                TableauColumn::Slack(j) => {
                    &&& final(self).coefficients == old(self).coefficients
                    &&& final(self).slack.data@ == old(self).slack.data@.update(
                        index.0 * old(self).slack.cols + j,
                        *final(e),
                    )
                    &&& final(self).rhs == old(self).rhs
                },
                TableauColumn::Rhs => {
                    &&& final(self).coefficients == old(self).coefficients
                    &&& final(self).slack == old(self).slack
                    &&& final(self).rhs@ == old(self).rhs@.update(index.0 as int, *final(e))
                },
            },
    {
        let (r, c) = index;
        proof {
            crate::matrix::lemma_row_span(
                self.coefficients.rows as int,
                self.coefficients.cols as int,
                r as int,
            );
            crate::matrix::lemma_row_span(self.slack.rows as int, self.slack.cols as int, r as int);
        }
        match self.resolve_column(c) {
            TableauColumn::Coeff(j) => self.coefficients.index_mut((r, j)),
            TableauColumn::Slack(j) => self.slack.index_mut((r, j)),
            TableauColumn::Rhs => &mut self.rhs[r],
        }
    }
}

impl<T> vstd::std_specs::core::IndexSpecImpl<usize> for TableauRow<T> {
    open spec fn index_req(&self, index: &usize) -> bool {
        *index < self.flat().len() <= usize::MAX
    }
}

impl<T> core::ops::Index<usize> for TableauRow<T> {
    type Output = T;

    /// `row[c]`: the entry in logical column `c`.
    fn index(&self, c: usize) -> (e: &T)
        ensures
            *e == self.flat()[c as int],
    {
        let a = self.coefficients.data.len();
        let s = self.slack.data.len();
        match resolve_row_column(a, s, c) {
            TableauColumn::Coeff(j) => &self.coefficients.data[j],
            TableauColumn::Slack(j) => &self.slack.data[j],
            TableauColumn::Rhs => &self.rhs,
        }
    }
}

impl<'a, T> vstd::std_specs::core::IndexSpecImpl<usize> for TableauRowMut<'a, T> {
    open spec fn index_req(&self, index: &usize) -> bool {
        *index < self.flat().len() <= usize::MAX
    }
}

impl<'a, T> core::ops::Index<usize> for TableauRowMut<'a, T> {
    type Output = T;

    /// `row[c]`: the entry in logical column `c`.
    fn index(&self, c: usize) -> (e: &T)
        ensures
            *e == self.flat()[c as int],
    {
        let a = self.coefficients.data.len();
        let s = self.slack.data.len();
        match resolve_row_column(a, s, c) {
            TableauColumn::Coeff(j) => &self.coefficients.data[j],
            TableauColumn::Slack(j) => &self.slack.data[j],
            TableauColumn::Rhs => &*self.rhs,
        }
    }
}

impl<'a, T> core::ops::IndexMut<usize> for TableauRowMut<'a, T> {
    /// `row[c] = v`: what is written through the reference becomes the
    /// entry in logical column `c`, in the tableau.
    fn index_mut(&mut self, c: usize) -> (e: &mut T)
        requires
            c < old(self).flat().len() <= usize::MAX,
        ensures
            *e == old(self).flat()[c as int],
            final(self).flat() == old(self).flat().update(c as int, *final(e)),
            final(final(self).coefficients.data)@ == final(old(self).coefficients.data)@,
            final(final(self).slack.data)@ == final(old(self).slack.data)@,
            *final(final(self).rhs) == *final(old(self).rhs),
    {
        let a = self.coefficients.data.len();
        let s = self.slack.data.len();
        match resolve_row_column(a, s, c) {
            TableauColumn::Coeff(j) => &mut self.coefficients.data[j],
            TableauColumn::Slack(j) => &mut self.slack.data[j],
            TableauColumn::Rhs => &mut *self.rhs,
        }
    }
}

} // verus!
