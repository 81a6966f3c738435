//! The standard form `A x = b`, `x >= 0`, `b >= 0` of a linear program.

use crate::matrix::Matrix;
use crate::model::Goal;
use crate::scalar::Scalar;
use crate::tableau::Tableau;
use crate::tableau::TableauView;
use vstd::prelude::*;

verus! {

/// A linear program in standard form: every constraint is an equation with
/// a right-hand side that is not negative, and `slack_indices` names the
/// columns of `a` that were added as slack or surplus.
#[derive(Clone)]
pub struct StandardForm<T> {
    pub a: Matrix<T>,
    pub b: Vec<T>,
    pub c: Vec<T>,
    pub goal: Goal,
    pub slack_indices: Vec<usize>,
}

impl<T> StandardForm<T> {
    /// The shapes agree: `a` has a row for every entry of `b` and a column
    /// for every entry of `c`, and no more slack columns than columns.
    pub open spec fn wf(&self) -> bool {
        &&& self.a.wf()
        &&& self.a.rows == self.b@.len()
        &&& self.a.cols == self.c@.len()
        &&& self.slack_indices@.len() <= self.a.cols
    }

    /// Puts the parts together.
    pub fn new(a: Matrix<T>, b: Vec<T>, c: Vec<T>, goal: Goal, slack_indices: Vec<usize>) -> (sf:
        Self)
        requires
            a.rows == b@.len(),
            a.cols == c@.len(),
        ensures
            sf.a == a,
            sf.b == b,
            sf.c == c,
            sf.goal == goal,
            sf.slack_indices == slack_indices,
    {
        StandardForm { a, b, c, goal, slack_indices }
    }

    /// The number of structural variables: the columns that are not slack.
    pub fn n_vars(&self) -> (n: usize)
        requires
            self.slack_indices@.len() <= self.a.cols,
        ensures
            n == self.a.cols - self.slack_indices@.len(),
    {
        self.a.cols - self.slack_indices.len()
    }

    /// The number of constraints.
    pub fn n_constraints(&self) -> (m: usize)
        ensures
            m == self.a.rows,
    {
        self.a.rows
    }
}

impl<T: Scalar> StandardForm<T> {
    /// Whether the form can be read as a tableau: every row has a slack
    /// column of its own, and these are the last columns, in the order of
    /// the rows.
    pub open spec fn slack_is_last(&self) -> bool {
        &&& self.slack_indices@.len() == self.a.rows
        &&& forall|i: int|
            0 <= i < self.a.rows ==> #[trigger] self.slack_indices@[i] == self.a.cols
                - self.a.rows + i
    }

    /// Whether the sizes of the tableau can be held.
    pub open spec fn tableau_fits(&self) -> bool {
        &&& self.a.cols + 1 <= usize::MAX
        &&& self.a.rows * self.a.rows <= usize::MAX
    }

    /// The tableau that the form is read as: the rows of `a` with `b` as
    /// the right-hand side, `c` with a zero objective value as the objective
    /// row, and the slack variables as the basis.
    pub open spec fn tableau_form(&self) -> TableauView<T> {
        TableauView {
            n: (self.a.cols - self.a.rows) as nat,
            rows: Seq::new(self.a.rows as nat, |i: int| self.a.row_seq(i) + seq![self.b@[i]]),
            z: self.c@ + seq![T::zero_spec()],
            basis: Seq::new(
                self.a.rows as nat,
                |i: int| (self.a.cols - self.a.rows + i) as usize,
            ),
            nonbasis: Seq::new((self.a.cols - self.a.rows) as nat, |i: int| i as usize),
        }
    }

    /// Reads the form as a tableau. Every row must have its own slack
    /// column among the last `m` columns, which leaves out a form with an
    /// equation in it.
    pub fn into_tableau(self) -> (t: Tableau<T>)
        requires
            self.wf(),
            self.slack_is_last(),
            self.tableau_fits(),
        ensures
            t.wf(),
            t@ == self.tableau_form(),
            t@.partitioned(),
    {
        let m = self.a.rows;
        let n = self.n_vars();
        proof {
            assert(self.a.data@.len() == self.a.data.len());
            let (mi, ni) = (m as int, n as int);
            assert(mi * ni <= mi * (ni + mi)) by (nonlinear_arith)
                requires
                    0 <= mi,
                    0 <= ni,
            ;
        }
        let mut coefficients: Matrix<T> = Matrix::with_capacity(m, n);
        let mut slack: Matrix<T> = Matrix::with_capacity(m, m);
        let mut r: usize = 0;
        while r < m
            invariant
                self.wf(),
                self.tableau_fits(),
                m == self.a.rows,
                n + m == self.a.cols,
                r <= m,
                coefficients.wf(),
                coefficients.rows == r,
                coefficients.cols == n,
                slack.wf(),
                slack.rows == r,
                slack.cols == m,
                forall|i: int|
                    0 <= i < r ==> #[trigger] coefficients.row_seq(i) + slack.row_seq(i)
                        == self.a.row_seq(i),
            decreases m - r,
        {
            let whole = self.a.row(r);
            proof {
                crate::matrix::lemma_row_span(m as int, self.a.cols as int, r as int);
                assert(self.a.data@.len() == self.a.data.len());
                let (mi, ni, ri) = (m as int, n as int, r as int);
                assert((ri + 1) * ni <= mi * (ni + mi) && (ri + 1) * mi <= mi * mi)
                    by (nonlinear_arith)
                    requires
                        0 <= ri < mi,
                        0 <= ni,
                ;
            }
            let coeff_row = vstd::slice::slice_subrange(whole.data.as_slice(), 0, n);
            let slack_row = vstd::slice::slice_subrange(whole.data.as_slice(), n, n + m);
            coefficients.push_row(coeff_row);
            slack.push_row(slack_row);
            assert(coeff_row@ + slack_row@ =~= self.a.row_seq(r as int));
            r += 1;
        }
        let rhs = self.b;
        let z_coeffs = vstd::slice::slice_to_vec(
            vstd::slice::slice_subrange(self.c.as_slice(), 0, n),
        );
        let z_slack = vstd::slice::slice_to_vec(
            vstd::slice::slice_subrange(self.c.as_slice(), n, n + m),
        );
        let z_rhs = T::zero();
        let t = Tableau::new(coefficients, slack, rhs, z_coeffs, z_slack, z_rhs);
        proof {
            assert(t@.z =~= self.tableau_form().z);
            assert(t@.rows =~= self.tableau_form().rows);
            assert(t@.basis =~= self.tableau_form().basis);
            assert(t@.nonbasis =~= self.tableau_form().nonbasis);
        }
        t
    }
}

} // verus!
