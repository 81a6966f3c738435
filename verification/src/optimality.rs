//! Why a step may stop: a pivot keeps the solutions of the constraint
//! system, and a canonical tableau without a negative reduced cost certifies
//! that its vertex is optimal.

use crate::matrix_operations::lemma_sum_add;
use crate::matrix_operations::lemma_sum_equal;
use crate::matrix_operations::lemma_sum_exchange;
use crate::matrix_operations::lemma_sum_replace;
use crate::matrix_operations::lemma_sum_scale;
use crate::matrix_operations::lemma_sum_scale_right;
use crate::matrix_operations::lemma_sum_sub_scaled;
use crate::matrix_operations::lemma_sum_zero;
use crate::matrix_operations::sum;
use crate::pivot::basic_row;
use crate::pivot::lemma_basic_row;
use crate::scalar::Scalar;
use crate::tableau::TableauView;
use vstd::prelude::*;

verus! {

/// A sum of terms that are not negative is not negative.
pub proof fn lemma_sum_nonnegative(f: spec_fn(int) -> real, k: int)
    requires
        forall|i: int| 0 <= i < k ==> #[trigger] f(i) >= 0real,
    ensures
        sum(f, k) >= 0real,
    decreases k,
{
    if k > 0 {
        lemma_sum_nonnegative(f, k - 1);
    }
}

/// A sum whose only term that is not zero is the term `i` is that term,
/// once the sum is past it.
pub proof fn lemma_sum_single(f: spec_fn(int) -> real, i: int, k: int)
    requires
        0 <= i,
        forall|x: int| 0 <= x < k && x != i ==> #[trigger] f(x) == 0real,
    ensures
        sum(f, k) == if i < k {
            f(i)
        } else {
            0real
        },
    decreases k,
{
    if k > 0 {
        lemma_sum_single(f, i, k - 1);
    }
}

impl<T: Scalar> TableauView<T> {
    /// The number of variables, structural and slack.
    pub open spec fn vars(self) -> int {
        (self.n + self.m()) as int
    }

    /// The left-hand side of row `i` at the point `x`: the entries of the
    /// row times the variables, summed over all variables.
    pub open spec fn row_at(self, i: int, x: Seq<real>) -> real {
        sum(|j: int| self.rows[i][j].val() * x[j], self.vars())
    }

    /// Whether the point `x` solves the constraint system of the tableau:
    /// it has a value for every variable, and every row's left-hand side at
    /// `x` is the row's right-hand side.
    pub open spec fn solves(self, x: Seq<real>) -> bool {
        &&& x.len() == self.vars()
        &&& forall|i: int| 0 <= i < self.m() ==> #[trigger] self.row_at(i, x) == self.rhs(i).val()
    }

    /// The value at the point `x` of the objective with the costs `c`.
    pub open spec fn cost_at(self, c: Seq<T>, x: Seq<real>) -> real {
        sum(|j: int| c[j].val() * x[j], self.vars())
    }

    /// The basic solution as a point over all variables: a basic variable
    /// has the right-hand side of its row, every other is zero.
    pub open spec fn vertex_point(self) -> Seq<real> {
        Seq::new(
            self.vars() as nat,
            |v: int|
                match basic_row(self.basis, v) {
                    Some(i) => self.rhs(i).val(),
                    None => 0real,
                },
        )
    }

    /// A pivot keeps the solutions: a point that solves the constraint
    /// system before the pivot solves it after.
    pub proof fn lemma_pivot_keeps_solutions(self, r: int, k: int, x: Seq<real>)
        requires
            self.wf(),
            0 <= r < self.m(),
            0 <= k < self.vars(),
            self.pivot_req(r, k),
            self.solves(x),
        ensures
            self.pivot(r, k).solves(x),
    {
        let after = self.pivot(r, k);
        let n = self.vars();
        let last = n;
        self.lemma_pivot_values(r, k);
        let p = self.rows[r][k].val();
        let pivot_terms = |j: int| self.rows[r][j].val() * x[j];
        let scaled_terms = |j: int| (self.rows[r][j].val() / p) * x[j];
        assert(self.rows[r].len() == self.width());
        assert(self.row_at(r, x) == self.rhs(r).val());
        // The scaled pivot row has the scaled right-hand side.
        assert(sum(scaled_terms, n) == self.rhs(r).val() / p) by {
            lemma_sum_scale(pivot_terms, 1real / p, n);
            let by_scale = |j: int| (1real / p) * pivot_terms(j);
            assert forall|j: int| 0 <= j < n implies #[trigger] scaled_terms(j) == by_scale(j) by {
                let (a, y) = (self.rows[r][j].val(), x[j]);
                assert((a / p) * y == (1real / p) * (a * y)) by (nonlinear_arith)
                    requires
                        p != 0real,
                ;
            }
            lemma_sum_equal(scaled_terms, by_scale, n);
            let b = self.rhs(r).val();
            assert((1real / p) * b == b / p) by (nonlinear_arith)
                requires
                    p != 0real,
            ;
        }
        assert forall|i: int| 0 <= i < after.m() implies #[trigger] after.row_at(i, x)
            == after.rhs(i).val() by {
            assert(self.rows[i].len() == self.width());
            let new_terms = |j: int| after.rows[i][j].val() * x[j];
            if i == r {
                assert forall|j: int| 0 <= j < n implies #[trigger] new_terms(j) == scaled_terms(
                    j,
                ) by {
                    assert(after.rows[r][j].val() == self.rows[r][j].val() / p);
                }
                lemma_sum_equal(new_terms, scaled_terms, n);
                assert(after.rows[r][last].val() == self.rows[r][last].val() / p);
            } else {
                let a = self.rows[i][k].val();
                let old_terms = |j: int| self.rows[i][j].val() * x[j];
                let combined = |j: int| old_terms(j) - a * scaled_terms(j);
                assert(self.row_at(i, x) == self.rhs(i).val());
                assert forall|j: int| 0 <= j < n implies #[trigger] new_terms(j) == combined(j) by {
                    let (e, s, y) = (self.rows[i][j].val(), self.rows[r][j].val() / p, x[j]);
                    assert(after.rows[i][j].val() == e - a * s);
                    assert((e - a * s) * y == e * y - a * (s * y)) by (nonlinear_arith);
                }
                lemma_sum_equal(new_terms, combined, n);
                lemma_sum_sub_scaled(old_terms, scaled_terms, a, n);
                assert(after.rows[i][last].val() == self.rows[i][last].val() - a * (
                self.rows[r][last].val() / p));
            }
        }
    }

    /// The vertex that a step reports carries, for the variables it has a
    /// value for, the numbers of the basic solution.
    pub proof fn lemma_vertex_values(self, n_vars: nat)
        ensures
            forall|v: int|
                0 <= v < n_vars && v < self.vars() ==> (#[trigger] self.vertex(n_vars)[v]).val()
                    == self.vertex_point()[v],
    {
        T::lemma_constants();
    }

    /// The optimality certificate. Where the objective row is the objective
    /// `c` reduced at the basis and no reduced cost is negative, every point
    /// that solves the constraint system with no negative variable costs at
    /// least what the basic solution costs: the costs of the basic
    /// variables times their right-hand sides.
    pub proof fn lemma_no_point_costs_less(self, c: Seq<T>, x: Seq<real>)
        requires
            self.wf(),
            c.len() == self.width(),
            self.objective_is_reduced(c),
            forall|j: int| 0 <= j < self.vars() ==> (#[trigger] self.z[j]).val() >= 0real,
            self.solves(x),
            forall|j: int| 0 <= j < x.len() ==> #[trigger] x[j] >= 0real,
        ensures
            self.cost_at(c, x) >= sum(
                |i: int| c[self.basis[i] as int].val() * self.rhs(i).val(),
                self.m() as int,
            ),
    {
        let n = self.vars();
        let m = self.m() as int;
        let cost_terms = |j: int| c[j].val() * x[j];
        let reduced_terms = |j: int| self.z[j].val() * x[j];
        let basic_terms = |j: int| self.basic_cost_of_column(c, j) * x[j];
        let term = |j: int, i: int| (c[self.basis[i] as int].val() * self.rows[i][j].val()) * x[j];
        // c = z + (basic costs times the columns), column by column.
        let split = |j: int| reduced_terms(j) + basic_terms(j);
        assert forall|j: int| 0 <= j < n implies #[trigger] cost_terms(j) == split(j) by {
            assert(self.z[j].val() == c[j].val() - self.basic_cost_of_column(c, j));
            let (zj, w, y) = (self.z[j].val(), self.basic_cost_of_column(c, j), x[j]);
            assert((zj + w) * y == zj * y + w * y) by (nonlinear_arith);
        }
        lemma_sum_equal(cost_terms, split, n);
        lemma_sum_add(reduced_terms, basic_terms, n);
        // The reduced costs times the point are not negative.
        assert forall|j: int| 0 <= j < n implies #[trigger] reduced_terms(j) >= 0real by {
            let (zj, y) = (self.z[j].val(), x[j]);
            assert(self.z[j].val() >= 0real);
            assert(zj * y >= 0real) by (nonlinear_arith)
                requires
                    zj >= 0real,
                    y >= 0real,
            ;
        }
        lemma_sum_nonnegative(reduced_terms, n);
        // The basic costs times the columns, at the point, are the basic
        // costs times the rows at the point, which are the right-hand sides.
        let by_columns = |j: int| sum(|i: int| term(j, i), m);
        assert forall|j: int| 0 <= j < n implies #[trigger] basic_terms(j) == by_columns(j) by {
            let column = |i: int| c[self.basis[i] as int].val() * self.rows[i][j].val();
            lemma_sum_scale_right(column, x[j], m);
            let scaled = |i: int| column(i) * x[j];
            let terms = |i: int| term(j, i);
            lemma_sum_equal(scaled, terms, m);
        }
        lemma_sum_equal(basic_terms, by_columns, n);
        lemma_sum_exchange(term, n, m);
        let by_rows = |i: int| sum(|j: int| term(j, i), n);
        let basic_value = |i: int| c[self.basis[i] as int].val() * self.rhs(i).val();
        assert forall|i: int| 0 <= i < m implies #[trigger] by_rows(i) == basic_value(i) by {
            let row_terms = |j: int| self.rows[i][j].val() * x[j];
            let w = c[self.basis[i] as int].val();
            lemma_sum_scale(row_terms, w, n);
            let scaled = |j: int| w * row_terms(j);
            let terms = |j: int| term(j, i);
            assert forall|j: int| 0 <= j < n implies #[trigger] scaled(j) == terms(j) by {
                let (a, y) = (self.rows[i][j].val(), x[j]);
                assert(w * (a * y) == (w * a) * y) by (nonlinear_arith);
            }
            lemma_sum_equal(scaled, terms, n);
            assert(self.row_at(i, x) == self.rhs(i).val());
        }
        lemma_sum_equal(by_rows, basic_value, m);
    }

    /// At the basic solution of the first `k` rows, a sum over the
    /// variables is the sum over those rows of the terms of their basic
    /// variables.
    proof fn lemma_sum_at_vertex(self, a: spec_fn(int) -> real, k: int)
        requires
            self.wf(),
            self.basis.no_duplicates(),
            0 <= k <= self.m(),
        ensures
            sum(
                |v: int|
                    a(v) * match basic_row(self.basis.take(k), v) {
                        Some(i) => self.rhs(i).val(),
                        None => 0real,
                    },
                self.vars(),
            ) == sum(|i: int| a(self.basis[i] as int) * self.rhs(i).val(), k),
        decreases k,
    {
        let n = self.vars();
        let at = |v: int|
            a(v) * match basic_row(self.basis.take(k), v) {
                Some(i) => self.rhs(i).val(),
                None => 0real,
            };
        if k == 0 {
            let zero = |v: int| 0real;
            assert forall|v: int| 0 <= v < n implies #[trigger] at(v) == zero(v) by {
                assert(self.basis.take(0).len() == 0);
                let y = a(v);
                assert(y * 0real == 0real) by (nonlinear_arith);
            }
            lemma_sum_equal(at, zero, n);
            lemma_sum_zero(n);
        } else {
            self.lemma_sum_at_vertex(a, k - 1);
            let before = |v: int|
                a(v) * match basic_row(self.basis.take(k - 1), v) {
                    Some(i) => self.rhs(i).val(),
                    None => 0real,
                };
            let entering = self.basis[k - 1] as int;
            assert(self.basis.take(k).drop_last() =~= self.basis.take(k - 1));
            assert(self.basis.take(k).last() == self.basis[k - 1]);
            assert forall|v: int| 0 <= v < n && v != entering implies #[trigger] at(v) == before(
                v,
            ) by {}
            // The variable of row k - 1 is basic in no earlier row.
            lemma_basic_row(self.basis.take(k - 1), entering);
            assert(basic_row(self.basis.take(k - 1), entering).is_none()) by {
                if basic_row(self.basis.take(k - 1), entering) is Some {
                    let i = basic_row(self.basis.take(k - 1), entering).unwrap();
                    assert(self.basis[i] == self.basis[k - 1]);
                }
            }
            let y = a(entering);
            assert(y * 0real == 0real) by (nonlinear_arith);
            assert(before(entering) == 0real);
            assert(at(entering) == a(entering) * self.rhs(k - 1).val());
            lemma_sum_replace(before, at, entering, n);
        }
    }

    /// Where the columns of the basic variables form an identity, no
    /// variable is basic in two rows.
    pub proof fn lemma_identity_no_duplicates(self)
        requires
            self.wf(),
            self.basis_is_identity(),
        ensures
            self.basis.no_duplicates(),
    {
        assert forall|i: int, j: int|
            0 <= i < self.basis.len() && 0 <= j < self.basis.len() && i != j implies self.basis[i]
            != self.basis[j] by {
            if self.basis[i] == self.basis[j] && i < self.m() && j < self.m() {
                assert(self.rows[i][self.basis[i] as int].val() == 1real);
                assert(self.rows[i][self.basis[j] as int].val() == 0real);
            }
        }
    }

    /// The basic solution of a canonical tableau solves the constraint
    /// system, and costs the costs of the basic variables times their
    /// right-hand sides; where the tableau is feasible, no variable of it
    /// is negative.
    pub proof fn lemma_vertex_point(self, c: Seq<T>)
        requires
            self.wf(),
            self.basis_is_identity(),
        ensures
            self.solves(self.vertex_point()),
            self.cost_at(c, self.vertex_point()) == sum(
                |i: int| c[self.basis[i] as int].val() * self.rhs(i).val(),
                self.m() as int,
            ),
            self.is_feasible() ==> forall|j: int|
                0 <= j < self.vars() ==> #[trigger] self.vertex_point()[j] >= 0real,
    {
        let n = self.vars();
        let m = self.m() as int;
        let x = self.vertex_point();
        self.lemma_identity_no_duplicates();
        assert(self.basis.take(m) =~= self.basis);
        let at_vertex = |a: spec_fn(int) -> real|
            |v: int|
                a(v) * match basic_row(self.basis.take(m), v) {
                    Some(i) => self.rhs(i).val(),
                    None => 0real,
                };
        assert forall|i: int| 0 <= i < self.m() implies #[trigger] self.row_at(i, x) == self.rhs(
            i,
        ).val() by {
            let a = |j: int| self.rows[i][j].val();
            self.lemma_sum_at_vertex(a, m);
            let terms = |j: int| self.rows[i][j].val() * x[j];
            lemma_sum_equal(terms, at_vertex(a), n);
            let basic = |b: int| a(self.basis[b] as int) * self.rhs(b).val();
            assert forall|b: int| 0 <= b < m && b != i implies #[trigger] basic(b) == 0real by {
                assert(self.rows[i][self.basis[b] as int].val() == 0real);
                let y = self.rhs(b).val();
                assert(0real * y == 0real) by (nonlinear_arith);
            }
            lemma_sum_single(basic, i, m);
            assert(self.rows[i][self.basis[i] as int].val() == 1real);
            let y = self.rhs(i).val();
            assert(1real * y == y) by (nonlinear_arith);
        }
        let costs = |j: int| c[j].val();
        self.lemma_sum_at_vertex(costs, m);
        let cost_terms = |j: int| c[j].val() * x[j];
        lemma_sum_equal(cost_terms, at_vertex(costs), n);
        let basic_costs = |i: int| costs(self.basis[i] as int) * self.rhs(i).val();
        let basic_value = |i: int| c[self.basis[i] as int].val() * self.rhs(i).val();
        lemma_sum_equal(basic_costs, basic_value, m);
        if self.is_feasible() {
            assert forall|j: int| 0 <= j < self.vars() implies #[trigger] x[j] >= 0real by {
                lemma_basic_row(self.basis, j);
            }
        }
    }
}

} // verus!
