//! The pivot engine: the rules that choose the entering column and the
//! leaving row, and the Gauss-Jordan pivot itself.

use crate::elementwise::broadcast_req;
use crate::elementwise::broadcast_spec;
use crate::elementwise::scaled_req;
use crate::elementwise::scaled_spec;
use crate::elementwise::Op;
use crate::matrix_operations::lemma_sum_replace;
use crate::matrix_operations::lemma_sum_sub_scaled;
use crate::matrix_operations::sum;
use crate::scalar::Scalar;
use crate::tableau::Tableau;
use crate::tableau::TableauView;
use vstd::prelude::*;

verus! {

/// What the search for a pivot found.
#[derive(Clone, Copy, Debug, PartialEq, Eq, Structural)]
pub enum PivotResult {
    /// No reduced cost is negative: the basis is optimal.
    Optimal,
    /// The entering column has no positive entry: the problem is unbounded.
    Unbounded,
    /// Pivot on this row and this column.
    Pivot(usize, usize),
}

/// Whether `j` is the column of the most negative number in `costs`, and the
/// first such column.
pub open spec fn is_most_negative(costs: Seq<real>, j: int) -> bool {
    &&& 0 <= j < costs.len()
    &&& costs[j] < 0real
    &&& forall|i: int| 0 <= i < costs.len() ==> costs[j] <= #[trigger] costs[i]
    &&& forall|i: int| 0 <= i < j ==> costs[j] < #[trigger] costs[i]
}

/// Whether `j` is the first column with a negative number in `costs`.
pub open spec fn is_first_negative(costs: Seq<real>, j: int) -> bool {
    &&& 0 <= j < costs.len()
    &&& costs[j] < 0real
    &&& forall|i: int| 0 <= i < j ==> #[trigger] costs[i] >= 0real
}

/// The column that Dantzig's rule picks: the most negative reduced cost, the
/// first of them on a tie; none where no reduced cost is negative.
pub open spec fn most_negative(costs: Seq<real>) -> Option<usize> {
    if exists|j: int| is_most_negative(costs, j) {
        Some((choose|j: int| is_most_negative(costs, j)) as usize)
    } else {
        None
    }
}

/// The column that Bland's rule picks: the first negative reduced cost; none
/// where no reduced cost is negative.
pub open spec fn first_negative(costs: Seq<real>) -> Option<usize> {
    if exists|j: int| is_first_negative(costs, j) {
        Some((choose|j: int| is_first_negative(costs, j)) as usize)
    } else {
        None
    }
}

/// Dantzig's rule picks at most one column.
pub proof fn lemma_most_negative_unique(costs: Seq<real>, j: int)
    requires
        is_most_negative(costs, j),
        j <= usize::MAX,
    ensures
        most_negative(costs) == Some(j as usize),
{
    let k = choose|k: int| is_most_negative(costs, k);
    if k < j {
        assert(costs[j] < costs[k]);
        assert(costs[k] <= costs[j]);
    } else if j < k {
        assert(costs[k] < costs[j]);
        assert(costs[j] <= costs[k]);
    }
}

/// Bland's rule picks at most one column.
pub proof fn lemma_first_negative_unique(costs: Seq<real>, j: int)
    requires
        is_first_negative(costs, j),
        j <= usize::MAX,
    ensures
        first_negative(costs) == Some(j as usize),
{
    let k = choose|k: int| is_first_negative(costs, k);
    if k < j {
        assert(costs[k] >= 0real);
    } else if j < k {
        assert(costs[j] >= 0real);
    }
}

/// Either rule finds a column exactly where some reduced cost is negative.
pub proof fn lemma_no_negative(costs: Seq<real>)
    ensures
        first_negative(costs).is_none() <==> (forall|j: int|
            0 <= j < costs.len() ==> #[trigger] costs[j] >= 0real),
        most_negative(costs).is_none() <==> first_negative(costs).is_none(),
{
    if exists|j: int| is_first_negative(costs, j) {
        let j = choose|j: int| is_first_negative(costs, j);
        assert(costs[j] < 0real);
        lemma_has_most_negative(costs, costs.len() as int);
    } else {
        lemma_has_first_negative(costs, costs.len() as int);
        assert forall|j: int| 0 <= j < costs.len() implies #[trigger] costs[j] >= 0real by {
            if costs[j] < 0real {
                assert(exists|k: int| 0 <= k < costs.len() && #[trigger] costs[k] < 0real);
            }
        }
        if exists|j: int| is_most_negative(costs, j) {
            let j = choose|j: int| is_most_negative(costs, j);
            assert(costs[j] >= 0real);
        }
    }
}

/// Among the first `n` numbers, if one is negative there is a first.
proof fn lemma_has_first_negative(costs: Seq<real>, n: int)
    requires
        0 <= n <= costs.len(),
    ensures
        (exists|k: int| 0 <= k < n && #[trigger] costs[k] < 0real) ==> exists|j: int|
            is_first_negative(costs, j),
    decreases n,
{
    if n > 0 {
        lemma_has_first_negative(costs, n - 1);
        if !(exists|k: int| 0 <= k < n - 1 && #[trigger] costs[k] < 0real) {
            if costs[n - 1] < 0real {
                assert(is_first_negative(costs, n - 1));
            }
        }
    }
}

/// The position among the first `n` numbers of their least, the first on a
/// tie.
spec fn least_position(costs: Seq<real>, n: int) -> int
    decreases n,
{
    if n <= 1 {
        0
    } else {
        let j = least_position(costs, n - 1);
        if costs[n - 1] < costs[j] {
            n - 1
        } else {
            j
        }
    }
}

proof fn lemma_least_position(costs: Seq<real>, n: int)
    requires
        1 <= n <= costs.len(),
    ensures
        0 <= least_position(costs, n) < n,
        forall|i: int| 0 <= i < n ==> costs[least_position(costs, n)] <= #[trigger] costs[i],
        forall|i: int|
            0 <= i < least_position(costs, n) ==> costs[least_position(costs, n)]
                < #[trigger] costs[i],
    decreases n,
{
    if n > 1 {
        lemma_least_position(costs, n - 1);
    }
}

/// If some number is negative, the least of them all is the most negative.
proof fn lemma_has_most_negative(costs: Seq<real>, n: int)
    requires
        n == costs.len(),
        exists|k: int| 0 <= k < n && #[trigger] costs[k] < 0real,
    ensures
        exists|j: int| is_most_negative(costs, j),
{
    lemma_least_position(costs, n);
    let j = least_position(costs, n);
    let k = choose|k: int| 0 <= k < n && #[trigger] costs[k] < 0real;
    assert(costs[j] <= costs[k]);
    assert(is_most_negative(costs, j));
}

impl<T: Scalar> TableauView<T> {
    /// The numbers that the reduced costs stand for: the objective row
    /// without its right-hand side.
    pub open spec fn costs(self) -> Seq<real> {
        Seq::new(self.n + self.m(), |j: int| self.z[j].val())
    }

    /// The right-hand side of row `i`.
    pub open spec fn rhs(self, i: int) -> T {
        self.rows[i][(self.n + self.m()) as int]
    }

    /// The ratio of row `i` for the entering column `k`: the right-hand side
    /// over the entry in that column.
    pub open spec fn ratio(self, i: int, k: int) -> real {
        self.rhs(i).val() / self.rows[i][k].val()
    }

    /// Whether the ratio test on column `k` can be computed: the ratio of
    /// every row with a positive entry can.
    pub open spec fn ratio_req(self, k: int) -> bool {
        forall|i: int|
            0 <= i < self.m() && (#[trigger] self.rows[i])[k].val() > 0real ==> self.rhs(
                i,
            ).div_req(self.rows[i][k])
    }

    /// Whether row `i` wins the ratio test on column `k`: its entry is
    /// positive and its ratio is the least, the first on a tie.
    pub open spec fn is_ratio_row(self, k: int, i: int) -> bool {
        &&& 0 <= i < self.m()
        &&& self.rows[i][k].val() > 0real
        &&& forall|j: int|
            0 <= j < self.m() && (#[trigger] self.rows[j])[k].val() > 0real ==> self.ratio(i, k)
                <= self.ratio(j, k)
        &&& forall|j: int|
            0 <= j < i && (#[trigger] self.rows[j])[k].val() > 0real ==> self.ratio(i, k)
                < self.ratio(j, k)
    }

    /// The leaving row for the entering column `k`; none where the column
    /// has no positive entry.
    pub open spec fn ratio_row(self, k: int) -> Option<usize> {
        if exists|i: int| self.is_ratio_row(k, i) {
            Some((choose|i: int| self.is_ratio_row(k, i)) as usize)
        } else {
            None
        }
    }

    /// The ratio test picks at most one row.
    pub proof fn lemma_ratio_row_unique(self, k: int, i: int)
        requires
            self.is_ratio_row(k, i),
            i <= usize::MAX,
        ensures
            self.ratio_row(k) == Some(i as usize),
    {
        let j = choose|j: int| self.is_ratio_row(k, j);
        if j < i {
            assert(self.rows[j][k].val() > 0real);
            assert(self.ratio(i, k) < self.ratio(j, k));
            assert(self.rows[i][k].val() > 0real);
            assert(self.ratio(j, k) <= self.ratio(i, k));
        } else if i < j {
            assert(self.rows[i][k].val() > 0real);
            assert(self.ratio(j, k) < self.ratio(i, k));
            assert(self.rows[j][k].val() > 0real);
            assert(self.ratio(i, k) <= self.ratio(j, k));
        }
    }

    /// The inverse of the pivot element.
    pub open spec fn pivot_inverse(self, r: int, k: int) -> T {
        T::one_spec().div_spec(self.rows[r][k])
    }

    /// The pivot row after it is scaled by the inverse of the pivot element.
    pub open spec fn pivot_row(self, r: int, k: int) -> Seq<T> {
        broadcast_spec(Op::Mul, self.rows[r], self.pivot_inverse(r, k))
    }

    /// Whether the pivot on row `r` and column `k` can be computed: the
    /// pivot element can be inverted, the pivot row scaled, and the scaled
    /// row taken off every other row and off the objective row.
    pub open spec fn pivot_req(self, r: int, k: int) -> bool {
        &&& T::one_spec().div_req(self.rows[r][k])
        &&& broadcast_req(Op::Mul, self.rows[r], self.pivot_inverse(r, k))
        &&& forall|i: int|
            0 <= i < self.m() && i != r ==> scaled_req(
                #[trigger] self.rows[i],
                self.pivot_row(r, k),
                self.rows[i][k],
            )
        &&& scaled_req(self.z, self.pivot_row(r, k), self.z[k])
    }

    /// The tableau after the pivot on row `r` and column `k`: row `r` is
    /// scaled to a 1 in column `k`; its multiple is taken off every other row
    /// and off the objective row to clear that column; variable `k` enters
    /// the basis in row `r`, and the variable that was basic there takes its
    /// place among the nonbasic ones.
    pub open spec fn pivot(self, r: int, k: int) -> TableauView<T> {
        TableauView {
            n: self.n,
            rows: Seq::new(
                self.m(),
                |i: int|
                    if i == r {
                        self.pivot_row(r, k)
                    } else {
                        scaled_spec(self.rows[i], self.pivot_row(r, k), self.rows[i][k])
                    },
            ),
            z: scaled_spec(self.z, self.pivot_row(r, k), self.z[k]),
            basis: self.basis.update(r, k as usize),
            nonbasis: Seq::new(
                self.nonbasis.len(),
                |i: int|
                    if self.nonbasis[i] == k {
                        self.basis[r]
                    } else {
                        self.nonbasis[i]
                    },
            ),
        }
    }

    /// What a pivot does to the numbers: with the pivot element `p`, row `r`
    /// becomes itself over `p`, and every other row and the objective row
    /// lose their entry in the pivot column times the new row `r`.
    pub proof fn lemma_pivot_values(self, r: int, k: int)
        requires
            self.wf(),
            0 <= r < self.m(),
            0 <= k < self.width(),
            self.pivot_req(r, k),
        ensures
            self.rows[r][k].val() != 0real,
            forall|j: int|
                0 <= j < self.width() ==> (#[trigger] self.pivot(r, k).rows[r][j]).val()
                    == self.rows[r][j].val() / self.rows[r][k].val(),
            forall|i: int, j: int|
                0 <= i < self.m() && i != r && 0 <= j < self.width() ==> (
                #[trigger] self.pivot(r, k).rows[i][j]).val() == self.rows[i][j].val()
                    - self.rows[i][k].val() * (self.rows[r][j].val() / self.rows[r][k].val()),
            forall|j: int|
                0 <= j < self.width() ==> (#[trigger] self.pivot(r, k).z[j]).val()
                    == self.z[j].val() - self.z[k].val() * (self.rows[r][j].val()
                    / self.rows[r][k].val()),
    {
        let p = self.rows[r][k];
        let inv = self.pivot_inverse(r, k);
        let row = self.pivot_row(r, k);
        T::lemma_constants();
        T::one_spec().lemma_div(p);
        assert(self.rows[r].len() == self.width());
        assert forall|j: int| 0 <= j < self.width() implies (#[trigger] row[j]).val()
            == self.rows[r][j].val() / p.val() by {
            self.rows[r][j].lemma_mul(inv);
            let (x, pv) = (self.rows[r][j].val(), p.val());
            assert(x * (1real / pv) == x / pv) by (nonlinear_arith)
                requires
                    pv != 0real,
            ;
        }
        assert forall|i: int, j: int|
            0 <= i < self.m() && i != r && 0 <= j < self.width() implies (
        #[trigger] self.pivot(r, k).rows[i][j]).val() == self.rows[i][j].val()
            - self.rows[i][k].val() * (self.rows[r][j].val() / p.val()) by {
            assert(self.rows[i].len() == self.width());
            let f = self.rows[i][k];
            row[j].lemma_mul(f);
            self.rows[i][j].lemma_sub(row[j].mul_spec(f));
            let (x, y) = (row[j].val(), f.val());
            assert(x * y == y * x) by (nonlinear_arith);
        }
        assert forall|j: int| 0 <= j < self.width() implies (#[trigger] self.pivot(r, k).z[j]).val()
            == self.z[j].val() - self.z[k].val() * (self.rows[r][j].val() / p.val()) by {
            let f = self.z[k];
            row[j].lemma_mul(f);
            self.z[j].lemma_sub(row[j].mul_spec(f));
            let (x, y) = (row[j].val(), f.val());
            assert(x * y == y * x) by (nonlinear_arith);
        }
    }

    /// After a pivot, the pivot column is a unit vector: 1 in the pivot row,
    /// 0 in every other row and in the objective row.
    pub proof fn lemma_pivot_unit_column(self, r: int, k: int)
        requires
            self.wf(),
            0 <= r < self.m(),
            0 <= k < self.n + self.m(),
            self.pivot_req(r, k),
        ensures
            self.pivot(r, k).wf(),
            forall|i: int|
                0 <= i < self.m() ==> (#[trigger] self.pivot(r, k).rows[i])[k].val() == if i == r {
                    1real
                } else {
                    0real
                },
            self.pivot(r, k).z[k].val() == 0real,
    {
        let p = self.rows[r][k];
        let inv = self.pivot_inverse(r, k);
        let row = self.pivot_row(r, k);
        let after = self.pivot(r, k);
        assert(self.rows[r].len() == self.width());
        assert forall|i: int| 0 <= i < after.m() implies (#[trigger] after.rows[i]).len()
            == after.width() by {
            assert(self.rows[i].len() == self.width());
        }
        assert forall|i: int| 0 <= i < after.m() implies (#[trigger] after.basis[i]) < after.n
            + after.m() by {
            if i != r {
                assert(after.basis[i] == self.basis[i]);
            }
        }
        T::lemma_constants();
        T::one_spec().lemma_div(p);
        p.lemma_mul(inv);
        let pv = p.val();
        assert(row[k].val() == 1real) by (nonlinear_arith)
            requires
                row[k].val() == pv * inv.val(),
                inv.val() == 1real / pv,
                pv != 0real,
        ;
        assert forall|i: int| 0 <= i < self.m() implies (#[trigger] self.pivot(r, k).rows[i])[k].val()
            == if i == r {
            1real
        } else {
            0real
        } by {
            if i != r {
                let f = self.rows[i][k];
                assert(self.rows[i].len() == self.width());
                row[k].lemma_mul(f);
                f.lemma_sub(row[k].mul_spec(f));
                let fv = f.val();
                assert(fv - 1real * fv == 0real) by (nonlinear_arith);
            }
        }
        let f = self.z[k];
        row[k].lemma_mul(f);
        f.lemma_sub(row[k].mul_spec(f));
        let fv = f.val();
        assert(fv - 1real * fv == 0real) by (nonlinear_arith);
    }
}

impl<T: Scalar> TableauView<T> {
    /// Whether the columns of the basic variables form an identity: the
    /// column of the variable that is basic in row `i` has 1 in row `i` and 0
    /// in every other row.
    pub open spec fn basis_is_identity(self) -> bool {
        forall|i: int, j: int|
            0 <= i < self.m() && 0 <= j < self.m() ==> (#[trigger] self.rows[j])[(
            #[trigger] self.basis[i]) as int].val() == if i == j {
                1real
            } else {
                0real
            }
    }

    /// Whether the reduced cost of every basic variable is zero.
    pub open spec fn basic_costs_are_zero(self) -> bool {
        forall|i: int| 0 <= i < self.m() ==> self.z[(#[trigger] self.basis[i]) as int].val() == 0real
    }

    /// Whether the basic solution is feasible: no right-hand side is
    /// negative.
    pub open spec fn is_feasible(self) -> bool {
        forall|i: int| 0 <= i < self.m() ==> (#[trigger] self.rhs(i)).val() >= 0real
    }

    /// A pivot keeps the tableau in canonical form: where the columns of
    /// the basic variables formed an identity and their reduced costs were
    /// zero, they do so for the new basis.
    pub proof fn lemma_pivot_keeps_canonical(self, r: int, k: int)
        requires
            self.wf(),
            0 <= r < self.m(),
            0 <= k < self.n + self.m(),
            self.n + self.m() <= usize::MAX,
            self.pivot_req(r, k),
            self.basis_is_identity(),
            self.basic_costs_are_zero(),
        ensures
            self.pivot(r, k).basis_is_identity(),
            self.pivot(r, k).basic_costs_are_zero(),
    {
        let after = self.pivot(r, k);
        self.lemma_pivot_values(r, k);
        self.lemma_pivot_unit_column(r, k);
        let p = self.rows[r][k].val();
        assert forall|i: int, j: int| 0 <= i < after.m() && 0 <= j < after.m() implies (
        #[trigger] after.rows[j])[(#[trigger] after.basis[i]) as int].val() == if i == j {
            1real
        } else {
            0real
        } by {
            if i != r {
                // The column of a variable that stays basic has 0 in the
                // pivot row, so the pivot leaves it as it is.
                let v = self.basis[i] as int;
                assert(after.basis[i] == self.basis[i]);
                assert(self.rows[r][v].val() == 0real);
                assert(self.rows[j][v].val() == if i == j {
                    1real
                } else {
                    0real
                });
                let x = self.rows[j][k].val();
                assert(0real / p == 0real && x * 0real == 0real) by (nonlinear_arith)
                    requires
                        p != 0real,
                ;
                if j == r {
                    assert(after.rows[r][v].val() == self.rows[r][v].val() / p);
                } else {
                    assert(after.rows[j][v].val() == self.rows[j][v].val() - x * (
                    self.rows[r][v].val() / p));
                }
            }
        }
        assert forall|i: int| 0 <= i < after.m() implies after.z[(
        #[trigger] after.basis[i]) as int].val() == 0real by {
            if i != r {
                let v = self.basis[i] as int;
                assert(after.basis[i] == self.basis[i]);
                assert(self.rows[r][v].val() == 0real);
                assert(self.z[v].val() == 0real);
                let x = self.z[k].val();
                assert(0real / p == 0real && x * 0real == 0real) by (nonlinear_arith)
                    requires
                        p != 0real,
                ;
                assert(after.z[v].val() == self.z[v].val() - x * (self.rows[r][v].val() / p));
            }
        }
    }

    /// A pivot on the row that the ratio test picks keeps the basic
    /// solution feasible.
    pub proof fn lemma_pivot_keeps_feasible(self, r: int, k: int)
        requires
            self.wf(),
            0 <= k < self.n + self.m(),
            self.pivot_req(r, k),
            self.is_feasible(),
            self.is_ratio_row(k, r),
        ensures
            self.pivot(r, k).is_feasible(),
    {
        let after = self.pivot(r, k);
        self.lemma_pivot_values(r, k);
        let last = (self.n + self.m()) as int;
        let p = self.rows[r][k].val();
        let b = self.rhs(r).val();
        assert(b / p >= 0real) by (nonlinear_arith)
            requires
                b >= 0real,
                p > 0real,
        ;
        assert forall|i: int| 0 <= i < after.m() implies (#[trigger] after.rhs(i)).val()
            >= 0real by {
            assert(self.rows[i].len() == self.width());
            if i == r {
                assert(after.rows[r][last].val() == self.rows[r][last].val() / p);
            } else {
                let a = self.rows[i][k].val();
                let bi = self.rhs(i).val();
                assert(after.rows[i][last].val() == self.rows[i][last].val() - a * (
                self.rows[r][last].val() / p));
                if a > 0real {
                    assert(self.ratio(r, k) <= self.ratio(i, k));
                    assert(bi - a * (b / p) >= 0real) by (nonlinear_arith)
                        requires
                            b / p <= bi / a,
                            a > 0real,
                    ;
                } else {
                    assert(bi - a * (b / p) >= 0real) by (nonlinear_arith)
                        requires
                            b / p >= 0real,
                            a <= 0real,
                            bi >= 0real,
                    ;
                }
            }
        }
    }

    /// A pivot on a column with a negative reduced cost, from a feasible
    /// row with a positive pivot element, does not lower the value of the
    /// objective row.
    pub proof fn lemma_pivot_raises_value(self, r: int, k: int)
        requires
            self.wf(),
            0 <= r < self.m(),
            0 <= k < self.n + self.m(),
            self.pivot_req(r, k),
            self.z[k].val() < 0real,
            self.rows[r][k].val() > 0real,
            self.rhs(r).val() >= 0real,
        ensures
            self.pivot(r, k).objective_value().val() >= self.objective_value().val(),
    {
        self.lemma_pivot_values(r, k);
        let last = (self.n + self.m()) as int;
        let (p, b, c) = (self.rows[r][k].val(), self.rhs(r).val(), self.z[k].val());
        assert(self.pivot(r, k).z[last].val() == self.z[last].val() - c * (
        self.rows[r][last].val() / p));
        assert(c * (b / p) <= 0real) by (nonlinear_arith)
            requires
                c < 0real,
                b >= 0real,
                p > 0real,
        ;
    }

    /// The objective `c` at the current basis, in column `j`: the costs of
    /// the basic variables times their rows' entries in that column, summed
    /// over the rows.
    pub open spec fn basic_cost_of_column(self, c: Seq<T>, j: int) -> real {
        sum(|i: int| c[self.basis[i] as int].val() * self.rows[i][j].val(), self.m() as int)
    }

    /// Whether the objective row is the objective `c` reduced at the
    /// current basis: in every column, `c` less the costs of the basic
    /// variables times the column. In the last column this says that the
    /// value of the objective row is the constant of `c` less the value of
    /// `c` at the basic solution.
    pub open spec fn objective_is_reduced(self, c: Seq<T>) -> bool {
        forall|j: int|
            0 <= j < self.width() ==> (#[trigger] self.z[j]).val() == c[j].val()
                - self.basic_cost_of_column(c, j)
    }

    /// A pivot keeps the objective row the reduced objective: where it was
    /// the objective `c` reduced at the old basis, it is `c` reduced at the
    /// new one.
    pub proof fn lemma_pivot_keeps_objective_reduced(self, c: Seq<T>, r: int, k: int)
        requires
            self.wf(),
            0 <= r < self.m(),
            0 <= k < self.n + self.m(),
            self.n + self.m() <= usize::MAX,
            self.pivot_req(r, k),
            c.len() == self.width(),
            self.objective_is_reduced(c),
        ensures
            self.pivot(r, k).objective_is_reduced(c),
    {
        let after = self.pivot(r, k);
        let m = self.m() as int;
        self.lemma_pivot_values(r, k);
        let p = self.rows[r][k].val();
        let g = |i: int| c[self.basis[i] as int].val() * self.rows[i][k].val();
        assert(self.z[k].val() == c[k].val() - sum(g, m));
        assert forall|j: int| 0 <= j < after.width() implies (#[trigger] after.z[j]).val() == c[j].val()
            - after.basic_cost_of_column(c, j) by {
            let s = self.rows[r][j].val() / p;
            let f = |i: int| c[self.basis[i] as int].val() * self.rows[i][j].val();
            let f2 = |i: int| c[after.basis[i] as int].val() * after.rows[i][j].val();
            let h = |i: int| f(i) - s * g(i);
            assert(self.z[j].val() == c[j].val() - sum(f, m));
            assert(after.z[j].val() == self.z[j].val() - self.z[k].val() * s);
            lemma_sum_sub_scaled(f, g, s, m);
            assert forall|i: int| 0 <= i < m && i != r implies #[trigger] f2(i) == h(i) by {
                assert(after.basis[i] == self.basis[i]);
                let (w, a, b) = (
                    c[self.basis[i] as int].val(),
                    self.rows[i][j].val(),
                    self.rows[i][k].val(),
                );
                assert(after.rows[i][j].val() == a - b * s);
                assert(w * (a - b * s) == w * a - s * (w * b)) by (nonlinear_arith);
            }
            lemma_sum_replace(h, f2, r, m);
            // In the pivot row the two parts of `h` cancel.
            let (w, a) = (c[self.basis[r] as int].val(), self.rows[r][j].val());
            assert(w * a - s * (w * p) == 0real) by (nonlinear_arith)
                requires
                    s == a / p,
                    p != 0real,
            ;
            assert(h(r) == 0real);
            assert(after.rows[r][j].val() == s);
            assert(f2(r) == c[k].val() * s);
            let (x, y, zk) = (sum(f, m), sum(g, m), c[k].val());
            assert((c[j].val() - x) - (zk - y) * s == c[j].val() - (x - s * y + zk * s))
                by (nonlinear_arith);
        }
    }

    /// The pivot of one simplex step, on the row that the ratio test picks
    /// for column `k`, keeps the tableau canonical and feasible; and where
    /// the reduced cost of column `k` is negative, it does not lower the
    /// value of the objective row.
    pub proof fn lemma_ratio_pivot(self, k: int)
        requires
            self.wf(),
            self.n + self.m() <= usize::MAX,
            0 <= k < self.n + self.m(),
            self.ratio_row(k) matches Some(r) && self.pivot_req(r as int, k),
            self.basis_is_identity(),
            self.basic_costs_are_zero(),
            self.is_feasible(),
        ensures
            self.pivot(self.ratio_row(k).unwrap() as int, k).basis_is_identity(),
            self.pivot(self.ratio_row(k).unwrap() as int, k).basic_costs_are_zero(),
            self.pivot(self.ratio_row(k).unwrap() as int, k).is_feasible(),
            self.z[k].val() < 0real ==> self.pivot(
                self.ratio_row(k).unwrap() as int,
                k,
            ).objective_value().val() >= self.objective_value().val(),
    {
        let r = choose|i: int| self.is_ratio_row(k, i);
        assert(self.is_ratio_row(k, r));
        self.lemma_pivot_keeps_canonical(r, k);
        self.lemma_pivot_keeps_feasible(r, k);
        if self.z[k].val() < 0real {
            self.lemma_pivot_raises_value(r, k);
        }
    }

    /// A pivot that brings a nonbasic variable into the basis keeps the
    /// basic and the nonbasic variables a partition of all variables.
    pub proof fn lemma_pivot_partition(self, r: int, k: int)
        requires
            self.wf(),
            self.partitioned(),
            self.n + self.m() <= usize::MAX,
            0 <= r < self.m(),
            0 <= k < self.n + self.m(),
            self.nonbasis.contains(k as usize),
        ensures
            self.pivot(r, k).partitioned(),
    {
        let after = self.pivot(r, k);
        let entering = k as usize;
        let leaving = self.basis[r];
        assert(self.basis.contains(leaving));
        assert(after.basis.no_duplicates()) by {
            assert forall|i: int, j: int|
                0 <= i < after.basis.len() && 0 <= j < after.basis.len() && i != j implies after.basis[i]
                != after.basis[j] by {
                if i == r {
                    assert(self.basis.contains(self.basis[j]));
                } else if j == r {
                    assert(self.basis.contains(self.basis[i]));
                }
            }
        }
        assert(after.nonbasis.no_duplicates()) by {
            assert forall|i: int, j: int|
                0 <= i < after.nonbasis.len() && 0 <= j < after.nonbasis.len() && i
                    != j implies after.nonbasis[i] != after.nonbasis[j] by {
                assert(self.nonbasis.contains(self.nonbasis[i]));
                assert(self.nonbasis.contains(self.nonbasis[j]));
            }
        }
        assert forall|v: usize|
            (after.basis.contains(v) || after.nonbasis.contains(v)) <==> v < after.n
                + after.m() by {
            if after.basis.contains(v) {
                let i = choose|i: int| 0 <= i < after.basis.len() && after.basis[i] == v;
                if i != r {
                    assert(self.basis.contains(self.basis[i]));
                }
            }
            if after.nonbasis.contains(v) {
                let i = choose|i: int| 0 <= i < after.nonbasis.len() && after.nonbasis[i] == v;
                assert(self.nonbasis.contains(self.nonbasis[i]));
            }
            if v < after.n + after.m() {
                if v == entering {
                    assert(after.basis[r] == v);
                } else if v == leaving {
                    let i = choose|i: int|
                        0 <= i < self.nonbasis.len() && self.nonbasis[i] == entering;
                    assert(after.nonbasis[i] == v);
                } else if self.basis.contains(v) {
                    let i = choose|i: int| 0 <= i < self.basis.len() && self.basis[i] == v;
                    assert(after.basis[i] == v);
                } else {
                    assert(self.nonbasis.contains(v));
                    let i = choose|i: int| 0 <= i < self.nonbasis.len() && self.nonbasis[i] == v;
                    assert(after.nonbasis[i] == v);
                }
            }
        }
        assert forall|v: usize| !(after.basis.contains(v) && after.nonbasis.contains(v)) by {
            if after.basis.contains(v) && after.nonbasis.contains(v) {
                let i = choose|i: int| 0 <= i < after.basis.len() && after.basis[i] == v;
                let j = choose|j: int| 0 <= j < after.nonbasis.len() && after.nonbasis[j] == v;
                assert(self.nonbasis.contains(self.nonbasis[j]));
                if i != r {
                    assert(self.basis.contains(self.basis[i]));
                    if self.nonbasis[j] == entering {
                        let i2 = i;
                        assert(self.basis[i2] == leaving && self.basis[r] == leaving);
                    }
                }
            }
        }
    }
}

/// The row, if any, in which variable `v` is basic; the last one where a
/// basis names it more than once.
pub open spec fn basic_row(basis: Seq<usize>, v: int) -> Option<int>
    decreases basis.len(),
{
    if basis.len() == 0 {
        None
    } else if basis.last() == v {
        Some(basis.len() - 1)
    } else {
        basic_row(basis.drop_last(), v)
    }
}

/// A row that `basic_row` names is a row of the basis.
pub proof fn lemma_basic_row(basis: Seq<usize>, v: int)
    ensures
        basic_row(basis, v) matches Some(i) ==> 0 <= i < basis.len() && basis[i] == v,
    decreases basis.len(),
{
    if basis.len() > 0 && basis.last() != v {
        lemma_basic_row(basis.drop_last(), v);
    }
}

impl<T: Scalar> TableauView<T> {
    /// The current vertex over the first `n_vars` variables: a basic
    /// variable has the right-hand side of its row, every other is zero.
    pub open spec fn vertex(self, n_vars: nat) -> Seq<T> {
        Seq::new(
            n_vars,
            |v: int|
                match basic_row(self.basis, v) {
                    Some(i) => self.rhs(i),
                    None => T::zero_spec(),
                },
        )
    }

    /// What Dantzig's rule and the ratio test find.
    pub open spec fn find_pivot(self) -> PivotResult {
        match most_negative(self.costs()) {
            None => PivotResult::Optimal,
            Some(k) => match self.ratio_row(k as int) {
                None => PivotResult::Unbounded,
                Some(r) => PivotResult::Pivot(r, k),
            },
        }
    }

    /// Whether that search can be computed: the ratio test on the column
    /// that Dantzig's rule picks can.
    pub open spec fn find_pivot_req(self) -> bool {
        most_negative(self.costs()) matches Some(k) ==> self.ratio_req(k as int)
    }

    /// What Bland's rule and the ratio test find.
    pub open spec fn find_pivot_bland(self) -> PivotResult {
        match first_negative(self.costs()) {
            None => PivotResult::Optimal,
            Some(k) => match self.ratio_row(k as int) {
                None => PivotResult::Unbounded,
                Some(r) => PivotResult::Pivot(r, k),
            },
        }
    }

    /// Whether that search can be computed.
    pub open spec fn find_pivot_bland_req(self) -> bool {
        first_negative(self.costs()) matches Some(k) ==> self.ratio_req(k as int)
    }
}

impl<T: Scalar> Tableau<T> {
    /// Dantzig's rule: the column of the most negative reduced cost, the
    /// first on a tie; `None` where no reduced cost is negative.
    pub fn find_pivot_col_most_negative(&self) -> (col: Option<usize>)
        requires
            self.wf(),
        ensures
            col == most_negative(self@.costs()),
            col matches Some(k) ==> k < self@.n + self@.m(),
            col.is_none() <==> (forall|j: int|
                0 <= j < self@.n + self@.m() ==> (#[trigger] self@.z[j]).val() >= 0real),
    {
        let ghost costs = self@.costs();
        let vars = self.cols() - 1;
        let mut best_col: Option<usize> = None;
        let mut min_val = T::zero();
        let mut j: usize = 0;
        while j < vars
            invariant
                self.wf(),
                costs == self@.costs(),
                vars == costs.len(),
                j <= vars,
                best_col.is_none() ==> min_val.val() == 0real && forall|i: int|
                    0 <= i < j ==> #[trigger] costs[i] >= 0real,
                best_col matches Some(b) ==> {
                    &&& b < j
                    &&& costs[b as int] == min_val.val()
                    &&& min_val.val() < 0real
                    &&& forall|i: int| 0 <= i < j ==> costs[b as int] <= #[trigger] costs[i]
                    &&& forall|i: int| 0 <= i < b ==> costs[b as int] < #[trigger] costs[i]
                },
            decreases vars - j,
        {
            let val = self.z_get(j);
            if val.lt(min_val) {
                min_val = val;
                best_col = Some(j);
            }
            j += 1;
        }
        proof {
            lemma_no_negative(costs);
            match best_col {
                Some(b) => {
                    lemma_most_negative_unique(costs, b as int);
                    assert(self@.z[b as int].val() < 0real);
                },
                None => {
                    assert forall|k: int| !is_most_negative(costs, k) by {
                        if is_most_negative(costs, k) {
                            assert(costs[k] >= 0real);
                        }
                    }
                    assert forall|j: int| 0 <= j < self@.n + self@.m() implies (
                    #[trigger] self@.z[j]).val() >= 0real by {
                        assert(costs[j] >= 0real);
                    }
                },
            }
        }
        best_col
    }

    /// Bland's rule: the first column with a negative reduced cost; `None`
    /// where no reduced cost is negative.
    pub fn find_pivot_col_bland(&self) -> (col: Option<usize>)
        requires
            self.wf(),
        ensures
            col == first_negative(self@.costs()),
            col matches Some(k) ==> k < self@.n + self@.m(),
            col.is_none() <==> (forall|j: int|
                0 <= j < self@.n + self@.m() ==> (#[trigger] self@.z[j]).val() >= 0real),
    {
        let ghost costs = self@.costs();
        let vars = self.cols() - 1;
        let zero = T::zero();
        let mut j: usize = 0;
        while j < vars
            invariant
                self.wf(),
                costs == self@.costs(),
                vars == costs.len(),
                j <= vars,
                zero.val() == 0real,
                forall|i: int| 0 <= i < j ==> #[trigger] costs[i] >= 0real,
            decreases vars - j,
        {
            let val = self.z_get(j);
            if val.lt(zero) {
                proof {
                    lemma_first_negative_unique(costs, j as int);
                    assert(self@.z[j as int].val() < 0real);
                }
                return Some(j);
            }
            j += 1;
        }
        proof {
            assert forall|k: int| !is_first_negative(costs, k) by {
                if is_first_negative(costs, k) {
                    assert(costs[k] >= 0real);
                }
            }
            assert forall|j: int| 0 <= j < self@.n + self@.m() implies (#[trigger] self@.z[j]).val()
                >= 0real by {
                assert(costs[j] >= 0real);
            }
        }
        None
    }

    /// Whether the basis is optimal: no reduced cost is negative.
    pub fn is_optimal(&self) -> (b: bool)
        requires
            self.wf(),
        ensures
            b <==> (forall|j: int|
                0 <= j < self@.n + self@.m() ==> (#[trigger] self@.z[j]).val() >= 0real),
    {
        self.find_pivot_col_bland().is_none()
    }

    /// The minimum ratio test: among the rows with a positive entry in
    /// column `col`, the one with the least ratio of right-hand side to that
    /// entry, the first on a tie; `None` where the column has no positive
    /// entry.
    pub fn ratio_test(&self, col: usize) -> (row: Option<usize>)
        requires
            self.wf(),
            col < self@.width(),
            self@.ratio_req(col as int),
        ensures
            row == self@.ratio_row(col as int),
            row matches Some(r) ==> r < self@.m() && self@.rows[r as int][col as int].val()
                > 0real,
            row.is_none() <==> (forall|i: int|
                0 <= i < self@.m() ==> !((#[trigger] self@.rows[i])[col as int].val() > 0real)),
    {
        let ghost view = self@;
        let ghost k = col as int;
        let zero = T::zero();
        let mut best_row: Option<usize> = None;
        let mut min_ratio: Option<T> = None;
        let mut i: usize = 0;
        while i < self.rows()
            invariant
                self.wf(),
                view == self@,
                k == col,
                col < view.width(),
                view.ratio_req(k),
                zero.val() == 0real,
                i <= view.m(),
                best_row.is_none() ==> min_ratio.is_none() && forall|j: int|
                    0 <= j < i ==> !((#[trigger] view.rows[j])[k].val() > 0real),
                best_row matches Some(b) ==> {
                    &&& b < i
                    &&& view.rows[b as int][k].val() > 0real
                    &&& min_ratio matches Some(q) && q.val() == view.ratio(b as int, k)
                    &&& forall|j: int|
                        0 <= j < i && (#[trigger] view.rows[j])[k].val() > 0real ==> view.ratio(
                            b as int,
                            k,
                        ) <= view.ratio(j, k)
                    &&& forall|j: int|
                        0 <= j < b && (#[trigger] view.rows[j])[k].val() > 0real ==> view.ratio(
                            b as int,
                            k,
                        ) < view.ratio(j, k)
                },
            decreases view.m() - i,
        {
            let entry = self.get(i, col);
            if zero.lt(entry) {
                proof {
                    assert(view.rows[i as int][k].val() > 0real);
                    assert(view.rhs(i as int) == self.rhs@[i as int]) by {
                        crate::matrix::lemma_row_span(
                            self.coefficients.rows as int,
                            self.coefficients.cols as int,
                            i as int,
                        );
                        crate::matrix::lemma_row_span(
                            self.slack.rows as int,
                            self.slack.cols as int,
                            i as int,
                        );
                    }
                }
                let ratio = self.rhs[i].div(entry);
                let better = match min_ratio {
                    None => true,
                    Some(q) => ratio.lt(q),
                };
                if better {
                    min_ratio = Some(ratio);
                    best_row = Some(i);
                }
            }
            i += 1;
        }
        proof {
            match best_row {
                Some(b) => {
                    view.lemma_ratio_row_unique(k, b as int);
                    assert(view.rows[b as int][k].val() > 0real);
                },
                None => {
                    assert forall|r: int| !view.is_ratio_row(k, r) by {
                        if view.is_ratio_row(k, r) {
                            assert(!(view.rows[r][k].val() > 0real));
                        }
                    }
                },
            }
        }
        best_row
    }

    /// The pivot to make next by Dantzig's rule, or why there is none.
    pub fn find_pivot_indices(&self) -> (found: PivotResult)
        requires
            self.wf(),
            self@.find_pivot_req(),
        ensures
            found == self@.find_pivot(),
            found matches PivotResult::Pivot(r, k) ==> r < self@.m() && k < self@.n + self@.m()
                && self@.rows[r as int][k as int].val() > 0real,
    {
        match self.find_pivot_col_most_negative() {
            None => PivotResult::Optimal,
            Some(k) => match self.ratio_test(k) {
                None => PivotResult::Unbounded,
                Some(r) => PivotResult::Pivot(r, k),
            },
        }
    }

    /// The pivot to make next by Bland's rule, or why there is none.
    pub fn find_pivot_indices_bland(&self) -> (found: PivotResult)
        requires
            self.wf(),
            self@.find_pivot_bland_req(),
        ensures
            found == self@.find_pivot_bland(),
            found matches PivotResult::Pivot(r, k) ==> r < self@.m() && k < self@.n + self@.m()
                && self@.rows[r as int][k as int].val() > 0real,
    {
        match self.find_pivot_col_bland() {
            None => PivotResult::Optimal,
            Some(k) => match self.ratio_test(k) {
                None => PivotResult::Unbounded,
                Some(r) => PivotResult::Pivot(r, k),
            },
        }
    }

    /// The current vertex over the first `n_vars` variables.
    pub fn current_vertex(&self, n_vars: usize) -> (vertex: Vec<T>)
        requires
            self.wf(),
        ensures
            vertex@ == self@.vertex(n_vars as nat),
    {
        let ghost view = self@;
        let mut vertex: Vec<T> = Vec::with_capacity(n_vars);
        let mut v: usize = 0;
        while v < n_vars
            invariant
                v <= n_vars,
                vertex@.len() == v,
                forall|i: int| 0 <= i < v ==> #[trigger] vertex@[i] == T::zero_spec(),
            decreases n_vars - v,
        {
            vertex.push(T::zero());
            v += 1;
        }
        let mut row: usize = 0;
        while row < self.basis.len()
            invariant
                self.wf(),
                view == self@,
                row <= self.basis@.len(),
                vertex@.len() == n_vars,
                forall|v: int|
                    0 <= v < n_vars ==> #[trigger] vertex@[v] == match basic_row(
                        self.basis@.take(row as int),
                        v,
                    ) {
                        Some(i) => self.rhs@[i],
                        None => T::zero_spec(),
                    },
            decreases self.basis@.len() - row,
        {
            let var_idx = self.basis[row];
            proof {
                assert(self.basis@.take(row as int + 1).drop_last() =~= self.basis@.take(
                    row as int,
                ));
            }
            if var_idx < n_vars {
                vertex[var_idx] = self.rhs[row];
            }
            row += 1;
        }
        proof {
            assert(self.basis@.take(row as int) =~= self.basis@);
            assert forall|v: int| 0 <= v < n_vars implies vertex@[v] == view.vertex(
                n_vars as nat,
            )[v] by {
                lemma_basic_row(self.basis@, v);
                match basic_row(self.basis@, v) {
                    Some(i) => {
                        crate::matrix::lemma_row_span(
                            self.coefficients.rows as int,
                            self.coefficients.cols as int,
                            i,
                        );
                        crate::matrix::lemma_row_span(
                            self.slack.rows as int,
                            self.slack.cols as int,
                            i,
                        );
                        assert(view.rhs(i) == self.rhs@[i]);
                    },
                    None => {},
                }
            }
            assert(vertex@ =~= view.vertex(n_vars as nat));
        }
        vertex
    }
}

impl<T: Scalar> Tableau<T> {
    /// The Gauss-Jordan pivot on row `row_idx` and column `col_idx`.
    ///
    /// The pivot row is scaled by the inverse of the pivot element; the
    /// scaled row, times the entry in the pivot column, is taken off every
    /// other row and off the objective row in one fused pass each; the
    /// entering variable becomes basic in the pivot row and the leaving one
    /// nonbasic. Afterwards the pivot column is a unit vector.
    pub fn pivot(&mut self, row_idx: usize, col_idx: usize)
        requires
            old(self).wf(),
            row_idx < old(self)@.m(),
            col_idx < old(self)@.n + old(self)@.m(),
            old(self)@.pivot_req(row_idx as int, col_idx as int),
        ensures
            final(self).wf(),
            final(self)@ == old(self)@.pivot(row_idx as int, col_idx as int),
            forall|i: int|
                0 <= i < final(self)@.m() ==> (#[trigger] final(self)@.rows[i])[col_idx as int].val()
                    == if i == row_idx {
                    1real
                } else {
                    0real
                },
            final(self)@.z[col_idx as int].val() == 0real,
            old(self)@.partitioned() && old(self)@.nonbasis.contains(col_idx)
                ==> final(self)@.partitioned(),
    {
        let ghost before = self@;
        let ghost r = row_idx as int;
        let ghost k = col_idx as int;
        proof {
            self.lemma_view_wf();
            before.lemma_pivot_unit_column(r, k);
            crate::matrix::lemma_row_span(
                self.coefficients.rows as int,
                self.coefficients.cols as int,
                r,
            );
            crate::matrix::lemma_row_span(self.slack.rows as int, self.slack.cols as int, r);
        }
        let z_factor = self.z_get(col_idx);
        let pivot_element = self.get(row_idx, col_idx);
        let inv_pivot = T::one().div(pivot_element);
        let ghost start = *self;
        {
            let mut p_row = self.row_mut(row_idx);
            p_row.broadcast_assign(Op::Mul, inv_pivot);
        }
        proof {
            self.lemma_row_written(
                &start,
                r,
                broadcast_spec(Op::Mul, start.coefficients.row_seq(r), inv_pivot),
                broadcast_spec(Op::Mul, start.slack.row_seq(r), inv_pivot),
                start.rhs@[r].mul_spec(inv_pivot),
            );
            crate::tableau_arithmetic::lemma_broadcast_parts(
                Op::Mul,
                start.coefficients.row_seq(r),
                start.slack.row_seq(r),
                start.rhs@[r],
                inv_pivot,
            );
        }
        let pivot_row = self.row(row_idx);
        let rows = self.rows();
        let mut i: usize = 0;
        while i < rows
            invariant
                self.wf(),
                before.wf(),
                0 <= r < before.m(),
                0 <= k < before.n + before.m(),
                r == row_idx,
                k == col_idx,
                before.pivot_req(r, k),
                rows == before.m(),
                self@.n == before.n,
                self@.m() == before.m(),
                i <= rows,
                pivot_row.flat() == before.pivot_row(r, k),
                pivot_row.coefficients.data@.len() == self.coefficients.cols,
                pivot_row.slack.data@.len() == self.slack.cols,
                self@.rows[r] == before.pivot_row(r, k),
                forall|j: int|
                    0 <= j < i ==> #[trigger] self@.rows[j] == before.pivot(r, k).rows[j],
                forall|j: int| i <= j < rows && j != r ==> #[trigger] self@.rows[j] == before.rows[j],
                self@.z == before.z,
                self@.basis == before.basis,
                self@.nonbasis == before.nonbasis,
            decreases rows - i,
        {
            if i != row_idx {
                let factor = self.get(i, col_idx);
                let ghost prev = *self;
                proof {
                    assert(prev@.rows[i as int] == before.rows[i as int]);
                    crate::matrix::lemma_row_span(
                        prev.coefficients.rows as int,
                        prev.coefficients.cols as int,
                        i as int,
                    );
                    crate::matrix::lemma_row_span(
                        prev.slack.rows as int,
                        prev.slack.cols as int,
                        i as int,
                    );
                    crate::tableau_arithmetic::lemma_scaled_parts(
                        prev.coefficients.row_seq(i as int),
                        prev.slack.row_seq(i as int),
                        prev.rhs@[i as int],
                        pivot_row.coefficients.data@,
                        pivot_row.slack.data@,
                        pivot_row.rhs,
                        factor,
                    );
                }
                {
                    let mut current_row = self.row_mut(i);
                    current_row.sub_assign_scaled(&pivot_row, factor);
                }
                proof {
                    self.lemma_row_written(
                        &prev,
                        i as int,
                        scaled_spec(
                            prev.coefficients.row_seq(i as int),
                            pivot_row.coefficients.data@,
                            factor,
                        ),
                        scaled_spec(prev.slack.row_seq(i as int), pivot_row.slack.data@, factor),
                        prev.rhs@[i as int].sub_spec(pivot_row.rhs.mul_spec(factor)),
                    );
                    assert(self@.rows[i as int] == before.pivot(r, k).rows[i as int]);
                    assert forall|j: int| 0 <= j < i + 1 implies #[trigger] self@.rows[j]
                        == before.pivot(r, k).rows[j] by {
                        if j < i {
                            assert(self@.rows[j] == prev@.rows[j]);
                        }
                    }
                    assert forall|j: int| i + 1 <= j < rows && j != r implies #[trigger] self@.rows[j]
                        == before.rows[j] by {
                        assert(self@.rows[j] == prev@.rows[j]);
                    }
                }
            }
            i += 1;
        }
        let ghost cleared = *self;
        proof {
            crate::tableau_arithmetic::lemma_scaled_parts(
                cleared.z_coeffs@,
                cleared.z_slack@,
                cleared.z_rhs,
                pivot_row.coefficients.data@,
                pivot_row.slack.data@,
                pivot_row.rhs,
                z_factor,
            );
        }
        {
            let mut z_row = self.z_row_mut();
            z_row.sub_assign_scaled(&pivot_row, z_factor);
        }
        assert(self.z_view() == before.pivot(r, k).z);
        assert forall|j: int| 0 <= j < rows implies #[trigger] self.row_view(j)
            == cleared.row_view(j) by {}
        let leaving = self.basis[row_idx];
        self.basis[row_idx] = col_idx;
        let ghost entered = *self;
        let mut j: usize = 0;
        while j < self.nonbasis.len()
            invariant
                self.coefficients == entered.coefficients,
                self.slack == entered.slack,
                self.rhs == entered.rhs,
                self.basis == entered.basis,
                self.z_coeffs == entered.z_coeffs,
                self.z_slack == entered.z_slack,
                self.z_rhs == entered.z_rhs,
                self.nonbasis@.len() == before.nonbasis.len(),
                j <= self.nonbasis@.len(),
                forall|i: int|
                    0 <= i < j ==> #[trigger] self.nonbasis@[i] == if before.nonbasis[i]
                        == col_idx {
                        leaving
                    } else {
                        before.nonbasis[i]
                    },
                forall|i: int|
                    j <= i < self.nonbasis@.len() ==> #[trigger] self.nonbasis@[i]
                        == before.nonbasis[i],
            decreases self.nonbasis@.len() - j,
        {
            if self.nonbasis[j] == col_idx {
                self.nonbasis[j] = leaving;
            }
            j += 1;
        }
        proof {
            let after = before.pivot(r, k);
            assert(self@.rows =~= after.rows) by {
                assert forall|j: int| 0 <= j < rows implies self@.rows[j] == after.rows[j] by {
                    assert(self.row_view(j) == cleared.row_view(j));
                    assert(cleared@.rows[j] == cleared.row_view(j));
                    if j == r {
                        assert(cleared@.rows[r] == before.pivot_row(r, k));
                    }
                }
            }
            assert(self@.nonbasis =~= after.nonbasis);
            assert(self@.basis =~= after.basis);
            assert(self@ == after);
            if before.partitioned() && before.nonbasis.contains(col_idx) {
                before.lemma_pivot_partition(r, k);
            }
        }
    }
}

} // verus!
