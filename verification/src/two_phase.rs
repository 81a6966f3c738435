//! The two-phase simplex solver: it first optimises the negated objective
//! `d = -c`, then the objective `c` itself, both by Bland's rule.

use crate::elementwise::scaled_req;
use crate::elementwise::scaled_spec;
use crate::pivot::PivotResult;
use crate::problem::negate_req;
use crate::problem::negate_spec;
use crate::problem::negated;
use crate::scalar::Scalar;
use crate::simplex::emit_step;
use crate::simplex::iteration_after;
use crate::simplex::pivot_found_req;
use crate::simplex::status_of;
use crate::simplex::step_at;
use crate::simplex::tableau_after;
use crate::solver::InitSource;
use crate::solver::Solver;
use crate::solver::Status;
use crate::solver::Step;
use crate::solver::StepView;
use crate::tableau::Tableau;
use crate::tableau::TableauView;
use vstd::prelude::*;

verus! {

/// Which objective the solver is optimising.
#[derive(Clone, Copy, Debug, PartialEq, Eq, Structural)]
pub enum Phase {
    OptimizeD,
    OptimizeC,
}

/// What one attempt at a pivot came to.
#[derive(Clone, Copy, Debug, PartialEq, Eq, Structural)]
pub enum PivotOutcome {
    Pivoted,
    Optimal,
    Unbounded,
}

/// The two-phase solver: its tableau, the phase it is in, and the objective
/// `c` that it keeps for the second phase.
pub struct TwoPhaseSimplexSolver<T> {
    tableau: Option<Tableau<T>>,
    n_vars: usize,
    iteration: usize,
    done: bool,
    last_step: Option<Step<T>>,
    phase: Phase,
    c_coeffs: Vec<T>,
    c_slack: Vec<T>,
    c_rhs: T,
}

/// The solver as a value; `c` is the kept objective row over all logical
/// columns.
pub struct TwoPhaseState<T> {
    pub tableau: Option<TableauView<T>>,
    pub n_vars: nat,
    pub iteration: nat,
    pub done: bool,
    pub last_step: Option<StepView<T>>,
    pub phase: Phase,
    pub c: Seq<T>,
}

/// The costs of the basic variables, row by row.
pub open spec fn basic_costs<T>(basis: Seq<usize>, c: Seq<T>) -> Seq<T> {
    Seq::new(basis.len(), |i: int| c[basis[i] as int])
}

/// The row `z` after the first `k` rows, each times the cost of its basic
/// variable, are taken off it.
pub open spec fn reduced_row<T: Scalar>(z: Seq<T>, rows: Seq<Seq<T>>, costs: Seq<T>, k: int) -> Seq<
    T,
>
    decreases k,
{
    if k <= 0 {
        z
    } else {
        scaled_spec(reduced_row(z, rows, costs, k - 1), rows[k - 1], costs[k - 1])
    }
}

/// Whether that can be computed.
pub open spec fn reduced_row_req<T: Scalar>(
    z: Seq<T>,
    rows: Seq<Seq<T>>,
    costs: Seq<T>,
    k: int,
) -> bool
    decreases k,
{
    k <= 0 || (reduced_row_req(z, rows, costs, k - 1) && scaled_req(
        reduced_row(z, rows, costs, k - 1),
        rows[k - 1],
        costs[k - 1],
    ))
}

/// The sum over the first `k` rows of the cost of the basic variable times
/// the right-hand side: the value of the costs at the basic solution.
pub open spec fn basis_value<T: Scalar>(rhs: Seq<T>, costs: Seq<T>, k: int) -> real
    decreases k,
{
    if k <= 0 {
        0real
    } else {
        basis_value(rhs, costs, k - 1) + costs[k - 1].val() * rhs[k - 1].val()
    }
}

/// Taking rows off a row keeps its length.
pub proof fn lemma_reduced_row_len<T: Scalar>(
    z: Seq<T>,
    rows: Seq<Seq<T>>,
    costs: Seq<T>,
    k: int,
)
    ensures
        reduced_row(z, rows, costs, k).len() == z.len(),
    decreases k,
{
    if k > 0 {
        lemma_reduced_row_len(z, rows, costs, k - 1);
    }
}

/// After the first `k` rows are taken off, the last entry of the row stands
/// for what it stood for before, less the value of the costs at the basic
/// solution.
pub proof fn lemma_reduced_row_value<T: Scalar>(
    z: Seq<T>,
    rows: Seq<Seq<T>>,
    costs: Seq<T>,
    k: int,
)
    requires
        0 <= k <= rows.len(),
        z.len() > 0,
        forall|i: int| 0 <= i < rows.len() ==> (#[trigger] rows[i]).len() == z.len(),
        reduced_row_req(z, rows, costs, k),
    ensures
        reduced_row(z, rows, costs, k).last().val() == z.last().val() - basis_value(
            Seq::new(rows.len(), |i: int| rows[i].last()),
            costs,
            k,
        ),
    decreases k,
{
    if k > 0 {
        lemma_reduced_row_value(z, rows, costs, k - 1);
        lemma_reduced_row_len(z, rows, costs, k - 1);
        let prev = reduced_row(z, rows, costs, k - 1);
        let row = rows[k - 1];
        let last = z.len() - 1;
        assert(row.len() == z.len());
        row[last].lemma_mul(costs[k - 1]);
        prev[last].lemma_sub(row[last].mul_spec(costs[k - 1]));
        let (a, b) = (costs[k - 1].val(), row[last].val());
        assert(b * a == a * b) by (nonlinear_arith);
    }
}

/// The sum over the first `k` rows of the cost of the basic variable times
/// the row's entry in column `j`.
pub open spec fn weighted_column<T: Scalar>(rows: Seq<Seq<T>>, costs: Seq<T>, j: int, k: int) -> real
    decreases k,
{
    if k <= 0 {
        0real
    } else {
        weighted_column(rows, costs, j, k - 1) + costs[k - 1].val() * rows[k - 1][j].val()
    }
}

/// After the first `k` rows are taken off, an entry of the row stands for
/// what it stood for before, less the costs of the basic variables times
/// its column.
pub proof fn lemma_reduced_row_entry<T: Scalar>(
    z: Seq<T>,
    rows: Seq<Seq<T>>,
    costs: Seq<T>,
    j: int,
    k: int,
)
    requires
        0 <= k <= rows.len(),
        0 <= j < z.len(),
        forall|i: int| 0 <= i < rows.len() ==> (#[trigger] rows[i]).len() == z.len(),
        reduced_row_req(z, rows, costs, k),
    ensures
        reduced_row(z, rows, costs, k)[j].val() == z[j].val() - weighted_column(
            rows,
            costs,
            j,
            k,
        ),
    decreases k,
{
    if k > 0 {
        lemma_reduced_row_entry(z, rows, costs, j, k - 1);
        lemma_reduced_row_len(z, rows, costs, k - 1);
        let prev = reduced_row(z, rows, costs, k - 1);
        let row = rows[k - 1];
        assert(row.len() == z.len());
        row[j].lemma_mul(costs[k - 1]);
        prev[j].lemma_sub(row[j].mul_spec(costs[k - 1]));
        let (a, b) = (costs[k - 1].val(), row[j].val());
        assert(b * a == a * b) by (nonlinear_arith);
    }
}

/// Where column `j` has 1 in row `i` and 0 in every other row, the costs
/// times the column sum to the cost of row `i`, once the sum is past it.
pub proof fn lemma_weighted_unit_column<T: Scalar>(
    rows: Seq<Seq<T>>,
    costs: Seq<T>,
    j: int,
    i: int,
    k: int,
)
    requires
        0 <= i < rows.len(),
        0 <= k <= rows.len(),
        forall|x: int|
            0 <= x < rows.len() ==> (#[trigger] rows[x])[j].val() == if x == i {
                1real
            } else {
                0real
            },
    ensures
        weighted_column(rows, costs, j, k) == if i < k {
            costs[i].val()
        } else {
            0real
        },
    decreases k,
{
    if k > 0 {
        lemma_weighted_unit_column(rows, costs, j, i, k - 1);
        let a = costs[k - 1].val();
        assert(rows[k - 1][j].val() == if k - 1 == i {
            1real
        } else {
            0real
        });
        assert(a * 1real == a && a * 0real == 0real) by (nonlinear_arith);
    }
}

impl<T: Scalar> TableauView<T> {
    /// After the objective row is set to the objective `c` on a basis whose
    /// columns form an identity, the reduced cost of every basic variable
    /// is zero.
    pub proof fn lemma_with_objective_canonical(self, c: Seq<T>)
        requires
            self.wf(),
            c.len() == self.width(),
            self.with_objective_req(c),
            self.basis_is_identity(),
        ensures
            self.with_objective(c).basis_is_identity(),
            self.with_objective(c).basic_costs_are_zero(),
    {
        let after = self.with_objective(c);
        let costs = basic_costs(self.basis, c);
        let reduced = self.reduced_costs_of(c);
        lemma_reduced_row_len(c, self.rows, costs, self.m() as int);
        assert forall|i: int| 0 <= i < after.m() implies after.z[(
        #[trigger] after.basis[i]) as int].val() == 0real by {
            let j = self.basis[i] as int;
            lemma_reduced_row_entry(c, self.rows, costs, j, self.m() as int);
            assert forall|x: int| 0 <= x < self.rows.len() implies (#[trigger] self.rows[x])[j].val()
                == if x == i {
                1real
            } else {
                0real
            } by {
                assert(self.rows[x][self.basis[i] as int].val() == if i == x {
                    1real
                } else {
                    0real
                });
            }
            lemma_weighted_unit_column(self.rows, costs, j, i, self.m() as int);
            assert(after.z[j] == reduced[j]);
        }
    }

    /// The objective row for the objective `c` at the current basis, before
    /// its last entry is set: `c` with every row, times the cost of the
    /// row's basic variable, taken off.
    pub open spec fn reduced_costs_of(self, c: Seq<T>) -> Seq<T> {
        reduced_row(c, self.rows, basic_costs(self.basis, c), self.m() as int)
    }

    /// Whether the objective row can be set to the objective `c`.
    pub open spec fn with_objective_req(self, c: Seq<T>) -> bool {
        let reduced = self.reduced_costs_of(c).last();
        &&& reduced_row_req(c, self.rows, basic_costs(self.basis, c), self.m() as int)
        &&& reduced.neg_req()
        &&& reduced.neg_spec().add_req(c.last())
        &&& reduced.neg_spec().add_spec(c.last()).add_req(c.last())
    }

    /// The tableau with the objective row set to the objective `c`: its
    /// reduced costs at the current basis, and as its value the value of `c`
    /// at the basic solution.
    pub open spec fn with_objective(self, c: Seq<T>) -> TableauView<T> {
        let reduced = self.reduced_costs_of(c);
        TableauView {
            z: reduced.drop_last().push(
                reduced.last().neg_spec().add_spec(c.last()).add_spec(c.last()),
            ),
            ..self
        }
    }

    /// After the objective row is set to the objective `c`, its value is the
    /// value of `c` at the basic solution: the constant of `c` and, for
    /// every row, the cost of its basic variable times its right-hand side.
    pub proof fn lemma_with_objective_value(self, c: Seq<T>)
        requires
            self.wf(),
            c.len() == self.width(),
            self.with_objective_req(c),
        ensures
            self.with_objective(c).wf(),
            self.with_objective(c).objective_value().val() == c.last().val() + basis_value(
                Seq::new(self.m(), |i: int| self.rhs(i)),
                basic_costs(self.basis, c),
                self.m() as int,
            ),
    {
        let costs = basic_costs(self.basis, c);
        lemma_reduced_row_len(c, self.rows, costs, self.m() as int);
        lemma_reduced_row_value(c, self.rows, costs, self.m() as int);
        let reduced = self.reduced_costs_of(c).last();
        reduced.lemma_neg();
        reduced.neg_spec().lemma_add(c.last());
        reduced.neg_spec().add_spec(c.last()).lemma_add(c.last());
        assert(Seq::new(self.m(), |i: int| self.rhs(i)) =~= Seq::new(
            self.rows.len(),
            |i: int| self.rows[i].last(),
        ));
    }
}

/// What can be computed for the first `k` rows can be computed for fewer.
pub proof fn lemma_reduced_row_req<T: Scalar>(
    z: Seq<T>,
    rows: Seq<Seq<T>>,
    costs: Seq<T>,
    j: int,
    k: int,
)
    requires
        j <= k,
        reduced_row_req(z, rows, costs, k),
    ensures
        reduced_row_req(z, rows, costs, j),
    decreases k,
{
    if j < k && k > 0 {
        lemma_reduced_row_req(z, rows, costs, j, k - 1);
    }
}

impl<T: Scalar> TwoPhaseSimplexSolver<T> {
    /// The kept objective over all logical columns.
    pub closed spec fn c(&self) -> Seq<T> {
        self.c_coeffs@ + self.c_slack@ + seq![self.c_rhs]
    }

    /// A solver that has not been given a problem yet.
    pub fn new() -> (solver: Self)
        ensures
            solver.inv(),
            solver.state() == (TwoPhaseState::<T> {
                tableau: None,
                n_vars: 0,
                iteration: 0,
                done: false,
                last_step: None,
                phase: Phase::OptimizeD,
                c: seq![T::zero_spec()],
            }),
    {
        let solver = TwoPhaseSimplexSolver {
            tableau: None,
            n_vars: 0,
            iteration: 0,
            done: false,
            last_step: None,
            phase: Phase::OptimizeD,
            c_coeffs: Vec::new(),
            c_slack: Vec::new(),
            c_rhs: T::zero(),
        };
        assert(solver.c() =~= seq![T::zero_spec()]);
        solver
    }

    /// Sets the objective row to `d = -c` for the first phase.
    fn set_z_to_d(&mut self)
        requires
            old(self).inv(),
            old(self).tableau.is_some(),
            negate_req(old(self).c()),
        ensures
            final(self).inv(),
            final(self).state() == (TwoPhaseState {
                tableau: Some(
                    TableauView {
                        z: negate_spec(old(self).c()),
                        ..old(self).state().tableau.unwrap()
                    },
                ),
                ..old(self).state()
            }),
    {
        let mut tab = self.tableau.take().unwrap();
        let ghost before = tab;
        proof {
            assert forall|i: int| 0 <= i < self.c_coeffs@.len() implies (
            #[trigger] self.c_coeffs@[i]).neg_req() by {
                assert(self.c()[i] == self.c_coeffs@[i]);
            }
            assert forall|i: int| 0 <= i < self.c_slack@.len() implies (
            #[trigger] self.c_slack@[i]).neg_req() by {
                assert(self.c()[self.c_coeffs@.len() + i] == self.c_slack@[i]);
            }
            assert(self.c()[(self.c_coeffs@.len() + self.c_slack@.len()) as int] == self.c_rhs);
        }
        tab.z_coeffs = negated(&self.c_coeffs);
        tab.z_slack = negated(&self.c_slack);
        tab.z_rhs = self.c_rhs.neg();
        proof {
            assert(tab.z_view() =~= negate_spec(self.c()));
            assert(tab@.rows =~= before@.rows);
        }
        self.tableau = Some(tab);
    }

    /// Sets the objective row to the objective `c` at the current basis:
    /// `c` is copied into the row, every constraint row times the cost of
    /// its basic variable is taken off it, and its value is set to the value
    /// of `c` at the basic solution.
    fn set_z_to_c(&mut self)
        requires
            old(self).inv(),
            old(self).state().tableau matches Some(t) && t.with_objective_req(old(self).c()),
        ensures
            final(self).inv(),
            final(self).state() == (TwoPhaseState {
                tableau: Some(old(self).state().tableau.unwrap().with_objective(old(self).c())),
                ..old(self).state()
            }),
    {
        let mut tab = self.tableau.take().unwrap();
        let ghost before = tab;
        let ghost view = tab@;
        let ghost c = self.c();
        let ghost costs = basic_costs(view.basis, c);
        let n = self.c_coeffs.len();
        let m = tab.rows();
        proof {
            tab.lemma_view_wf();
        }
        let mut c_b: Vec<T> = Vec::with_capacity(m);
        let mut i: usize = 0;
        while i < m
            invariant
                tab.wf(),
                tab == before,
                view == tab@,
                c == self.c(),
                n == self.c_coeffs@.len(),
                n == tab.coefficients.cols,
                m == tab.coefficients.rows,
                self.c_slack@.len() == m,
                i <= m,
                c_b@ == basic_costs(view.basis, c).subrange(0, i as int),
            decreases m - i,
        {
            let var_idx = tab.basis[i];
            let cost = if var_idx < n {
                self.c_coeffs[var_idx]
            } else {
                self.c_slack[var_idx - n]
            };
            c_b.push(cost);
            i += 1;
            assert(c_b@ =~= basic_costs(view.basis, c).subrange(0, i as int));
        }
        assert(c_b@ =~= costs);
        tab.z_coeffs = vstd::slice::slice_to_vec(self.c_coeffs.as_slice());
        tab.z_slack = vstd::slice::slice_to_vec(self.c_slack.as_slice());
        tab.z_rhs = self.c_rhs;
        assert(tab@.rows =~= view.rows);
        let mut i: usize = 0;
        while i < m
            invariant
                tab.wf(),
                tab.coefficients == before.coefficients,
                tab.slack == before.slack,
                tab.rhs == before.rhs,
                tab.basis == before.basis,
                tab.nonbasis == before.nonbasis,
                tab@.rows == view.rows,
                view.wf(),
                m == view.m(),
                view.n == tab.coefficients.cols,
                m == tab.coefficients.rows,
                c_b@ == costs,
                costs.len() == m,
                i <= m,
                reduced_row_req(c, view.rows, costs, m as int),
                tab.z_view() == reduced_row(c, view.rows, costs, i as int),
            decreases m - i,
        {
            proof {
                lemma_reduced_row_req(c, view.rows, costs, i as int + 1, m as int);
                crate::matrix::lemma_row_span(
                    tab.coefficients.rows as int,
                    tab.coefficients.cols as int,
                    i as int,
                );
                crate::matrix::lemma_row_span(
                    tab.slack.rows as int,
                    tab.slack.cols as int,
                    i as int,
                );
            }
            let row_i = tab.row(i);
            let ghost prev = tab;
            {
                let mut z_row = tab.z_row_mut();
                z_row.sub_assign_scaled(&row_i, c_b[i]);
            }
            proof {
                assert(tab@.rows =~= prev@.rows);
            }
            i += 1;
        }
        let ghost reduced = tab.z_view();
        tab.z_rhs = tab.z_rhs.neg();
        tab.z_rhs = tab.z_rhs.add(self.c_rhs);
        tab.z_rhs = tab.z_rhs.add(self.c_rhs);
        proof {
            assert(c.last() == self.c_rhs);
            assert(reduced.last() == reduced[reduced.len() - 1]);
            assert(tab.z_view() =~= view.with_objective(c).z);
            assert(tab@.rows =~= view.rows);
        }
        self.tableau = Some(tab);
    }

    /// Tries one pivot by Bland's rule.
    fn try_pivot_step(&mut self) -> (outcome: PivotOutcome)
        requires
            old(self).inv(),
            old(self).state().tableau matches Some(t) && t.find_pivot_bland_req()
                && pivot_found_req(t, t.find_pivot_bland(), old(self).state().iteration),
        ensures
            final(self).inv(),
            outcome == match old(self).state().tableau.unwrap().find_pivot_bland() {
                PivotResult::Pivot(_, _) => PivotOutcome::Pivoted,
                PivotResult::Optimal => PivotOutcome::Optimal,
                PivotResult::Unbounded => PivotOutcome::Unbounded,
            },
            final(self).state() == (TwoPhaseState {
                tableau: Some(
                    tableau_after(
                        old(self).state().tableau.unwrap(),
                        old(self).state().tableau.unwrap().find_pivot_bland(),
                    ),
                ),
                iteration: iteration_after(
                    old(self).state().tableau.unwrap().find_pivot_bland(),
                    old(self).state().iteration,
                ),
                ..old(self).state()
            }),
    {
        let mut tab = self.tableau.take().unwrap();
        proof {
            tab.lemma_view_wf();
        }
        let outcome = match tab.find_pivot_indices_bland() {
            PivotResult::Pivot(row, col) => {
                tab.pivot(row, col);
                self.iteration += 1;
                PivotOutcome::Pivoted
            },
            PivotResult::Optimal => PivotOutcome::Optimal,
            PivotResult::Unbounded => PivotOutcome::Unbounded,
        };
        self.tableau = Some(tab);
        outcome
    }
}

impl<T: Scalar> Default for TwoPhaseSimplexSolver<T> {
    fn default() -> (solver: Self)
        ensures
            solver.inv(),
            solver.state() == (TwoPhaseState::<T> {
                tableau: None,
                n_vars: 0,
                iteration: 0,
                done: false,
                last_step: None,
                phase: Phase::OptimizeD,
                c: seq![T::zero_spec()],
            }),
    {
        Self::new()
    }
}

impl<T: Scalar> Solver<T> for TwoPhaseSimplexSolver<T> {
    type Error = String;

    type State = TwoPhaseState<T>;

    closed spec fn state(&self) -> TwoPhaseState<T> {
        TwoPhaseState {
            tableau: match self.tableau {
                Some(t) => Some(t@),
                None => None,
            },
            n_vars: self.n_vars as nat,
            iteration: self.iteration as nat,
            done: self.done,
            last_step: match self.last_step {
                Some(s) => Some(s@),
                None => None,
            },
            phase: self.phase,
            c: self.c(),
        }
    }

    closed spec fn inv(&self) -> bool {
        self.tableau matches Some(t) ==> {
            &&& t.wf()
            &&& self.c_coeffs@.len() == t.coefficients.cols
            &&& self.c_slack@.len() == t.coefficients.rows
        }
    }

    open spec fn error_says(e: &String, msg: Seq<char>) -> bool {
        e@ == msg
    }

    /// The source must lower to a tableau whose objective row can be
    /// negated.
    open spec fn init_req(before: TwoPhaseState<T>, source: &InitSource<T>) -> bool {
        &&& source.lowering_req()
        &&& source.n_vars() <= usize::MAX
        &&& negate_req(source.tableau_form().z)
    }

    /// The solver keeps the objective row of the initial tableau as `c` and
    /// starts the first phase on `d = -c`.
    open spec fn init_state(before: TwoPhaseState<T>, source: &InitSource<T>) -> TwoPhaseState<T> {
        TwoPhaseState {
            tableau: Some(
                TableauView { z: negate_spec(source.tableau_form().z), ..source.tableau_form() },
            ),
            n_vars: source.n_vars(),
            iteration: 0,
            done: false,
            last_step: None,
            phase: Phase::OptimizeD,
            c: source.tableau_form().z,
        }
    }

    open spec fn feasible(s: TwoPhaseState<T>) -> bool {
        s.tableau matches Some(t) ==> !t.has_negative_rhs()
    }

    /// A step needs a tableau, and must be able to search for the pivot by
    /// Bland's rule and to make it, or, where the first phase finds none, to
    /// set the objective row to `c`.
    open spec fn step_req(s: TwoPhaseState<T>) -> bool {
        &&& s.tableau matches Some(t) && {
            &&& t.find_pivot_bland_req()
            &&& pivot_found_req(t, t.find_pivot_bland(), s.iteration)
            &&& s.phase == Phase::OptimizeD && !(t.find_pivot_bland() is Pivot)
                ==> t.with_objective_req(s.c)
        }
    }

    /// A step makes the pivot that Bland's rule and the ratio test find and
    /// counts it. Where they find none, the first phase hands over to the
    /// second by setting the objective row to `c`, and the second phase is
    /// done.
    open spec fn step_state(s: TwoPhaseState<T>) -> TwoPhaseState<T> {
        let t = s.tableau.unwrap();
        let found = t.find_pivot_bland();
        let switch = s.phase == Phase::OptimizeD && !(found is Pivot);
        TwoPhaseState {
            tableau: Some(
                if switch {
                    t.with_objective(s.c)
                } else {
                    tableau_after(t, found)
                },
            ),
            n_vars: s.n_vars,
            iteration: iteration_after(found, s.iteration),
            done: s.done || (s.phase == Phase::OptimizeC && !(found is Pivot)),
            last_step: Some(Self::step_record(s)),
            phase: if switch {
                Phase::OptimizeC
            } else {
                s.phase
            },
            c: s.c,
        }
    }

    /// Only the second phase reports a terminal status.
    open spec fn step_record(s: TwoPhaseState<T>) -> StepView<T> {
        let t = s.tableau.unwrap();
        let found = t.find_pivot_bland();
        let switch = s.phase == Phase::OptimizeD && !(found is Pivot);
        step_at(
            if switch {
                t.with_objective(s.c)
            } else {
                tableau_after(t, found)
            },
            iteration_after(found, s.iteration),
            s.n_vars,
            if s.phase == Phase::OptimizeC {
                status_of(found)
            } else {
                Status::InProgress
            },
        )
    }

    open spec fn done(s: TwoPhaseState<T>) -> bool {
        s.done
    }

    open spec fn last(s: TwoPhaseState<T>) -> Option<StepView<T>> {
        s.last_step
    }

    fn init(&mut self, source: InitSource<T>) {
        let (n_vars, tab) = source.into_tableau_and_n_vars();
        self.n_vars = n_vars;
        self.c_coeffs = vstd::slice::slice_to_vec(tab.z_coeffs.as_slice());
        self.c_slack = vstd::slice::slice_to_vec(tab.z_slack.as_slice());
        self.c_rhs = tab.z_rhs;
        self.tableau = Some(tab);
        self.iteration = 0;
        self.done = false;
        self.last_step = None;
        self.phase = Phase::OptimizeD;
        self.set_z_to_d();
    }

    fn find_initial_bfs(&mut self) -> (r: Result<bool, String>) {
        let negative = match &self.tableau {
            Some(t) => t.has_negative_rhs(),
            None => false,
        };
        if negative {
            return Err("Infeasible: initial tableau has negative RHS".to_owned());
        }
        Ok(true)
    }

    fn is_done(&self) -> (b: bool) {
        self.done
    }

    fn step(&mut self) -> (s: Step<T>) {
        let status = match self.phase {
            Phase::OptimizeD => match self.try_pivot_step() {
                PivotOutcome::Pivoted => Status::InProgress,
                _ => {
                    self.set_z_to_c();
                    self.phase = Phase::OptimizeC;
                    Status::InProgress
                },
            },
            Phase::OptimizeC => match self.try_pivot_step() {
                PivotOutcome::Pivoted => Status::InProgress,
                PivotOutcome::Optimal => {
                    self.done = true;
                    Status::Optimal
                },
                PivotOutcome::Unbounded => {
                    self.done = true;
                    Status::Unbounded
                },
            },
        };
        let step = emit_step(self.tableau.as_ref().unwrap(), self.iteration, self.n_vars, status);
        self.last_step = Some(step.duplicate());
        step
    }

    fn last_step(&self) -> (r: Option<&Step<T>>) {
        self.last_step.as_ref()
    }

    fn handle_error(&self, msg: &str) -> (e: String) {
        msg.to_owned()
    }
}

} // verus!
