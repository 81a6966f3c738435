//! The shadow-vertex simplex solver: it walks the edges of the projection of
//! the feasible polytope onto the plane of an auxiliary objective `d` and
//! the objective `c`.

use crate::pivot::first_negative;
use crate::pivot::is_first_negative;
use crate::pivot::lemma_first_negative_unique;
use crate::pivot::PivotResult;
use crate::problem::zeros;
use crate::problem::zeros_spec;
use crate::elementwise::vals;
use crate::scalar::EpsilonThreshold;
use crate::scalar::Scalar;
use crate::simplex::emit_step;
use crate::simplex::iteration_after;
use crate::simplex::pivot_found_req;
use crate::simplex::status_of;
use crate::simplex::step_at;
use crate::simplex::tableau_after;
use crate::solver::infeasible_message;
use crate::solver::premature_message;
use crate::solver::steps_view;
use crate::solver::InitSource;
use crate::solver::Solution;
use crate::solver::Solver;
use crate::solver::Status;
use crate::solver::Step;
use crate::solver::StepView;
use crate::tableau::Tableau;
use crate::tableau::TableauView;
use vstd::prelude::*;

verus! {

/// What a run of the shadow-vertex solver gives: the solution, every step
/// made, and the point in the `(d, c)` plane before the first step and
/// after every step.
#[derive(Clone, Debug)]
pub struct ShadowSolveResult<T> {
    pub solution: Solution<T>,
    pub history: Vec<Step<T>>,
    pub shadow_points: Vec<(T, T)>,
}

/// The shadow-vertex solver: its tableau, the auxiliary objective `d`, and
/// the objective `c` that the problem came with.
pub struct ShadowVertexSimplexSolver<T> {
    tableau: Option<Tableau<T>>,
    n_vars: usize,
    iteration: usize,
    done: bool,
    last_step: Option<Step<T>>,
    d_coeffs: Vec<T>,
    d_slack: Vec<T>,
    d_rhs: T,
    c_coeffs: Vec<T>,
    c_slack: Vec<T>,
    c_rhs: T,
}

/// The solver as a value.
pub struct ShadowState<T> {
    pub tableau: Option<TableauView<T>>,
    pub n_vars: nat,
    pub iteration: nat,
    pub done: bool,
    pub last_step: Option<StepView<T>>,
    pub d_coeffs: Seq<T>,
    pub d_slack: Seq<T>,
    pub d_rhs: T,
    pub c_coeffs: Seq<T>,
    pub c_slack: Seq<T>,
    pub c_rhs: T,
}

/// The entry `i` of `w`, or zero where `w` has no such entry.
pub open spec fn entry_or_zero<T: Scalar>(w: Seq<T>, i: int) -> T {
    if 0 <= i < w.len() {
        w[i]
    } else {
        T::zero_spec()
    }
}

/// The weight that an objective gives to variable `v`, where the first `n`
/// variables are structural: its coefficient, or zero where the objective
/// has none for `v`.
pub open spec fn weight<T: Scalar>(w_coeffs: Seq<T>, w_slack: Seq<T>, n: int, v: int) -> T {
    if v < n {
        entry_or_zero(w_coeffs, v)
    } else {
        entry_or_zero(w_slack, v - n)
    }
}

/// The breakpoint of column `j`: `r_d / (r_d - r_c)`, the share of `c` at
/// which the reduced cost of the mixed objective turns negative.
pub open spec fn breakpoint<T: Scalar>(r_d: T, r_c: T) -> T {
    r_d.div_spec(r_d.sub_spec(r_c))
}

/// Whether column `j` can enter by the parametric rule: its reduced cost
/// for `d` is not negative, that for `c` is negative, their difference
/// passes the test for being strictly positive, and the breakpoint lies in
/// `(0, 1]`.
pub open spec fn is_candidate<T: EpsilonThreshold>(r_d: Seq<T>, r_c: Seq<T>, j: int) -> bool {
    &&& 0 <= j < r_d.len()
    &&& r_d[j].val() >= 0real
    &&& r_c[j].val() < 0real
    &&& r_d[j].sub_spec(r_c[j]).strictly_positive()
    &&& 0real < breakpoint(r_d[j], r_c[j]).val() <= 1real
}

/// Whether column `j` is the candidate with the least breakpoint, the first
/// on a tie.
pub open spec fn is_shadow_col<T: EpsilonThreshold>(r_d: Seq<T>, r_c: Seq<T>, j: int) -> bool {
    &&& is_candidate(r_d, r_c, j)
    &&& forall|i: int| #[trigger]
        is_candidate(r_d, r_c, i) ==> breakpoint(r_d[j], r_c[j]).val() <= breakpoint(
            r_d[i],
            r_c[i],
        ).val()
    &&& forall|i: int| #[trigger]
        is_candidate(r_d, r_c, i) && i < j ==> breakpoint(r_d[j], r_c[j]).val() < breakpoint(
            r_d[i],
            r_c[i],
        ).val()
}

/// The entering column of the shadow-vertex rule: the candidate with the
/// least breakpoint, the first on a tie; without a candidate, the first
/// column with a negative reduced cost for `c`; without that, none.
pub open spec fn shadow_col<T: EpsilonThreshold>(r_d: Seq<T>, r_c: Seq<T>) -> Option<usize> {
    if exists|j: int| is_shadow_col(r_d, r_c, j) {
        Some((choose|j: int| is_shadow_col(r_d, r_c, j)) as usize)
    } else {
        first_negative(vals(r_c))
    }
}

/// Whether the shadow-vertex rule can be computed: `r_c` has an entry for
/// every entry of `r_d`, and for a column whose reduced costs have the right
/// signs the difference can be formed and, where it passes the test, the
/// breakpoint.
pub open spec fn shadow_col_req<T: EpsilonThreshold>(r_d: Seq<T>, r_c: Seq<T>) -> bool {
    &&& r_d.len() <= r_c.len()
    &&& forall|j: int|
        0 <= j < r_d.len() && (#[trigger] r_d[j]).val() >= 0real && r_c[j].val() < 0real ==> {
            &&& r_d[j].sub_req(r_c[j])
            &&& r_d[j].sub_spec(r_c[j]).strictly_positive() ==> r_d[j].div_req(
                r_d[j].sub_spec(r_c[j]),
            )
        }
}

/// The parametric rule picks at most one column.
pub proof fn lemma_shadow_col_unique<T: EpsilonThreshold>(r_d: Seq<T>, r_c: Seq<T>, j: int)
    requires
        is_shadow_col(r_d, r_c, j),
        j <= usize::MAX,
    ensures
        shadow_col(r_d, r_c) == Some(j as usize),
{
    let k = choose|k: int| is_shadow_col(r_d, r_c, k);
    if k < j {
        assert(is_candidate(r_d, r_c, k));
        assert(is_candidate(r_d, r_c, j));
    } else if j < k {
        assert(is_candidate(r_d, r_c, k));
        assert(is_candidate(r_d, r_c, j));
    }
}

impl<T: Scalar> TableauView<T> {
    /// The sum over the first `k` rows of the weight of the row's basic
    /// variable times the row's entry in column `j`, added up from zero in
    /// the order of the rows.
    pub open spec fn basis_dot(self, w_coeffs: Seq<T>, w_slack: Seq<T>, j: int, k: int) -> T
        decreases k,
    {
        if k <= 0 {
            T::zero_spec()
        } else {
            self.basis_dot(w_coeffs, w_slack, j, k - 1).add_spec(
                weight(w_coeffs, w_slack, self.n as int, self.basis[k - 1] as int).mul_spec(
                    self.rows[k - 1][j],
                ),
            )
        }
    }

    /// Whether that sum can be computed.
    pub open spec fn basis_dot_req(self, w_coeffs: Seq<T>, w_slack: Seq<T>, j: int, k: int) -> bool
        decreases k,
    {
        k <= 0 || {
            &&& self.basis_dot_req(w_coeffs, w_slack, j, k - 1)
            &&& weight(w_coeffs, w_slack, self.n as int, self.basis[k - 1] as int).mul_req(
                self.rows[k - 1][j],
            )
            &&& self.basis_dot(w_coeffs, w_slack, j, k - 1).add_req(
                weight(w_coeffs, w_slack, self.n as int, self.basis[k - 1] as int).mul_spec(
                    self.rows[k - 1][j],
                ),
            )
        }
    }

    /// The reduced cost of column `j` for the objective `w` at the current
    /// basis: the weight of the column less the weights of the basic
    /// variables times the column.
    pub open spec fn reduced_cost(self, w_coeffs: Seq<T>, w_slack: Seq<T>, j: int) -> T {
        weight(w_coeffs, w_slack, self.n as int, j).sub_spec(
            self.basis_dot(w_coeffs, w_slack, j, self.m() as int),
        )
    }

    /// The reduced costs of all variables for the objective `w`.
    pub open spec fn reduced_costs(self, w_coeffs: Seq<T>, w_slack: Seq<T>) -> Seq<T> {
        Seq::new(self.n + self.m(), |j: int| self.reduced_cost(w_coeffs, w_slack, j))
    }

    /// Whether they can be computed.
    pub open spec fn reduced_costs_req(self, w_coeffs: Seq<T>, w_slack: Seq<T>) -> bool {
        forall|j: int|
            0 <= j < self.n + self.m() ==> #[trigger] self.basis_dot_req(
                w_coeffs,
                w_slack,
                j,
                self.m() as int,
            ) && weight(w_coeffs, w_slack, self.n as int, j).sub_req(
                self.basis_dot(w_coeffs, w_slack, j, self.m() as int),
            )
    }

    /// The value of the auxiliary objective over the first `k` rows: its
    /// constant, and the weight of every basic variable times the right-hand
    /// side of its row, added up in the order of the rows.
    pub open spec fn aux_value(self, d_coeffs: Seq<T>, d_slack: Seq<T>, d_rhs: T, k: int) -> T
        decreases k,
    {
        if k <= 0 {
            d_rhs
        } else {
            self.aux_value(d_coeffs, d_slack, d_rhs, k - 1).add_spec(
                weight(d_coeffs, d_slack, self.n as int, self.basis[k - 1] as int).mul_spec(
                    self.rhs(k - 1),
                ),
            )
        }
    }

    /// Whether that value can be computed.
    pub open spec fn aux_value_req(self, d_coeffs: Seq<T>, d_slack: Seq<T>, d_rhs: T, k: int) -> bool
        decreases k,
    {
        k <= 0 || {
            &&& self.aux_value_req(d_coeffs, d_slack, d_rhs, k - 1)
            &&& weight(d_coeffs, d_slack, self.n as int, self.basis[k - 1] as int).mul_req(
                self.rhs(k - 1),
            )
            &&& self.aux_value(d_coeffs, d_slack, d_rhs, k - 1).add_req(
                weight(d_coeffs, d_slack, self.n as int, self.basis[k - 1] as int).mul_spec(
                    self.rhs(k - 1),
                ),
            )
        }
    }

    /// The point of the current vertex in the shadow plane: the value of
    /// the auxiliary objective and the value of the objective row.
    pub open spec fn shadow_point(self, d_coeffs: Seq<T>, d_slack: Seq<T>, d_rhs: T) -> (T, T) {
        (self.aux_value(d_coeffs, d_slack, d_rhs, self.m() as int), self.objective_value())
    }

    /// The reduced costs for the objective that the objective row carries.
    pub open spec fn cost_row(self) -> Seq<T> {
        self.z.subrange(0, (self.n + self.m()) as int)
    }
}

impl<T: EpsilonThreshold> TableauView<T> {
    /// What the shadow-vertex rule and the ratio test find for the
    /// auxiliary objective `d`.
    pub open spec fn find_shadow_pivot(self, d_coeffs: Seq<T>, d_slack: Seq<T>) -> PivotResult {
        match shadow_col(self.reduced_costs(d_coeffs, d_slack), self.cost_row()) {
            None => PivotResult::Optimal,
            Some(k) => match self.ratio_row(k as int) {
                None => PivotResult::Unbounded,
                Some(r) => PivotResult::Pivot(r, k),
            },
        }
    }

    /// Whether that search can be computed.
    pub open spec fn find_shadow_pivot_req(self, d_coeffs: Seq<T>, d_slack: Seq<T>) -> bool {
        &&& self.reduced_costs_req(d_coeffs, d_slack)
        &&& shadow_col_req(self.reduced_costs(d_coeffs, d_slack), self.cost_row())
        &&& shadow_col(self.reduced_costs(d_coeffs, d_slack), self.cost_row()) matches Some(k)
            ==> self.ratio_req(k as int)
    }
}

/// The entry `i` of `w`, or zero where `w` has no such entry.
pub fn get_or_zero<T: Scalar>(w: &[T], i: usize) -> (e: T)
    ensures
        e == entry_or_zero(w@, i as int),
{
    if i < w.len() {
        w[i]
    } else {
        T::zero()
    }
}

/// The weight that an objective gives to variable `v`.
pub fn weight_of<T: Scalar>(w_coeffs: &[T], w_slack: &[T], n: usize, v: usize) -> (e: T)
    ensures
        e == weight(w_coeffs@, w_slack@, n as int, v as int),
{
    if v < n {
        get_or_zero(w_coeffs, v)
    } else {
        get_or_zero(w_slack, v - n)
    }
}

impl<T: EpsilonThreshold> ShadowState<T> {
    /// Whether the next step can be computed: there is a tableau, and the
    /// shadow-vertex rule can search for the pivot and make it.
    pub open spec fn can_step(self) -> bool {
        &&& self.tableau matches Some(t) && t.find_shadow_pivot_req(self.d_coeffs, self.d_slack)
            && pivot_found_req(
            t,
            t.find_shadow_pivot(self.d_coeffs, self.d_slack),
            self.iteration,
        )
    }

    /// What the next step emits.
    pub open spec fn record(self) -> StepView<T> {
        let t = self.tableau.unwrap();
        let found = t.find_shadow_pivot(self.d_coeffs, self.d_slack);
        step_at(
            tableau_after(t, found),
            iteration_after(found, self.iteration),
            self.n_vars,
            status_of(found),
        )
    }

    /// The solver after the next step: the pivot that the shadow-vertex rule
    /// and the ratio test find is made and counted; where they find none,
    /// the solver is done.
    pub open spec fn next(self) -> ShadowState<T> {
        let t = self.tableau.unwrap();
        let found = t.find_shadow_pivot(self.d_coeffs, self.d_slack);
        ShadowState {
            tableau: Some(tableau_after(t, found)),
            iteration: iteration_after(found, self.iteration),
            done: self.done || !(found is Pivot),
            last_step: Some(self.record()),
            ..self
        }
    }

    /// Whether the point in the shadow plane can be computed.
    pub open spec fn point_req(self) -> bool {
        self.tableau matches Some(t) && t.aux_value_req(
            self.d_coeffs,
            self.d_slack,
            self.d_rhs,
            t.m() as int,
        )
    }

    /// The point of the current vertex in the shadow plane.
    pub open spec fn point(self) -> (T, T) {
        self.tableau.unwrap().shadow_point(self.d_coeffs, self.d_slack, self.d_rhs)
    }

    /// Whether a run with its shadow points can be made from this state
    /// within `fuel` steps: the point can be computed here and after every
    /// step, every step can be computed, and a done state is reached.
    pub open spec fn trace_req(self, fuel: nat) -> bool
        decreases fuel,
    {
        self.point_req() && (self.done || (fuel > 0 && self.can_step() && self.next().trace_req(
            (fuel - 1) as nat,
        )))
    }

    /// The steps that a run from this state emits until it is done.
    pub open spec fn history(self, fuel: nat) -> Seq<StepView<T>>
        decreases fuel,
    {
        if self.done || fuel == 0 {
            Seq::empty()
        } else {
            seq![self.record()] + self.next().history((fuel - 1) as nat)
        }
    }

    /// The shadow points of a run from this state: the point here, and the
    /// point after every step.
    pub open spec fn points(self, fuel: nat) -> Seq<(T, T)>
        decreases fuel,
    {
        if self.done || fuel == 0 {
            seq![self.point()]
        } else {
            seq![self.point()] + self.next().points((fuel - 1) as nat)
        }
    }

    /// The state in which a run from this state ends.
    pub open spec fn end(self, fuel: nat) -> ShadowState<T>
        decreases fuel,
    {
        if self.done || fuel == 0 {
            self
        } else {
            self.next().end((fuel - 1) as nat)
        }
    }

    /// Whether a run with its shadow points can be made from this state.
    pub open spec fn can_trace(self) -> bool {
        exists|fuel: nat| #[trigger] self.trace_req(fuel)
    }
}

impl<T: EpsilonThreshold> ShadowVertexSimplexSolver<T> {
    /// A solver that has not been given a problem yet, with no auxiliary
    /// objective set: `init` will make it zero.
    pub fn new() -> (solver: Self)
        ensures
            solver.inv(),
            solver.state() == (ShadowState::<T> {
                tableau: None,
                n_vars: 0,
                iteration: 0,
                done: false,
                last_step: None,
                d_coeffs: Seq::empty(),
                d_slack: Seq::empty(),
                d_rhs: T::zero_spec(),
                c_coeffs: Seq::empty(),
                c_slack: Seq::empty(),
                c_rhs: T::zero_spec(),
            }),
    {
        ShadowVertexSimplexSolver {
            tableau: None,
            n_vars: 0,
            iteration: 0,
            done: false,
            last_step: None,
            d_coeffs: Vec::new(),
            d_slack: Vec::new(),
            d_rhs: T::zero(),
            c_coeffs: Vec::new(),
            c_slack: Vec::new(),
            c_rhs: T::zero(),
        }
    }

    /// Sets the auxiliary objective `d`.
    pub fn set_auxiliary_objective(&mut self, d_coeffs: Vec<T>, d_slack: Vec<T>, d_rhs: T)
        requires
            old(self).inv(),
        ensures
            final(self).inv(),
            final(self).state() == (ShadowState {
                d_coeffs: d_coeffs@,
                d_slack: d_slack@,
                d_rhs,
                ..old(self).state()
            }),
    {
        self.d_coeffs = d_coeffs;
        self.d_slack = d_slack;
        self.d_rhs = d_rhs;
    }

    /// The point `(d . x, c . x)` of the current vertex in the shadow plane.
    fn current_shadow_point(&self) -> (point: (T, T))
        requires
            self.inv(),
            self.state().point_req(),
        ensures
            point == self.state().point(),
    {
        let tab = self.tableau.as_ref().unwrap();
        let ghost view = tab@;
        let n = tab.coefficients.cols;
        proof {
            tab.lemma_view_wf();
            tab.lemma_rhs_view();
        }
        let mut d_val = self.d_rhs;
        let mut i: usize = 0;
        while i < tab.basis.len()
            invariant
                tab.wf(),
                view == tab@,
                view.wf(),
                n == view.n,
                i <= tab.basis@.len(),
                tab.basis@.len() == view.m(),
                tab.rhs@.len() == view.m(),
                view.aux_value_req(self.d_coeffs@, self.d_slack@, self.d_rhs, view.m() as int),
                d_val == view.aux_value(self.d_coeffs@, self.d_slack@, self.d_rhs, i as int),
                forall|j: int| 0 <= j < view.m() ==> #[trigger] view.rhs(j) == tab.rhs@[j],
            decreases tab.basis@.len() - i,
        {
            proof {
                lemma_aux_value_req(
                    view,
                    self.d_coeffs@,
                    self.d_slack@,
                    self.d_rhs,
                    i as int + 1,
                    view.m() as int,
                );
                assert(view.rhs(i as int) == tab.rhs@[i as int]);
            }
            let var_idx = tab.basis[i];
            let coef = weight_of(self.d_coeffs.as_slice(), self.d_slack.as_slice(), n, var_idx);
            d_val = d_val.add(coef.mul(tab.rhs[i]));
            i += 1;
        }
        (d_val, tab.z_rhs)
    }

    /// The reduced costs of all variables for the objective `w` at the
    /// current basis.
    fn reduced_costs(tableau: &Tableau<T>, n: usize, w_coeffs: &[T], w_slack: &[T]) -> (r: Vec<T>)
        requires
            tableau.wf(),
            n == tableau@.n,
            tableau@.reduced_costs_req(w_coeffs@, w_slack@),
        ensures
            r@ == tableau@.reduced_costs(w_coeffs@, w_slack@),
    {
        let ghost view = tableau@;
        proof {
            tableau.lemma_view_wf();
        }
        let m = tableau.rows();
        let num_cols = n + m;
        let mut r: Vec<T> = Vec::with_capacity(num_cols);
        let mut j: usize = 0;
        while j < num_cols
            invariant
                tableau.wf(),
                view == tableau@,
                view.wf(),
                n == view.n,
                m == view.m(),
                num_cols == n + m,
                view.reduced_costs_req(w_coeffs@, w_slack@),
                j <= num_cols,
                r@ == view.reduced_costs(w_coeffs@, w_slack@).subrange(0, j as int),
            decreases num_cols - j,
        {
            let w_j = weight_of(w_coeffs, w_slack, n, j);
            let mut dot = T::zero();
            let mut i: usize = 0;
            proof {
                assert(view.basis_dot_req(w_coeffs@, w_slack@, j as int, view.m() as int));
            }
            while i < tableau.basis.len()
                invariant
                    tableau.wf(),
                    view == tableau@,
                    view.wf(),
                    n == view.n,
                    m == view.m(),
                    j < n + m,
                    tableau.basis@.len() == m,
                    i <= m,
                    view.basis_dot_req(w_coeffs@, w_slack@, j as int, view.m() as int),
                    dot == view.basis_dot(w_coeffs@, w_slack@, j as int, i as int),
                decreases m - i,
            {
                proof {
                    lemma_basis_dot_req(
                        view,
                        w_coeffs@,
                        w_slack@,
                        j as int,
                        i as int + 1,
                        view.m() as int,
                    );
                }
                let var_idx = tableau.basis[i];
                let w_bi = weight_of(w_coeffs, w_slack, n, var_idx);
                dot = dot.add(w_bi.mul(tableau.get(i, j)));
                i += 1;
            }
            r.push(w_j.sub(dot));
            j += 1;
            assert(r@ =~= view.reduced_costs(w_coeffs@, w_slack@).subrange(0, j as int));
        }
        assert(r@ =~= view.reduced_costs(w_coeffs@, w_slack@));
        r
    }

    /// The entering column of the shadow-vertex rule.
    ///
    /// For the mixed objective `(1 - t) d + t c` the rule looks for the
    /// least `t` in `(0, 1]` at which a reduced cost turns negative: among
    /// the columns whose reduced cost for `d` is not negative and whose
    /// reduced cost for `c` is, and whose difference of the two is strictly
    /// positive, it picks the one with the least breakpoint, the first on a
    /// tie. Without such a column it falls back on the first column with a
    /// negative reduced cost for `c`.
    fn find_shadow_pivot_col(_tableau: &Tableau<T>, _n: usize, r_d: &[T], r_c: &[T]) -> (col:
        Option<usize>)
        requires
            shadow_col_req(r_d@, r_c@),
        ensures
            col == shadow_col(r_d@, r_c@),
            col matches Some(k) ==> k < r_c@.len(),
    {
        let one = T::one();
        let zero = T::zero();
        let mut best_col: Option<usize> = None;
        let mut best_lambda: Option<T> = None;
        let mut j: usize = 0;
        while j < r_d.len()
            invariant
                shadow_col_req(r_d@, r_c@),
                one.val() == 1real,
                zero.val() == 0real,
                j <= r_d@.len(),
                best_col.is_none() ==> best_lambda.is_none() && forall|i: int|
                    0 <= i < j ==> !#[trigger] is_candidate(r_d@, r_c@, i),
                best_col matches Some(b) ==> {
                    &&& b < j
                    &&& is_candidate(r_d@, r_c@, b as int)
                    &&& best_lambda matches Some(q) && q.val() == breakpoint(
                        r_d@[b as int],
                        r_c@[b as int],
                    ).val()
                    &&& forall|i: int|
                        0 <= i < j && #[trigger] is_candidate(r_d@, r_c@, i) ==> breakpoint(
                            r_d@[b as int],
                            r_c@[b as int],
                        ).val() <= breakpoint(r_d@[i], r_c@[i]).val()
                    &&& forall|i: int|
                        0 <= i < b && #[trigger] is_candidate(r_d@, r_c@, i) ==> breakpoint(
                            r_d@[b as int],
                            r_c@[b as int],
                        ).val() < breakpoint(r_d@[i], r_c@[i]).val()
                },
            decreases r_d@.len() - j,
        {
            let r_d_j = r_d[j];
            let r_c_j = r_c[j];
            if !r_d_j.lt(zero) && r_c_j.lt(zero) {
                let denom = r_d_j.sub(r_c_j);
                if denom.is_strictly_positive() {
                    let lambda_j = r_d_j.div(denom);
                    if zero.lt(lambda_j) && !one.lt(lambda_j) {
                        let better = match best_lambda {
                            None => true,
                            Some(q) => lambda_j.lt(q),
                        };
                        if better {
                            best_lambda = Some(lambda_j);
                            best_col = Some(j);
                        }
                    }
                }
            }
            j += 1;
        }
        match best_col {
            Some(b) => {
                proof {
                    assert forall|i: int| #[trigger]
                        is_candidate(r_d@, r_c@, i) implies breakpoint(
                        r_d@[b as int],
                        r_c@[b as int],
                    ).val() <= breakpoint(r_d@[i], r_c@[i]).val() by {}
                    lemma_shadow_col_unique(r_d@, r_c@, b as int);
                }
                return Some(b);
            },
            None => {},
        }
        proof {
            assert forall|k: int| !is_shadow_col(r_d@, r_c@, k) by {
                if is_shadow_col(r_d@, r_c@, k) {
                    assert(is_candidate(r_d@, r_c@, k));
                }
            }
        }
        let ghost costs = vals(r_c@);
        let mut j: usize = 0;
        while j < r_c.len()
            invariant
                costs == vals(r_c@),
                zero.val() == 0real,
                j <= r_c@.len(),
                forall|i: int| 0 <= i < j ==> #[trigger] costs[i] >= 0real,
                forall|k: int| !is_shadow_col(r_d@, r_c@, k),
            decreases r_c@.len() - j,
        {
            if r_c[j].lt(zero) {
                proof {
                    assert(costs[j as int] == r_c@[j as int].val());
                    lemma_first_negative_unique(costs, j as int);
                }
                return Some(j);
            }
            j += 1;
        }
        proof {
            assert forall|k: int| !is_first_negative(costs, k) by {
                if is_first_negative(costs, k) {
                    assert(costs[k] >= 0real);
                }
            }
        }
        None
    }

    /// The pivot to make next by the shadow-vertex rule, or why there is
    /// none.
    fn try_pivot_step(&self) -> (found: PivotResult)
        requires
            self.inv(),
            self.state().tableau matches Some(t) && t.find_shadow_pivot_req(
                self.state().d_coeffs,
                self.state().d_slack,
            ),
        ensures
            found == self.state().tableau.unwrap().find_shadow_pivot(
                self.state().d_coeffs,
                self.state().d_slack,
            ),
            found matches PivotResult::Pivot(r, k) ==> r < self.state().tableau.unwrap().m() && k
                < self.state().tableau.unwrap().n + self.state().tableau.unwrap().m(),
    {
        let tab = self.tableau.as_ref().unwrap();
        let n = tab.coefficients.cols;
        proof {
            tab.lemma_view_wf();
        }
        let r_d = Self::reduced_costs(tab, n, self.d_coeffs.as_slice(), self.d_slack.as_slice());
        let mut r_c: Vec<T> = vstd::slice::slice_to_vec(tab.z_coeffs.as_slice());
        let mut i: usize = 0;
        while i < tab.z_slack.len()
            invariant
                i <= tab.z_slack@.len(),
                r_c@ == tab.z_coeffs@ + tab.z_slack@.subrange(0, i as int),
            decreases tab.z_slack@.len() - i,
        {
            r_c.push(tab.z_slack[i]);
            i += 1;
            assert(r_c@ =~= tab.z_coeffs@ + tab.z_slack@.subrange(0, i as int));
        }
        assert(r_c@ =~= tab@.cost_row());
        let col = match Self::find_shadow_pivot_col(tab, n, r_d.as_slice(), r_c.as_slice()) {
            Some(c) => c,
            None => {
                return PivotResult::Optimal;
            },
        };
        match tab.ratio_test(col) {
            Some(row) => PivotResult::Pivot(row, col),
            None => PivotResult::Unbounded,
        }
    }
}

/// What can be computed over the first `k` rows can be computed over fewer.
pub proof fn lemma_aux_value_req<T: Scalar>(
    view: TableauView<T>,
    d_coeffs: Seq<T>,
    d_slack: Seq<T>,
    d_rhs: T,
    j: int,
    k: int,
)
    requires
        j <= k,
        view.aux_value_req(d_coeffs, d_slack, d_rhs, k),
    ensures
        view.aux_value_req(d_coeffs, d_slack, d_rhs, j),
    decreases k,
{
    if j < k && k > 0 {
        lemma_aux_value_req(view, d_coeffs, d_slack, d_rhs, j, k - 1);
    }
}

/// What can be computed over the first `k` rows can be computed over fewer.
pub proof fn lemma_basis_dot_req<T: Scalar>(
    view: TableauView<T>,
    w_coeffs: Seq<T>,
    w_slack: Seq<T>,
    col: int,
    j: int,
    k: int,
)
    requires
        j <= k,
        view.basis_dot_req(w_coeffs, w_slack, col, k),
    ensures
        view.basis_dot_req(w_coeffs, w_slack, col, j),
    decreases k,
{
    if j < k && k > 0 {
        lemma_basis_dot_req(view, w_coeffs, w_slack, col, j, k - 1);
    }
}

impl<T: EpsilonThreshold> Default for ShadowVertexSimplexSolver<T> {
    fn default() -> (solver: Self)
        ensures
            solver.inv(),
            solver.state() == (ShadowState::<T> {
                tableau: None,
                n_vars: 0,
                iteration: 0,
                done: false,
                last_step: None,
                d_coeffs: Seq::empty(),
                d_slack: Seq::empty(),
                d_rhs: T::zero_spec(),
                c_coeffs: Seq::empty(),
                c_slack: Seq::empty(),
                c_rhs: T::zero_spec(),
            }),
    {
        Self::new()
    }
}

impl<T: EpsilonThreshold> Solver<T> for ShadowVertexSimplexSolver<T> {
    type Error = String;

    type State = ShadowState<T>;

    closed spec fn state(&self) -> ShadowState<T> {
        ShadowState {
            tableau: match self.tableau {
                Some(t) => Some(t@),
                None => None,
            },
            n_vars: self.n_vars as nat,
            iteration: self.iteration as nat,
            done: self.done,
            last_step: match self.last_step {
                Some(s) => Some(s@),
                None => None,
            },
            d_coeffs: self.d_coeffs@,
            d_slack: self.d_slack@,
            d_rhs: self.d_rhs,
            c_coeffs: self.c_coeffs@,
            c_slack: self.c_slack@,
            c_rhs: self.c_rhs,
        }
    }

    closed spec fn inv(&self) -> bool {
        self.tableau matches Some(t) ==> t.wf()
    }

    open spec fn error_says(e: &String, msg: Seq<char>) -> bool {
        e@ == msg
    }

    open spec fn init_req(before: ShadowState<T>, source: &InitSource<T>) -> bool {
        source.lowering_req() && source.n_vars() <= usize::MAX
    }

    /// The solver keeps the objective row of the initial tableau as `c`,
    /// and where no auxiliary objective was set it takes the zero one.
    open spec fn init_state(before: ShadowState<T>, source: &InitSource<T>) -> ShadowState<T> {
        let t = source.tableau_form();
        ShadowState {
            tableau: Some(t),
            n_vars: source.n_vars(),
            iteration: 0,
            done: false,
            last_step: None,
            d_coeffs: if before.d_coeffs.len() == 0 {
                zeros_spec(t.n)
            } else {
                before.d_coeffs
            },
            d_slack: if before.d_coeffs.len() == 0 {
                zeros_spec(t.m())
            } else {
                before.d_slack
            },
            d_rhs: if before.d_coeffs.len() == 0 {
                T::zero_spec()
            } else {
                before.d_rhs
            },
            c_coeffs: t.z.subrange(0, t.n as int),
            c_slack: t.z.subrange(t.n as int, (t.n + t.m()) as int),
            c_rhs: t.objective_value(),
        }
    }

    open spec fn feasible(s: ShadowState<T>) -> bool {
        s.tableau matches Some(t) ==> !t.has_negative_rhs()
    }

    open spec fn step_req(s: ShadowState<T>) -> bool {
        s.can_step()
    }

    open spec fn step_state(s: ShadowState<T>) -> ShadowState<T> {
        s.next()
    }

    open spec fn step_record(s: ShadowState<T>) -> StepView<T> {
        s.record()
    }

    open spec fn done(s: ShadowState<T>) -> bool {
        s.done
    }

    open spec fn last(s: ShadowState<T>) -> Option<StepView<T>> {
        s.last_step
    }

    fn init(&mut self, source: InitSource<T>) {
        let (n_vars, tableau) = source.into_tableau_and_n_vars();
        proof {
            tableau.lemma_view_wf();
            tableau.lemma_rhs_view();
        }
        self.n_vars = n_vars;
        self.c_coeffs = vstd::slice::slice_to_vec(tableau.z_coeffs.as_slice());
        self.c_slack = vstd::slice::slice_to_vec(tableau.z_slack.as_slice());
        self.c_rhs = tableau.z_rhs;
        if self.d_coeffs.len() == 0 {
            self.d_coeffs = zeros(tableau.z_coeffs.len());
            self.d_slack = zeros(tableau.z_slack.len());
            self.d_rhs = T::zero();
        }
        proof {
            assert(self.c_coeffs@ =~= tableau@.z.subrange(0, tableau@.n as int));
            assert(self.c_slack@ =~= tableau@.z.subrange(
                tableau@.n as int,
                (tableau@.n + tableau@.m()) as int,
            ));
        }
        self.tableau = Some(tableau);
        self.iteration = 0;
        self.done = false;
        self.last_step = None;
    }

    fn find_initial_bfs(&mut self) -> (r: Result<bool, String>) {
        let negative = match &self.tableau {
            Some(t) => t.has_negative_rhs(),
            None => false,
        };
        if negative {
            return Err("Infeasible: initial tableau has negative RHS".to_owned());
        }
        Ok(true)
    }

    fn is_done(&self) -> (b: bool) {
        self.done
    }

    fn step(&mut self) -> (s: Step<T>) {
        let ghost before = self.state();
        let ghost found = before.tableau.unwrap().find_shadow_pivot(
            before.d_coeffs,
            before.d_slack,
        );
        let status = match self.try_pivot_step() {
            PivotResult::Pivot(row, col) => {
                let mut tab = self.tableau.take().unwrap();
                tab.pivot(row, col);
                self.tableau = Some(tab);
                self.iteration += 1;
                Status::InProgress
            },
            PivotResult::Optimal => {
                self.done = true;
                Status::Optimal
            },
            PivotResult::Unbounded => {
                self.done = true;
                Status::Unbounded
            },
        };
        assert(status == status_of(found));
        assert(self.iteration == iteration_after(found, before.iteration));
        assert(self.tableau.unwrap()@ == tableau_after(before.tableau.unwrap(), found));
        let step = emit_step(self.tableau.as_ref().unwrap(), self.iteration, self.n_vars, status);
        assert(step@ == step_at(
            tableau_after(before.tableau.unwrap(), found),
            iteration_after(found, before.iteration),
            before.n_vars,
            status_of(found),
        ));
        assert(step@ == before.record());
        assert(before.record() == Self::step_record(before));
        self.last_step = Some(step.duplicate());
        step
    }

    fn last_step(&self) -> (r: Option<&Step<T>>) {
        self.last_step.as_ref()
    }

    fn handle_error(&self, msg: &str) -> (e: String) {
        msg.to_owned()
    }
}

impl<T: EpsilonThreshold> ShadowState<T> {
    /// Whether a run with its shadow points from this initialised state
    /// ends in `end` with the given history and shadow points: the first
    /// step is made, and then steps until the state is done; the history is
    /// every step emitted, and the points are the point before the first
    /// step and the point after every step.
    pub open spec fn traced(
        self,
        end: ShadowState<T>,
        history: Seq<StepView<T>>,
        points: Seq<(T, T)>,
    ) -> bool {
        exists|fuel: nat| #[trigger]
            self.next().trace_req(fuel) && {
                &&& end == self.next().end(fuel)
                &&& history == seq![self.record()] + self.next().history(fuel)
                &&& points == seq![self.point()] + self.next().points(fuel)
            }
    }

    /// A run ends in a done state; there is one more shadow point than
    /// steps after this state, and the last point is that of the end.
    pub proof fn lemma_trace(self, fuel: nat)
        requires
            self.trace_req(fuel),
        ensures
            self.end(fuel).done,
            self.points(fuel).len() == self.history(fuel).len() + 1,
            self.points(fuel).last() == self.end(fuel).point(),
            self.history(fuel).len() > 0 ==> self.end(fuel).last_step == Some(
                self.history(fuel).last(),
            ),
            self.history(fuel).len() == 0 ==> self.end(fuel) == self,
        decreases fuel,
    {
        if !self.done {
            self.next().lemma_trace((fuel - 1) as nat);
            let rest = self.next().history((fuel - 1) as nat);
            let points = self.next().points((fuel - 1) as nat);
            assert((seq![self.point()] + points).last() == points.last());
            if rest.len() > 0 {
                assert((seq![self.record()] + rest).last() == rest.last());
            }
        }
    }
}

impl<T: EpsilonThreshold> ShadowVertexSimplexSolver<T> {
    /// Runs to completion as `solve` does, and gives besides the solution
    /// the history of the steps and the points in the shadow plane: the
    /// point before the first step and the point after every step, so one
    /// more point than steps, the last of them at the final objective value.
    pub fn solve_with_shadow_history(&mut self, source: InitSource<T>) -> (r: Result<
        ShadowSolveResult<T>,
        String,
    >)
        requires
            old(self).inv(),
            Self::init_req(old(self).state(), &source),
            Self::feasible(Self::init_state(old(self).state(), &source)) ==> {
                &&& Self::init_state(old(self).state(), &source).point_req()
                &&& Self::init_state(old(self).state(), &source).can_step()
                &&& Self::init_state(old(self).state(), &source).next().can_trace()
            },
        ensures
            final(self).inv(),
            !Self::feasible(Self::init_state(old(self).state(), &source)) ==> {
                &&& final(self).state() == Self::init_state(old(self).state(), &source)
                &&& (r matches Err(e) && e@ == infeasible_message())
            },
            Self::feasible(Self::init_state(old(self).state(), &source)) ==> {
                &&& final(self).state().done
                &&& (final(self).state().last_step matches Some(step) && match step.solution() {
                    Some(solution) => (r matches Ok(res) && {
                        &&& res.solution@ == solution
                        &&& Self::init_state(old(self).state(), &source).traced(
                            final(self).state(),
                            steps_view(res.history@),
                            res.shadow_points@,
                        )
                        &&& res.shadow_points@.len() == res.history@.len() + 1
                        &&& res.history@.last()@ == step
                        &&& res.shadow_points@.last().1 == step.objective_value
                    }),
                    None => (r matches Err(e) && e@ == premature_message()),
                })
            },
    {
        self.init(source);
        let ghost start = self.state();
        match self.find_initial_bfs() {
            Ok(_) => {},
            Err(e) => {
                return Err(e);
            },
        }
        let ghost first = start.next();
        let ghost total = choose|fuel: nat| #[trigger] first.trace_req(fuel);
        let ghost fuel = total;
        let mut shadow_points: Vec<(T, T)> = Vec::new();
        shadow_points.push(self.current_shadow_point());
        let mut last_step = self.step();
        let mut history: Vec<Step<T>> = Vec::new();
        while !self.is_done()
            invariant
                self.inv(),
                self.state().trace_req(fuel),
                self.state().end(fuel) == first.end(total),
                steps_view(history@) + seq![last_step@] + self.state().history(fuel)
                    == seq![start.record()] + first.history(total),
                shadow_points@ + self.state().points(fuel) == seq![start.point()] + first.points(
                    total,
                ),
                self.state().last_step == Some(last_step@),
                self.state().tableau matches Some(t) && t.objective_value()
                    == last_step@.objective_value,
            decreases fuel,
        {
            let ghost cur = self.state();
            let ghost old_history = steps_view(history@);
            let ghost old_points = shadow_points@;
            let ghost old_last = last_step@;
            history.push(last_step.duplicate());
            shadow_points.push(self.current_shadow_point());
            last_step = self.step();
            proof {
                fuel = (fuel - 1) as nat;
                assert(steps_view(history@) =~= old_history + seq![old_last]);
                assert(steps_view(history@) + seq![last_step@] + self.state().history(fuel)
                    =~= old_history + seq![old_last] + cur.history((fuel + 1) as nat));
                assert(shadow_points@ + self.state().points(fuel) =~= old_points + cur.points(
                    (fuel + 1) as nat,
                ));
            }
        }
        let ghost stepped = steps_view(history@);
        let ghost old_points = shadow_points@;
        history.push(last_step.duplicate());
        shadow_points.push(self.current_shadow_point());
        proof {
            let end = self.state();
            first.lemma_trace(total);
            assert(steps_view(history@) =~= stepped + seq![last_step@]);
            assert(steps_view(history@) =~= seq![start.record()] + first.history(total));
            assert(shadow_points@ =~= old_points + seq![end.point()]);
            assert(shadow_points@ =~= seq![start.point()] + first.points(total));
            assert(end == first.end(total));
            assert(history@.last()@ == steps_view(history@).last());
            end.tableau.unwrap().lemma_point_objective(end.d_coeffs, end.d_slack, end.d_rhs);
            if first.history(total).len() == 0 {
                assert(end == first);
            }
            assert(first.trace_req(total));
            assert(start.traced(end, steps_view(history@), shadow_points@));
            assert(end.last_step == Some(last_step@));
            assert(shadow_points@.len() == history@.len() + 1);
            assert(shadow_points@.last().1 == last_step@.objective_value);
        }
        let solution = match last_step.status {
            Status::Optimal => Solution {
                x: last_step.primal,
                objective: last_step.objective_value,
                status: Status::Optimal,
            },
            Status::Infeasible => Solution {
                x: Vec::new(),
                objective: T::zero(),
                status: Status::Infeasible,
            },
            Status::Unbounded => Solution {
                x: Vec::new(),
                objective: T::zero(),
                status: Status::Unbounded,
            },
            Status::InProgress => {
                return Err(self.handle_error("Solver stopped prematurely"));
            },
        };
        Ok(ShadowSolveResult { solution, history, shadow_points })
    }
}

impl<T: Scalar> TableauView<T> {
    /// The second coordinate of the shadow point is the value of the
    /// objective row.
    pub proof fn lemma_point_objective(self, d_coeffs: Seq<T>, d_slack: Seq<T>, d_rhs: T)
        ensures
            self.shadow_point(d_coeffs, d_slack, d_rhs).1 == self.objective_value(),
    {
    }
}

} // verus!
