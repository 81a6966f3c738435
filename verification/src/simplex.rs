//! The primal simplex solver with Dantzig's rule.

use crate::pivot::PivotResult;
use crate::scalar::Scalar;
use crate::solver::InitSource;
use crate::solver::Solver;
use crate::solver::Status;
use crate::solver::Step;
use crate::solver::StepView;
use crate::tableau::Tableau;
use crate::tableau::TableauView;
use vstd::prelude::*;

verus! {

/// The primal simplex solver: its tableau, the pivots made so far, and the
/// most recent step.
pub struct SimplexSolver<T> {
    tableau: Option<Tableau<T>>,
    iteration: usize,
    n_vars: usize,
    done: bool,
    last_step: Option<Step<T>>,
}

/// The solver as a value.
pub struct SimplexState<T> {
    pub tableau: Option<TableauView<T>>,
    pub iteration: nat,
    pub n_vars: nat,
    pub done: bool,
    pub last_step: Option<StepView<T>>,
}

/// The step that a solver emits at a tableau.
pub open spec fn step_at<T: Scalar>(
    tableau: TableauView<T>,
    iteration: nat,
    n_vars: nat,
    status: Status,
) -> StepView<T> {
    StepView {
        iteration,
        primal: tableau.vertex(n_vars),
        objective_value: tableau.objective_value(),
        status,
    }
}

/// The tableau after what the search for a pivot found is carried out.
pub open spec fn tableau_after<T: Scalar>(tableau: TableauView<T>, found: PivotResult) -> TableauView<
    T,
> {
    match found {
        PivotResult::Pivot(r, k) => tableau.pivot(r as int, k as int),
        _ => tableau,
    }
}

/// The status that a step reports for what the search for a pivot found.
pub open spec fn status_of(found: PivotResult) -> Status {
    match found {
        PivotResult::Pivot(_, _) => Status::InProgress,
        PivotResult::Optimal => Status::Optimal,
        PivotResult::Unbounded => Status::Unbounded,
    }
}

/// Whether what the search for a pivot found can be carried out: a pivot
/// can be computed and counted.
pub open spec fn pivot_found_req<T: Scalar>(
    tableau: TableauView<T>,
    found: PivotResult,
    iteration: nat,
) -> bool {
    found matches PivotResult::Pivot(r, k) ==> tableau.pivot_req(r as int, k as int) && iteration
        < usize::MAX
}

/// The number of pivots made once what the search found is carried out.
pub open spec fn iteration_after(found: PivotResult, iteration: nat) -> nat {
    match found {
        PivotResult::Pivot(_, _) => iteration + 1,
        _ => iteration,
    }
}

/// Emits the step at a tableau.
pub fn emit_step<T: Scalar>(tableau: &Tableau<T>, iteration: usize, n_vars: usize, status: Status) -> (s:
    Step<T>)
    requires
        tableau.wf(),
    ensures
        s@ == step_at(tableau@, iteration as nat, n_vars as nat, status),
{
    proof {
        tableau.lemma_rhs_view();
    }
    Step {
        iteration,
        primal: tableau.current_vertex(n_vars),
        objective_value: tableau.z_rhs,
        status,
    }
}

impl<T: Scalar> SimplexSolver<T> {
    /// A solver that has not been given a problem yet.
    pub fn new() -> (solver: Self)
        ensures
            solver.inv(),
            solver.state() == (SimplexState::<T> {
                tableau: None,
                iteration: 0,
                n_vars: 0,
                done: false,
                last_step: None,
            }),
    {
        SimplexSolver { tableau: None, iteration: 0, n_vars: 0, done: false, last_step: None }
    }
}

impl<T: Scalar> SimplexState<T> {
    /// A step keeps the solver's tableau canonical and feasible, and does
    /// not lower the value of the objective row.
    pub proof fn lemma_step_keeps_invariants(self)
        requires
            SimplexSolver::<T>::step_req(self),
            self.tableau matches Some(t) && {
                &&& t.wf()
                &&& t.n + t.m() <= usize::MAX
                &&& t.basis_is_identity()
                &&& t.basic_costs_are_zero()
                &&& t.is_feasible()
            },
        ensures
            SimplexSolver::<T>::step_state(self).tableau matches Some(t) && {
                &&& t.wf()
                &&& t.basis_is_identity()
                &&& t.basic_costs_are_zero()
                &&& t.is_feasible()
                &&& t.objective_value().val() >= self.tableau.unwrap().objective_value().val()
            },
    {
        let t = self.tableau.unwrap();
        match t.find_pivot() {
            PivotResult::Pivot(r, k) => {
                let costs = t.costs();
                let j = choose|j: int| crate::pivot::is_most_negative(costs, j);
                assert(crate::pivot::is_most_negative(costs, j));
                assert(costs[j] == t.z[j].val());
                let i = choose|i: int| t.is_ratio_row(k as int, i);
                assert(t.is_ratio_row(k as int, i));
                t.lemma_ratio_pivot(k as int);
                t.lemma_pivot_unit_column(r as int, k as int);
            },
            _ => {},
        }
    }
}

impl<T: Scalar> SimplexState<T> {
    /// A step keeps the objective row the reduced objective: where it was
    /// the objective `c` reduced at the basis, it still is after the step.
    /// So the value that a step reports is the constant of `c` less the
    /// value of `c` at the vertex that the step reports.
    pub proof fn lemma_step_keeps_objective_reduced(self, c: Seq<T>)
        requires
            SimplexSolver::<T>::step_req(self),
            self.tableau matches Some(t) && {
                &&& t.wf()
                &&& t.n + t.m() <= usize::MAX
                &&& c.len() == t.width()
                &&& t.objective_is_reduced(c)
            },
        ensures
            SimplexSolver::<T>::step_state(self).tableau matches Some(t) && t.objective_is_reduced(
                c,
            ),
    {
        let t = self.tableau.unwrap();
        match t.find_pivot() {
            PivotResult::Pivot(r, k) => {
                let costs = t.costs();
                let j = choose|j: int| crate::pivot::is_most_negative(costs, j);
                assert(crate::pivot::is_most_negative(costs, j));
                let i = choose|i: int| t.is_ratio_row(k as int, i);
                assert(t.is_ratio_row(k as int, i));
                t.lemma_pivot_keeps_objective_reduced(c, r as int, k as int);
            },
            _ => {},
        }
    }
}

impl<T: Scalar> SimplexState<T> {
    /// A step keeps the solutions of the constraint system: a point that
    /// solves it before the step solves it after.
    pub proof fn lemma_step_keeps_solutions(self, x: Seq<real>)
        requires
            SimplexSolver::<T>::step_req(self),
            self.tableau matches Some(t) && t.wf() && t.solves(x),
        ensures
            SimplexSolver::<T>::step_state(self).tableau matches Some(t) && t.solves(x),
    {
        let t = self.tableau.unwrap();
        match t.find_pivot() {
            PivotResult::Pivot(r, k) => {
                let costs = t.costs();
                let j = choose|j: int| crate::pivot::is_most_negative(costs, j);
                assert(crate::pivot::is_most_negative(costs, j));
                let i = choose|i: int| t.is_ratio_row(k as int, i);
                assert(t.is_ratio_row(k as int, i));
                t.lemma_pivot_keeps_solutions(r as int, k as int, x);
            },
            _ => {},
        }
    }
}

impl<T: Scalar> SimplexState<T> {
    /// Why the solver may stop at `Optimal`. Where the tableau is canonical
    /// and feasible and its objective row is the objective `c` reduced at
    /// the basis, a step that reports `Optimal` leaves the tableau as it is,
    /// and the basic solution, which the step reports, solves the constraint
    /// system with no negative variable and costs no more than any point
    /// `x` that does so.
    pub proof fn lemma_optimal_is_optimal(self, c: Seq<T>, x: Seq<real>)
        requires
            SimplexSolver::<T>::step_req(self),
            self.tableau matches Some(t) && {
                &&& t.wf()
                &&& c.len() == t.width()
                &&& t.objective_is_reduced(c)
                &&& t.basis_is_identity()
                &&& t.is_feasible()
                &&& t.solves(x)
            },
            forall|j: int| 0 <= j < x.len() ==> #[trigger] x[j] >= 0real,
            SimplexSolver::<T>::step_record(self).status == Status::Optimal,
        ensures
            SimplexSolver::<T>::step_state(self).tableau == self.tableau,
            self.tableau.unwrap().solves(self.tableau.unwrap().vertex_point()),
            forall|j: int|
                0 <= j < self.tableau.unwrap().vars() ==> #[trigger] self.tableau.unwrap().vertex_point()[j]
                    >= 0real,
            forall|v: int|
                0 <= v < self.n_vars && v < self.tableau.unwrap().vars() ==> (
                #[trigger] SimplexSolver::<T>::step_record(self).primal[v]).val()
                    == self.tableau.unwrap().vertex_point()[v],
            self.tableau.unwrap().cost_at(c, x) >= self.tableau.unwrap().cost_at(
                c,
                self.tableau.unwrap().vertex_point(),
            ),
    {
        let t = self.tableau.unwrap();
        crate::pivot::lemma_no_negative(t.costs());
        assert forall|j: int| 0 <= j < t.vars() implies (#[trigger] t.z[j]).val() >= 0real by {
            assert(t.costs()[j] >= 0real);
        }
        t.lemma_no_point_costs_less(c, x);
        t.lemma_vertex_point(c);
        t.lemma_vertex_values(self.n_vars);
    }
}

impl<T: Scalar> Default for SimplexSolver<T> {
    fn default() -> (solver: Self)
        ensures
            solver.inv(),
            solver.state() == (SimplexState::<T> {
                tableau: None,
                iteration: 0,
                n_vars: 0,
                done: false,
                last_step: None,
            }),
    {
        Self::new()
    }
}

impl<T: Scalar> Solver<T> for SimplexSolver<T> {
    type Error = String;

    type State = SimplexState<T>;

    closed spec fn state(&self) -> SimplexState<T> {
        SimplexState {
            tableau: match self.tableau {
                Some(t) => Some(t@),
                None => None,
            },
            iteration: self.iteration as nat,
            n_vars: self.n_vars as nat,
            done: self.done,
            last_step: match self.last_step {
                Some(s) => Some(s@),
                None => None,
            },
        }
    }

    closed spec fn inv(&self) -> bool {
        self.tableau matches Some(t) ==> t.wf()
    }

    open spec fn error_says(e: &String, msg: Seq<char>) -> bool {
        e@ == msg
    }

    open spec fn init_req(before: SimplexState<T>, source: &InitSource<T>) -> bool {
        source.lowering_req() && source.n_vars() <= usize::MAX
    }

    open spec fn init_state(before: SimplexState<T>, source: &InitSource<T>) -> SimplexState<T> {
        SimplexState {
            tableau: Some(source.tableau_form()),
            iteration: 0,
            n_vars: source.n_vars(),
            done: false,
            last_step: None,
        }
    }

    /// The slack basis is feasible where no right-hand side is negative.
    open spec fn feasible(s: SimplexState<T>) -> bool {
        s.tableau matches Some(t) ==> !t.has_negative_rhs()
    }

    /// A step needs a tableau, and must be able to search for the pivot by
    /// Dantzig's rule and to make it.
    open spec fn step_req(s: SimplexState<T>) -> bool {
        &&& s.tableau matches Some(t) && t.find_pivot_req() && pivot_found_req(
            t,
            t.find_pivot(),
            s.iteration,
        )
    }

    /// A step makes the pivot that Dantzig's rule and the ratio test find
    /// and counts it; where they find none, the solver is done.
    open spec fn step_state(s: SimplexState<T>) -> SimplexState<T> {
        let t = s.tableau.unwrap();
        let found = t.find_pivot();
        SimplexState {
            tableau: Some(tableau_after(t, found)),
            iteration: iteration_after(found, s.iteration),
            n_vars: s.n_vars,
            done: s.done || !(found is Pivot),
            last_step: Some(Self::step_record(s)),
        }
    }

    open spec fn step_record(s: SimplexState<T>) -> StepView<T> {
        let t = s.tableau.unwrap();
        let found = t.find_pivot();
        step_at(
            tableau_after(t, found),
            iteration_after(found, s.iteration),
            s.n_vars,
            status_of(found),
        )
    }

    open spec fn done(s: SimplexState<T>) -> bool {
        s.done
    }

    open spec fn last(s: SimplexState<T>) -> Option<StepView<T>> {
        s.last_step
    }

    fn init(&mut self, source: InitSource<T>) {
        let (n_vars, tableau) = source.into_tableau_and_n_vars();
        self.n_vars = n_vars;
        self.tableau = Some(tableau);
        self.iteration = 0;
        self.done = false;
        self.last_step = None;
    }

    fn find_initial_bfs(&mut self) -> (r: Result<bool, String>) {
        let negative = match &self.tableau {
            Some(t) => t.has_negative_rhs(),
            None => false,
        };
        if negative {
            return Err("Infeasible: initial tableau has negative RHS".to_owned());
        }
        Ok(true)
    }

    fn is_done(&self) -> (b: bool) {
        self.done
    }

    fn step(&mut self) -> (s: Step<T>) {
        let mut tab = self.tableau.take().unwrap();
        proof {
            tab.lemma_view_wf();
        }
        let status = match tab.find_pivot_indices() {
            PivotResult::Pivot(row, col) => {
                tab.pivot(row, col);
                self.iteration += 1;
                Status::InProgress
            },
            PivotResult::Optimal => {
                self.done = true;
                Status::Optimal
            },
            PivotResult::Unbounded => {
                self.done = true;
                Status::Unbounded
            },
        };
        let step = emit_step(&tab, self.iteration, self.n_vars, status);
        self.tableau = Some(tab);
        self.last_step = Some(step.duplicate());
        step
    }

    fn last_step(&self) -> (r: Option<&Step<T>>) {
        self.last_step.as_ref()
    }

    fn handle_error(&self, msg: &str) -> (e: String) {
        msg.to_owned()
    }
}

} // verus!
