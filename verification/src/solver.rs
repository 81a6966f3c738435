//! The driver that the simplex strategies share: what a solver is given,
//! what it emits, and how it is run to completion.

use crate::problem::Problem;
use crate::scalar::Scalar;
use crate::standard_form::StandardForm;
use crate::tableau::Tableau;
use crate::tableau::TableauView;
use vstd::prelude::*;

verus! {

/// What a solver is initialised from.
#[derive(Clone)]
pub enum InitSource<T> {
    Problem(Problem<T>),
    StandardForm(StandardForm<T>),
}

/// How far a solver has come.
#[derive(Debug, Clone, Copy, PartialEq, Eq, Structural)]
pub enum Status {
    InProgress,
    Optimal,
    Infeasible,
    Unbounded,
}

impl Default for Status {
    fn default() -> (s: Self)
        ensures
            s == Status::InProgress,
    {
        Status::InProgress
    }
}

/// What one step of a solver emits: the number of pivots made so far, the
/// current vertex, the objective row's value there, and the status.
#[derive(Clone, Debug)]
pub struct Step<T> {
    pub iteration: usize,
    pub primal: Vec<T>,
    pub objective_value: T,
    pub status: Status,
}

/// The outcome of a run.
#[derive(Clone, Debug)]
pub struct Solution<T> {
    pub x: Vec<T>,
    pub objective: T,
    pub status: Status,
}

/// A step as a value.
pub struct StepView<T> {
    pub iteration: nat,
    pub primal: Seq<T>,
    pub objective_value: T,
    pub status: Status,
}

/// A solution as a value.
pub struct SolutionView<T> {
    pub x: Seq<T>,
    pub objective: T,
    pub status: Status,
}

impl<T> View for Step<T> {
    type V = StepView<T>;

    open spec fn view(&self) -> StepView<T> {
        StepView {
            iteration: self.iteration as nat,
            primal: self.primal@,
            objective_value: self.objective_value,
            status: self.status,
        }
    }
}

impl<T> View for Solution<T> {
    type V = SolutionView<T>;

    open spec fn view(&self) -> SolutionView<T> {
        SolutionView { x: self.x@, objective: self.objective, status: self.status }
    }
}

impl<T: Scalar> Step<T> {
    /// A copy of this step.
    pub fn duplicate(&self) -> (s: Self)
        ensures
            s@ == self@,
    {
        Step {
            iteration: self.iteration,
            primal: vstd::slice::slice_to_vec(self.primal.as_slice()),
            objective_value: self.objective_value,
            status: self.status,
        }
    }
}

impl<T: Scalar> StepView<T> {
    /// The solution that a run ending in this step reports: the vertex and
    /// its value where the step is optimal, no vertex and a zero value where
    /// it is infeasible or unbounded, and none where it is still in
    /// progress.
    pub open spec fn solution(self) -> Option<SolutionView<T>> {
        match self.status {
            Status::Optimal => Some(
                SolutionView {
                    x: self.primal,
                    objective: self.objective_value,
                    status: Status::Optimal,
                },
            ),
            Status::Infeasible => Some(
                SolutionView {
                    x: Seq::empty(),
                    objective: T::zero_spec(),
                    status: Status::Infeasible,
                },
            ),
            Status::Unbounded => Some(
                SolutionView {
                    x: Seq::empty(),
                    objective: T::zero_spec(),
                    status: Status::Unbounded,
                },
            ),
            Status::InProgress => None,
        }
    }
}

impl<T: Scalar> InitSource<T> {
    /// Whether the source can be lowered to a tableau.
    pub open spec fn lowering_req(&self) -> bool {
        match self {
            InitSource::Problem(p) => p.lowering_req() && p.tableau_fits(),
            InitSource::StandardForm(sf) => sf.wf() && sf.slack_is_last() && sf.tableau_fits(),
        }
    }

    /// The initial tableau of the source.
    pub open spec fn tableau_form(&self) -> TableauView<T> {
        match self {
            InitSource::Problem(p) => p.tableau_form(),
            InitSource::StandardForm(sf) => sf.tableau_form(),
        }
    }

    /// The number of structural variables of the source.
    pub open spec fn n_vars(&self) -> nat {
        match self {
            InitSource::Problem(p) => p.n(),
            InitSource::StandardForm(sf) => (sf.a.cols - sf.slack_indices@.len()) as nat,
        }
    }

    /// The initial tableau of the source, with the number of its structural
    /// variables.
    pub fn into_tableau_and_n_vars(self) -> (r: (usize, Tableau<T>))
        requires
            self.lowering_req(),
        ensures
            r.0 == self.n_vars(),
            r.1.wf(),
            r.1@ == self.tableau_form(),
    {
        match self {
            InitSource::Problem(p) => {
                let n_vars = p.objective.len();
                let tableau = p.into_tableau_form();
                (n_vars, tableau)
            },
            InitSource::StandardForm(sf) => {
                let n_vars = sf.n_vars();
                let tableau = sf.into_tableau();
                (n_vars, tableau)
            },
        }
    }
}

/// The steps of a history as values.
pub open spec fn steps_view<T>(steps: Seq<Step<T>>) -> Seq<StepView<T>> {
    Seq::new(steps.len(), |i: int| steps[i]@)
}

/// What `find_initial_bfs` says of a tableau with a negative right-hand
/// side.
pub open spec fn infeasible_message() -> Seq<char> {
    "Infeasible: initial tableau has negative RHS"@
}

/// What `solve` says where the last step is still in progress.
pub open spec fn premature_message() -> Seq<char> {
    "Solver stopped prematurely"@
}

/// A stepwise solver: `init`, then `find_initial_bfs`, then `step` until
/// `is_done`.
///
/// `State` is the solver as a value. A strategy says through `feasible`,
/// `step_req`, `step_state`, `step_record` and `done` what its steps do to
/// that value; the driver's `solve` is stated over them.
pub trait Solver<T: Scalar>: Sized {
    type Error;

    type State;

    /// The solver as a value.
    spec fn state(&self) -> Self::State;

    /// What the solver holds fits together. Every solver starts so and
    /// every method keeps it so.
    spec fn inv(&self) -> bool;

    /// Whether the error carries this message.
    spec fn error_says(e: &Self::Error, msg: Seq<char>) -> bool;

    /// Whether the solver can take up the source.
    spec fn init_req(before: Self::State, source: &InitSource<T>) -> bool;

    /// The solver after it took up the source.
    spec fn init_state(before: Self::State, source: &InitSource<T>) -> Self::State;

    /// Whether the basis that the solver starts from is feasible.
    spec fn feasible(s: Self::State) -> bool;

    /// Whether the next step can be computed.
    spec fn step_req(s: Self::State) -> bool;

    /// The solver after the next step.
    spec fn step_state(s: Self::State) -> Self::State;

    /// What the next step emits.
    spec fn step_record(s: Self::State) -> StepView<T>;

    /// Whether a terminal status has been emitted.
    spec fn done(s: Self::State) -> bool;

    /// The most recent step, if any.
    spec fn last(s: Self::State) -> Option<StepView<T>>;

    /// Takes up a problem or a standard form: builds the tableau and clears
    /// the iteration state.
    fn init(&mut self, source: InitSource<T>)
        requires
            old(self).inv(),
            Self::init_req(old(self).state(), &source),
        ensures
            final(self).inv(),
            final(self).state() == Self::init_state(old(self).state(), &source),
    ;

    /// Checks that the basis to start from is feasible: `Ok(true)` where it
    /// is, an error that says "Infeasible" where it is not.
    fn find_initial_bfs(&mut self) -> (r: Result<bool, Self::Error>)
        requires
            old(self).inv(),
        ensures
            final(self).inv(),
            final(self).state() == old(self).state(),
            Self::feasible(old(self).state()) ==> (r matches Ok(b) && b),
            !Self::feasible(old(self).state()) ==> (r matches Err(e) && Self::error_says(
                &e,
                infeasible_message(),
            )),
    ;

    /// Makes one pivot, or commits to a terminal status.
    fn step(&mut self) -> (s: Step<T>)
        requires
            old(self).inv(),
            Self::step_req(old(self).state()),
        ensures
            final(self).inv(),
            final(self).state() == Self::step_state(old(self).state()),
            s@ == Self::step_record(old(self).state()),
            Self::last(final(self).state()) == Some(s@),
    ;

    /// Whether a terminal status has been emitted.
    fn is_done(&self) -> (b: bool)
        ensures
            b == Self::done(self.state()),
    ;

    /// The most recent step, if any.
    fn last_step(&self) -> (r: Option<&Step<T>>)
        ensures
            match r {
                Some(s) => Self::last(self.state()) == Some(s@),
                None => Self::last(self.state()).is_none(),
            },
    ;

    /// The error that carries the message.
    fn handle_error(&self, msg: &str) -> (e: Self::Error)
        ensures
            Self::error_says(&e, msg@),
    ;

    /// Runs to completion: `init`, `find_initial_bfs`, then `step` until
    /// done.
    ///
    /// From an infeasible start the solver stays as `init` left it and the
    /// error says "Infeasible". Otherwise the solver ends in the first done
    /// state that its steps reach, and the result is the solution that the
    /// last step reports, or the error "Solver stopped prematurely" where
    /// that step is still in progress.
    fn solve(&mut self, source: InitSource<T>) -> (r: Result<Solution<T>, Self::Error>)
        requires
            old(self).inv(),
            Self::init_req(old(self).state(), &source),
            Self::feasible(Self::init_state(old(self).state(), &source)) ==> {
                &&& Self::step_req(Self::init_state(old(self).state(), &source))
                &&& can_run(
                    |s: Self::State| Self::done(s),
                    |s: Self::State| Self::step_req(s),
                    |s: Self::State| Self::step_state(s),
                    Self::step_state(Self::init_state(old(self).state(), &source)),
                )
            },
        ensures
            final(self).inv(),
            !Self::feasible(Self::init_state(old(self).state(), &source)) ==> {
                &&& final(self).state() == Self::init_state(old(self).state(), &source)
                &&& (r matches Err(e) && Self::error_says(&e, infeasible_message()))
            },
            Self::feasible(Self::init_state(old(self).state(), &source)) ==> {
                &&& Self::done(final(self).state())
                &&& runs_to(
                    |s: Self::State| Self::done(s),
                    |s: Self::State| Self::step_req(s),
                    |s: Self::State| Self::step_state(s),
                    Self::step_state(Self::init_state(old(self).state(), &source)),
                    final(self).state(),
                )
                &&& (Self::last(final(self).state()) matches Some(step) && match step.solution() {
                    Some(solution) => (r matches Ok(sol) && sol@ == solution),
                    None => (r matches Err(e) && Self::error_says(&e, premature_message())),
                })
            },
    {
        self.init(source);
        let ghost start = self.state();
        match self.find_initial_bfs() {
            Ok(_) => {},
            Err(e) => {
                return Err(e);
            },
        }
        let ghost done = |s: Self::State| Self::done(s);
        let ghost step_req = |s: Self::State| Self::step_req(s);
        let ghost step = |s: Self::State| Self::step_state(s);
        let ghost first = Self::step_state(start);
        let ghost total = choose|fuel: nat| #[trigger] run_req(done, step_req, step, first, fuel);
        let ghost fuel = total;
        let mut last_step = self.step();
        while !self.is_done()
            invariant
                self.inv(),
                done == |s: Self::State| Self::done(s),
                step_req == |s: Self::State| Self::step_req(s),
                step == |s: Self::State| Self::step_state(s),
                run_req(done, step_req, step, self.state(), fuel),
                run(done, step, self.state(), fuel) == run(done, step, first, total),
                Self::last(self.state()) == Some(last_step@),
            decreases fuel,
        {
            last_step = self.step();
            proof {
                fuel = (fuel - 1) as nat;
            }
        }
        proof {
            assert(run(done, step, self.state(), fuel) == self.state());
        }
        match last_step.status {
            Status::Optimal => Ok(
                Solution {
                    x: last_step.primal,
                    objective: last_step.objective_value,
                    status: Status::Optimal,
                },
            ),
            Status::Infeasible => Ok(
                Solution { x: Vec::new(), objective: T::zero(), status: Status::Infeasible },
            ),
            Status::Unbounded => Ok(
                Solution { x: Vec::new(), objective: T::zero(), status: Status::Unbounded },
            ),
            Status::InProgress => Err(self.handle_error("Solver stopped prematurely")),
        }
    }

    /// Runs to completion as `solve` does, and gives besides the solution
    /// every step made, in order.
    fn solve_with_history(&mut self, source: InitSource<T>) -> (r: Result<
        (Solution<T>, Vec<Step<T>>),
        Self::Error,
    >)
        requires
            old(self).inv(),
            Self::init_req(old(self).state(), &source),
            Self::feasible(Self::init_state(old(self).state(), &source)) ==> {
                &&& Self::step_req(Self::init_state(old(self).state(), &source))
                &&& can_run(
                    |s: Self::State| Self::done(s),
                    |s: Self::State| Self::step_req(s),
                    |s: Self::State| Self::step_state(s),
                    Self::step_state(Self::init_state(old(self).state(), &source)),
                )
            },
        ensures
            final(self).inv(),
            !Self::feasible(Self::init_state(old(self).state(), &source)) ==> {
                &&& final(self).state() == Self::init_state(old(self).state(), &source)
                &&& (r matches Err(e) && Self::error_says(&e, infeasible_message()))
            },
            Self::feasible(Self::init_state(old(self).state(), &source)) ==> {
                &&& Self::done(final(self).state())
                &&& (Self::last(final(self).state()) matches Some(step) && match step.solution() {
                    Some(solution) => (r matches Ok(res) && {
                        &&& res.0@ == solution
                        &&& runs_with_history(
                            |s: Self::State| Self::done(s),
                            |s: Self::State| Self::step_req(s),
                            |s: Self::State| Self::step_state(s),
                            |s: Self::State| Self::step_record(s),
                            Self::step_state(Self::init_state(old(self).state(), &source)),
                            final(self).state(),
                            steps_view(res.1@).drop_first(),
                        )
                        &&& res.1@.len() > 0
                        &&& res.1@.first()@ == Self::step_record(
                            Self::init_state(old(self).state(), &source),
                        )
                        &&& res.1@.last()@ == step
                    }),
                    None => (r matches Err(e) && Self::error_says(&e, premature_message())),
                })
            },
    {
        self.init(source);
        let ghost start = self.state();
        match self.find_initial_bfs() {
            Ok(_) => {},
            Err(e) => {
                return Err(e);
            },
        }
        let ghost done = |s: Self::State| Self::done(s);
        let ghost step_req = |s: Self::State| Self::step_req(s);
        let ghost step = |s: Self::State| Self::step_state(s);
        let ghost record = |s: Self::State| Self::step_record(s);
        let ghost first = Self::step_state(start);
        let ghost total = choose|fuel: nat| #[trigger] run_req(done, step_req, step, first, fuel);
        let ghost fuel = total;
        let mut history: Vec<Step<T>> = Vec::new();
        let mut last_step = self.step();
        while !self.is_done()
            invariant
                self.inv(),
                done == |s: Self::State| Self::done(s),
                step_req == |s: Self::State| Self::step_req(s),
                step == |s: Self::State| Self::step_state(s),
                record == |s: Self::State| Self::step_record(s),
                run_req(done, step_req, step, self.state(), fuel),
                run(done, step, self.state(), fuel) == run(done, step, first, total),
                steps_view(history@) + seq![last_step@] + history_of(
                    done,
                    step,
                    record,
                    self.state(),
                    fuel,
                ) == seq![Self::step_record(start)] + history_of(done, step, record, first, total),
                Self::last(self.state()) == Some(last_step@),
            decreases fuel,
        {
            let ghost cur = self.state();
            let ghost old_history = steps_view(history@);
            let ghost old_last = last_step@;
            history.push(last_step.duplicate());
            last_step = self.step();
            proof {
                fuel = (fuel - 1) as nat;
                assert(steps_view(history@) =~= old_history + seq![old_last]);
                assert(steps_view(history@) + seq![last_step@] + history_of(
                    done,
                    step,
                    record,
                    self.state(),
                    fuel,
                ) =~= old_history + seq![old_last] + history_of(
                    done,
                    step,
                    record,
                    cur,
                    (fuel + 1) as nat,
                ));
            }
        }
        let ghost stepped = steps_view(history@);
        history.push(last_step.duplicate());
        proof {
            assert(run(done, step, self.state(), fuel) == self.state());
            assert(steps_view(history@) =~= stepped + seq![last_step@]);
            assert(steps_view(history@) =~= seq![Self::step_record(start)] + history_of(
                done,
                step,
                record,
                first,
                total,
            ));
            assert(steps_view(history@).drop_first() =~= history_of(
                done,
                step,
                record,
                first,
                total,
            ));
            assert(run_req(done, step_req, step, first, total));
            assert(history@.first()@ == steps_view(history@).first());
            assert(history@.last()@ == steps_view(history@).last());
        }
        let solution = match last_step.status {
            Status::Optimal => Solution {
                x: last_step.primal,
                objective: last_step.objective_value,
                status: Status::Optimal,
            },
            Status::Infeasible => Solution {
                x: Vec::new(),
                objective: T::zero(),
                status: Status::Infeasible,
            },
            Status::Unbounded => Solution {
                x: Vec::new(),
                objective: T::zero(),
                status: Status::Unbounded,
            },
            Status::InProgress => {
                return Err(self.handle_error("Solver stopped prematurely"));
            },
        };
        Ok((solution, history))
    }
}

/// The steps that a run from `s` emits until it is done, within `fuel`
/// steps.
pub open spec fn history_of<S, R>(
    done: spec_fn(S) -> bool,
    step: spec_fn(S) -> S,
    record: spec_fn(S) -> R,
    s: S,
    fuel: nat,
) -> Seq<R>
    decreases fuel,
{
    if done(s) || fuel == 0 {
        Seq::empty()
    } else {
        seq![record(s)] + history_of(done, step, record, step(s), (fuel - 1) as nat)
    }
}

/// Whether `end` is the first done state that steps from `s` reach, and
/// `history` the steps emitted on the way.
pub open spec fn runs_with_history<S, R>(
    done: spec_fn(S) -> bool,
    step_req: spec_fn(S) -> bool,
    step: spec_fn(S) -> S,
    record: spec_fn(S) -> R,
    s: S,
    end: S,
    history: Seq<R>,
) -> bool {
    exists|fuel: nat| #[trigger]
        run_req(done, step_req, step, s, fuel) && end == run(done, step, s, fuel) && history
            == history_of(done, step, record, s, fuel)
}

/// Whether, from state `s`, steps that can all be computed reach a done
/// state within `fuel` steps.
pub open spec fn run_req<S>(
    done: spec_fn(S) -> bool,
    step_req: spec_fn(S) -> bool,
    step: spec_fn(S) -> S,
    s: S,
    fuel: nat,
) -> bool
    decreases fuel,
{
    done(s) || (fuel > 0 && step_req(s) && run_req(done, step_req, step, step(s), (fuel - 1) as nat))
}

/// The first done state that steps from `s` reach, within `fuel` steps.
pub open spec fn run<S>(done: spec_fn(S) -> bool, step: spec_fn(S) -> S, s: S, fuel: nat) -> S
    decreases fuel,
{
    if done(s) || fuel == 0 {
        s
    } else {
        run(done, step, step(s), (fuel - 1) as nat)
    }
}

/// Whether, from state `s`, steps that can all be computed reach a done
/// state.
pub open spec fn can_run<S>(
    done: spec_fn(S) -> bool,
    step_req: spec_fn(S) -> bool,
    step: spec_fn(S) -> S,
    s: S,
) -> bool {
    exists|fuel: nat| #[trigger] run_req(done, step_req, step, s, fuel)
}

/// Whether `end` is the first done state that steps from `s` reach.
pub open spec fn runs_to<S>(
    done: spec_fn(S) -> bool,
    step_req: spec_fn(S) -> bool,
    step: spec_fn(S) -> S,
    s: S,
    end: S,
) -> bool {
    exists|fuel: nat| #[trigger]
        run_req(done, step_req, step, s, fuel) && end == run(done, step, s, fuel)
}

/// With fuel enough to reach a done state, more fuel changes nothing.
pub proof fn lemma_run_fuel<S>(
    done: spec_fn(S) -> bool,
    step_req: spec_fn(S) -> bool,
    step: spec_fn(S) -> S,
    s: S,
    fuel: nat,
    more: nat,
)
    requires
        run_req(done, step_req, step, s, fuel),
        run_req(done, step_req, step, s, more),
    ensures
        run(done, step, s, fuel) == run(done, step, s, more),
        done(run(done, step, s, fuel)),
    decreases fuel,
{
    if !done(s) {
        lemma_run_fuel(done, step_req, step, step(s), (fuel - 1) as nat, (more - 1) as nat);
    }
}

} // verus!
