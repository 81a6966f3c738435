use linprog_core::model::Goal;
use linprog_core::problem::Problem;
use linprog_core::problem::Relation;
use linprog_core::rational::Rational;
use linprog_core::shadow_vertex::ShadowVertexSimplexSolver;
use linprog_core::simplex::SimplexSolver;
use linprog_core::solver::InitSource;
use linprog_core::solver::Solver;
use linprog_core::solver::Status;
use linprog_core::two_phase::TwoPhaseSimplexSolver;

fn rational(n: i64, d: i64) -> Rational {
    Rational::new(n, d)
}

fn max_3x_2y() -> Problem<Rational> {
    let mut prob = Problem::new(vec![rational(3, 1), rational(2, 1)], Goal::Max);
    prob.add_constraint(vec![rational(1, 1), rational(1, 1)], Relation::LessEqual, rational(4, 1));
    prob.add_constraint(vec![rational(2, 1), rational(1, 1)], Relation::LessEqual, rational(5, 1));
    prob
}

fn min_x_y() -> Problem<Rational> {
    let mut prob = Problem::new(vec![rational(1, 1), rational(1, 1)], Goal::Min);
    prob.add_constraint(vec![rational(1, 1), rational(0, 1)], Relation::LessEqual, rational(5, 1));
    prob.add_constraint(vec![rational(0, 1), rational(1, 1)], Relation::LessEqual, rational(5, 1));
    prob
}

#[test]
fn shadow_vertex_solves_simple_lp() {
    let prob = max_3x_2y();
    let mut solver = ShadowVertexSimplexSolver::new();
    let sol = solver.solve(InitSource::Problem(prob)).expect("solve");
    assert_eq!(sol.status, Status::Optimal);
    assert_eq!(sol.x.len(), 2);
    assert_eq!(sol.objective, rational(9, 1));
}

#[test]
fn shadow_vertex_with_d_zero_matches_standard_behavior() {
    let prob = min_x_y();
    let mut solver = ShadowVertexSimplexSolver::new();
    let sol = solver.solve(InitSource::Problem(prob.clone())).expect("solve");
    assert_eq!(sol.status, Status::Optimal);
    assert_eq!(sol.objective, rational(0, 1));
}

#[test]
fn primal_simplex_maximises_to_the_vertex_one_three() {
    let mut solver = SimplexSolver::new();
    let sol = solver.solve(InitSource::Problem(max_3x_2y())).expect("solve");
    assert_eq!(sol.status, Status::Optimal);
    assert_eq!(sol.x, vec![rational(1, 1), rational(3, 1)]);
    assert_eq!(sol.objective, rational(9, 1));
    assert!(solver.is_done());
    assert_eq!(solver.last_step().unwrap().status, Status::Optimal);
}

#[test]
fn primal_simplex_minimises_at_the_origin() {
    let mut solver = SimplexSolver::new();
    let sol = solver.solve(InitSource::Problem(min_x_y())).expect("solve");
    assert_eq!(sol.status, Status::Optimal);
    assert_eq!(sol.x, vec![rational(0, 1), rational(0, 1)]);
    assert_eq!(sol.objective, rational(0, 1));
}

#[test]
fn two_phase_reaches_nine_by_blands_rule() {
    let mut solver = TwoPhaseSimplexSolver::new();
    solver.init(InitSource::Problem(max_3x_2y()));
    assert_eq!(solver.find_initial_bfs(), Ok(true));
    // The first phase optimises d = -c, which is optimal at the origin.
    let first = solver.step();
    assert_eq!(first.status, Status::InProgress);
    assert_eq!(first.iteration, 0);
    // Bland's rule enters x0 first, then x1.
    let second = solver.step();
    assert_eq!(second.iteration, 1);
    assert_eq!(second.primal, vec![rational(5, 2), rational(0, 1)]);
    assert_eq!(second.objective_value, rational(15, 2));
    let third = solver.step();
    assert_eq!(third.iteration, 2);
    assert_eq!(third.primal, vec![rational(1, 1), rational(3, 1)]);
    assert!(!solver.is_done());
    let last = solver.step();
    assert_eq!(last.status, Status::Optimal);
    assert_eq!(last.objective_value, rational(9, 1));
    assert!(solver.is_done());

    let mut again = TwoPhaseSimplexSolver::new();
    let sol = again.solve(InitSource::Problem(max_3x_2y())).expect("solve");
    assert_eq!(sol.status, Status::Optimal);
    assert_eq!(sol.objective, rational(9, 1));
}

#[test]
fn shadow_history_has_one_more_point_than_steps() {
    let mut solver = ShadowVertexSimplexSolver::new();
    let res = solver
        .solve_with_shadow_history(InitSource::Problem(max_3x_2y()))
        .expect("solve");
    assert_eq!(res.solution.status, Status::Optimal);
    assert_eq!(res.solution.objective, rational(9, 1));
    assert_eq!(res.shadow_points.len(), res.history.len() + 1);
    assert_eq!(res.shadow_points.last().unwrap().1, res.solution.objective);
    // d = 0, so every point has first coordinate 0.
    for p in &res.shadow_points {
        assert_eq!(p.0, rational(0, 1));
    }
}

#[test]
fn unbounded_problem_is_reported_within_n_plus_m_iterations() {
    // Max x  s.t.  -x <= 1
    let mut prob = Problem::new(vec![rational(1, 1)], Goal::Max);
    prob.add_constraint(vec![rational(-1, 1)], Relation::LessEqual, rational(1, 1));
    let mut solver = SimplexSolver::new();
    let sol = solver.solve(InitSource::Problem(prob)).expect("solve");
    assert_eq!(sol.status, Status::Unbounded);
    assert!(sol.x.is_empty());
    assert!(solver.last_step().unwrap().iteration <= 2);
}

#[test]
fn negative_right_hand_side_is_infeasible_at_the_start() {
    // x >= ... normalises fine; a tableau with a negative RHS comes from a standard form.
    let mut prob = Problem::new(vec![rational(1, 1)], Goal::Max);
    prob.add_constraint(vec![rational(1, 1)], Relation::LessEqual, rational(2, 1));
    let mut tab = prob.into_tableau_form();
    tab.rhs[0] = rational(-2, 1);
    assert!(tab.has_negative_rhs());
}
