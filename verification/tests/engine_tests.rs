use linprog_core::elementwise::sub_assign_scaled;
use linprog_core::matrix::Matrix;
use linprog_core::matrix::Row;
use linprog_core::model::Goal;
use linprog_core::pivot::PivotResult;
use linprog_core::problem::Constraint;
use linprog_core::problem::Problem;
use linprog_core::problem::Relation;
use linprog_core::rational::Rational;
use linprog_core::shadow_vertex::ShadowVertexSimplexSolver;
use linprog_core::simplex::SimplexSolver;
use linprog_core::solver::InitSource;
use linprog_core::solver::Solver;
use linprog_core::solver::Status;
use linprog_core::standard_form::StandardForm;
use linprog_core::tableau::resolve_row_column;
use linprog_core::tableau::Tableau;
use linprog_core::tableau::TableauColumn;
use linprog_core::two_phase::TwoPhaseSimplexSolver;

fn q(n: i64, d: i64) -> Rational {
    Rational::new(n, d)
}

fn whole(values: &[i64]) -> Vec<Rational> {
    values.iter().map(|v| Rational::from_integer(*v)).collect()
}

fn max_3x_2y() -> Problem<Rational> {
    let mut prob = Problem::new(whole(&[3, 2]), Goal::Max);
    prob.add_constraint(whole(&[1, 1]), Relation::LessEqual, q(4, 1));
    prob.add_constraint(whole(&[2, 1]), Relation::LessEqual, q(5, 1));
    prob
}

#[test]
fn normalise_negates_both_sides_and_flips_the_relation() {
    let c = Constraint { coefficients: whole(&[1, -2]), relation: Relation::LessEqual, rhs: q(-3, 1) };
    let n = c.normalise();
    assert_eq!(n.coefficients, whole(&[-1, 2]));
    assert_eq!(n.relation, Relation::GreaterEqual);
    assert_eq!(n.rhs, q(3, 1));

    let c = Constraint { coefficients: whole(&[1, -2]), relation: Relation::GreaterEqual, rhs: q(-1, 2) };
    let n = c.normalise();
    assert_eq!(n.relation, Relation::LessEqual);
    assert_eq!(n.rhs, q(1, 2));

    let c = Constraint { coefficients: whole(&[1, -2]), relation: Relation::Equal, rhs: q(-1, 1) };
    let n = c.normalise();
    assert_eq!(n.coefficients, whole(&[-1, 2]));
    assert_eq!(n.relation, Relation::Equal);

    let c = Constraint { coefficients: whole(&[1, -2]), relation: Relation::LessEqual, rhs: q(0, 1) };
    let n = c.normalise();
    assert_eq!(n.coefficients, whole(&[1, -2]));
    assert_eq!(n.relation, Relation::LessEqual);
}

#[test]
fn standard_form_gives_every_inequality_the_next_slack_column() {
    let mut prob = Problem::new(whole(&[1, 2]), Goal::Min);
    prob.add_constraint(whole(&[1, 0]), Relation::Equal, q(1, 1));
    prob.add_constraint(whole(&[0, 1]), Relation::GreaterEqual, q(2, 1));
    prob.add_constraint(whole(&[1, 1]), Relation::LessEqual, q(-3, 1));
    let sf = prob.into_standard_form();
    assert_eq!(sf.a.rows, 3);
    assert_eq!(sf.a.cols, 4);
    assert_eq!(sf.n_vars(), 2);
    assert_eq!(sf.n_constraints(), 3);
    assert_eq!(sf.slack_indices, vec![2, 3]);
    assert_eq!(sf.b, whole(&[1, 2, 3]));
    assert_eq!(sf.c, whole(&[1, 2, 0, 0]));
    assert_eq!(sf.goal, Goal::Min);
    // The equation has no slack; the >= row a surplus; the flipped <= row a surplus too.
    assert_eq!(sf.a.data, whole(&[1, 0, 0, 0, 0, 1, -1, 0, -1, -1, 0, -1]));
}

#[test]
fn standard_form_reads_as_the_same_tableau_as_the_problem() {
    let direct = max_3x_2y().into_tableau_form();
    let sf = max_3x_2y().into_standard_form();
    assert_eq!(sf.slack_indices, vec![2, 3]);
    let t = sf.into_tableau();
    assert_eq!(t.coefficients.data, direct.coefficients.data);
    assert_eq!(t.slack.data, direct.slack.data);
    assert_eq!(t.rhs, direct.rhs);
    assert_eq!(t.z_coeffs, direct.z_coeffs);
    assert_eq!(t.z_slack, direct.z_slack);
    assert_eq!(t.z_rhs, direct.z_rhs);
    assert_eq!(t.basis, direct.basis);
    assert_eq!(t.nonbasis, direct.nonbasis);
}

#[test]
fn a_solver_runs_from_a_standard_form() {
    let sf = max_3x_2y().into_standard_form();
    let mut solver = SimplexSolver::new();
    let sol = solver.solve(InitSource::StandardForm(sf)).expect("solve");
    assert_eq!(sol.status, Status::Optimal);
    assert_eq!(sol.x, whole(&[1, 3]));
    assert_eq!(sol.objective, q(9, 1));
}

#[test]
fn standard_form_new_keeps_its_parts() {
    let a = Matrix::<Rational>::new(1, 2);
    let sf = StandardForm::new(a, whole(&[4]), whole(&[1, 0]), Goal::Max, vec![1]);
    assert_eq!(sf.n_vars(), 1);
    assert_eq!(sf.n_constraints(), 1);
    assert_eq!(sf.goal, Goal::Max);
}

#[test]
fn to_tableau_leaves_the_problem_usable() {
    let prob = max_3x_2y();
    let t = prob.to_tableau();
    assert_eq!(t.rows(), 2);
    assert_eq!(t.cols(), 5);
    assert_eq!(prob.constraints.len(), 2);
    assert_eq!(t.rhs, prob.into_tableau_form().rhs);
}

#[test]
fn dantzig_takes_the_first_of_equal_most_negative_costs() {
    let mut prob = Problem::new(whole(&[1, 5, 5, 2]), Goal::Max);
    prob.add_constraint(whole(&[1, 1, 1, 1]), Relation::LessEqual, q(1, 1));
    let t = prob.into_tableau_form();
    assert_eq!(t.find_pivot_col_most_negative(), Some(1));
    assert_eq!(t.find_pivot_col_bland(), Some(0));
    assert_eq!(t.find_pivot_indices(), PivotResult::Pivot(0, 1));
    assert_eq!(t.find_pivot_indices_bland(), PivotResult::Pivot(0, 0));
}

#[test]
fn the_ratio_test_takes_the_least_ratio_and_the_first_row_on_a_tie() {
    let mut prob = Problem::new(whole(&[1]), Goal::Max);
    prob.add_constraint(whole(&[1]), Relation::LessEqual, q(6, 1));
    prob.add_constraint(whole(&[2]), Relation::LessEqual, q(4, 1));
    prob.add_constraint(whole(&[3]), Relation::LessEqual, q(6, 1));
    prob.add_constraint(whole(&[-1]), Relation::LessEqual, q(1, 1));
    let t = prob.into_tableau_form();
    // Ratios 6, 2, 2, and no ratio for the negative entry.
    assert_eq!(t.ratio_test(0), Some(1));
}

#[test]
fn the_search_reports_optimal_and_unbounded() {
    let mut prob = Problem::new(whole(&[1]), Goal::Min);
    prob.add_constraint(whole(&[1]), Relation::LessEqual, q(6, 1));
    assert_eq!(prob.into_tableau_form().find_pivot_indices(), PivotResult::Optimal);
    let mut prob = Problem::new(whole(&[1]), Goal::Max);
    prob.add_constraint(whole(&[-1]), Relation::LessEqual, q(1, 1));
    let t = prob.into_tableau_form();
    assert_eq!(t.find_pivot_indices(), PivotResult::Unbounded);
    assert_eq!(t.find_pivot_indices_bland(), PivotResult::Unbounded);
}

#[test]
fn the_current_vertex_reports_only_basic_structural_variables() {
    let mut t = max_3x_2y().into_tableau_form();
    assert_eq!(t.current_vertex(2), whole(&[0, 0]));
    t.pivot(1, 0);
    assert_eq!(t.current_vertex(2), vec![q(5, 2), q(0, 1)]);
    assert_eq!(t.current_vertex(1), vec![q(5, 2)]);
    // Asking for more than the structural variables shows the slack that is still basic.
    assert_eq!(t.current_vertex(4), vec![q(5, 2), q(0, 1), q(3, 2), q(0, 1)]);
    assert_eq!(t.current_vertex(0), Vec::<Rational>::new());
}

#[test]
fn logical_columns_resolve_to_their_piece() {
    assert_eq!(resolve_row_column(2, 3, 0), TableauColumn::Coeff(0));
    assert_eq!(resolve_row_column(2, 3, 1), TableauColumn::Coeff(1));
    assert_eq!(resolve_row_column(2, 3, 2), TableauColumn::Slack(0));
    assert_eq!(resolve_row_column(2, 3, 4), TableauColumn::Slack(2));
    assert_eq!(resolve_row_column(2, 3, 5), TableauColumn::Rhs);
    let t = max_3x_2y().into_tableau_form();
    assert_eq!(t[(1, 0)], q(2, 1));
    assert_eq!(t[(1, 3)], q(1, 1));
    assert_eq!(t[(1, 4)], q(5, 1));
    assert_eq!(t.z_row()[4], q(0, 1));
    assert_eq!(t.row(1).cols(), 5);
}

#[test]
fn writing_through_a_tableau_index_changes_the_right_piece() {
    let mut t = max_3x_2y().into_tableau_form();
    t[(0, 1)] = q(7, 1);
    t[(0, 2)] = q(8, 1);
    t[(0, 4)] = q(9, 1);
    assert_eq!(t.coefficients[(0, 1)], q(7, 1));
    assert_eq!(t.slack[(0, 0)], q(8, 1));
    assert_eq!(t.rhs[0], q(9, 1));
    {
        let mut row = t.row_mut(1);
        assert_eq!(row.cols(), 5);
        row[0] = q(1, 2);
        row[3] = q(1, 3);
        row[4] = q(1, 4);
        assert_eq!(row[3], q(1, 3));
    }
    assert_eq!(t.row(1).coefficients.data, vec![q(1, 2), q(1, 1)]);
    assert_eq!(t.row(1).slack.data, vec![q(0, 1), q(1, 3)]);
    assert_eq!(t.rhs[1], q(1, 4));
    {
        let mut z = t.z_row_mut();
        z[0] = q(5, 1);
        z[4] = q(6, 1);
    }
    assert_eq!(t.z_coeffs[0], q(5, 1));
    assert_eq!(t.z_rhs, q(6, 1));
}

#[test]
fn the_fused_update_subtracts_a_multiple_in_place() {
    let mut a = whole(&[10, 20, 30]);
    let b = whole(&[1, 2, 3]);
    sub_assign_scaled(&mut a, &b, q(3, 1));
    assert_eq!(a, whole(&[7, 14, 21]));

    let mut m = Matrix::<Rational>::new(2, 2);
    m[(1, 0)] = q(4, 1);
    m[(1, 1)] = q(6, 1);
    {
        let mut row = m.row_mut(1);
        row.sub_assign_scaled(&Row { data: whole(&[1, 2]) }, q(1, 2));
    }
    assert_eq!(m.data, vec![q(0, 1), q(0, 1), q(7, 2), q(5, 1)]);

    let mut t = max_3x_2y().into_tableau_form();
    let r1 = t.row(1);
    {
        let mut r0 = t.row_mut(0);
        r0.sub_assign_scaled(&r1, q(1, 2));
    }
    assert_eq!(t.row(0).coefficients.data, vec![q(0, 1), q(1, 2)]);
    assert_eq!(t.row(0).slack.data, vec![q(1, 1), q(-1, 2)]);
    assert_eq!(t.rhs[0], q(3, 2));
}

#[test]
fn rows_divide_and_subtract_element_by_element() {
    let a = Row { data: whole(&[6, 8]) };
    let b = Row { data: whole(&[3, 2]) };
    assert_eq!((&a / &b).data, whole(&[2, 4]));
    assert_eq!((&a - &b).data, whole(&[3, 6]));
    assert_eq!((&a * &b).data, whole(&[18, 16]));
    assert_eq!((&a / q(4, 1)).data, vec![q(3, 2), q(2, 1)]);
    let mut c = a.clone();
    c -= &b;
    c /= q(3, 1);
    assert_eq!(c.data, vec![q(1, 1), q(2, 1)]);
    assert_eq!(c[1], q(2, 1));
    assert_eq!(c.len(), 2);
}

#[test]
fn matrices_divide_by_a_scalar_and_by_a_matrix() {
    let mut a = Matrix::<Rational>::new(1, 2);
    a[(0, 0)] = q(1, 1);
    a[(0, 1)] = q(3, 1);
    let half = &a / q(2, 1);
    assert_eq!(half.data, vec![q(1, 2), q(3, 2)]);
    let mut b = Matrix::<Rational>::new(1, 2);
    b[(0, 0)] = q(4, 1);
    b[(0, 1)] = q(-6, 1);
    let ratio = &a / &b;
    assert_eq!(ratio.data, vec![q(1, 4), q(-1, 2)]);
    a -= q(1, 1);
    a /= &b;
    assert_eq!(a.data, vec![q(0, 1), q(-1, 3)]);
    assert_eq!(*a.get(0, 1), q(-1, 3));
    a.set(0, 0, q(9, 1));
    assert_eq!(a[(0, 0)], q(9, 1));
}

#[test]
fn an_empty_matrix_takes_rows_and_columns() {
    let mut m = Matrix::<i32>::with_capacity(2, 2);
    assert_eq!(m.rows, 0);
    assert_eq!(m.cols, 2);
    m.push_row(&[1, 2]);
    m.push_empty_row();
    m.push_column(Some(&[7, 8]));
    assert_eq!(m.rows, 2);
    assert_eq!(m.cols, 3);
    assert_eq!(m.data, vec![1, 2, 7, 0, 0, 8]);
    assert_eq!(m.row(0).data, vec![1, 2, 7]);
    let zero = Matrix::<i32>::new(0, 0);
    assert!(zero.data.is_empty());
}

#[test]
fn a_tableau_from_the_costs_of_all_variables() {
    let mut a = Matrix::<Rational>::new(1, 2);
    a[(0, 0)] = q(1, 1);
    a[(0, 1)] = q(2, 1);
    let mut s = Matrix::<Rational>::new(1, 1);
    s[(0, 0)] = q(1, 1);
    let t = Tableau::from_standard_form(a, s, whole(&[4]), whole(&[-1, -2, 0]));
    assert_eq!(t.z_coeffs, whole(&[-1, -2]));
    assert_eq!(t.z_slack, whole(&[0]));
    assert_eq!(t.z_rhs, q(0, 1));
    assert_eq!(t.basis, vec![2]);
    assert_eq!(t.nonbasis, vec![0, 1]);
    assert_eq!(t.rows(), 1);
    assert_eq!(t.cols(), 4);
}

#[test]
fn find_initial_bfs_says_infeasible_for_a_negative_right_hand_side() {
    let mut a = Matrix::<Rational>::new(1, 2);
    a[(0, 0)] = q(1, 1);
    a[(0, 1)] = q(1, 1);
    let sf = StandardForm::new(a, whole(&[-4]), whole(&[-1, 0]), Goal::Max, vec![1]);
    let mut solver = SimplexSolver::new();
    solver.init(InitSource::StandardForm(sf.clone()));
    assert_eq!(
        solver.find_initial_bfs(),
        Err("Infeasible: initial tableau has negative RHS".to_string())
    );
    assert!(!solver.is_done());
    assert!(solver.last_step().is_none());

    let mut solver = TwoPhaseSimplexSolver::new();
    let r = solver.solve(InitSource::StandardForm(sf.clone()));
    assert_eq!(r.err(), Some("Infeasible: initial tableau has negative RHS".to_string()));

    let mut solver = ShadowVertexSimplexSolver::new();
    let r = solver.solve_with_shadow_history(InitSource::StandardForm(sf));
    assert_eq!(r.err(), Some("Infeasible: initial tableau has negative RHS".to_string()));
}

#[test]
fn a_solver_before_init_is_feasible_and_carries_its_errors() {
    let mut solver: SimplexSolver<Rational> = SimplexSolver::default();
    assert_eq!(solver.find_initial_bfs(), Ok(true));
    assert_eq!(solver.handle_error("Solver stopped prematurely"), "Solver stopped prematurely");
    let two: TwoPhaseSimplexSolver<Rational> = TwoPhaseSimplexSolver::default();
    assert!(!two.is_done());
    let shadow: ShadowVertexSimplexSolver<Rational> = ShadowVertexSimplexSolver::default();
    assert!(shadow.last_step().is_none());
    assert_eq!(Status::default(), Status::InProgress);
}

#[test]
fn the_primal_simplex_steps_one_pivot_at_a_time() {
    let mut solver = SimplexSolver::new();
    solver.init(InitSource::Problem(max_3x_2y()));
    assert_eq!(solver.find_initial_bfs(), Ok(true));
    // Dantzig enters x0 (cost -3), which leaves row 1.
    let s1 = solver.step();
    assert_eq!(s1.iteration, 1);
    assert_eq!(s1.status, Status::InProgress);
    assert_eq!(s1.primal, vec![q(5, 2), q(0, 1)]);
    assert_eq!(s1.objective_value, q(15, 2));
    let s2 = solver.step();
    assert_eq!(s2.iteration, 2);
    assert_eq!(s2.primal, whole(&[1, 3]));
    assert_eq!(s2.objective_value, q(9, 1));
    assert!(!solver.is_done());
    let s3 = solver.step();
    assert_eq!(s3.iteration, 2);
    assert_eq!(s3.status, Status::Optimal);
    assert!(solver.is_done());
    assert_eq!(solver.last_step().unwrap().primal, whole(&[1, 3]));
}

#[test]
fn the_two_phase_solver_keeps_the_value_of_c_at_the_switch() {
    // Min -x  s.t.  x <= 2: the first phase optimises d = x and stays; the
    // second enters x.
    let mut prob = Problem::new(whole(&[-1]), Goal::Min);
    prob.add_constraint(whole(&[1]), Relation::LessEqual, q(2, 1));
    let mut solver = TwoPhaseSimplexSolver::new();
    solver.init(InitSource::Problem(prob));
    let s1 = solver.step();
    assert_eq!(s1.status, Status::InProgress);
    assert_eq!(s1.iteration, 0);
    assert_eq!(s1.objective_value, q(0, 1));
    let s2 = solver.step();
    assert_eq!(s2.iteration, 1);
    assert_eq!(s2.primal, whole(&[2]));
    assert_eq!(s2.objective_value, q(2, 1));
    let s3 = solver.step();
    assert_eq!(s3.status, Status::Optimal);

    // Max x  s.t.  x <= 2: the first phase optimises d = -c = x downwards,
    // which pivots x in; at the switch the basic cost times the right-hand
    // side is the value of c there.
    let mut prob = Problem::new(whole(&[-1]), Goal::Max);
    prob.add_constraint(whole(&[1]), Relation::LessEqual, q(2, 1));
    let mut solver = TwoPhaseSimplexSolver::new();
    solver.init(InitSource::Problem(prob));
    let s1 = solver.step();
    assert_eq!(s1.iteration, 1);
    assert_eq!(s1.primal, whole(&[2]));
    let s2 = solver.step();
    assert_eq!(s2.iteration, 1);
    assert_eq!(s2.status, Status::InProgress);
    // c = (1, 0), the basic variable is x with cost 1 and value 2.
    assert_eq!(s2.objective_value, q(2, 1));
}

#[test]
fn the_shadow_solver_follows_an_auxiliary_objective() {
    let mut solver = ShadowVertexSimplexSolver::new();
    solver.set_auxiliary_objective(whole(&[1, 1]), whole(&[0, 0]), q(0, 1));
    let res = solver
        .solve_with_shadow_history(InitSource::Problem(max_3x_2y()))
        .expect("solve");
    assert_eq!(res.solution.status, Status::Optimal);
    assert_eq!(res.solution.x, whole(&[1, 3]));
    assert_eq!(res.solution.objective, q(9, 1));
    assert_eq!(res.history.len(), 3);
    assert_eq!(res.shadow_points.len(), 4);
    // d . x = x + y along the walk: 0, then 5/2, then 4, and 4 again at the end.
    assert_eq!(res.shadow_points[0], (q(0, 1), q(0, 1)));
    assert_eq!(res.shadow_points[1], (q(5, 2), q(15, 2)));
    assert_eq!(res.shadow_points[2], (q(4, 1), q(9, 1)));
    assert_eq!(res.shadow_points[3], (q(4, 1), q(9, 1)));
    assert_eq!(res.history[2].status, Status::Optimal);
    assert_eq!(res.history[0].iteration, 1);
}

#[test]
fn a_problem_without_constraints_is_optimal_or_unbounded_at_once() {
    let mut solver = SimplexSolver::new();
    let sol = solver.solve(InitSource::Problem(Problem::new(whole(&[1]), Goal::Min))).expect("solve");
    assert_eq!(sol.status, Status::Optimal);
    assert_eq!(sol.x, whole(&[0]));
    let mut solver = SimplexSolver::new();
    let sol = solver.solve(InitSource::Problem(Problem::new(whole(&[1]), Goal::Max))).expect("solve");
    assert_eq!(sol.status, Status::Unbounded);
    assert_eq!(sol.objective, q(0, 1));
}

#[test]
fn a_run_with_history_gives_every_step_in_order() {
    let mut solver = SimplexSolver::new();
    let (sol, history) = solver
        .solve_with_history(InitSource::Problem(max_3x_2y()))
        .expect("solve");
    assert_eq!(sol.status, Status::Optimal);
    assert_eq!(sol.objective, q(9, 1));
    assert_eq!(history.len(), 3);
    assert_eq!(history[0].iteration, 1);
    assert_eq!(history[0].primal, vec![q(5, 2), q(0, 1)]);
    assert_eq!(history[1].iteration, 2);
    assert_eq!(history[1].status, Status::InProgress);
    assert_eq!(history[2].status, Status::Optimal);
    assert_eq!(history[2].primal, sol.x);

    let mut solver = TwoPhaseSimplexSolver::new();
    let (sol, history) = solver
        .solve_with_history(InitSource::Problem(max_3x_2y()))
        .expect("solve");
    assert_eq!(sol.objective, q(9, 1));
    assert_eq!(history.len(), 4);
    assert_eq!(history[0].iteration, 0);
    assert_eq!(history[3].status, Status::Optimal);
}
