use linprog_core::matrix::Matrix;
use linprog_core::model::Goal;
use linprog_core::problem::Problem;
use linprog_core::problem::Relation;
use linprog_core::rational::Rational;
use linprog_core::scalar::Scalar;

fn q(n: i64, d: i64) -> Rational {
    Rational::new(n, d)
}

fn matrix_of(rows: usize, cols: usize, entries: &[Rational]) -> Matrix<Rational> {
    let mut m = Matrix::<Rational>::new(rows, cols);
    for r in 0..rows {
        for c in 0..cols {
            m[(r, c)] = entries[r * cols + c];
        }
    }
    m
}

fn int_matrix_of(rows: usize, cols: usize, entries: &[i32]) -> Matrix<i32> {
    let mut m = Matrix::<i32>::new(rows, cols);
    for r in 0..rows {
        for c in 0..cols {
            m[(r, c)] = entries[r * cols + c];
        }
    }
    m
}

#[test]
fn adding_then_subtracting_a_matrix_gives_the_first_back() {
    let a = matrix_of(2, 2, &[q(1, 2), q(-3, 4), q(5, 1), q(0, 1)]);
    let b = matrix_of(2, 2, &[q(1, 3), q(7, 8), q(-2, 5), q(9, 1)]);
    let sum = &a + &b;
    assert_eq!(sum.data, vec![q(5, 6), q(1, 8), q(23, 5), q(9, 1)]);
    let back = &sum - &b;
    assert_eq!(back.data, a.data);
    assert_eq!(back.rows, a.rows);
    assert_eq!(back.cols, a.cols);
}

#[test]
fn multiplying_by_one_and_adding_zero_change_nothing() {
    let a = matrix_of(2, 3, &[q(1, 2), q(-3, 4), q(5, 1), q(0, 1), q(2, 7), q(-1, 1)]);
    let times_one = &a * Rational::from_integer(1);
    assert_eq!(times_one.data, a.data);
    let plus_zero = &a + Rational::from_integer(0);
    assert_eq!(plus_zero.data, a.data);
    let zero = Matrix::<Rational>::new(2, 3);
    let plus_zero_matrix = &a + &zero;
    assert_eq!(plus_zero_matrix.data, a.data);
}

#[test]
fn the_matrix_product_is_associative() {
    let a = int_matrix_of(2, 3, &[1, 2, 3, 4, 5, 6]);
    let b = int_matrix_of(3, 2, &[7, 8, 9, 10, 11, 12]);
    let c = int_matrix_of(2, 2, &[1, -1, 2, 3]);
    let left = a.dot(&b.dot(&c));
    let right = a.dot(&b).dot(&c);
    assert_eq!(left.rows, 2);
    assert_eq!(left.cols, 2);
    assert_eq!(left.data, right.data);
    assert_eq!(left.data, vec![186, 134, 447, 323]);
}

#[test]
fn the_product_with_the_identity_is_the_matrix() {
    let a = matrix_of(2, 2, &[q(1, 2), q(-3, 4), q(5, 1), q(2, 3)]);
    let id = matrix_of(2, 2, &[q(1, 1), q(0, 1), q(0, 1), q(1, 1)]);
    assert_eq!(a.dot(&id).data, a.data);
    assert_eq!(id.dot(&a).data, a.data);
}

#[test]
fn swapping_rows_twice_gives_the_matrix_back() {
    let mut m = int_matrix_of(3, 2, &[1, 2, 3, 4, 5, 6]);
    let before = m.data.clone();
    m.swap_rows(0, 2);
    assert_eq!(m.data, vec![5, 6, 3, 4, 1, 2]);
    m.swap_rows(0, 2);
    assert_eq!(m.data, before);
    m.swap_rows(2, 1);
    assert_eq!(m.data, vec![1, 2, 5, 6, 3, 4]);
    m.swap_rows(1, 1);
    assert_eq!(m.data, vec![1, 2, 5, 6, 3, 4]);
}

#[test]
fn swapping_columns_twice_gives_the_matrix_back() {
    let mut m = int_matrix_of(2, 3, &[1, 2, 3, 4, 5, 6]);
    let before = m.data.clone();
    m.swap_columns(0, 2);
    assert_eq!(m.data, vec![3, 2, 1, 6, 5, 4]);
    m.swap_columns(0, 2);
    assert_eq!(m.data, before);
}

#[test]
fn only_less_equal_constraints_give_an_identity_slack_block() {
    let mut prob = Problem::new(vec![q(1, 1), q(2, 1), q(3, 1)], Goal::Max);
    prob.add_constraint(vec![q(1, 1), q(1, 1), q(0, 1)], Relation::LessEqual, q(4, 1));
    prob.add_constraint(vec![q(0, 1), q(1, 1), q(1, 1)], Relation::LessEqual, q(0, 1));
    let t = prob.into_tableau_form();
    assert_eq!(t.slack.rows, 2);
    assert_eq!(t.slack.cols, 2);
    assert_eq!(t.slack.data, vec![q(1, 1), q(0, 1), q(0, 1), q(1, 1)]);
    assert_eq!(t.basis, vec![3, 4]);
    assert_eq!(t.nonbasis, vec![0, 1, 2]);
    assert_eq!(t.z_slack, vec![q(0, 1), q(0, 1)]);
    assert_eq!(t.z_rhs, q(0, 1));
}

#[test]
fn a_less_equal_constraint_with_negative_right_hand_side_becomes_a_surplus() {
    // x <= -1 normalises to -x >= 1.
    let mut prob = Problem::new(vec![q(1, 1)], Goal::Min);
    prob.add_constraint(vec![q(1, 1)], Relation::LessEqual, q(-1, 1));
    let t = prob.into_tableau_form();
    assert_eq!(t.coefficients.data, vec![q(-1, 1)]);
    assert_eq!(t.slack.data, vec![q(-1, 1)]);
    assert_eq!(t.rhs, vec![q(1, 1)]);
}

#[test]
fn a_greater_equal_constraint_gets_minus_one_in_its_slack_column() {
    let mut prob = Problem::new(vec![q(1, 1), q(1, 1)], Goal::Min);
    prob.add_constraint(vec![q(1, 1), q(2, 1)], Relation::GreaterEqual, q(3, 1));
    let t = prob.into_tableau_form();
    assert_eq!(t.slack[(0, 0)], q(-1, 1));
    assert_eq!(t.rhs, vec![q(3, 1)]);
}

#[test]
fn the_goal_decides_the_sign_of_the_objective_row() {
    let max = Problem::new(vec![q(3, 1), q(-5, 2)], Goal::Max).into_tableau_form();
    assert_eq!(max.z_coeffs, vec![q(-3, 1), q(5, 2)]);
    let min = Problem::new(vec![q(3, 1), q(-5, 2)], Goal::Min).into_tableau_form();
    assert_eq!(min.z_coeffs, vec![q(3, 1), q(-5, 2)]);
}

#[test]
fn after_a_pivot_the_pivot_column_is_a_unit_vector() {
    let mut prob = Problem::new(vec![q(3, 1), q(2, 1)], Goal::Max);
    prob.add_constraint(vec![q(1, 1), q(1, 1)], Relation::LessEqual, q(4, 1));
    prob.add_constraint(vec![q(2, 1), q(1, 1)], Relation::LessEqual, q(5, 1));
    prob.add_constraint(vec![q(1, 1), q(3, 1)], Relation::LessEqual, q(7, 1));
    let mut t = prob.into_tableau_form();
    t.pivot(2, 1);
    assert_eq!(t.get(0, 1), q(0, 1));
    assert_eq!(t.get(1, 1), q(0, 1));
    assert_eq!(t.get(2, 1), q(1, 1));
    assert_eq!(t.z_get(1), q(0, 1));
    assert_eq!(t.basis, vec![2, 3, 1]);
    assert_eq!(t.nonbasis, vec![0, 4]);
    // Row 2 is divided by 3; z gains 2 * 7/3.
    assert_eq!(t.rhs, vec![q(5, 3), q(8, 3), q(7, 3)]);
    assert_eq!(t.z_rhs, q(14, 3));
    assert_eq!(t.z_get(0), q(-7, 3));
}

#[test]
fn a_basis_is_optimal_exactly_without_a_negative_reduced_cost() {
    let mut prob = Problem::new(vec![q(1, 1), q(1, 1)], Goal::Min);
    prob.add_constraint(vec![q(1, 1), q(0, 1)], Relation::LessEqual, q(5, 1));
    let t = prob.into_tableau_form();
    assert!(t.is_optimal());
    assert_eq!(t.find_pivot_col_most_negative(), None);
    assert_eq!(t.find_pivot_col_bland(), None);

    let mut prob = Problem::new(vec![q(0, 1), q(1, 1)], Goal::Max);
    prob.add_constraint(vec![q(1, 1), q(0, 1)], Relation::LessEqual, q(5, 1));
    let t = prob.into_tableau_form();
    assert!(!t.is_optimal());
    assert_eq!(t.find_pivot_col_bland(), Some(1));
}

#[test]
fn the_ratio_test_finds_no_row_exactly_without_a_positive_entry() {
    let mut prob = Problem::new(vec![q(1, 1), q(1, 1)], Goal::Max);
    prob.add_constraint(vec![q(-1, 1), q(1, 1)], Relation::LessEqual, q(1, 1));
    prob.add_constraint(vec![q(0, 1), q(2, 1)], Relation::LessEqual, q(1, 1));
    let t = prob.into_tableau_form();
    assert_eq!(t.ratio_test(0), None);
    assert_eq!(t.ratio_test(1), Some(1));
}

#[test]
fn scalars_obey_the_field_laws_on_examples() {
    let a = q(3, 7);
    let b = q(-5, 11);
    assert_eq!(a.add(b).sub(b), a);
    assert_eq!(a.mul(b).div(b), a);
    assert_eq!(a.mul(Rational::one()), a);
    assert_eq!(a.add(Rational::zero()), a);
    assert_eq!(a.add(a.neg()), Rational::zero());
    assert_eq!(Rational::one().div(a).mul(a), Rational::one());
}

#[test]
fn bit_operators_act_on_every_pair_of_entries() {
    let a = Matrix::<u8> { rows: 1, cols: 3, data: vec![0b1100, 0b1010, 1] };
    let b = Matrix::<u8> { rows: 1, cols: 3, data: vec![0b1010, 0b0110, 3] };
    assert_eq!((&a & &b).data, vec![0b1000, 0b0010, 1]);
    assert_eq!((&a | &b).data, vec![0b1110, 0b1110, 3]);
    assert_eq!((&a ^ &b).data, vec![0b0110, 0b1100, 2]);
    let s = Matrix::<u8> { rows: 1, cols: 3, data: vec![1, 2, 3] };
    assert_eq!((&a << &s).data, vec![0b11000, 0b101000, 8]);
    assert_eq!((&a >> &s).data, vec![0b110, 0b10, 0]);
    let mut c = Matrix::<u8> { rows: 1, cols: 3, data: vec![0b1100, 0b1010, 1] };
    c &= &b;
    assert_eq!(c.data, vec![0b1000, 0b0010, 1]);
    c |= &b;
    assert_eq!(c.data, b.data);
    c ^= &b;
    assert_eq!(c.data, vec![0, 0, 0]);
    let mut d = Matrix::<u8> { rows: 1, cols: 3, data: vec![1, 1, 1] };
    d <<= &s;
    assert_eq!(d.data, vec![2, 4, 8]);
    d >>= &s;
    assert_eq!(d.data, vec![1, 1, 1]);
}

fn row_at(t: &linprog_core::tableau::Tableau<Rational>, i: usize, x: &[Rational]) -> Rational {
    let mut sum = Rational::zero();
    for (j, xj) in x.iter().enumerate() {
        sum = sum.add(t.get(i, j).mul(*xj));
    }
    sum
}

#[test]
fn a_pivot_keeps_the_solutions_of_the_constraint_system() {
    let mut prob = Problem::new(vec![q(3, 1), q(2, 1)], Goal::Max);
    prob.add_constraint(vec![q(1, 1), q(1, 1)], Relation::LessEqual, q(4, 1));
    prob.add_constraint(vec![q(2, 1), q(1, 1)], Relation::LessEqual, q(5, 1));
    let mut t = prob.into_tableau_form();
    // x = 1/2, y = 3/2 with the slacks 2 and 5/2.
    let x = [q(1, 2), q(3, 2), q(2, 1), q(5, 2)];
    assert_eq!(row_at(&t, 0, &x), t.rhs[0]);
    assert_eq!(row_at(&t, 1, &x), t.rhs[1]);
    t.pivot(1, 0);
    assert_eq!(row_at(&t, 0, &x), t.rhs[0]);
    assert_eq!(row_at(&t, 1, &x), t.rhs[1]);
    t.pivot(0, 1);
    assert_eq!(row_at(&t, 0, &x), t.rhs[0]);
    assert_eq!(row_at(&t, 1, &x), t.rhs[1]);
    // The objective row stays the reduced objective: z = c - c_B . rows, with c = (-3, -2, 0, 0 | 0)
    // and the basis (y, x) with costs (-2, -3).
    assert_eq!(t.basis, vec![1, 0]);
    let c = [q(-3, 1), q(-2, 1), q(0, 1), q(0, 1), q(0, 1)];
    for j in 0..5 {
        let reduced = c[j].sub(q(-2, 1).mul(t.get(0, j))).sub(q(-3, 1).mul(t.get(1, j)));
        assert_eq!(t.z_get(j), reduced);
    }
}

#[test]
fn no_feasible_point_beats_the_optimal_vertex() {
    let mut prob = Problem::new(vec![q(3, 1), q(2, 1)], Goal::Max);
    prob.add_constraint(vec![q(1, 1), q(1, 1)], Relation::LessEqual, q(4, 1));
    prob.add_constraint(vec![q(2, 1), q(1, 1)], Relation::LessEqual, q(5, 1));
    let mut solver = linprog_core::simplex::SimplexSolver::new();
    let sol = linprog_core::solver::Solver::solve(
        &mut solver,
        linprog_core::solver::InitSource::Problem(prob),
    )
    .expect("solve");
    // Every feasible point of a grid has an objective of at most 9.
    for a in 0..=10 {
        for b in 0..=16 {
            let (x, y) = (q(a, 4), q(b, 4));
            let feasible = !q(4, 1).lt(x.add(y)) && !q(5, 1).lt(q(2, 1).mul(x).add(y));
            if feasible {
                let value = q(3, 1).mul(x).add(q(2, 1).mul(y));
                assert!(!sol.objective.lt(value));
            }
        }
    }
}
