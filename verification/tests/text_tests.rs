use linprog_core::model::Goal;
use linprog_core::problem::Relation;
use linprog_core::rational::Rational;
use linprog_core::solver::Status;
use linprog_core::text::fraction_text;

#[test]
fn relations_are_known_by_sign_and_by_word() {
    assert_eq!(Relation::from_name("<="), Some(Relation::LessEqual));
    assert_eq!(Relation::from_name("leq"), Some(Relation::LessEqual));
    assert_eq!(Relation::from_name(">="), Some(Relation::GreaterEqual));
    assert_eq!(Relation::from_name("geq"), Some(Relation::GreaterEqual));
    assert_eq!(Relation::from_name("="), Some(Relation::Equal));
    assert_eq!(Relation::from_name("=="), Some(Relation::Equal));
    assert_eq!(Relation::from_name("eq"), Some(Relation::Equal));
    assert_eq!(Relation::from_name("<"), None);
    assert_eq!(Relation::from_name("LEQ"), None);
    assert_eq!(Relation::from_name(""), None);
}

#[test]
fn goals_are_known_whatever_the_case() {
    assert_eq!(Goal::from_name("min"), Goal::Min);
    assert_eq!(Goal::from_name("MIN"), Goal::Min);
    assert_eq!(Goal::from_name("Min"), Goal::Min);
    assert_eq!(Goal::from_name("max"), Goal::Max);
    assert_eq!(Goal::from_name("anything"), Goal::Max);
    assert_eq!(Goal::from_lowercase("min"), Goal::Min);
    assert_eq!(Goal::from_lowercase("MIN"), Goal::Max);
}

#[test]
fn statuses_have_names() {
    assert_eq!(Status::InProgress.as_str(), "in_progress");
    assert_eq!(Status::Optimal.as_str(), "optimal");
    assert_eq!(Status::Infeasible.as_str(), "infeasible");
    assert_eq!(Status::Unbounded.as_str(), "unbounded");
}

#[test]
fn whole_numbers_are_written_as_integers() {
    assert_eq!(Rational::new(6, 3).to_text(), "2");
    assert_eq!(Rational::new(-7, 1).to_text(), "-7");
    assert_eq!(Rational::new(0, 5).to_text(), "0");
    assert_eq!(Rational::new(1, 2).to_text(), "1/2");
    assert_eq!(Rational::new(3, -6).to_text(), "-1/2");
    assert_eq!(fraction_text("5", "1", true), "5");
    assert_eq!(fraction_text("5", "3", false), "5/3");
}

#[test]
fn pairs_with_a_zero_denominator_are_no_fraction() {
    assert_eq!(Rational::from_pair(1, 0), None);
    assert_eq!(Rational::from_pair(0, 0), None);
    assert_eq!(Rational::from_pair(i64::MIN, -1), None);
    assert_eq!(Rational::from_pair(1, i64::MIN), None);
    assert_eq!(Rational::from_pair(2, 4), Some(Rational::new(1, 2)));
    assert_eq!(Rational::from_pair(2, -4), Some(Rational::new(-1, 2)));
    assert_eq!(Rational::from_pair(i64::MIN, 2).map(|r| r.denom()), Some(1));
}
