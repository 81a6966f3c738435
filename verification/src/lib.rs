//! Exact linear programming: a dense matrix and tableau algebra over a scalar
//! field, the lowering of a model to a pivotable tableau, and stepwise simplex
//! solvers.
//!
//! The scalar is any [`scalar::Scalar`]; [`rational::Rational`] is the exact
//! one. A [`problem::Problem`] is lowered to a [`tableau::Tableau`], on which
//! a [`solver::Solver`] pivots step by step.

pub mod scalar;
pub mod rational;
pub mod elementwise;
pub mod matrix;
pub mod matrix_arithmetic;
pub mod matrix_bits;
pub mod matrix_operations;
pub mod row_arithmetic;
pub mod tableau;
pub mod tableau_arithmetic;
pub mod tableau_operators;
pub mod pivot;
pub mod optimality;
pub mod model;
pub mod problem;
pub mod standard_form;
pub mod solver;
pub mod simplex;
pub mod two_phase;
pub mod shadow_vertex;
pub mod text;
