//! The linear program as its user states it, and its lowering to standard
//! form and to the initial tableau.

use crate::matrix::Matrix;
use crate::model::Goal;
use crate::scalar::Scalar;
use crate::standard_form::StandardForm;
use crate::tableau::index_range;
use crate::tableau::Tableau;
use crate::tableau::TableauView;
use vstd::prelude::*;

verus! {

/// How the left-hand side of a constraint relates to its right-hand side.
#[derive(Debug, Clone, Copy, PartialEq, Eq, Structural)]
pub enum Relation {
    LessEqual,
    GreaterEqual,
    Equal,
}

/// One constraint: `coefficients . x  relation  rhs`.
#[derive(Debug, Clone)]
pub struct Constraint<T> {
    pub coefficients: Vec<T>,
    pub relation: Relation,
    pub rhs: T,
}

/// A linear program: an objective to minimise or maximise over nonnegative
/// variables, subject to constraints.
#[derive(Debug, Clone)]
pub struct Problem<T> {
    pub constraints: Vec<Constraint<T>>,
    pub objective: Vec<T>,
    pub goal: Goal,
}

/// The relation with its two sides exchanged.
pub open spec fn flipped(relation: Relation) -> Relation {
    match relation {
        Relation::LessEqual => Relation::GreaterEqual,
        Relation::GreaterEqual => Relation::LessEqual,
        Relation::Equal => Relation::Equal,
    }
}

/// Whether every entry can be negated.
pub open spec fn negate_req<T: Scalar>(a: Seq<T>) -> bool {
    forall|i: int| 0 <= i < a.len() ==> (#[trigger] a[i]).neg_req()
}

/// The sequence of the negated entries.
pub open spec fn negate_spec<T: Scalar>(a: Seq<T>) -> Seq<T> {
    Seq::new(a.len(), |i: int| a[i].neg_spec())
}

/// A new vector of the negated entries.
pub fn negated<T: Scalar>(a: &Vec<T>) -> (r: Vec<T>)
    requires
        negate_req(a@),
    ensures
        r@ == negate_spec(a@),
{
    let mut out: Vec<T> = Vec::with_capacity(a.len());
    let mut i: usize = 0;
    while i < a.len()
        invariant
            negate_req(a@),
            i <= a@.len(),
            out@ == negate_spec(a@).subrange(0, i as int),
        decreases a@.len() - i,
    {
        out.push(a[i].neg());
        i += 1;
        assert(out@ =~= negate_spec(a@).subrange(0, i as int));
    }
    assert(out@ =~= negate_spec(a@));
    out
}

/// A vector of `len` zeros.
pub fn zeros<T: Scalar>(len: usize) -> (r: Vec<T>)
    ensures
        r@ == Seq::new(len as nat, |i: int| T::zero_spec()),
{
    let mut out: Vec<T> = Vec::with_capacity(len);
    let mut i: usize = 0;
    while i < len
        invariant
            i <= len,
            out@ == Seq::new(i as nat, |i: int| T::zero_spec()),
        decreases len - i,
    {
        out.push(T::zero());
        i += 1;
        assert(out@ =~= Seq::new(i as nat, |i: int| T::zero_spec()));
    }
    out
}

impl<T: Scalar> Constraint<T> {
    /// Whether the right-hand side is negative, so that normalising changes
    /// the constraint.
    pub open spec fn is_negative(&self) -> bool {
        self.rhs.val() < 0real
    }

    /// Whether the constraint can be normalised: where its right-hand side
    /// is negative, that and every coefficient can be negated.
    pub open spec fn normalise_req(&self) -> bool {
        self.is_negative() ==> self.rhs.neg_req() && negate_req(self.coefficients@)
    }

    /// The coefficients after normalising.
    pub open spec fn normal_coefficients(&self) -> Seq<T> {
        if self.is_negative() {
            negate_spec(self.coefficients@)
        } else {
            self.coefficients@
        }
    }

    /// The right-hand side after normalising.
    pub open spec fn normal_rhs(&self) -> T {
        if self.is_negative() {
            self.rhs.neg_spec()
        } else {
            self.rhs
        }
    }

    /// The relation after normalising.
    pub open spec fn normal_relation(&self) -> Relation {
        if self.is_negative() {
            flipped(self.relation)
        } else {
            self.relation
        }
    }

    /// The same constraint with a right-hand side that is not negative:
    /// where it is negative, both sides are negated and the relation is
    /// flipped.
    pub fn normalise(self) -> (r: Self)
        requires
            self.normalise_req(),
        ensures
            r.coefficients@ == self.normal_coefficients(),
            r.rhs == self.normal_rhs(),
            r.relation == self.normal_relation(),
            r.rhs.val() >= 0real,
    {
        let zero = T::zero();
        if self.rhs.lt(zero) {
            proof {
                self.rhs.lemma_neg();
            }
            let coefficients = negated(&self.coefficients);
            let rhs = self.rhs.neg();
            let relation = match self.relation {
                Relation::LessEqual => Relation::GreaterEqual,
                Relation::GreaterEqual => Relation::LessEqual,
                Relation::Equal => Relation::Equal,
            };
            Constraint { coefficients, relation, rhs }
        } else {
            self
        }
    }

    /// A copy of this constraint.
    pub fn duplicate(&self) -> (r: Self)
        ensures
            r.coefficients@ == self.coefficients@,
            r.relation == self.relation,
            r.rhs == self.rhs,
    {
        Constraint {
            coefficients: vstd::slice::slice_to_vec(self.coefficients.as_slice()),
            relation: self.relation,
            rhs: self.rhs,
        }
    }
}

impl<T> Problem<T> {
    /// A problem with the given objective and no constraint yet.
    pub fn new(objective: Vec<T>, goal: Goal) -> (p: Self)
        ensures
            p.objective == objective,
            p.goal == goal,
            p.constraints@.len() == 0,
    {
        Problem { objective, goal, constraints: Vec::new() }
    }

    /// Adds the constraint `coefficients . x  relation  rhs`.
    pub fn add_constraint(&mut self, coefficients: Vec<T>, relation: Relation, rhs: T)
        ensures
            final(self).objective == old(self).objective,
            final(self).goal == old(self).goal,
            final(self).constraints@ == old(self).constraints@.push(
                Constraint { coefficients, relation, rhs },
            ),
    {
        self.constraints.push(Constraint { coefficients, relation, rhs });
    }
}

/// The entry that a normalised constraint gets in its own slack column: +1
/// for a slack, -1 for a surplus, 0 for an equation.
pub open spec fn slack_entry<T: Scalar>(relation: Relation) -> T {
    match relation {
        Relation::LessEqual => T::one_spec(),
        Relation::GreaterEqual => T::one_spec().neg_spec(),
        Relation::Equal => T::zero_spec(),
    }
}

/// The sequence of `len` zeros.
pub open spec fn zeros_spec<T: Scalar>(len: nat) -> Seq<T> {
    Seq::new(len, |i: int| T::zero_spec())
}

/// How many of the first `k` constraints are inequalities.
pub open spec fn inequalities<T>(constraints: Seq<Constraint<T>>, k: int) -> nat
    decreases k,
{
    if k <= 0 {
        0
    } else {
        inequalities(constraints, k - 1) + if constraints[k - 1].relation != Relation::Equal {
            1nat
        } else {
            0nat
        }
    }
}

/// Among more constraints there are no fewer inequalities, and no more than
/// there are constraints.
pub proof fn lemma_inequalities<T>(constraints: Seq<Constraint<T>>, i: int, k: int)
    requires
        0 <= i <= k,
    ensures
        inequalities(constraints, i) <= inequalities(constraints, k),
        inequalities(constraints, k) <= k,
        i < k && constraints[i].relation != Relation::Equal ==> inequalities(constraints, i)
            < inequalities(constraints, k),
    decreases k,
{
    if i < k {
        lemma_inequalities(constraints, i, k - 1);
    } else if k > 0 {
        lemma_inequalities(constraints, k - 1, k - 1);
    }
}

impl<T: Scalar> Problem<T> {
    /// The number of structural variables.
    pub open spec fn n(&self) -> nat {
        self.objective@.len()
    }

    /// The number of constraints.
    pub open spec fn m(&self) -> nat {
        self.constraints@.len()
    }

    /// Whether the problem can be lowered: every constraint has a
    /// coefficient for every variable and can be normalised, the objective
    /// can be negated where the goal is to maximise, and so can 1.
    pub open spec fn lowering_req(&self) -> bool {
        &&& forall|i: int|
            0 <= i < self.m() ==> (#[trigger] self.constraints@[i]).coefficients@.len() == self.n()
                && self.constraints@[i].normalise_req()
        &&& self.goal == Goal::Max ==> negate_req(self.objective@)
        &&& T::one_spec().neg_req()
    }

    /// The objective as the objective row carries it: negated where the goal
    /// is to maximise, as it is where the goal is to minimise.
    pub open spec fn costs(&self) -> Seq<T> {
        if self.goal == Goal::Max {
            negate_spec(self.objective@)
        } else {
            self.objective@
        }
    }

    /// The slack part of row `i` of the tableau: the slack entry of the
    /// constraint in column `i`, zeros elsewhere.
    pub open spec fn slack_row(&self, i: int) -> Seq<T> {
        Seq::new(
            self.m(),
            |j: int|
                if j == i {
                    slack_entry(self.constraints@[i].normal_relation())
                } else {
                    T::zero_spec()
                },
        )
    }

    /// Row `i` of the tableau: the normalised coefficients, the slack part,
    /// and the normalised right-hand side.
    pub open spec fn tableau_row(&self, i: int) -> Seq<T> {
        self.constraints@[i].normal_coefficients() + self.slack_row(i)
            + seq![self.constraints@[i].normal_rhs()]
    }

    /// The initial tableau of the problem: a row for every normalised
    /// constraint with a square slack block, the objective row with zeros
    /// for the slack variables and for the objective value, and the slack
    /// variables as the basis.
    pub open spec fn tableau_form(&self) -> TableauView<T> {
        TableauView {
            n: self.n(),
            rows: Seq::new(self.m(), |i: int| self.tableau_row(i)),
            z: self.costs() + zeros_spec(self.m()) + seq![T::zero_spec()],
            basis: Seq::new(self.m(), |i: int| (self.n() + i) as usize),
            nonbasis: Seq::new(self.n(), |i: int| i as usize),
        }
    }

    /// Whether the sizes of the tableau can be held.
    pub open spec fn tableau_fits(&self) -> bool {
        &&& self.n() + self.m() + 1 <= usize::MAX
        &&& self.m() * self.n() <= usize::MAX
        &&& self.m() * self.m() <= usize::MAX
    }

    /// The objective as the objective row carries it.
    fn objective_row(&self) -> (z: Vec<T>)
        requires
            self.goal == Goal::Max ==> negate_req(self.objective@),
        ensures
            z@ == self.costs(),
    {
        if self.goal == Goal::Max {
            negated(&self.objective)
        } else {
            vstd::slice::slice_to_vec(self.objective.as_slice())
        }
    }

    /// The initial tableau of the problem; the problem stays.
    pub fn to_tableau(&self) -> (t: Tableau<T>)
        requires
            self.lowering_req(),
            self.tableau_fits(),
        ensures
            t.wf(),
            t@ == self.tableau_form(),
            t@.partitioned(),
    {
        let one = T::one();
        let neg_one = T::one().neg();
        let m = self.constraints.len();
        let n = self.objective.len();
        let mut a_matrix: Matrix<T> = Matrix::with_capacity(m, n);
        let mut s_matrix: Matrix<T> = Matrix::with_capacity(m, m);
        let mut b_vec: Vec<T> = Vec::with_capacity(m);
        let basis = index_range(n, m);
        let nonbasis = index_range(0, n);
        let z_coeffs = self.objective_row();
        let z_slack = zeros::<T>(m);
        let z_rhs = T::zero();
        let mut i: usize = 0;
        while i < m
            invariant
                self.lowering_req(),
                self.tableau_fits(),
                m == self.m(),
                n == self.n(),
                one == T::one_spec(),
                neg_one == T::one_spec().neg_spec(),
                i <= m,
                a_matrix.wf(),
                a_matrix.rows == i,
                a_matrix.cols == n,
                s_matrix.wf(),
                s_matrix.rows == i,
                s_matrix.cols == m,
                b_vec@.len() == i,
                forall|r: int|
                    0 <= r < i ==> #[trigger] a_matrix.row_seq(r)
                        == self.constraints@[r].normal_coefficients(),
                forall|r: int| 0 <= r < i ==> #[trigger] s_matrix.row_seq(r) == self.slack_row(r),
                forall|r: int|
                    0 <= r < i ==> #[trigger] b_vec@[r] == self.constraints@[r].normal_rhs(),
            decreases m - i,
        {
            let normalised = self.constraints[i].duplicate().normalise();
            proof {
                let (mi, ni, ii) = (m as int, n as int, i as int);
                assert((ii + 1) * ni <= mi * ni && (ii + 1) * mi <= mi * mi) by (nonlinear_arith)
                    requires
                        0 <= ii < mi,
                        0 <= ni,
                ;
            }
            a_matrix.push_row(normalised.coefficients.as_slice());
            b_vec.push(normalised.rhs);
            let mut slack_row = zeros::<T>(m);
            match normalised.relation {
                Relation::LessEqual => {
                    slack_row[i] = one;
                },
                Relation::GreaterEqual => {
                    slack_row[i] = neg_one;
                },
                Relation::Equal => {},
            }
            assert(slack_row@ =~= self.slack_row(i as int));
            s_matrix.push_row(slack_row.as_slice());
            i += 1;
        }
        let t = Tableau {
            coefficients: a_matrix,
            slack: s_matrix,
            rhs: b_vec,
            basis,
            nonbasis,
            z_coeffs,
            z_slack,
            z_rhs,
        };
        proof {
            assert(t@.rows =~= self.tableau_form().rows);
            assert(t@.nonbasis =~= self.tableau_form().nonbasis);
            assert(t@.basis =~= self.tableau_form().basis);
            crate::tableau::lemma_initial_partition(t@);
        }
        t
    }

    /// The initial tableau of the problem, which is used up.
    pub fn into_tableau_form(self) -> (t: Tableau<T>)
        requires
            self.lowering_req(),
            self.tableau_fits(),
        ensures
            t.wf(),
            t@ == self.tableau_form(),
            t@.partitioned(),
    {
        self.to_tableau()
    }

    /// With only `<=` constraints whose right-hand sides are not negative,
    /// the slack block of the initial tableau is the identity, and the basis
    /// is the slack variables in order.
    pub proof fn lemma_slack_identity(&self)
        requires
            forall|i: int|
                0 <= i < self.m() ==> (#[trigger] self.constraints@[i]).coefficients@.len()
                    == self.n(),
            forall|i: int|
                0 <= i < self.m() ==> (#[trigger] self.constraints@[i]).relation
                    == Relation::LessEqual && self.constraints@[i].rhs.val() >= 0real,
        ensures
            forall|i: int, j: int|
                0 <= i < self.m() && 0 <= j < self.m() ==> (#[trigger] self.tableau_form().slack(
                    i,
                    j,
                )).val() == if i == j {
                    1real
                } else {
                    0real
                },
            self.tableau_form().basis == Seq::new(self.m(), |i: int| (self.n() + i) as usize),
    {
        T::lemma_constants();
        assert forall|i: int, j: int| 0 <= i < self.m() && 0 <= j < self.m() implies (
        #[trigger] self.tableau_form().slack(i, j)).val() == if i == j {
            1real
        } else {
            0real
        } by {
            let c = self.constraints@[i];
            assert(self.tableau_row(i)[self.n() + j] == self.slack_row(i)[j]) by {
                assert(c.normal_coefficients().len() == c.coefficients@.len());
                self.lemma_row_parts(i);
            }
        }
    }

    /// With only `<=` constraints whose right-hand sides are not negative,
    /// the initial tableau is in canonical form and feasible: the columns of
    /// the basic variables form an identity, their reduced costs are zero,
    /// and no right-hand side is negative.
    pub proof fn lemma_initial_canonical(&self)
        requires
            self.n() + self.m() <= usize::MAX,
            forall|i: int|
                0 <= i < self.m() ==> (#[trigger] self.constraints@[i]).coefficients@.len()
                    == self.n(),
            forall|i: int|
                0 <= i < self.m() ==> (#[trigger] self.constraints@[i]).relation
                    == Relation::LessEqual && self.constraints@[i].rhs.val() >= 0real,
        ensures
            self.tableau_form().basis_is_identity(),
            self.tableau_form().basic_costs_are_zero(),
            self.tableau_form().is_feasible(),
    {
        let t = self.tableau_form();
        self.lemma_slack_identity();
        T::lemma_constants();
        assert forall|i: int, j: int| 0 <= i < t.m() && 0 <= j < t.m() implies (
        #[trigger] t.rows[j])[(#[trigger] t.basis[i]) as int].val() == if i == j {
            1real
        } else {
            0real
        } by {
            assert(t.rows[j][t.basis[i] as int] == t.slack(j, i));
        }
        assert forall|i: int| 0 <= i < t.m() implies t.z[(#[trigger] t.basis[i]) as int].val()
            == 0real by {
            assert(self.costs().len() == self.n());
        }
        assert forall|i: int| 0 <= i < t.m() implies (#[trigger] t.rhs(i)).val() >= 0real by {
            self.lemma_row_parts(i);
        }
    }

    /// The objective row of the initial tableau is its own reduced
    /// objective: the basic variables are the slack variables, whose costs
    /// are zero.
    pub proof fn lemma_initial_objective_reduced(&self)
        requires
            self.n() + self.m() <= usize::MAX,
        ensures
            self.tableau_form().objective_is_reduced(self.tableau_form().z),
    {
        let t = self.tableau_form();
        let m = t.m() as int;
        T::lemma_constants();
        assert(self.costs().len() == self.n());
        assert forall|j: int| 0 <= j < t.width() implies (#[trigger] t.z[j]).val() == t.z[j].val()
            - t.basic_cost_of_column(t.z, j) by {
            let f = |i: int| t.z[t.basis[i] as int].val() * t.rows[i][j].val();
            let zero = |i: int| 0real;
            assert forall|i: int| 0 <= i < m implies #[trigger] f(i) == zero(i) by {
                assert(t.z[t.basis[i] as int] == T::zero_spec());
                let x = t.rows[i][j].val();
                assert(0real * x == 0real) by (nonlinear_arith);
            }
            crate::matrix_operations::lemma_sum_equal(f, zero, m);
            crate::matrix_operations::lemma_sum_zero(m);
        }
    }

    /// Where every constraint has a coefficient for every variable, row `i`
    /// of the tableau has the normalised coefficients in the first `n`
    /// columns, then the slack part, then the right-hand side.
    pub proof fn lemma_row_parts(&self, i: int)
        requires
            0 <= i < self.m(),
        ensures
            self.constraints@[i].coefficients@.len() == self.n() ==> {
                &&& self.tableau_row(i).len() == self.n() + self.m() + 1
                &&& forall|j: int|
                    0 <= j < self.n() ==> #[trigger] self.tableau_row(i)[j]
                        == self.constraints@[i].normal_coefficients()[j]
                &&& forall|j: int|
                    0 <= j < self.m() ==> #[trigger] self.tableau_row(i)[self.n() + j]
                        == self.slack_row(i)[j]
                &&& self.tableau_row(i)[(self.n() + self.m()) as int]
                    == self.constraints@[i].normal_rhs()
            },
    {
    }

    /// A `>=` constraint whose right-hand side is not negative gets -1 in
    /// its slack column.
    pub proof fn lemma_surplus(&self, i: int)
        requires
            0 <= i < self.m(),
            self.constraints@[i].coefficients@.len() == self.n(),
            self.constraints@[i].relation == Relation::GreaterEqual,
            self.constraints@[i].rhs.val() >= 0real,
            T::one_spec().neg_req(),
        ensures
            self.tableau_form().rows[i][self.n() + i].val() == -1real,
    {
        T::lemma_constants();
        T::one_spec().lemma_neg();
        self.lemma_row_parts(i);
    }

    /// A goal to maximise puts the negated objective in the objective row; a
    /// goal to minimise puts the objective there as it is.
    pub proof fn lemma_objective_sign(&self, j: int)
        requires
            0 <= j < self.n(),
            self.goal == Goal::Max ==> self.objective@[j].neg_req(),
        ensures
            self.goal == Goal::Max ==> self.tableau_form().z[j].val() == -self.objective@[j].val(),
            self.goal == Goal::Min ==> self.tableau_form().z[j] == self.objective@[j],
    {
        if self.goal == Goal::Max {
            self.objective@[j].lemma_neg();
        }
    }
}

impl<T: Scalar> Problem<T> {
    /// The number of slack and surplus columns of the standard form: one for
    /// every inequality.
    pub open spec fn slack_count(&self) -> nat {
        inequalities(self.constraints@, self.m() as int)
    }

    /// Row `i` of the standard form: the normalised coefficients, and in the
    /// slack columns zeros, but for the slack entry of an inequality in the
    /// column that the inequality was given: the next free one.
    pub open spec fn standard_row(&self, i: int) -> Seq<T> {
        Seq::new(
            self.n() + self.slack_count(),
            |j: int|
                if j < self.n() {
                    self.constraints@[i].normal_coefficients()[j]
                } else if self.constraints@[i].relation != Relation::Equal && j == self.n()
                    + inequalities(self.constraints@, i) {
                    slack_entry(self.constraints@[i].normal_relation())
                } else {
                    T::zero_spec()
                },
        )
    }

    /// Whether the sizes of the standard form can be held.
    pub open spec fn standard_form_fits(&self) -> bool {
        &&& self.n() + self.slack_count() <= usize::MAX
        &&& self.m() * (self.n() + self.slack_count()) <= usize::MAX
    }

    /// How many constraints are inequalities.
    fn count_inequalities(&self) -> (count: usize)
        ensures
            count == self.slack_count(),
    {
        let mut count: usize = 0;
        let mut i: usize = 0;
        while i < self.constraints.len()
            invariant
                i <= self.constraints@.len(),
                count == inequalities(self.constraints@, i as int),
                count <= i,
            decreases self.constraints@.len() - i,
        {
            if self.constraints[i].relation != Relation::Equal {
                count += 1;
            }
            i += 1;
        }
        count
    }

    /// The standard form of the problem: every constraint normalised, every
    /// inequality turned into an equation by a slack (+1) or a surplus (-1)
    /// column of its own, and the objective negated where the goal is to
    /// maximise, with zeros for the new columns.
    pub fn into_standard_form(self) -> (sf: StandardForm<T>)
        requires
            self.lowering_req(),
            self.standard_form_fits(),
        ensures
            sf.wf(),
            sf.a.rows == self.m(),
            sf.a.cols == self.n() + self.slack_count(),
            forall|i: int| 0 <= i < self.m() ==> #[trigger] sf.a.row_seq(i) == self.standard_row(i),
            sf.b@ == Seq::new(self.m(), |i: int| self.constraints@[i].normal_rhs()),
            sf.c@ == self.costs() + zeros_spec(self.slack_count()),
            sf.goal == self.goal,
            sf.slack_indices@ == Seq::new(self.slack_count(), |k: int| (self.n() + k) as usize),
    {
        let one = T::one();
        let neg_one = T::one().neg();
        let m = self.constraints.len();
        let n = self.objective.len();
        let surplus_slack = self.count_inequalities();
        let total_cols = n + surplus_slack;
        let mut a_matrix: Matrix<T> = Matrix::with_capacity(m, total_cols);
        let mut b_vec: Vec<T> = Vec::new();
        let slack_indices = index_range(n, surplus_slack);
        let mut slack_index = n;
        let mut i: usize = 0;
        while i < m
            invariant
                self.lowering_req(),
                self.standard_form_fits(),
                m == self.m(),
                n == self.n(),
                surplus_slack == self.slack_count(),
                total_cols == n + surplus_slack,
                one == T::one_spec(),
                neg_one == T::one_spec().neg_spec(),
                i <= m,
                slack_index == n + inequalities(self.constraints@, i as int),
                a_matrix.wf(),
                a_matrix.rows == i,
                a_matrix.cols == total_cols,
                b_vec@.len() == i,
                forall|r: int| 0 <= r < i ==> #[trigger] a_matrix.row_seq(r) == self.standard_row(r),
                forall|r: int|
                    0 <= r < i ==> #[trigger] b_vec@[r] == self.constraints@[r].normal_rhs(),
            decreases m - i,
        {
            let normalised = self.constraints[i].duplicate().normalise();
            proof {
                lemma_inequalities(self.constraints@, i as int, m as int);
                lemma_inequalities(self.constraints@, i as int + 1, m as int);
                let (mi, ti, ii) = (m as int, total_cols as int, i as int);
                assert((ii + 1) * ti <= mi * ti) by (nonlinear_arith)
                    requires
                        0 <= ii < mi,
                        0 <= ti,
                ;
            }
            let mut row_data: Vec<T> = vstd::slice::slice_to_vec(
                normalised.coefficients.as_slice(),
            );
            let mut j: usize = n;
            while j < total_cols
                invariant
                    n <= j <= total_cols,
                    row_data@.len() == j,
                    row_data@.subrange(0, n as int) == normalised.coefficients@,
                    forall|c: int| n <= c < j ==> #[trigger] row_data@[c] == T::zero_spec(),
                decreases total_cols - j,
            {
                row_data.push(T::zero());
                j += 1;
                assert(row_data@.subrange(0, n as int) =~= normalised.coefficients@);
            }
            assert(row_data@.subrange(0, n as int) =~= normalised.coefficients@);
            match normalised.relation {
                Relation::LessEqual => {
                    row_data[slack_index] = one;
                },
                Relation::GreaterEqual => {
                    row_data[slack_index] = neg_one;
                },
                Relation::Equal => {},
            }
            if normalised.relation != Relation::Equal {
                slack_index += 1;
            }
            proof {
                assert forall|c: int| 0 <= c < total_cols implies row_data@[c] == self.standard_row(
                    i as int,
                )[c] by {
                    if c < n {
                        assert(row_data@[c] == row_data@.subrange(0, n as int)[c]);
                    }
                }
                assert(row_data@ =~= self.standard_row(i as int));
            }
            b_vec.push(normalised.rhs);
            a_matrix.push_row(row_data.as_slice());
            i += 1;
        }
        let mut c_vec = self.objective_row();
        let mut k: usize = 0;
        while k < surplus_slack
            invariant
                k <= surplus_slack,
                surplus_slack == self.slack_count(),
                c_vec@ == self.costs() + zeros_spec::<T>(k as nat),
            decreases surplus_slack - k,
        {
            c_vec.push(T::zero());
            k += 1;
            assert(c_vec@ =~= self.costs() + zeros_spec::<T>(k as nat));
        }
        assert(b_vec@ =~= Seq::new(self.m(), |i: int| self.constraints@[i].normal_rhs()));
        StandardForm { a: a_matrix, b: b_vec, c: c_vec, goal: self.goal, slack_indices }
    }
}

} // verus!
