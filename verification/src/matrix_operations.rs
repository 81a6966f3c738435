//! The matrix product.

use crate::matrix::Matrix;
use crate::scalar::Scalar;
use vstd::prelude::*;

verus! {

impl<T: Scalar> Matrix<T> {
    /// The sum of the first `k` products `self[r][i] * other[i][c]`, added
    /// up from zero in the order of `i`.
    pub open spec fn dot_cell(&self, other: &Matrix<T>, r: int, c: int, k: int) -> T
        decreases k,
    {
        if k <= 0 {
            T::zero_spec()
        } else {
            self.dot_cell(other, r, c, k - 1).add_spec(
                self.at(r, k - 1).mul_spec(other.at(k - 1, c)),
            )
        }
    }

    /// Whether that sum can be computed.
    pub open spec fn dot_cell_req(&self, other: &Matrix<T>, r: int, c: int, k: int) -> bool
        decreases k,
    {
        k <= 0 || {
            &&& self.dot_cell_req(other, r, c, k - 1)
            &&& self.at(r, k - 1).mul_req(other.at(k - 1, c))
            &&& self.dot_cell(other, r, c, k - 1).add_req(
                self.at(r, k - 1).mul_spec(other.at(k - 1, c)),
            )
        }
    }

    /// Whether the product with `other` can be computed: the shapes match,
    /// the product's size can be held, and every cell can be computed.
    pub open spec fn dot_req(&self, other: &Matrix<T>) -> bool {
        &&& self.wf()
        &&& other.wf()
        &&& self.cols == other.rows
        &&& self.rows * other.cols <= usize::MAX
        &&& forall|r: int, c: int|
            0 <= r < self.rows && 0 <= c < other.cols ==> #[trigger] self.dot_cell_req(
                other,
                r,
                c,
                self.cols as int,
            )
    }

    /// Whether this matrix is the product of `a` and `b`.
    pub open spec fn is_dot(&self, a: &Matrix<T>, b: &Matrix<T>) -> bool {
        &&& self.wf()
        &&& self.rows == a.rows
        &&& self.cols == b.cols
        &&& forall|r: int, c: int|
            0 <= r < self.rows && 0 <= c < self.cols ==> #[trigger] self.at(r, c) == a.dot_cell(
                b,
                r,
                c,
                a.cols as int,
            )
    }

    /// What can be computed for the first `k` products can be computed for
    /// fewer.
    pub proof fn lemma_dot_cell_req(&self, other: &Matrix<T>, r: int, c: int, j: int, k: int)
        requires
            j <= k,
            self.dot_cell_req(other, r, c, k),
        ensures
            self.dot_cell_req(other, r, c, j),
        decreases k,
    {
        if j < k && k > 0 {
            self.lemma_dot_cell_req(other, r, c, j, k - 1);
        }
    }

    /// The matrix product of `self` and `other`: the cell in row `r` and
    /// column `c` is the sum over `k` of `self[r][k] * other[k][c]`.
    pub fn dot(&self, other: &Matrix<T>) -> (result: Matrix<T>)
        requires
            self.dot_req(other),
        ensures
            result.is_dot(self, other),
    {
        let mut result: Matrix<T> = Matrix::new(self.rows, other.cols);
        let mut r: usize = 0;
        while r < self.rows
            invariant
                self.dot_req(other),
                result.wf(),
                result.rows == self.rows,
                result.cols == other.cols,
                r <= self.rows,
                forall|i: int, j: int|
                    0 <= i < r && 0 <= j < other.cols ==> #[trigger] result.at(i, j)
                        == self.dot_cell(other, i, j, self.cols as int),
            decreases self.rows - r,
        {
            let mut c: usize = 0;
            while c < other.cols
                invariant
                    self.dot_req(other),
                    result.wf(),
                    result.rows == self.rows,
                    result.cols == other.cols,
                    r < self.rows,
                    c <= other.cols,
                    forall|i: int, j: int|
                        0 <= i < r && 0 <= j < other.cols ==> #[trigger] result.at(i, j)
                            == self.dot_cell(other, i, j, self.cols as int),
                    forall|j: int|
                        0 <= j < c ==> #[trigger] result.at(r as int, j) == self.dot_cell(
                            other,
                            r as int,
                            j,
                            self.cols as int,
                        ),
                decreases other.cols - c,
            {
                let mut sum = T::zero();
                let mut k: usize = 0;
                proof {
                    assert(self.dot_cell_req(other, r as int, c as int, self.cols as int));
                }
                while k < self.cols
                    invariant
                        self.wf(),
                        other.wf(),
                        self.cols == other.rows,
                        r < self.rows,
                        c < other.cols,
                        k <= self.cols,
                        self.dot_cell_req(other, r as int, c as int, self.cols as int),
                        sum == self.dot_cell(other, r as int, c as int, k as int),
                    decreases self.cols - k,
                {
                    proof {
                        self.lemma_dot_cell_req(
                            other,
                            r as int,
                            c as int,
                            k as int + 1,
                            self.cols as int,
                        );
                    }
                    sum = sum.add(self.get(r, k).mul(*other.get(k, c)));
                    k += 1;
                }
                result.set(r, c, sum);
                c += 1;
            }
            r += 1;
        }
        result
    }
}

/// The sum of `f(0), .., f(k - 1)`.
pub open spec fn sum(f: spec_fn(int) -> real, k: int) -> real
    decreases k,
{
    if k <= 0 {
        0real
    } else {
        sum(f, k - 1) + f(k - 1)
    }
}

/// Sums of equal terms are equal.
pub proof fn lemma_sum_equal(f: spec_fn(int) -> real, g: spec_fn(int) -> real, k: int)
    requires
        forall|i: int| 0 <= i < k ==> #[trigger] f(i) == g(i),
    ensures
        sum(f, k) == sum(g, k),
    decreases k,
{
    if k > 0 {
        lemma_sum_equal(f, g, k - 1);
    }
}

/// A factor can be taken out of a sum.
pub proof fn lemma_sum_scale(f: spec_fn(int) -> real, a: real, k: int)
    ensures
        sum(|i: int| a * f(i), k) == a * sum(f, k),
    decreases k,
{
    if k > 0 {
        lemma_sum_scale(f, a, k - 1);
        let (x, y) = (sum(f, k - 1), f(k - 1));
        assert(a * (x + y) == a * x + a * y) by (nonlinear_arith);
    } else {
        assert(a * 0real == 0real) by (nonlinear_arith);
    }
}

/// A factor at the right can be taken out of a sum.
pub proof fn lemma_sum_scale_right(f: spec_fn(int) -> real, a: real, k: int)
    ensures
        sum(|i: int| f(i) * a, k) == sum(f, k) * a,
    decreases k,
{
    if k > 0 {
        lemma_sum_scale_right(f, a, k - 1);
        let (x, y) = (sum(f, k - 1), f(k - 1));
        assert((x + y) * a == x * a + y * a) by (nonlinear_arith);
    } else {
        assert(0real * a == 0real) by (nonlinear_arith);
    }
}

/// The sum of sums is the sum of the terms added.
pub proof fn lemma_sum_add(f: spec_fn(int) -> real, g: spec_fn(int) -> real, k: int)
    ensures
        sum(|i: int| f(i) + g(i), k) == sum(f, k) + sum(g, k),
    decreases k,
{
    if k > 0 {
        lemma_sum_add(f, g, k - 1);
    }
}

/// A double sum can be taken in either order.
pub proof fn lemma_sum_exchange(f: spec_fn(int, int) -> real, n: int, m: int)
    ensures
        sum(|i: int| sum(|j: int| f(i, j), m), n) == sum(|j: int| sum(|i: int| f(i, j), n), m),
    decreases n,
{
    let by_rows = |i: int| sum(|j: int| f(i, j), m);
    let by_cols = |j: int| sum(|i: int| f(i, j), n);
    if n > 0 {
        lemma_sum_exchange(f, n - 1, m);
        let short = |j: int| sum(|i: int| f(i, j), n - 1);
        let last = |j: int| f(n - 1, j);
        lemma_sum_add(short, last, m);
        lemma_sum_equal(by_cols, |j: int| short(j) + last(j), m);
    } else {
        lemma_sum_equal(by_cols, |j: int| 0real, m);
        lemma_sum_zero(m);
    }
}

/// A sum of `f(i) - s * g(i)` is the sum of `f` less `s` times the sum of
/// `g`.
pub proof fn lemma_sum_sub_scaled(
    f: spec_fn(int) -> real,
    g: spec_fn(int) -> real,
    s: real,
    k: int,
)
    ensures
        sum(|i: int| f(i) - s * g(i), k) == sum(f, k) - s * sum(g, k),
    decreases k,
{
    if k > 0 {
        lemma_sum_sub_scaled(f, g, s, k - 1);
        let (x, y) = (sum(g, k - 1), g(k - 1));
        assert(s * (x + y) == s * x + s * y) by (nonlinear_arith);
    } else {
        assert(s * 0real == 0real) by (nonlinear_arith);
    }
}

/// Changing one term of a sum changes the sum by the change of the term.
pub proof fn lemma_sum_replace(
    f: spec_fn(int) -> real,
    g: spec_fn(int) -> real,
    r: int,
    k: int,
)
    requires
        0 <= r < k,
        forall|i: int| 0 <= i < k && i != r ==> #[trigger] g(i) == f(i),
    ensures
        sum(g, k) == sum(f, k) - f(r) + g(r),
    decreases k,
{
    if k - 1 == r {
        lemma_sum_equal(g, f, k - 1);
    } else {
        lemma_sum_replace(f, g, r, k - 1);
    }
}

/// A sum of zeros is zero.
pub proof fn lemma_sum_zero(k: int)
    ensures
        sum(|j: int| 0real, k) == 0real,
    decreases k,
{
    if k > 0 {
        lemma_sum_zero(k - 1);
    }
}

impl<T: Scalar> Matrix<T> {
    /// The number that the entry in row `r` and column `c` stands for.
    pub open spec fn val_at(&self, r: int, c: int) -> real {
        self.at(r, c).val()
    }

    /// A cell of the product stands for the sum of the products of the
    /// numbers in the row and in the column.
    pub proof fn lemma_dot_cell_val(&self, other: &Matrix<T>, r: int, c: int, k: int)
        requires
            self.dot_cell_req(other, r, c, k),
        ensures
            self.dot_cell(other, r, c, k).val() == sum(
                |i: int| self.val_at(r, i) * other.val_at(i, c),
                k,
            ),
        decreases k,
    {
        if k > 0 {
            self.lemma_dot_cell_val(other, r, c, k - 1);
            self.at(r, k - 1).lemma_mul(other.at(k - 1, c));
            self.dot_cell(other, r, c, k - 1).lemma_add(
                self.at(r, k - 1).mul_spec(other.at(k - 1, c)),
            );
        } else {
            T::lemma_constants();
        }
    }

    /// Whether this matrix stands for the identity: it is square, with 1 on
    /// the diagonal and 0 elsewhere.
    pub open spec fn is_identity(&self) -> bool {
        &&& self.wf()
        &&& self.rows == self.cols
        &&& forall|r: int, c: int|
            0 <= r < self.rows && 0 <= c < self.cols ==> #[trigger] self.val_at(r, c) == if r
                == c {
                1real
            } else {
                0real
            }
    }

    /// `A * 1 = A`: the product with the identity stands for the numbers of
    /// the matrix.
    pub proof fn lemma_dot_identity(a: &Matrix<T>, id: &Matrix<T>, product: &Matrix<T>)
        requires
            a.dot_req(id),
            id.is_identity(),
            product.is_dot(a, id),
        ensures
            product.same_shape(a),
            forall|r: int, c: int|
                0 <= r < a.rows && 0 <= c < a.cols ==> #[trigger] product.val_at(r, c)
                    == a.val_at(r, c),
    {
        assert forall|r: int, c: int| 0 <= r < a.rows && 0 <= c < a.cols implies #[trigger] product.val_at(
            r,
            c,
        ) == a.val_at(r, c) by {
            assert(product.at(r, c) == a.dot_cell(id, r, c, a.cols as int));
            assert(a.dot_cell_req(id, r, c, a.cols as int));
            a.lemma_dot_cell_val(id, r, c, a.cols as int);
            Self::lemma_identity_sum(a, id, r, c, a.cols as int);
        }
    }

    /// Over the first `k` columns, the products of row `r` with column `c`
    /// of the identity sum to the entry in column `c`, once `k` is past it.
    proof fn lemma_identity_sum(a: &Matrix<T>, id: &Matrix<T>, r: int, c: int, k: int)
        requires
            id.is_identity(),
            a.cols == id.rows,
            0 <= c < id.cols,
            0 <= k <= a.cols,
        ensures
            sum(|i: int| a.val_at(r, i) * id.val_at(i, c), k) == if c < k {
                a.val_at(r, c)
            } else {
                0real
            },
        decreases k,
    {
        if k > 0 {
            Self::lemma_identity_sum(a, id, r, c, k - 1);
            let x = a.val_at(r, k - 1);
            assert(id.val_at(k - 1, c) == if k - 1 == c {
                1real
            } else {
                0real
            });
            assert(x * 1real == x && x * 0real == 0real) by (nonlinear_arith);
        }
    }

    /// The matrix product is associative: `a (b c)` and `(a b) c` stand for
    /// the same numbers, cell by cell.
    pub proof fn lemma_dot_associative(
        a: &Matrix<T>,
        b: &Matrix<T>,
        c: &Matrix<T>,
        ab: &Matrix<T>,
        bc: &Matrix<T>,
        left: &Matrix<T>,
        right: &Matrix<T>,
    )
        requires
            a.dot_req(b),
            b.dot_req(c),
            ab.is_dot(a, b),
            bc.is_dot(b, c),
            a.dot_req(bc),
            ab.dot_req(c),
            left.is_dot(a, bc),
            right.is_dot(ab, c),
        ensures
            left.same_shape(right),
            forall|i: int, j: int|
                0 <= i < left.rows && 0 <= j < left.cols ==> #[trigger] left.val_at(i, j)
                    == right.val_at(i, j),
    {
        assert forall|i: int, j: int| 0 <= i < left.rows && 0 <= j < left.cols implies #[trigger] left.val_at(
            i,
            j,
        ) == right.val_at(i, j) by {
            let q = a.cols as int;
            let s = b.cols as int;
            let term = |x: int, y: int| (a.val_at(i, x) * b.val_at(x, y)) * c.val_at(y, j);
            // left = sum over x of a[i][x] * (sum over y of b[x][y] * c[y][j])
            assert(left.at(i, j) == a.dot_cell(bc, i, j, q));
            assert(a.dot_cell_req(bc, i, j, q));
            a.lemma_dot_cell_val(bc, i, j, q);
            let left_terms = |x: int| a.val_at(i, x) * bc.val_at(x, j);
            let left_sums = |x: int| sum(|y: int| term(x, y), s);
            assert forall|x: int| 0 <= x < q implies #[trigger] left_terms(x) == left_sums(x) by {
                assert(bc.at(x, j) == b.dot_cell(c, x, j, s));
                assert(b.dot_cell_req(c, x, j, s));
                b.lemma_dot_cell_val(c, x, j, s);
                let inner = |y: int| b.val_at(x, y) * c.val_at(y, j);
                lemma_sum_scale(inner, a.val_at(i, x), s);
                let scaled = |y: int| a.val_at(i, x) * inner(y);
                let terms = |y: int| term(x, y);
                assert forall|y: int| 0 <= y < s implies #[trigger] scaled(y) == terms(y) by {
                    let (u, v, w) = (a.val_at(i, x), b.val_at(x, y), c.val_at(y, j));
                    assert(u * (v * w) == (u * v) * w) by (nonlinear_arith);
                }
                lemma_sum_equal(scaled, terms, s);
            }
            lemma_sum_equal(left_terms, left_sums, q);
            // right = sum over y of (sum over x of a[i][x] * b[x][y]) * c[y][j]
            assert(right.at(i, j) == ab.dot_cell(c, i, j, s));
            assert(ab.dot_cell_req(c, i, j, s));
            ab.lemma_dot_cell_val(c, i, j, s);
            let right_terms = |y: int| ab.val_at(i, y) * c.val_at(y, j);
            let right_sums = |y: int| sum(|x: int| term(x, y), q);
            assert forall|y: int| 0 <= y < s implies #[trigger] right_terms(y) == right_sums(y) by {
                assert(ab.at(i, y) == a.dot_cell(b, i, y, q));
                assert(a.dot_cell_req(b, i, y, q));
                a.lemma_dot_cell_val(b, i, y, q);
                let inner = |x: int| a.val_at(i, x) * b.val_at(x, y);
                lemma_sum_scale_right(inner, c.val_at(y, j), q);
                lemma_sum_equal(|x: int| inner(x) * c.val_at(y, j), |x: int| term(x, y), q);
            }
            lemma_sum_equal(right_terms, right_sums, s);
            lemma_sum_exchange(term, q, s);
        }
    }
}

} // verus!
