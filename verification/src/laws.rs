//! The algebra of matrices: what addition, subtraction and the matrix product
//! satisfy for every operand of fitting shape.
use crate::grid::{sum, Grid};
use crate::scalar::Scalar;
use vstd::prelude::*;

verus! {

/// A sum of zeros is zero.
pub proof fn lemma_sum_zero<T: Scalar>(n: nat, f: spec_fn(int) -> T)
    requires
        forall|i: int| 0 <= i < n ==> #[trigger] f(i) == T::spec_zero(),
    ensures
        sum(n, f) == T::spec_zero(),
    decreases n,
{
    if n > 0 {
        lemma_sum_zero((n - 1) as nat, f);
        T::lemma_plus_zero(T::spec_zero());
    }
}

/// A sum whose terms are zero everywhere but at `at` is the term at `at`.
pub proof fn lemma_sum_single<T: Scalar>(n: nat, f: spec_fn(int) -> T, at: int)
    requires
        0 <= at < n,
        forall|i: int| 0 <= i < n && i != at ==> #[trigger] f(i) == T::spec_zero(),
    ensures
        sum(n, f) == f(at),
    decreases n,
{
    if at == n - 1 {
        lemma_sum_zero((n - 1) as nat, f);
        T::lemma_plus_commutes(T::spec_zero(), f(at));
        T::lemma_plus_zero(f(at));
    } else {
        lemma_sum_single((n - 1) as nat, f, at);
        T::lemma_plus_zero(f(at));
    }
}

/// The sum of term-by-term sums is the sum of the two sums.
pub proof fn lemma_sum_plus<T: Scalar>(
    n: nat,
    f: spec_fn(int) -> T,
    g: spec_fn(int) -> T,
    h: spec_fn(int) -> T,
)
    requires
        forall|i: int| 0 <= i < n ==> #[trigger] h(i) == f(i).spec_plus(g(i)),
    ensures
        sum(n, h) == sum(n, f).spec_plus(sum(n, g)),
    decreases n,
{
    if n == 0 {
        T::lemma_plus_zero(T::spec_zero());
    } else {
        let m = (n - 1) as nat;
        lemma_sum_plus(m, f, g, h);
        let a = sum(m, f);
        let b = sum(m, g);
        let c = f(n - 1);
        let d = g(n - 1);
        // (a + b) + (c + d) == (a + c) + (b + d)
        T::lemma_plus_associates(a.spec_plus(b), c, d);
        T::lemma_plus_associates(a, b, c);
        T::lemma_plus_commutes(b, c);
        T::lemma_plus_associates(a, c, b);
        T::lemma_plus_associates(a.spec_plus(c), b, d);
    }
}

/// A factor on the right of every term can be taken out of the sum.
pub proof fn lemma_sum_times_right<T: Scalar>(
    n: nat,
    f: spec_fn(int) -> T,
    c: T,
    h: spec_fn(int) -> T,
)
    requires
        forall|i: int| 0 <= i < n ==> #[trigger] h(i) == f(i).spec_times(c),
    ensures
        sum(n, h) == sum(n, f).spec_times(c),
    decreases n,
{
    if n == 0 {
        T::lemma_times_zero(c);
    } else {
        lemma_sum_times_right((n - 1) as nat, f, c, h);
        T::lemma_times_distributes(sum((n - 1) as nat, f), f(n - 1), c);
    }
}

/// A factor on the left of every term can be taken out of the sum.
pub proof fn lemma_sum_times_left<T: Scalar>(
    n: nat,
    f: spec_fn(int) -> T,
    c: T,
    h: spec_fn(int) -> T,
)
    requires
        forall|i: int| 0 <= i < n ==> #[trigger] h(i) == c.spec_times(f(i)),
    ensures
        sum(n, h) == c.spec_times(sum(n, f)),
    decreases n,
{
    if n == 0 {
        T::lemma_times_zero(c);
    } else {
        lemma_sum_times_left((n - 1) as nat, f, c, h);
        T::lemma_times_distributes(c, sum((n - 1) as nat, f), f(n - 1));
    }
}

/// The terms `t(i, 0), t(i, 1), ...` of a table of terms.
pub open spec fn along_second<T>(t: spec_fn(int, int) -> T, i: int) -> spec_fn(int) -> T {
    |j: int| t(i, j)
}

/// The terms `t(0, j), t(1, j), ...` of a table of terms.
pub open spec fn along_first<T>(t: spec_fn(int, int) -> T, j: int) -> spec_fn(int) -> T {
    |i: int| t(i, j)
}

/// A double sum may be taken in either order: summing `t(i, j)` over `j`
/// first and then over `i` gives what summing over `i` first gives.
pub proof fn lemma_sum_exchange<T: Scalar>(
    n: nat,
    m: nat,
    t: spec_fn(int, int) -> T,
    inner_by_i: spec_fn(int) -> T,
    inner_by_j: spec_fn(int) -> T,
)
    requires
        forall|i: int| 0 <= i < n ==> #[trigger] inner_by_i(i) == sum(m, along_second(t, i)),
        forall|j: int| 0 <= j < m ==> #[trigger] inner_by_j(j) == sum(n, along_first(t, j)),
    ensures
        sum(n, inner_by_i) == sum(m, inner_by_j),
    decreases n,
{
    if n == 0 {
        assert forall|j: int| 0 <= j < m implies #[trigger] inner_by_j(j) == T::spec_zero() by {
            assert(sum(0, along_first(t, j)) == T::spec_zero());
        }
        lemma_sum_zero(m, inner_by_j);
    } else {
        let k = (n - 1) as nat;
        // The columns without their last term.
        let shorter = |j: int| sum(k, along_first(t, j));
        let last = along_second(t, n - 1);
        lemma_sum_exchange(k, m, t, inner_by_i, shorter);
        assert forall|j: int| 0 <= j < m implies #[trigger] inner_by_j(j) == shorter(j).spec_plus(
            last(j),
        ) by {
            let column = along_first(t, j);
            assert(sum(n, column) == sum(k, column).spec_plus(column(n - 1)));
        }
        lemma_sum_plus(m, shorter, last, inner_by_j);
    }
}

impl<T: Scalar> Grid<T> {
    /// Adding a matrix and taking it away again gives the first matrix back:
    /// `(a + b) - b == a` for all `a` and `b` of one shape.
    pub proof fn lemma_add_then_sub(self, rhs: Grid<T>)
        requires
            self.wf(),
            rhs.wf(),
            self.same_shape(rhs),
        ensures
            self.add(rhs).sub(rhs) == self,
    {
        let back = self.add(rhs).sub(rhs);
        assert forall|k: int| 0 <= k < self.cells.len() implies back.cells[k] == self.cells[k] by {
            T::lemma_plus_minus_cancels(self.cells[k], rhs.cells[k]);
        }
        assert(back.cells =~= self.cells);
    }

    /// The shape and the cells of a matrix product.
    pub proof fn lemma_dot_cells(self, rhs: Grid<T>)
        ensures
            self.dot(rhs).wf(),
            self.dot(rhs).width == rhs.width,
            self.dot(rhs).height == self.height,
            forall|x: int, y: int|
                0 <= x < rhs.width && 0 <= y < self.height ==> #[trigger] self.dot(rhs).at(x, y)
                    == self.dot_cell(rhs, x, y),
    {
        Self::lemma_tabulate(rhs.width, self.height, |x: int, y: int| self.dot_cell(rhs, x, y));
    }

    /// The matrix product is associative: `(a . b) . c == a . (b . c)` for
    /// all `a`, `b` and `c` whose shapes let the products be taken.
    pub proof fn lemma_dot_associates(self, b: Grid<T>, c: Grid<T>)
        requires
            self.wf(),
            b.wf(),
            c.wf(),
            self.width == b.height,
            b.width == c.height,
        ensures
            self.dot(b).dot(c) == self.dot(b.dot(c)),
    {
        let a = self;
        let ab = a.dot(b);
        let bc = b.dot(c);
        let left = ab.dot(c);
        let right = a.dot(bc);
        a.lemma_dot_cells(b);
        b.lemma_dot_cells(c);
        ab.lemma_dot_cells(c);
        a.lemma_dot_cells(bc);
        assert forall|x: int, y: int| left.has(x, y) implies #[trigger] left.at(x, y) == right.at(
            x,
            y,
        ) by {
            // The term of the triple product at (i, j): a[i, y] * b[j, i] * c[x, j].
            let t = |i: int, j: int| a.at(i, y).spec_times(b.at(j, i)).spec_times(c.at(x, j));
            let left_terms = ab.dot_term(c, x, y);
            let right_terms = a.dot_term(bc, x, y);
            assert forall|j: int| 0 <= j < b.width implies #[trigger] left_terms(j) == sum(
                a.width,
                along_first(t, j),
            ) by {
                assert(ab.has(j, y));
                assert(ab.at(j, y) == a.dot_cell(b, j, y));
                lemma_sum_times_right(
                    a.width,
                    a.dot_term(b, j, y),
                    c.at(x, j),
                    along_first(t, j),
                );
            }
            assert forall|i: int| 0 <= i < a.width implies #[trigger] right_terms(i) == sum(
                b.width,
                along_second(t, i),
            ) by {
                let row = along_second(t, i);
                assert(bc.has(x, i));
                assert(bc.at(x, i) == b.dot_cell(c, x, i));
                assert forall|j: int| 0 <= j < b.width implies #[trigger] row(j) == a.at(
                    i,
                    y,
                ).spec_times(b.dot_term(c, x, i)(j)) by {
                    T::lemma_times_associates(a.at(i, y), b.at(j, i), c.at(x, j));
                }
                lemma_sum_times_left(
                    b.width,
                    b.dot_term(c, x, i),
                    a.at(i, y),
                    row,
                );
            }
            lemma_sum_exchange(a.width, b.width, t, right_terms, left_terms);
            assert(left.at(x, y) == sum(b.width, left_terms));
            assert(right.at(x, y) == sum(a.width, right_terms));
        }
        left.lemma_equal_by_cells(right);
    }

    /// The shape and the cells of an identity matrix.
    pub proof fn lemma_identity_cells(n: nat)
        ensures
            Self::identity(n).wf(),
            Self::identity(n).width == n,
            Self::identity(n).height == n,
            forall|x: int, y: int|
                0 <= x < n && 0 <= y < n ==> #[trigger] Self::identity(n).at(x, y) == (if x == y {
                    T::spec_one()
                } else {
                    T::spec_zero()
                }),
    {
        Self::lemma_tabulate(
            n,
            n,
            |x: int, y: int|
                if x == y {
                    T::spec_one()
                } else {
                    T::spec_zero()
                },
        );
    }

    /// The product with an identity matrix of fitting size, on either side,
    /// is the matrix itself.
    pub proof fn lemma_dot_identity(self)
        requires
            self.wf(),
        ensures
            self.dot(Self::identity(self.width)) == self,
            Self::identity(self.height).dot(self) == self,
    {
        let right_id = Self::identity(self.width);
        let left_id = Self::identity(self.height);
        Self::lemma_identity_cells(self.width);
        Self::lemma_identity_cells(self.height);
        let by_right = self.dot(right_id);
        let by_left = left_id.dot(self);
        self.lemma_dot_cells(right_id);
        left_id.lemma_dot_cells(self);
        assert forall|x: int, y: int| by_right.has(x, y) implies
            #[trigger] by_right.at(x, y) == self.at(x, y) by {
            let terms = self.dot_term(right_id, x, y);
            assert forall|i: int| 0 <= i < self.width && i != x implies #[trigger] terms(i)
                == T::spec_zero() by {
                assert(right_id.at(x, i) == T::spec_zero());
                T::lemma_times_zero(self.at(i, y));
            }
            assert(right_id.at(x, x) == T::spec_one());
            T::lemma_times_one(self.at(x, y));
            lemma_sum_single(self.width, terms, x);
        }
        by_right.lemma_equal_by_cells(self);
        assert forall|x: int, y: int| by_left.has(x, y) implies
            #[trigger] by_left.at(x, y) == self.at(x, y) by {
            let terms = left_id.dot_term(self, x, y);
            assert forall|i: int| 0 <= i < self.height && i != y implies #[trigger] terms(i)
                == T::spec_zero() by {
                assert(left_id.at(i, y) == T::spec_zero());
                T::lemma_times_zero(self.at(x, i));
            }
            assert(left_id.at(y, y) == T::spec_one());
            T::lemma_times_one(self.at(x, y));
            lemma_sum_single(self.height, terms, y);
        }
        by_left.lemma_equal_by_cells(self);
    }
}

} // verus!
