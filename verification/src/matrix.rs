//! The dense matrix: a fixed shape over a flat row-major buffer.
use crate::error::{Error, Shape};
use crate::grid::{lemma_offset, lemma_row_bounds, sum, Grid};
use crate::scalar::Scalar;
use vstd::prelude::*;

verus! {

/// A dense matrix of `width` columns and `height` rows. The element in
/// column `x` of row `y` is stored at offset `x + width * y`. The shape never
/// changes after construction.
#[derive(Debug, PartialEq, Eq)]
pub struct Matrix<T> {
    width: usize,
    height: usize,
    vec: Vec<T>,
}

impl<T> View for Matrix<T> {
    type V = Grid<T>;

    closed spec fn view(&self) -> Grid<T> {
        Grid { width: self.width as nat, height: self.height as nat, cells: self.vec@ }
    }
}

/// `&mut vec[from..to]`, std's mutable indexing of a `Vec` by a range: the
/// elements from `from` up to `to`, to be written through. The contract says
/// that the part starts out as that range of `vec`, that its length is fixed,
/// and that `vec` ends up as it was but for the part, which ends up as the
/// caller left it. Indexing by a range inside the bounds does not panic.
#[verifier::external_body]
fn range_mut<T>(vec: &mut Vec<T>, from: usize, to: usize) -> (part: &mut [T])
    requires
        from <= to <= old(vec)@.len(),
    ensures
        part@ == old(vec)@.subrange(from as int, to as int),
        final(part)@.len() == part@.len(),
        final(vec)@ == old(vec)@.subrange(0, from as int) + final(part)@ + old(vec)@.subrange(
            to as int,
            old(vec)@.len() as int,
        ),
    no_unwind
{
    &mut vec[from..to]
}

impl<T> Matrix<T> {
    /// The buffer holds exactly one element for each coordinate.
    #[verifier::type_invariant]
    pub closed spec fn wf(&self) -> bool {
        self.vec@.len() == self.width * self.height
    }

    /// The shape of this matrix, as a value.
    pub open spec fn spec_shape(&self) -> Shape {
        Shape { width: self@.width as usize, height: self@.height as usize }
    }

    /// A well-formed matrix has a well-formed model, whose dimensions are
    /// machine integers.
    pub proof fn lemma_view_wf(&self)
        requires
            self.wf(),
        ensures
            self@.wf(),
            self@.width <= usize::MAX,
            self@.height <= usize::MAX,
            self@.cells.len() <= usize::MAX,
    {
        assert(self.vec.len() == self.vec@.len());
    }

    /// The shape of a matrix, as a value, holds the dimensions of its model.
    pub proof fn lemma_shape(&self)
        ensures
            self.spec_shape().width == self@.width,
            self.spec_shape().height == self@.height,
    {
    }

    /// The number of columns.
    pub fn width(&self) -> (w: usize)
        ensures
            w == self@.width,
    {
        self.width
    }

    /// The number of rows.
    pub fn height(&self) -> (h: usize)
        ensures
            h == self@.height,
    {
        self.height
    }

    /// Width and height together.
    pub fn shape(&self) -> (s: Shape)
        ensures
            s == self.spec_shape(),
            s.width == self@.width,
            s.height == self@.height,
            self@.wf(),
    {
        proof {
            use_type_invariant(self);
        }
        Shape { width: self.width, height: self.height }
    }

    /// The element in column `x` of row `y`.
    pub fn get(&self, x: usize, y: usize) -> (element: &T)
        requires
            x < self@.width,
            y < self@.height,
        ensures
            *element == self@.at(x as int, y as int),
    {
        proof {
            use_type_invariant(self);
            self.lemma_view_wf();
            lemma_offset(self.width as nat, self.height as nat, x as int, y as int);
        }
        &self.vec[x + self.width * y]
    }

    /// Replaces the element in column `x` of row `y` by `value`.
    pub fn set(&mut self, x: usize, y: usize, value: T)
        requires
            x < old(self)@.width,
            y < old(self)@.height,
        ensures
            final(self)@ == old(self)@.update(x as int, y as int, value),
            final(self)@.wf(),
        no_unwind
    {
        proof {
            use_type_invariant(&*self);
            self.lemma_view_wf();
            lemma_offset(self.width as nat, self.height as nat, x as int, y as int);
        }
        let offset: usize = x + self.width * y;
        self.vec[offset] = value;
    }

    /// The element in column `x` of row `y`, to be written through.
    pub fn get_mut(&mut self, x: usize, y: usize) -> (element: &mut T)
        requires
            x < old(self)@.width,
            y < old(self)@.height,
        ensures
            *element == old(self)@.at(x as int, y as int),
            final(self)@ == old(self)@.update(x as int, y as int, *final(element)),
    {
        proof {
            use_type_invariant(&*self);
            self.lemma_view_wf();
            lemma_offset(self.width as nat, self.height as nat, x as int, y as int);
        }
        let offset: usize = x + self.width * y;
        &mut self.vec[offset]
    }

    /// Row `y`, to be written through: the row takes on what is written,
    /// and every other row stays as it is.
    pub fn row_mut(&mut self, y: usize) -> (row: &mut [T])
        requires
            y < old(self)@.height,
        ensures
            row@ == old(self)@.row(y as int),
            final(row)@.len() == old(self)@.width,
            final(self)@ == old(self)@.with_row(y as int, final(row)@),
            final(self)@.wf(),
            final(self)@.row(y as int) == final(row)@,
            forall|j: int|
                0 <= j < old(self)@.height && j != y
                    ==> #[trigger] final(self)@.row(j) == old(self)@.row(j),
    {
        proof {
            use_type_invariant(&*self);
            self.lemma_view_wf();
            lemma_row_bounds(self.width as nat, self.height as nat, y as int);
            assert forall|written: Seq<T>| written.len() == self.width implies {
                let changed = #[trigger] self@.with_row(y as int, written);
                &&& changed.wf()
                &&& changed.row(y as int) == written
                &&& forall|j: int|
                    0 <= j < self.height && j != y ==> #[trigger] changed.row(j) == self@.row(j)
            } by {
                self@.lemma_with_row(y as int, written);
            }
        }
        let start: usize = self.width * y;
        let end: usize = start + self.width;
        range_mut(&mut self.vec, start, end)
    }

    /// Row `y`: its `width` elements, left to right.
    pub fn row(&self, y: usize) -> (row: &[T])
        requires
            y < self@.height,
        ensures
            row@ == self@.row(y as int),
            row@.len() == self@.width,
    {
        proof {
            use_type_invariant(self);
            self.lemma_view_wf();
            lemma_row_bounds(self.width as nat, self.height as nat, y as int);
        }
        let start: usize = self.width * y;
        let slice = self.vec.as_slice();
        &slice[start..start + self.width]
    }
}

/// Whether `copy` has the shape of `source` and holds a clone of each of its
/// cells.
pub open spec fn cloned_grid<T: Clone>(source: Grid<T>, copy: Grid<T>) -> bool {
    &&& copy.same_shape(source)
    &&& copy.cells.len() == source.cells.len()
    &&& forall|k: int|
        0 <= k < source.cells.len() ==> cloned::<T>(#[trigger] source.cells[k], copy.cells[k])
}

impl<T: Clone> Clone for Matrix<T> {
    /// A matrix of the same shape that holds a clone of each element.
    fn clone(&self) -> (copy: Self)
        ensures
            copy@.wf(),
            cloned_grid(self@, copy@),
    {
        proof {
            use_type_invariant(self);
        }
        Matrix { width: self.width, height: self.height, vec: self.vec.clone() }
    }
}

impl<T: Scalar> Matrix<T> {
    /// A matrix of the given shape with zero everywhere.
    pub fn new(width: usize, height: usize) -> (matrix: Self)
        requires
            width * height <= usize::MAX,
        ensures
            matrix@ == Grid::<T>::zeros(width as nat, height as nat),
            matrix@.wf(),
    {
        let len: usize = width * height;
        let mut vec: Vec<T> = Vec::new();
        let mut k: usize = 0;
        while k < len
            invariant
                k <= len,
                vec@.len() == k,
                forall|j: int| 0 <= j < k ==> vec@[j] == T::spec_zero(),
            decreases len - k,
        {
            vec.push(T::zero());
            k += 1;
        }
        proof {
            assert(vec@ =~= Grid::<T>::zeros(width as nat, height as nat).cells);
        }
        Matrix { width, height, vec }
    }
}

impl<T: Copy> Matrix<T> {
    /// Replaces every element `v` at `(x, y)` by `f((x, y), v)`, row by row.
    pub fn map<F: Fn((usize, usize), T) -> T>(&mut self, f: F)
        requires
            forall|x: int, y: int|
                old(self)@.has(x, y) ==> call_requires(
                    f,
                    ((x as usize, y as usize), #[trigger] old(self)@.at(x, y)),
                ),
        ensures
            final(self)@.wf(),
            final(self)@.same_shape(old(self)@),
            forall|x: int, y: int|
                old(self)@.has(x, y) ==> call_ensures(
                    f,
                    ((x as usize, y as usize), old(self)@.at(x, y)),
                    #[trigger] final(self)@.at(x, y),
                ),
    {
        proof {
            use_type_invariant(&*self);
            self.lemma_view_wf();
        }
        let width: usize = self.width;
        let height: usize = self.height;
        let ghost before = self@;
        let mut y: usize = 0;
        while y < height
            invariant
                y <= height,
                self.width == width,
                self.height == height,
                before.width == width,
                before.height == height,
                before.wf(),
                self@.wf(),
                width * height <= usize::MAX,
                forall|i: int, j: int|
                    before.has(i, j) ==> call_requires(
                        f,
                        ((i as usize, j as usize), #[trigger] before.at(i, j)),
                    ),
                forall|i: int, j: int|
                    before.has(i, j) && j < y ==> call_ensures(
                        f,
                        ((i as usize, j as usize), before.at(i, j)),
                        #[trigger] self@.at(i, j),
                    ),
                forall|i: int, j: int|
                    before.has(i, j) && j >= y ==> #[trigger] self@.at(i, j) == before.at(i, j),
            decreases height - y,
        {
            let mut x: usize = 0;
            while x < width
                invariant
                    x <= width,
                    y < height,
                    self.width == width,
                    self.height == height,
                    before.width == width,
                    before.height == height,
                    before.wf(),
                    self@.wf(),
                    width * height <= usize::MAX,
                    forall|i: int, j: int|
                        before.has(i, j) ==> call_requires(
                            f,
                            ((i as usize, j as usize), #[trigger] before.at(i, j)),
                        ),
                    forall|i: int, j: int|
                        before.has(i, j) && (j < y || (j == y && i < x)) ==> call_ensures(
                            f,
                            ((i as usize, j as usize), before.at(i, j)),
                            #[trigger] self@.at(i, j),
                        ),
                    forall|i: int, j: int|
                        before.has(i, j) && (j > y || (j == y && i >= x)) ==> #[trigger] self@.at(
                            i,
                            j,
                        ) == before.at(i, j),
                decreases width - x,
            {
                proof {
                    lemma_offset(width as nat, height as nat, x as int, y as int);
                    assert(before.has(x as int, y as int));
                    assert(self@.at(x as int, y as int) == before.at(x as int, y as int));
                }
                let offset: usize = x + width * y;
                let ghost prior = self@;
                let value = f((x, y), self.vec[offset]);
                self.vec[offset] = value;
                proof {
                    assert forall|i: int, j: int| before.has(i, j) && (i != x || j != y) implies
                        #[trigger] self@.at(i, j) == prior.at(i, j) by {
                        lemma_offset(width as nat, height as nat, i, j);
                        lemma_offset(width as nat, height as nat, x as int, y as int);
                    }
                }
                x += 1;
            }
            y += 1;
        }
    }
}

impl<T: Scalar> Matrix<T> {
    /// Adds `rhs` to this matrix, element by element. The two must have the
    /// same shape; otherwise nothing changes.
    pub fn add_assign(&mut self, rhs: &Self) -> (outcome: Result<(), Error>)
        ensures
            final(self)@.wf(),
            match outcome {
                Ok(()) => old(self)@.same_shape(rhs@) && final(self)@ == old(self)@.add(rhs@),
                Err(e) => !old(self)@.same_shape(rhs@)
                    && *final(self) == *old(self)
                    && e == (Error::ShapeMismatch {
                        expected: old(self).spec_shape(),
                        actual: rhs.spec_shape(),
                    }),
            },
    {
        proof {
            use_type_invariant(&*self);
            use_type_invariant(rhs);
            self.lemma_view_wf();
        }
        if self.width != rhs.width || self.height != rhs.height {
            return Err(Error::ShapeMismatch { expected: self.shape(), actual: rhs.shape() });
        }
        let len: usize = self.vec.len();
        let ghost before = self@;
        let mut k: usize = 0;
        while k < len
            invariant
                k <= len,
                len == self.vec@.len(),
                len == rhs.vec@.len(),
                len == before.cells.len(),
                self.wf(),
                self.width == before.width,
                self.height == before.height,
                forall|j: int|
                    0 <= j < k ==> self.vec@[j] == before.cells[j].spec_plus(rhs.vec@[j]),
                forall|j: int| k <= j < len ==> self.vec@[j] == before.cells[j],
            decreases len - k,
        {
            let total = self.vec[k].plus(rhs.vec[k]);
            self.vec[k] = total;
            k += 1;
        }
        proof {
            assert(self@.cells =~= before.add(rhs@).cells);
        }
        Ok(())
    }

    /// The element-by-element sum of this matrix and `rhs`, which must have
    /// the same shape.
    pub fn add(self, rhs: &Self) -> (outcome: Result<Self, Error>)
        ensures
            match outcome {
                Ok(m) => self@.same_shape(rhs@) && m@ == self@.add(rhs@) && m@.wf(),
                Err(e) => !self@.same_shape(rhs@)
                    && e == (Error::ShapeMismatch {
                        expected: self.spec_shape(),
                        actual: rhs.spec_shape(),
                    }),
            },
    {
        let mut total = self;
        match total.add_assign(rhs) {
            Ok(()) => Ok(total),
            Err(e) => Err(e),
        }
    }

    /// Subtracts `rhs` from this matrix, element by element. The two must
    /// have the same shape; otherwise nothing changes.
    pub fn sub_assign(&mut self, rhs: &Self) -> (outcome: Result<(), Error>)
        ensures
            final(self)@.wf(),
            match outcome {
                Ok(()) => old(self)@.same_shape(rhs@) && final(self)@ == old(self)@.sub(rhs@),
                Err(e) => !old(self)@.same_shape(rhs@)
                    && *final(self) == *old(self)
                    && e == (Error::ShapeMismatch {
                        expected: old(self).spec_shape(),
                        actual: rhs.spec_shape(),
                    }),
            },
    {
        proof {
            use_type_invariant(&*self);
            use_type_invariant(rhs);
            self.lemma_view_wf();
        }
        if self.width != rhs.width || self.height != rhs.height {
            return Err(Error::ShapeMismatch { expected: self.shape(), actual: rhs.shape() });
        }
        let len: usize = self.vec.len();
        let ghost before = self@;
        let mut k: usize = 0;
        while k < len
            invariant
                k <= len,
                len == self.vec@.len(),
                len == rhs.vec@.len(),
                len == before.cells.len(),
                self.wf(),
                self.width == before.width,
                self.height == before.height,
                forall|j: int|
                    0 <= j < k ==> self.vec@[j] == before.cells[j].spec_minus(rhs.vec@[j]),
                forall|j: int| k <= j < len ==> self.vec@[j] == before.cells[j],
            decreases len - k,
        {
            let rest = self.vec[k].minus(rhs.vec[k]);
            self.vec[k] = rest;
            k += 1;
        }
        proof {
            assert(self@.cells =~= before.sub(rhs@).cells);
        }
        Ok(())
    }

    /// The element-by-element difference of this matrix and `rhs`, which
    /// must have the same shape.
    pub fn sub(self, rhs: &Self) -> (outcome: Result<Self, Error>)
        ensures
            match outcome {
                Ok(m) => self@.same_shape(rhs@) && m@ == self@.sub(rhs@) && m@.wf(),
                Err(e) => !self@.same_shape(rhs@)
                    && e == (Error::ShapeMismatch {
                        expected: self.spec_shape(),
                        actual: rhs.spec_shape(),
                    }),
            },
    {
        let mut rest = self;
        match rest.sub_assign(rhs) {
            Ok(()) => Ok(rest),
            Err(e) => Err(e),
        }
    }

    /// Multiplies every element by `rhs`.
    pub fn mul_assign(&mut self, rhs: T)
        ensures
            final(self)@.wf(),
            final(self)@ == old(self)@.scale(rhs),
    {
        proof {
            use_type_invariant(&*self);
        }
        let len: usize = self.vec.len();
        let ghost before = self@;
        let mut k: usize = 0;
        while k < len
            invariant
                k <= len,
                len == self.vec@.len(),
                len == before.cells.len(),
                self.wf(),
                self.width == before.width,
                self.height == before.height,
                forall|j: int| 0 <= j < k ==> self.vec@[j] == before.cells[j].spec_times(rhs),
                forall|j: int| k <= j < len ==> self.vec@[j] == before.cells[j],
            decreases len - k,
        {
            let scaled = self.vec[k].times(rhs);
            self.vec[k] = scaled;
            k += 1;
        }
        proof {
            assert(self@.cells =~= before.scale(rhs).cells);
        }
    }

    /// This matrix with every element multiplied by `rhs`.
    pub fn mul(self, rhs: T) -> (scaled: Self)
        ensures
            scaled@ == self@.scale(rhs),
            scaled@.wf(),
    {
        let mut scaled = self;
        scaled.mul_assign(rhs);
        scaled
    }

    /// The matrix product of this matrix with `rhs`. The width of this
    /// matrix must be the height of `rhs`; the product is as wide as `rhs`
    /// and as high as this matrix, and its element at `(x, y)` is the sum of
    /// `self[i, y] * rhs[x, i]` over the shared dimension, from zero upwards.
    /// Where the two do not fit, the error names the shape that `rhs` would
    /// have to have: as wide as it is, and as high as this matrix is wide.
    pub fn dot(&self, rhs: &Self) -> (outcome: Result<Self, Error>)
        requires
            self@.width == rhs@.height ==> rhs@.width * self@.height <= usize::MAX,
        ensures
            match outcome {
                Ok(m) => self@.width == rhs@.height && m@ == self@.dot(rhs@) && m@.wf(),
                Err(e) => self@.width != rhs@.height
                    && e == (Error::ShapeMismatch {
                        expected: Shape {
                            width: rhs@.width as usize,
                            height: self@.width as usize,
                        },
                        actual: rhs.spec_shape(),
                    }),
            },
    {
        proof {
            use_type_invariant(self);
            use_type_invariant(rhs);
            self.lemma_view_wf();
            rhs.lemma_view_wf();
        }
        if self.width != rhs.height {
            return Err(
                Error::ShapeMismatch {
                    expected: Shape { width: rhs.width, height: self.width },
                    actual: rhs.shape(),
                },
            );
        }
        let width: usize = rhs.width;
        let height: usize = self.height;
        let shared: usize = self.width;
        let mut vec: Vec<T> = Vec::new();
        let mut y: usize = 0;
        while y < height
            invariant
                y <= height,
                width == rhs@.width,
                height == self@.height,
                shared == self@.width,
                shared == rhs@.height,
                self@.wf(),
                rhs@.wf(),
                width * height <= usize::MAX,
                vec@.len() == width * y,
                forall|k: int|
                    0 <= k < vec@.len() ==> #[trigger] vec@[k] == self@.dot_cell(
                        rhs@,
                        k % (width as int),
                        k / (width as int),
                    ),
            decreases height - y,
        {
            let mut x: usize = 0;
            while x < width
                invariant
                    x <= width,
                    y < height,
                    width == rhs@.width,
                    height == self@.height,
                    shared == self@.width,
                    shared == rhs@.height,
                    self@.wf(),
                    rhs@.wf(),
                    width * height <= usize::MAX,
                    vec@.len() == x + width * y,
                    forall|k: int|
                        0 <= k < vec@.len() ==> #[trigger] vec@[k] == self@.dot_cell(
                            rhs@,
                            k % (width as int),
                            k / (width as int),
                        ),
                decreases width - x,
            {
                let mut acc = T::zero();
                let mut i: usize = 0;
                while i < shared
                    invariant
                        i <= shared,
                        x < width,
                        y < height,
                        width == rhs@.width,
                        height == self@.height,
                        shared == self@.width,
                        shared == rhs@.height,
                        acc == sum(i as nat, self@.dot_term(rhs@, x as int, y as int)),
                    decreases shared - i,
                {
                    let term = self.get(i, y).times(*rhs.get(x, i));
                    acc = acc.plus(term);
                    i += 1;
                    proof {
                        reveal_with_fuel(sum, 2);
                    }
                }
                proof {
                    lemma_offset(width as nat, height as nat, x as int, y as int);
                }
                vec.push(acc);
                x += 1;
            }
            proof {
                assert(width * (y + 1) == width + width * y) by (nonlinear_arith);
            }
            y += 1;
        }
        proof {
            assert(vec@ =~= self@.dot(rhs@).cells);
        }
        Ok(Matrix { width, height, vec })
    }
}

/// A walk over the rows of a matrix, from row 0 upwards. Its view is the
/// sequence of rows that it has yet to hand out.
#[derive(Debug)]
pub struct MatrixIter<'a, T> {
    matrix: &'a Matrix<T>,
    index: usize,
}

impl<'a, T> View for MatrixIter<'a, T> {
    type V = Seq<Seq<T>>;

    closed spec fn view(&self) -> Seq<Seq<T>> {
        self.matrix@.rows().skip(self.index as int)
    }
}

impl<'a, T> MatrixIter<'a, T> {
    /// The walk has not gone past the last row.
    #[verifier::type_invariant]
    closed spec fn wf(&self) -> bool {
        self.index <= self.matrix.height
    }

    /// The next row, or `None` once every row has been handed out.
    pub fn next(&mut self) -> (row: Option<&'a [T]>)
        ensures
            old(self)@.len() == 0 ==> row is None && final(self)@ == old(self)@,
            old(self)@.len() > 0 ==> row is Some && row->Some_0@ == old(self)@[0] && final(self)@
                == old(self)@.skip(1),
    {
        proof {
            use_type_invariant(&*self);
        }
        if self.index != self.matrix.height {
            let y: usize = self.index;
            let row = self.matrix.row(y);
            self.index = y + 1;
            proof {
                assert(self@ =~= old(self)@.skip(1));
            }
            Some(row)
        } else {
            None
        }
    }
}

impl<T> Matrix<T> {
    /// A fresh walk over all rows, in increasing row order.
    pub fn rows(&self) -> (iter: MatrixIter<'_, T>)
        ensures
            iter@ == self@.rows(),
    {
        let iter = MatrixIter { matrix: self, index: 0 };
        proof {
            assert(iter@ =~= self@.rows());
        }
        iter
    }
}

// Reading by `matrix[y]` and `matrix[(x, y)]`. Writing goes through `row_mut`,
// `get_mut` and `set`, which can ask for an index inside the matrix.
impl<T> vstd::std_specs::core::IndexSpecImpl<usize> for Matrix<T> {
    open spec fn index_req(&self, index: &usize) -> bool {
        *index < self@.height
    }
}

impl<T> core::ops::Index<usize> for Matrix<T> {
    type Output = [T];

    /// Row `index`.
    fn index(&self, index: usize) -> (row: &[T])
        ensures
            row@ == self@.row(index as int),
    {
        self.row(index)
    }
}

impl<T> vstd::std_specs::core::IndexSpecImpl<(usize, usize)> for Matrix<T> {
    open spec fn index_req(&self, index: &(usize, usize)) -> bool {
        index.0 < self@.width && index.1 < self@.height
    }
}

impl<T> core::ops::Index<(usize, usize)> for Matrix<T> {
    type Output = T;

    /// The element in column `index.0` of row `index.1`.
    fn index(&self, index: (usize, usize)) -> (element: &T)
        ensures
            *element == self@.at(index.0 as int, index.1 as int),
    {
        self.get(index.0, index.1)
    }
}

} // verus!
