//! The mathematical model of a matrix: a shape and a row-major sequence of
//! cells, with the algebra of matrices stated over it.
use crate::scalar::Scalar;
use vstd::arithmetic::div_mod::*;
use vstd::arithmetic::mul::*;
use vstd::prelude::*;

verus! {

/// A `width` by `height` table of cells, stored row by row: the cell in
/// column `x` of row `y` stands at offset `x + width * y`.
pub ghost struct Grid<T> {
    pub width: nat,
    pub height: nat,
    pub cells: Seq<T>,
}

impl<T> Grid<T> {
    /// There is exactly one cell for each coordinate.
    pub open spec fn wf(self) -> bool {
        self.cells.len() == self.width * self.height
    }

    /// Whether `(x, y)` names a cell.
    pub open spec fn has(self, x: int, y: int) -> bool {
        0 <= x < self.width && 0 <= y < self.height
    }

    /// Where the cell in column `x` of row `y` stands in `cells`.
    pub open spec fn offset(self, x: int, y: int) -> int {
        x + self.width * y
    }

    /// The cell in column `x` of row `y`.
    pub open spec fn at(self, x: int, y: int) -> T {
        self.cells[self.offset(x, y)]
    }

    /// Row `y`, left to right.
    pub open spec fn row(self, y: int) -> Seq<T> {
        self.cells.subrange(self.width * y, self.width * y + self.width)
    }

    /// All rows, top to bottom.
    pub open spec fn rows(self) -> Seq<Seq<T>> {
        Seq::new(self.height, |y: int| self.row(y))
    }

    /// The same grid with the cell at `(x, y)` replaced by `v`.
    pub open spec fn update(self, x: int, y: int, v: T) -> Grid<T> {
        Grid { cells: self.cells.update(self.offset(x, y), v), ..self }
    }

    /// The same grid with row `y` replaced by `row`.
    pub open spec fn with_row(self, y: int, row: Seq<T>) -> Grid<T> {
        Grid {
            cells: self.cells.subrange(0, self.width * y) + row + self.cells.subrange(
                self.width * y + self.width,
                self.cells.len() as int,
            ),
            ..self
        }
    }

    /// The grid of the same shape that holds `f(v)` wherever this one holds
    /// `v`.
    pub open spec fn map_values(self, f: spec_fn(T) -> T) -> Grid<T> {
        Grid { cells: Seq::new(self.cells.len(), |k: int| f(self.cells[k])), ..self }
    }

    /// Whether the two grids have the same width and the same height.
    pub open spec fn same_shape(self, other: Grid<T>) -> bool {
        self.width == other.width && self.height == other.height
    }

    /// The grid of the given shape whose cell at `(x, y)` is `f(x, y)`.
    pub open spec fn tabulate(width: nat, height: nat, f: spec_fn(int, int) -> T) -> Grid<T> {
        Grid {
            width,
            height,
            cells: Seq::new(width * height, |k: int| f(k % (width as int), k / (width as int))),
        }
    }
}

/// Offsets of cells stay inside the buffer, and each offset gives its
/// coordinates back.
pub proof fn lemma_offset(width: nat, height: nat, x: int, y: int)
    requires
        0 <= x < width,
        0 <= y < height,
    ensures
        0 <= x + width * y < width * height,
        width * y + width <= width * height,
        (x + width * y) % (width as int) == x,
        (x + width * y) / (width as int) == y,
{
    let w = width as int;
    assert(w * y + w <= w * height) by (nonlinear_arith)
        requires
            0 <= y < height,
            0 <= w,
    ;
    assert(0 <= w * y) by (nonlinear_arith)
        requires
            0 <= y,
            0 <= w,
    ;
    lemma_fundamental_div_mod_converse(x + w * y, w, y, x);
}

/// Every row lies inside the buffer.
pub proof fn lemma_row_bounds(width: nat, height: nat, y: int)
    requires
        0 <= y < height,
    ensures
        0 <= width * y,
        width * y + width <= width * height,
{
    assert(0 <= width * y && width * y + width <= width * height) by (nonlinear_arith)
        requires
            0 <= y < height,
            0 <= width,
    ;
}

/// Every offset inside the buffer is the offset of one cell.
pub proof fn lemma_coordinates(width: nat, height: nat, k: int)
    requires
        0 <= k < width * height,
    ensures
        0 <= k % (width as int) < width,
        0 <= k / (width as int) < height,
        k % (width as int) + width * (k / (width as int)) == k,
{
    let w = width as int;
    assert(w > 0) by (nonlinear_arith)
        requires
            0 <= k < w * height,
            0 <= w,
    ;
    lemma_fundamental_div_mod(k, w);
    lemma_mod_bound(k, w);
    let q = k / w;
    assert(0 <= q < height) by (nonlinear_arith)
        requires
            0 <= k < w * height,
            w > 0,
            k == w * q + k % w,
            0 <= k % w < w,
    ;
}

impl<T> Grid<T> {
    /// A tabulated grid holds `f(x, y)` at `(x, y)`.
    pub proof fn lemma_tabulate(width: nat, height: nat, f: spec_fn(int, int) -> T)
        ensures
            Self::tabulate(width, height, f).wf(),
            Self::tabulate(width, height, f).width == width,
            Self::tabulate(width, height, f).height == height,
            forall|x: int, y: int|
                0 <= x < width && 0 <= y < height ==> #[trigger] Self::tabulate(
                    width,
                    height,
                    f,
                ).at(x, y) == f(x, y),
    {
        let g = Self::tabulate(width, height, f);
        assert forall|x: int, y: int| 0 <= x < width && 0 <= y < height implies #[trigger] g.at(
            x,
            y,
        ) == f(x, y) by {
            lemma_offset(width, height, x, y);
        }
    }

    /// Replacing a row by one of the same length changes that row and no
    /// other.
    pub proof fn lemma_with_row(self, y: int, row: Seq<T>)
        requires
            self.wf(),
            0 <= y < self.height,
            row.len() == self.width,
        ensures
            self.with_row(y, row).wf(),
            self.with_row(y, row).same_shape(self),
            self.with_row(y, row).row(y) == row,
            forall|j: int|
                0 <= j < self.height && j != y ==> #[trigger] self.with_row(y, row).row(j)
                    == self.row(j),
    {
        let width = self.width as int;
        let changed = self.with_row(y, row);
        lemma_row_bounds(self.width, self.height, y);
        assert(changed.row(y) =~= row);
        assert forall|j: int| 0 <= j < self.height && j != y implies #[trigger] changed.row(j)
            == self.row(j) by {
            lemma_row_bounds(self.width, self.height, j);
            assert(j < y ==> width * j + width <= width * y) by (nonlinear_arith)
                requires
                    0 <= width,
                    0 <= j,
            ;
            assert(j > y ==> width * y + width <= width * j) by (nonlinear_arith)
                requires
                    0 <= width,
                    0 <= y,
            ;
            assert(changed.row(j) =~= self.row(j));
        }
    }

    /// Two grids of one shape that agree at every coordinate are equal.
    pub proof fn lemma_equal_by_cells(self, other: Grid<T>)
        requires
            self.wf(),
            other.wf(),
            self.same_shape(other),
            forall|x: int, y: int| self.has(x, y) ==> #[trigger] self.at(x, y) == other.at(x, y),
        ensures
            self == other,
    {
        assert forall|k: int| 0 <= k < self.cells.len() implies self.cells[k] == other.cells[k] by {
            lemma_coordinates(self.width, self.height, k);
            let x = k % (self.width as int);
            let y = k / (self.width as int);
            assert(self.has(x, y));
            assert(self.at(x, y) == other.at(x, y));
        }
        assert(self.cells =~= other.cells);
    }
}

/// The sum `f(0) + f(1) + ... + f(n - 1)`, added from the left, starting
/// from zero.
pub open spec fn sum<T: Scalar>(n: nat, f: spec_fn(int) -> T) -> T
    decreases n,
{
    if n == 0 {
        T::spec_zero()
    } else {
        sum((n - 1) as nat, f).spec_plus(f(n - 1))
    }
}

impl<T: Scalar> Grid<T> {
    /// The grid of the given shape that holds zero everywhere.
    pub open spec fn zeros(width: nat, height: nat) -> Grid<T> {
        Grid { width, height, cells: Seq::new(width * height, |k: int| T::spec_zero()) }
    }

    /// The square grid with one on the diagonal and zero elsewhere.
    pub open spec fn identity(n: nat) -> Grid<T> {
        Self::tabulate(
            n,
            n,
            |x: int, y: int|
                if x == y {
                    T::spec_one()
                } else {
                    T::spec_zero()
                },
        )
    }

    /// The cell-by-cell sum of two grids of one shape.
    pub open spec fn add(self, rhs: Grid<T>) -> Grid<T> {
        Grid {
            cells: Seq::new(self.cells.len(), |k: int| self.cells[k].spec_plus(rhs.cells[k])),
            ..self
        }
    }

    /// The cell-by-cell difference of two grids of one shape.
    pub open spec fn sub(self, rhs: Grid<T>) -> Grid<T> {
        Grid {
            cells: Seq::new(self.cells.len(), |k: int| self.cells[k].spec_minus(rhs.cells[k])),
            ..self
        }
    }

    /// Every cell multiplied by `factor`.
    pub open spec fn scale(self, factor: T) -> Grid<T> {
        Grid {
            cells: Seq::new(self.cells.len(), |k: int| self.cells[k].spec_times(factor)),
            ..self
        }
    }

    /// The terms of the product of row `y` of `self` with column `x` of
    /// `rhs`, by their index along the shared dimension.
    pub open spec fn dot_term(self, rhs: Grid<T>, x: int, y: int) -> spec_fn(int) -> T {
        |i: int| self.at(i, y).spec_times(rhs.at(x, i))
    }

    /// The product of row `y` of `self` with column `x` of `rhs`.
    pub open spec fn dot_cell(self, rhs: Grid<T>, x: int, y: int) -> T {
        sum(self.width, self.dot_term(rhs, x, y))
    }

    /// The matrix product of `self` with `rhs`, where `self.width == rhs.height`:
    /// as wide as `rhs` and as high as `self`.
    pub open spec fn dot(self, rhs: Grid<T>) -> Grid<T> {
        Self::tabulate(rhs.width, self.height, |x: int, y: int| self.dot_cell(rhs, x, y))
    }
}

} // verus!
