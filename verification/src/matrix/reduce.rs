//! Sums, maxima and products that fold many cells into one.
//!
//! A fold visits its cells in a fixed order, first to last, because the
//! arithmetic of a [`Scalar`] need not be associative. A whole matrix is
//! visited row after row.

use vstd::prelude::*;
use crate::error::Error;
use crate::matrix::{concat, lemma_grid_ext, lemma_view_wf, Grid, Matrix};
use crate::scalar::{deterministic, exceeds, product, sum, zero, Scalar};
use crate::scalar::{is_greater, plus, times, zero_value};

verus! {

broadcast use lemma_view_wf;

/// The cells of `s` added up from the first on, starting from zero.
pub open spec fn total<T: Scalar>(s: Seq<T>) -> T
    decreases s.len(),
{
    if s.len() == 0 {
        zero::<T>()
    } else {
        sum(total(s.drop_last()), s.last())
    }
}

/// The running maximum of `s`: the first cell, replaced by each later cell that
/// exceeds it.
pub open spec fn largest<T: Scalar>(s: Seq<T>) -> T
    decreases s.len(),
{
    if s.len() <= 1 {
        s[0]
    } else {
        let m = largest(s.drop_last());
        if exceeds(s.last(), m) {
            s.last()
        } else {
            m
        }
    }
}

/// The products of the cells of `a` and `b`, pair by pair as far as both reach.
pub open spec fn products<T: Scalar>(a: Seq<T>, b: Seq<T>) -> Seq<T> {
    Seq::new(if a.len() <= b.len() { a.len() } else { b.len() }, |k: int| product(a[k], b[k]))
}

/// The sum of the pairwise products of `a` and `b`.
pub open spec fn dot_product<T: Scalar>(a: Seq<T>, b: Seq<T>) -> T {
    total(products(a, b))
}

impl<T: Scalar> Grid<T> {
    /// The matrix product: cell `(i, j)` is row `i` of `self` dotted with column
    /// `j` of `other`.
    pub open spec fn matmul(self, other: Grid<T>) -> Grid<T> {
        Grid::build(self.rows, other.cols, |i: int, j: int| dot_product(self.row(i), other.col(j)))
    }

    /// One row that holds the sum of each column.
    pub open spec fn row_sum(self) -> Grid<T> {
        Grid::build(1, self.cols, |i: int, j: int| total(self.col(j)))
    }

    /// One column that holds the sum of each row.
    pub open spec fn col_sum(self) -> Grid<T> {
        Grid::build(self.rows, 1, |i: int, j: int| total(self.row(i)))
    }

    /// One row that holds the maximum of each column.
    pub open spec fn row_max(self) -> Grid<T> {
        Grid::build(1, self.cols, |i: int, j: int| largest(self.col(j)))
    }

    /// One column that holds the maximum of each row.
    pub open spec fn col_max(self) -> Grid<T> {
        Grid::build(self.rows, 1, |i: int, j: int| largest(self.row(i)))
    }
}

/// Multiplication gives the same product whichever operand comes first.
pub open spec fn product_commutes<T: Scalar>() -> bool {
    forall|x: T, y: T| #[trigger] product(x, y) == product(y, x)
}

/// Where multiplication commutes, a matrix product is the transpose of the
/// product of the transposed operands taken in the other order.
pub proof fn lemma_matmul_transpose<T: Scalar>(a: Grid<T>, b: Grid<T>)
    requires
        a.wf(),
        b.wf(),
        a.cols == b.rows,
        product_commutes::<T>(),
    ensures
        a.matmul(b) == b.transpose().matmul(a.transpose()).transpose(),
{
    let lhs = a.matmul(b);
    let rhs = b.transpose().matmul(a.transpose()).transpose();
    assert forall|i: int, j: int| lhs.has(i, j) implies lhs.at(i, j) == rhs.at(i, j) by {
        assert(b.transpose().row(j) =~= b.col(j));
        assert(a.transpose().col(i) =~= a.row(i));
        assert(products(b.col(j), a.row(i)) =~= products(a.row(i), b.col(j)));
    }
    lemma_grid_ext(lhs, rhs);
}

/// A grid of one column is that column when flattened.
pub proof fn lemma_flat_of_col<T>(g: Grid<T>)
    requires
        g.wf(),
        g.cols == 1,
    ensures
        g.flat() == g.col(0),
    decreases g.rows,
{
    if g.rows == 0 {
        assert(g.flat() =~= g.col(0));
    } else {
        let h = Grid { rows: (g.rows - 1) as nat, cols: g.cols, cells: g.cells.drop_last() };
        lemma_flat_of_col(h);
        assert(g.cells.last() =~= seq![g.cells[g.rows - 1][0]]);
        assert(g.flat() =~= g.col(0));
    }
}

impl<T: Scalar> Matrix<T> {
    /// All cells in a fresh buffer, row after row.
    fn cells(&self) -> (v: Vec<T>)
        ensures
            v@ == self@.flat(),
    {
        let mut v: Vec<T> = Vec::new();
        let mut i: usize = 0;
        while i < self.rows()
            invariant
                i <= self@.rows,
                v@ == concat(self@.cells.take(i as int)),
            decreases self@.rows - i,
        {
            let mut j: usize = 0;
            while j < self.cols()
                invariant
                    i < self@.rows,
                    j <= self@.cols,
                    v@ == concat(self@.cells.take(i as int)) + self@.cells[i as int].take(j as int),
                decreases self@.cols - j,
            {
                v.push(self.get(i, j));
                assert(self@.cells[i as int].take(j + 1) =~= self@.cells[i as int].take(j as int).push(
                    self@.at(i as int, j as int),
                ));
                assert(v@ =~= concat(self@.cells.take(i as int)) + self@.cells[i as int].take(j + 1));
                j += 1;
            }
            proof {
                assert(self@.cells[i as int].take(self@.cols as int) =~= self@.cells[i as int]);
                assert(self@.cells.take(i + 1).drop_last() =~= self@.cells.take(i as int));
            }
            i += 1;
        }
        assert(self@.cells.take(self@.rows as int) =~= self@.cells);
        v
    }

    /// The sum of all cells, taken row after row.
    pub fn sum(&self) -> (r: T)
        ensures
            deterministic::<T>() ==> r == total(self@.flat()),
    {
        let v = self.cells();
        let mut acc: T = zero_value();
        let mut k: usize = 0;
        while k < v.len()
            invariant
                k <= v@.len(),
                deterministic::<T>() ==> acc == total(v@.take(k as int)),
            decreases v@.len() - k,
        {
            acc = plus(acc, v[k]);
            assert(v@.take(k + 1).drop_last() =~= v@.take(k as int));
            k += 1;
        }
        assert(v@.take(v@.len() as int) =~= v@);
        acc
    }

    /// The running maximum of all cells, taken row after row.
    pub fn max(&self) -> (r: T)
        requires
            self@.rows > 0,
            self@.cols > 0,
        ensures
            deterministic::<T>() ==> r == largest(self@.flat()),
    {
        let v = self.cells();
        proof {
            lemma_flat_len(self@);
            assert(self@.rows * self@.cols > 0) by (nonlinear_arith)
                requires
                    self@.rows > 0,
                    self@.cols > 0,
            ;
        }
        let mut acc: T = v[0];
        let mut k: usize = 1;
        assert(v@.take(1).len() == 1);
        while k < v.len()
            invariant
                1 <= k <= v@.len(),
                deterministic::<T>() ==> acc == largest(v@.take(k as int)),
            decreases v@.len() - k,
        {
            if is_greater(v[k], acc) {
                acc = v[k];
            }
            assert(v@.take(k + 1).drop_last() =~= v@.take(k as int));
            k += 1;
        }
        assert(v@.take(v@.len() as int) =~= v@);
        acc
    }
}

impl<T: Scalar> Matrix<T> {
    /// The dot product of a row and a column, over as many cells as both have.
    pub fn dot(&self, other: &Self) -> (r: Result<T, Error>)
        ensures
            match r {
                Ok(v) => {
                    &&& self@.rows == 1
                    &&& other@.cols == 1
                    &&& deterministic::<T>() ==> v == dot_product(self@.row(0), other@.col(0))
                },
                Err(e) => !(self@.rows == 1 && other@.cols == 1) && e == Error::ShapeMismatch,
            },
    {
        if !(self.is_row() && other.is_col()) {
            return Err(Error::ShapeMismatch);
        }
        let n: usize = if self.cols() <= other.rows() {
            self.cols()
        } else {
            other.rows()
        };
        let ghost terms = products(self@.row(0), other@.col(0));
        let mut acc: T = zero_value();
        let mut k: usize = 0;
        while k < n
            invariant
                self@.rows == 1,
                other@.cols == 1,
                n <= self@.cols,
                n <= other@.rows,
                terms == products(self@.row(0), other@.col(0)),
                terms.len() == n,
                k <= n,
                deterministic::<T>() ==> acc == total(terms.take(k as int)),
            decreases n - k,
        {
            let p = times(self.get(0, k), other.get(k, 0));
            acc = plus(acc, p);
            assert(terms.take(k + 1).drop_last() =~= terms.take(k as int));
            k += 1;
        }
        assert(terms.take(n as int) =~= terms);
        Ok(acc)
    }

    /// The matrix product of `self` and `other`.
    pub fn matmul(&self, other: &Self) -> (r: Result<Self, Error>)
        requires
            self@.cols == other@.rows ==> self@.rows * other@.cols <= usize::MAX,
        ensures
            match r {
                Ok(m) => {
                    &&& self@.cols == other@.rows
                    &&& m@.rows == self@.rows
                    &&& m@.cols == other@.cols
                    &&& deterministic::<T>() ==> m@ == self@.matmul(other@)
                },
                Err(e) => self@.cols != other@.rows && e == Error::ShapeMismatch,
            },
    {
        if self.cols() != other.rows() {
            return Err(Error::ShapeMismatch);
        }
        let cell = |i: usize, j: usize| -> (y: T)
            requires
                i < self@.rows,
                j < other@.cols,
            ensures
                deterministic::<T>() ==> y == dot_product(self@.row(i as int), other@.col(j as int)),
        {
            let row = self.get_row(i);
            let col = other.get_col(j);
            assert(col@.col(0) =~= other@.col(j as int));
            match row.dot(&col) {
                Ok(y) => y,
                Err(_) => unreached(),
            }
        };
        let m = Self::tabulate(self.rows(), other.cols(), cell);
        proof {
            if deterministic::<T>() {
                assert forall|i: int, j: int| m@.has(i, j) implies m@.at(i, j) == self@.matmul(other@).at(i, j) by {
                    assert(m@.at(i as usize as int, j as usize as int) == m@.at(i, j));
                }
                lemma_grid_ext(m@, self@.matmul(other@));
            }
        }
        Ok(m)
    }

    /// One row that holds the sum of each column.
    pub fn row_sum(&self) -> (r: Self)
        ensures
            r@.rows == 1,
            r@.cols == self@.cols,
            deterministic::<T>() ==> r@ == self@.row_sum(),
    {
        let cell = |i: usize, j: usize| -> (y: T)
            requires
                j < self@.cols,
            ensures
                deterministic::<T>() ==> y == total(self@.col(j as int)),
        {
            let col = self.get_col(j);
            proof {
                lemma_flat_of_col(col@);
                assert(col@.col(0) =~= self@.col(j as int));
            }
            col.sum()
        };
        let m = Self::tabulate(1, self.cols(), cell);
        proof {
            if deterministic::<T>() {
                assert forall|i: int, j: int| m@.has(i, j) implies m@.at(i, j) == self@.row_sum().at(i, j) by {
                    assert(m@.at(i as usize as int, j as usize as int) == m@.at(i, j));
                }
                lemma_grid_ext(m@, self@.row_sum());
            }
        }
        m
    }

    /// One column that holds the sum of each row.
    pub fn col_sum(&self) -> (r: Self)
        ensures
            r@.rows == self@.rows,
            r@.cols == 1,
            deterministic::<T>() ==> r@ == self@.col_sum(),
    {
        let m = self.T().row_sum().T();
        proof {
            if deterministic::<T>() {
                assert forall|i: int, j: int| m@.has(i, j) implies m@.at(i, j) == self@.col_sum().at(i, j) by {
                    assert(self@.transpose().col(i) =~= self@.row(i));
                }
                lemma_grid_ext(m@, self@.col_sum());
            }
        }
        m
    }

    /// One row that holds the running maximum of each column.
    pub fn row_max(&self) -> (r: Self)
        requires
            self@.rows > 0 || self@.cols == 0,
        ensures
            r@.rows == 1,
            r@.cols == self@.cols,
            deterministic::<T>() ==> r@ == self@.row_max(),
    {
        let cell = |i: usize, j: usize| -> (y: T)
            requires
                j < self@.cols,
            ensures
                deterministic::<T>() ==> y == largest(self@.col(j as int)),
        {
            let col = self.get_col(j);
            proof {
                lemma_flat_of_col(col@);
                assert(col@.col(0) =~= self@.col(j as int));
            }
            col.max()
        };
        let m = Self::tabulate(1, self.cols(), cell);
        proof {
            if deterministic::<T>() {
                assert forall|i: int, j: int| m@.has(i, j) implies m@.at(i, j) == self@.row_max().at(i, j) by {
                    assert(m@.at(i as usize as int, j as usize as int) == m@.at(i, j));
                }
                lemma_grid_ext(m@, self@.row_max());
            }
        }
        m
    }

    /// One column that holds the running maximum of each row.
    pub fn col_max(&self) -> (r: Self)
        requires
            self@.cols > 0 || self@.rows == 0,
        ensures
            r@.rows == self@.rows,
            r@.cols == 1,
            deterministic::<T>() ==> r@ == self@.col_max(),
    {
        let m = self.T().row_max().T();
        proof {
            if deterministic::<T>() {
                assert forall|i: int, j: int| m@.has(i, j) implies m@.at(i, j) == self@.col_max().at(i, j) by {
                    assert(self@.transpose().col(i) =~= self@.row(i));
                }
                lemma_grid_ext(m@, self@.col_max());
            }
        }
        m
    }
}

/// A flattened grid has as many cells as its shape says.
pub proof fn lemma_flat_len<T>(g: Grid<T>)
    requires
        g.wf(),
    ensures
        g.flat().len() == g.rows * g.cols,
    decreases g.rows,
{
    if g.rows == 0 {
    } else {
        let h = Grid { rows: (g.rows - 1) as nat, cols: g.cols, cells: g.cells.drop_last() };
        lemma_flat_len(h);
        assert((g.rows - 1) * g.cols + g.cols == g.rows * g.cols) by (nonlinear_arith);
    }
}

} // verus!
