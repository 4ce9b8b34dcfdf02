//! Cell-by-cell arithmetic on matrices.
//!
//! Between two matrices the shapes broadcast; with a number the shape stays.
//! Each function names the operation that fills a cell: under
//! [`deterministic`], the result is the grid that the operation gives cell by
//! cell.

use vstd::prelude::*;
use rand::rngs::StdRng;
use crate::error::Error;
use crate::matrix::{lemma_grid_ext, lemma_view_wf, Grid, Matrix};
use crate::scalar::{
    deterministic, difference, exponential, logarithm, negation, one, product, quotient, reaches,
    square_root, sum, zero, Scalar,
};
use crate::scalar::{
    exp_value, is_at_least, ln_value, minus, negated, one_value, over, plus, sqrt_value, times,
    zero_value,
};

verus! {

broadcast use lemma_view_wf;

/// One where `x` is greater than or equal to `threshold`, zero elsewhere.
pub open spec fn indicator<T: Scalar>(x: T, threshold: T) -> T {
    if reaches(x, threshold) {
        one::<T>()
    } else {
        zero::<T>()
    }
}

/// A row combined with a column fills the full rectangle: the result has the
/// rows of the column and the columns of the row, and its cell at `(i, j)` is
/// `f` of the row's cell `j` and the column's cell `i`.
pub proof fn lemma_combine_row_with_col<T>(a: Grid<T>, b: Grid<T>, f: spec_fn(T, T) -> T)
    requires
        a.wf(),
        b.wf(),
        a.rows == 1,
        b.cols == 1,
    ensures
        a.broadcast_with(b) == Some((b.rows, a.cols)),
        a.combine(b, f).rows == b.rows,
        a.combine(b, f).cols == a.cols,
        forall|i: int, j: int|
            0 <= i < b.rows && 0 <= j < a.cols ==> #[trigger] a.combine(b, f).at(i, j) == f(
                a.at(0, j),
                b.at(i, 0),
            ),
{
}

impl<T> Grid<T> {
    /// The grid of the shape of `self` whose cell at `(i, j)` is `f` of the
    /// cells there in `self` and in `other`.
    pub open spec fn zip(self, other: Grid<T>, f: spec_fn(T, T) -> T) -> Grid<T> {
        Grid::build(self.rows, self.cols, |i: int, j: int| f(self.at(i, j), other.at(i, j)))
    }
}

/// Between grids of one shape, combining is pairing cell with cell.
pub proof fn lemma_combine_same_shape<T>(a: Grid<T>, b: Grid<T>, f: spec_fn(T, T) -> T)
    requires
        a.wf(),
        b.wf(),
        a.same_shape(b),
    ensures
        a.broadcast_with(b) == Some((a.rows, a.cols)),
        a.combine(b, f) == a.zip(b, f),
{
    lemma_grid_ext(a.combine(b, f), a.zip(b, f));
}

impl<T: Scalar> Matrix<T> {
    /// A matrix of the given shape filled with samples from `rng`.
    pub fn random(rows: usize, cols: usize, rng: &mut StdRng) -> (r: Self)
        requires
            rows * cols <= usize::MAX,
        ensures
            r@.rows == rows,
            r@.cols == cols,
    {
        let n: usize = rows * cols;
        let mut data: Vec<T> = Vec::new();
        let mut k: usize = 0;
        while k < n
            invariant
                k <= n,
                data@.len() == k,
            decreases n - k,
        {
            data.push(T::uniform(rng));
            k += 1;
        }
        match Self::from_vec(rows, cols, data) {
            Ok(m) => m,
            Err(_) => unreached(),
        }
    }

    /// `self` with `fn_` applied to every cell, where `fn_` computes `f`.
    fn map_with<F: Fn(&T) -> T>(&self, fn_: F, Ghost(f): Ghost<spec_fn(T) -> T>) -> (r: Self)
        requires
            forall|x: T| #[trigger] fn_.requires((&x,)),
            forall|x: T, y: T| deterministic::<T>() && fn_.ensures((&x,), y) ==> y == f(x),
        ensures
            r@.same_shape(self@),
            deterministic::<T>() ==> r@ == self@.map(f),
    {
        let m = self.apply_unary(fn_);
        proof {
            if deterministic::<T>() {
                assert forall|i: int, j: int| m@.has(i, j) implies m@.at(i, j) == self@.map(f).at(i, j) by {
                    assert(self@.has(i, j));
                }
                lemma_grid_ext(m@, self@.map(f));
            }
        }
        m
    }

    /// `self` and `other` combined cell by cell by `fn_`, where `fn_` computes
    /// `f`.
    fn zip_with<F: Fn(&T, &T) -> T>(
        &self,
        other: &Self,
        fn_: F,
        Ghost(f): Ghost<spec_fn(T, T) -> T>,
    ) -> (r: Result<Self, Error>)
        requires
            self@.broadcast_fits(other@),
            forall|x: T, y: T| #[trigger] fn_.requires((&x, &y)),
            forall|x: T, y: T, z: T| deterministic::<T>() && fn_.ensures((&x, &y), z) ==> z == f(x, y),
        ensures
            match r {
                Ok(m) => {
                    &&& self@.broadcast_with(other@) == Some((m@.rows, m@.cols))
                    &&& deterministic::<T>() ==> m@ == self@.combine(other@, f)
                },
                Err(e) => self@.broadcast_with(other@) is None && e == Error::ShapeMismatch,
            },
    {
        let r = self.apply_binary(other, fn_);
        proof {
            if r is Ok && deterministic::<T>() {
                lemma_grid_ext(r->Ok_0@, self@.combine(other@, f));
            }
        }
        r
    }

    /// The cell-by-cell sum of two matrices.
    pub fn add(&self, other: &Self) -> (r: Result<Self, Error>)
        requires
            self@.broadcast_fits(other@),
        ensures
            match r {
                Ok(m) => {
                    &&& self@.broadcast_with(other@) == Some((m@.rows, m@.cols))
                    &&& deterministic::<T>() ==> m@ == self@.combine(other@, |x: T, y: T| sum(x, y))
                },
                Err(e) => self@.broadcast_with(other@) is None && e == Error::ShapeMismatch,
            },
    {
        let op = |x: &T, y: &T| -> (z: T)
            ensures
                deterministic::<T>() ==> z == sum(*x, *y),
        {
            plus(*x, *y)
        };
        self.zip_with(other, op, Ghost(|x: T, y: T| sum(x, y)))
    }
    /// The cell-by-cell difference of two matrices.
    pub fn sub(&self, other: &Self) -> (r: Result<Self, Error>)
        requires
            self@.broadcast_fits(other@),
        ensures
            match r {
                Ok(m) => {
                    &&& self@.broadcast_with(other@) == Some((m@.rows, m@.cols))
                    &&& deterministic::<T>() ==> m@ == self@.combine(other@, |x: T, y: T| difference(x, y))
                },
                Err(e) => self@.broadcast_with(other@) is None && e == Error::ShapeMismatch,
            },
    {
        let op = |x: &T, y: &T| -> (z: T)
            ensures
                deterministic::<T>() ==> z == difference(*x, *y),
        {
            minus(*x, *y)
        };
        self.zip_with(other, op, Ghost(|x: T, y: T| difference(x, y)))
    }

    /// The cell-by-cell product of two matrices.
    pub fn mul(&self, other: &Self) -> (r: Result<Self, Error>)
        requires
            self@.broadcast_fits(other@),
        ensures
            match r {
                Ok(m) => {
                    &&& self@.broadcast_with(other@) == Some((m@.rows, m@.cols))
                    &&& deterministic::<T>() ==> m@ == self@.combine(other@, |x: T, y: T| product(x, y))
                },
                Err(e) => self@.broadcast_with(other@) is None && e == Error::ShapeMismatch,
            },
    {
        let op = |x: &T, y: &T| -> (z: T)
            ensures
                deterministic::<T>() ==> z == product(*x, *y),
        {
            times(*x, *y)
        };
        self.zip_with(other, op, Ghost(|x: T, y: T| product(x, y)))
    }

    /// The cell-by-cell quotient of two matrices.
    pub fn div(&self, other: &Self) -> (r: Result<Self, Error>)
        requires
            self@.broadcast_fits(other@),
        ensures
            match r {
                Ok(m) => {
                    &&& self@.broadcast_with(other@) == Some((m@.rows, m@.cols))
                    &&& deterministic::<T>() ==> m@ == self@.combine(other@, |x: T, y: T| quotient(x, y))
                },
                Err(e) => self@.broadcast_with(other@) is None && e == Error::ShapeMismatch,
            },
    {
        let op = |x: &T, y: &T| -> (z: T)
            ensures
                deterministic::<T>() ==> z == quotient(*x, *y),
        {
            over(*x, *y)
        };
        self.zip_with(other, op, Ghost(|x: T, y: T| quotient(x, y)))
    }

    /// Every cell plus `rhs`.
    pub fn add_scalar(&self, rhs: T) -> (r: Self)
        ensures
            r@.same_shape(self@),
            deterministic::<T>() ==> r@ == self@.map(|x: T| sum(x, rhs)),
    {
        let op = |x: &T| -> (z: T)
            ensures
                deterministic::<T>() ==> z == sum(*x, rhs),
        {
            plus(*x, rhs)
        };
        self.map_with(op, Ghost(|x: T| sum(x, rhs)))
    }

    /// Every cell minus `rhs`.
    pub fn sub_scalar(&self, rhs: T) -> (r: Self)
        ensures
            r@.same_shape(self@),
            deterministic::<T>() ==> r@ == self@.map(|x: T| difference(x, rhs)),
    {
        let op = |x: &T| -> (z: T)
            ensures
                deterministic::<T>() ==> z == difference(*x, rhs),
        {
            minus(*x, rhs)
        };
        self.map_with(op, Ghost(|x: T| difference(x, rhs)))
    }

    /// Every cell times `rhs`.
    pub fn mul_scalar(&self, rhs: T) -> (r: Self)
        ensures
            r@.same_shape(self@),
            deterministic::<T>() ==> r@ == self@.map(|x: T| product(x, rhs)),
    {
        let op = |x: &T| -> (z: T)
            ensures
                deterministic::<T>() ==> z == product(*x, rhs),
        {
            times(*x, rhs)
        };
        self.map_with(op, Ghost(|x: T| product(x, rhs)))
    }

    /// Every cell divided by `rhs`.
    pub fn div_scalar(&self, rhs: T) -> (r: Self)
        ensures
            r@.same_shape(self@),
            deterministic::<T>() ==> r@ == self@.map(|x: T| quotient(x, rhs)),
    {
        let op = |x: &T| -> (z: T)
            ensures
                deterministic::<T>() ==> z == quotient(*x, rhs),
        {
            over(*x, rhs)
        };
        self.map_with(op, Ghost(|x: T| quotient(x, rhs)))
    }

    /// `lhs` plus every cell.
    pub fn scalar_add(lhs: T, rhs: &Self) -> (r: Self)
        ensures
            r@.same_shape(rhs@),
            deterministic::<T>() ==> r@ == rhs@.map(|x: T| sum(lhs, x)),
    {
        let op = |x: &T| -> (z: T)
            ensures
                deterministic::<T>() ==> z == sum(lhs, *x),
        {
            plus(lhs, *x)
        };
        rhs.map_with(op, Ghost(|x: T| sum(lhs, x)))
    }

    /// `lhs` minus every cell.
    pub fn scalar_sub(lhs: T, rhs: &Self) -> (r: Self)
        ensures
            r@.same_shape(rhs@),
            deterministic::<T>() ==> r@ == rhs@.map(|x: T| difference(lhs, x)),
    {
        let op = |x: &T| -> (z: T)
            ensures
                deterministic::<T>() ==> z == difference(lhs, *x),
        {
            minus(lhs, *x)
        };
        rhs.map_with(op, Ghost(|x: T| difference(lhs, x)))
    }

    /// `lhs` times every cell.
    pub fn scalar_mul(lhs: T, rhs: &Self) -> (r: Self)
        ensures
            r@.same_shape(rhs@),
            deterministic::<T>() ==> r@ == rhs@.map(|x: T| product(lhs, x)),
    {
        let op = |x: &T| -> (z: T)
            ensures
                deterministic::<T>() ==> z == product(lhs, *x),
        {
            times(lhs, *x)
        };
        rhs.map_with(op, Ghost(|x: T| product(lhs, x)))
    }

    /// `lhs` divided by every cell.
    pub fn scalar_div(lhs: T, rhs: &Self) -> (r: Self)
        ensures
            r@.same_shape(rhs@),
            deterministic::<T>() ==> r@ == rhs@.map(|x: T| quotient(lhs, x)),
    {
        let op = |x: &T| -> (z: T)
            ensures
                deterministic::<T>() ==> z == quotient(lhs, *x),
        {
            over(lhs, *x)
        };
        rhs.map_with(op, Ghost(|x: T| quotient(lhs, x)))
    }

    /// Every cell negated.
    pub fn neg(&self) -> (r: Self)
        ensures
            r@.same_shape(self@),
            deterministic::<T>() ==> r@ == self@.map(|x: T| negation(x)),
    {
        let op = |x: &T| -> (z: T)
            ensures
                deterministic::<T>() ==> z == negation(*x),
        {
            negated(*x)
        };
        self.map_with(op, Ghost(|x: T| negation(x)))
    }

    /// The exponential of every cell.
    pub fn exp(&self) -> (r: Self)
        ensures
            r@.same_shape(self@),
            deterministic::<T>() ==> r@ == self@.map(|x: T| exponential(x)),
    {
        let op = |x: &T| -> (z: T)
            ensures
                deterministic::<T>() ==> z == exponential(*x),
        {
            exp_value(*x)
        };
        self.map_with(op, Ghost(|x: T| exponential(x)))
    }

    /// The natural logarithm of every cell.
    pub fn ln(&self) -> (r: Self)
        ensures
            r@.same_shape(self@),
            deterministic::<T>() ==> r@ == self@.map(|x: T| logarithm(x)),
    {
        let op = |x: &T| -> (z: T)
            ensures
                deterministic::<T>() ==> z == logarithm(*x),
        {
            ln_value(*x)
        };
        self.map_with(op, Ghost(|x: T| logarithm(x)))
    }

    /// The square root of every cell.
    pub fn sqrt(&self) -> (r: Self)
        ensures
            r@.same_shape(self@),
            deterministic::<T>() ==> r@ == self@.map(|x: T| square_root(x)),
    {
        let op = |x: &T| -> (z: T)
            ensures
                deterministic::<T>() ==> z == square_root(*x),
        {
            sqrt_value(*x)
        };
        self.map_with(op, Ghost(|x: T| square_root(x)))
    }

    /// The mask of the cells that reach `threshold`: one where a cell is greater
    /// than or equal to it, zero elsewhere.
    pub fn maximum(&self, threshold: T) -> (r: Self)
        ensures
            r@.same_shape(self@),
            deterministic::<T>() ==> r@ == self@.map(|x: T| indicator(x, threshold)),
    {
        let op = |x: &T| -> (z: T)
            ensures
                deterministic::<T>() ==> z == indicator(*x, threshold),
        {
            if is_at_least(*x, threshold) {
                one_value()
            } else {
                zero_value()
            }
        };
        self.map_with(op, Ghost(|x: T| indicator(x, threshold)))
    }
    /// The sum of two matrices of one shape.
    pub(crate) fn add_same(&self, other: &Self) -> (r: Self)
        requires
            self@.same_shape(other@),
        ensures
            r@.same_shape(self@),
            deterministic::<T>() ==> r@ == self@.zip(other@, |x: T, y: T| sum(x, y)),
    {
        proof {
            use_type_invariant(self);
            lemma_combine_same_shape(self@, other@, |x: T, y: T| sum(x, y));
        }
        match self.add(other) {
            Ok(m) => m,
            Err(_) => unreached(),
        }
    }

    /// The difference of two matrices of one shape.
    pub(crate) fn sub_same(&self, other: &Self) -> (r: Self)
        requires
            self@.same_shape(other@),
        ensures
            r@.same_shape(self@),
            deterministic::<T>() ==> r@ == self@.zip(other@, |x: T, y: T| difference(x, y)),
    {
        proof {
            use_type_invariant(self);
            lemma_combine_same_shape(self@, other@, |x: T, y: T| difference(x, y));
        }
        match self.sub(other) {
            Ok(m) => m,
            Err(_) => unreached(),
        }
    }

    /// The product, cell by cell, of two matrices of one shape.
    pub(crate) fn mul_same(&self, other: &Self) -> (r: Self)
        requires
            self@.same_shape(other@),
        ensures
            r@.same_shape(self@),
            deterministic::<T>() ==> r@ == self@.zip(other@, |x: T, y: T| product(x, y)),
    {
        proof {
            use_type_invariant(self);
            lemma_combine_same_shape(self@, other@, |x: T, y: T| product(x, y));
        }
        match self.mul(other) {
            Ok(m) => m,
            Err(_) => unreached(),
        }
    }

    /// The quotient, cell by cell, of two matrices of one shape.
    pub(crate) fn div_same(&self, other: &Self) -> (r: Self)
        requires
            self@.same_shape(other@),
        ensures
            r@.same_shape(self@),
            deterministic::<T>() ==> r@ == self@.zip(other@, |x: T, y: T| quotient(x, y)),
    {
        proof {
            use_type_invariant(self);
            lemma_combine_same_shape(self@, other@, |x: T, y: T| quotient(x, y));
        }
        match self.div(other) {
            Ok(m) => m,
            Err(_) => unreached(),
        }
    }
}

} // verus!
