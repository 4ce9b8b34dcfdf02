//! A learnable value and the gradient that accumulates for it.

use vstd::prelude::*;
use crate::matrix::{lemma_view_wf, Grid, Matrix};
use crate::scalar::{deterministic, zero, Scalar};
use crate::scalar::zero_value;

verus! {

broadcast use lemma_view_wf;

/// What a parameter holds: its value and its accumulated gradient.
pub struct ParameterView<T> {
    pub data: Grid<T>,
    pub grad: Grid<T>,
}

/// A value that training adjusts, with the gradient accumulated for it since
/// the gradient was last zeroed. Backward passes add into `grad`; nothing
/// zeroes it but [`Parameter::zero_grad`].
pub struct Parameter<T> {
    pub data: Matrix<T>,
    pub grad: Matrix<T>,
}

impl<T> View for Parameter<T> {
    type V = ParameterView<T>;

    open spec fn view(&self) -> ParameterView<T> {
        ParameterView { data: self.data@, grad: self.grad@ }
    }
}

impl<T> ParameterView<T> {
    /// Value and gradient are grids of one shape.
    pub open spec fn wf(self) -> bool {
        &&& self.data.wf()
        &&& self.grad.wf()
        &&& self.data.same_shape(self.grad)
    }

    /// The same parameter with an all-zero gradient.
    pub open spec fn zeroed(self, zero: T) -> ParameterView<T> {
        ParameterView { data: self.data, grad: Grid::constant(self.data.rows, self.data.cols, zero) }
    }
}

impl<T: Scalar> Parameter<T> {
    /// Value and gradient are matrices of one shape.
    pub open spec fn wf(&self) -> bool {
        self@.wf()
    }

    /// A parameter with the given value and an all-zero gradient.
    pub fn new(data: Matrix<T>) -> (r: Self)
        ensures
            r.wf(),
            r.data@ == data@,
            deterministic::<T>() ==> r@ == r@.zeroed(zero::<T>()),
    {
        let grad = Matrix::full_like(&data, zero_value());
        Parameter { data, grad }
    }

    /// Sets every cell of the gradient to zero, whatever it held.
    pub fn zero_grad(&mut self)
        requires
            old(self).wf(),
        ensures
            final(self).wf(),
            final(self).data@ == old(self).data@,
            deterministic::<T>() ==> final(self)@ == old(self)@.zeroed(zero::<T>()),
    {
        self.grad = Matrix::full_like(&self.grad, zero_value());
    }
}

} // verus!
