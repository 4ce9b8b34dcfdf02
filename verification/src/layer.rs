//! Layers: transforms with a hand-written backward pass.
//!
//! `forward` keeps what the matching `backward` will need; `backward` adds the
//! gradient of each parameter into that parameter's accumulator and returns the
//! gradient with respect to the layer's input. There is no graph: the caller
//! pairs the calls.

use vstd::prelude::*;
use rand::rngs::StdRng;

pub mod outline;
pub mod stack;

pub use crate::layer::outline::{LayerView, Outline};
pub use crate::layer::stack::{Layer, Sequential};

use crate::error::Error;
use crate::matrix::ops::indicator;
use crate::matrix::{lemma_grid_ext, lemma_view_wf, Grid, Matrix};
use crate::parameter::{Parameter, ParameterView};
use crate::scalar::{
    deterministic, difference, of_usize, one, product, quotient, square_root, sum, zero, Scalar,
};
use crate::scalar::{count_value, one_value, over, sqrt_value, times, zero_value};

verus! {

broadcast use lemma_view_wf;

/// What a [`Linear`] layer holds.
pub struct LinearView<T> {
    pub weight: ParameterView<T>,
    pub bias: Option<ParameterView<T>>,
    /// The input of the latest `forward`, if there was one.
    pub input: Option<Grid<T>>,
}

/// The bound of the interval that fresh weights are drawn from, for a layer
/// with `inputs` input features: one over the square root of `inputs`.
pub open spec fn weight_bound<T: Scalar>(inputs: usize) -> T {
    quotient(one::<T>(), square_root(of_usize::<T>(inputs)))
}

/// The weight that a sample `x` of the unit interval becomes: the bound less
/// twice the bound times `x`.
pub open spec fn spread_weight<T: Scalar>(bound: T, x: T) -> T {
    difference(bound, product(product(of_usize::<T>(2), bound), x))
}

/// The weights that a grid of samples of the unit interval becomes, for a layer
/// with as many input features as the grid has rows.
pub open spec fn spread_weights<T: Scalar>(samples: Grid<T>) -> Grid<T> {
    samples.map(|x: T| spread_weight(weight_bound::<T>(samples.rows as usize), x))
}

impl<T: Scalar> LinearView<T> {
    pub open spec fn inputs(self) -> nat {
        self.weight.data.rows
    }

    pub open spec fn outputs(self) -> nat {
        self.weight.data.cols
    }

    /// The weight and its gradient have one shape, the bias is one row as wide
    /// as the output, and a kept input is as wide as the layer's input.
    pub open spec fn wf(self) -> bool {
        &&& self.weight.wf()
        &&& match self.bias {
            Some(b) => b.wf() && b.data.rows == 1 && b.data.cols == self.outputs(),
            None => true,
        }
        &&& match self.input {
            Some(x) => x.wf() && x.cols == self.inputs(),
            None => true,
        }
    }

    /// What `forward` returns for `input`: the input times the weight, plus the
    /// bias on every row where there is one.
    pub open spec fn output(self, input: Grid<T>) -> Grid<T> {
        let y = input.matmul(self.weight.data);
        match self.bias {
            Some(b) => y.combine(b.data, |x: T, y: T| sum(x, y)),
            None => y,
        }
    }

    /// The layer after `forward` on `input`.
    pub open spec fn with_input(self, input: Grid<T>) -> LinearView<T> {
        LinearView { input: Some(input), ..self }
    }

    /// The layer after `backward` on `partial`: the weight's gradient grown by
    /// the transposed input times `partial`, the bias's by the sum of
    /// `partial` over the batch.
    pub open spec fn accumulated(self, partial: Grid<T>) -> LinearView<T> {
        let x = self.input.unwrap();
        LinearView {
            weight: ParameterView {
                data: self.weight.data,
                grad: self.weight.grad.zip(x.transpose().matmul(partial), |g: T, d: T| sum(g, d)),
            },
            bias: match self.bias {
                Some(b) => Some(
                    ParameterView { data: b.data, grad: b.grad.zip(partial.row_sum(), |g: T, d: T| sum(g, d)) },
                ),
                None => None,
            },
            input: self.input,
        }
    }

    /// What `backward` returns for `partial`: `partial` times the transposed
    /// weight.
    pub open spec fn input_grad(self, partial: Grid<T>) -> Grid<T> {
        partial.matmul(self.weight.data.transpose())
    }

    /// The parameters, weight first.
    pub open spec fn params(self) -> Seq<ParameterView<T>> {
        match self.bias {
            Some(b) => seq![self.weight, b],
            None => seq![self.weight],
        }
    }

    /// The layer with its parameters replaced by `ps`, in the order of
    /// [`LinearView::params`].
    pub open spec fn with_params(self, ps: Seq<ParameterView<T>>) -> LinearView<T> {
        LinearView {
            weight: ps[0],
            bias: if self.bias is Some {
                Some(ps[1])
            } else {
                None
            },
            input: self.input,
        }
    }

    /// `other` is this layer with other gradients of the same shapes.
    pub open spec fn same_but_grads(self, other: LinearView<T>) -> bool {
        &&& other.input == self.input
        &&& other.weight.data == self.weight.data
        &&& other.weight.grad.same_shape(self.weight.grad)
        &&& match (self.bias, other.bias) {
            (Some(b), Some(c)) => c.data == b.data && c.grad.same_shape(b.grad),
            (None, None) => true,
            _ => false,
        }
    }
}

/// A fully connected layer: `input · weight`, plus a bias row if it has one.
pub struct Linear<T> {
    weight: Parameter<T>,
    bias: Option<Parameter<T>>,
    input: Option<Matrix<T>>,
}

impl<T: Scalar> View for Linear<T> {
    type V = LinearView<T>;

    closed spec fn view(&self) -> LinearView<T> {
        LinearView {
            weight: self.weight@,
            bias: match self.bias {
                Some(b) => Some(b@),
                None => None,
            },
            input: match self.input {
                Some(x) => Some(x@),
                None => None,
            },
        }
    }
}

impl<T: Scalar> Linear<T> {
    /// A layer whose weights are spread over the interval between minus
    /// [`weight_bound`] and [`weight_bound`] by `samples`, one sample of the
    /// unit interval for each weight. The bias, if asked for, is zero; so are
    /// all gradients.
    pub fn from_samples(samples: &Matrix<T>, bias: bool) -> (r: Self)
        ensures
            r@.wf(),
            r@.inputs() == samples@.rows,
            r@.outputs() == samples@.cols,
            r@.bias is Some == bias,
            r@.input is None,
            deterministic::<T>() ==> {
                &&& r@.weight == (ParameterView {
                    data: spread_weights(samples@),
                    grad: Grid::constant(samples@.rows, samples@.cols, zero::<T>()),
                })
                &&& bias ==> r@.bias == Some(
                    ParameterView {
                        data: Grid::constant(1, samples@.cols, zero::<T>()),
                        grad: Grid::constant(1, samples@.cols, zero::<T>()),
                    },
                )
            },
    {
        let bound: T = over(one_value(), sqrt_value(count_value(samples.rows())));
        let scaled = Matrix::scalar_mul(times(count_value(2), bound), samples);
        let weight = Parameter::new(Matrix::scalar_sub(bound, &scaled));
        let bias = if bias {
            Some(Parameter::new(Matrix::full(1, samples.cols(), zero_value())))
        } else {
            None
        };
        let r = Linear { weight, bias, input: None };
        proof {
            if deterministic::<T>() {
                lemma_grid_ext(r@.weight.data, spread_weights(samples@));
            }
        }
        r
    }

    /// A layer from `in_chan` to `out_chan` features with weights drawn from
    /// `rng`: [`Linear::from_samples`] of a matrix of fresh samples.
    pub fn new(in_chan: usize, out_chan: usize, bias: bool, rng: &mut StdRng) -> (r: Self)
        requires
            in_chan * out_chan <= usize::MAX,
        ensures
            r@.wf(),
            r@.inputs() == in_chan,
            r@.outputs() == out_chan,
            r@.bias is Some == bias,
            r@.input is None,
            deterministic::<T>() ==> {
                &&& r@.weight.grad == Grid::constant(in_chan as nat, out_chan as nat, zero::<T>())
                &&& bias ==> r@.bias == Some(
                    ParameterView {
                        data: Grid::constant(1, out_chan as nat, zero::<T>()),
                        grad: Grid::constant(1, out_chan as nat, zero::<T>()),
                    },
                )
                &&& exists|samples: Grid<T>|
                    samples.wf() && samples.rows == in_chan && samples.cols == out_chan && r@.weight.data
                        == #[trigger] spread_weights(samples)
            },
    {
        let samples = Matrix::random(in_chan, out_chan, rng);
        Self::from_samples(&samples, bias)
    }
}

impl<T: Scalar> Linear<T> {
    /// The shape that `forward` would return for an input of `rows` by
    /// `cols`, or the error with which it would refuse it.
    pub fn output_shape(&self, rows: usize, cols: usize) -> (r: Result<(usize, usize), Error>)
        ensures
            match r {
                Ok(shape) => cols == self@.inputs() && shape.0 == rows && shape.1 == self@.outputs(),
                Err(e) => cols != self@.inputs() && e == Error::ShapeMismatch,
            },
    {
        if cols == self.weight.data.rows() {
            Ok((rows, self.weight.data.cols()))
        } else {
            Err(Error::ShapeMismatch)
        }
    }

    /// Keeps `input` for the backward pass and returns `input · weight`, plus
    /// the bias on every row if there is one. An input of the wrong width is
    /// refused and leaves the layer as it was.
    pub fn forward(&mut self, input: &Matrix<T>) -> (r: Result<Matrix<T>, Error>)
        requires
            old(self)@.wf(),
            input@.rows * old(self)@.outputs() <= usize::MAX,
        ensures
            match r {
                Ok(y) => {
                    &&& input@.cols == old(self)@.inputs()
                    &&& final(self)@ == old(self)@.with_input(input@)
                    &&& y@.rows == input@.rows
                    &&& y@.cols == old(self)@.outputs()
                    &&& deterministic::<T>() ==> y@ == old(self)@.output(input@)
                },
                Err(e) => {
                    &&& e == Error::ShapeMismatch
                    &&& input@.cols != old(self)@.inputs()
                    &&& final(self)@ == old(self)@
                },
            },
    {
        let x = input.matmul(&self.weight.data)?;
        self.input = Some(input.clone());
        match &self.bias {
            Some(bias) => {
                match x.add(&bias.data) {
                    Ok(y) => Ok(y),
                    Err(_) => unreached(),
                }
            },
            None => Ok(x),
        }
    }

    /// The shape that `backward` would return for a gradient of `rows` by
    /// `cols`, or the error with which it would refuse it.
    pub fn gradient_shape(&self, rows: usize, cols: usize) -> (r: Result<(usize, usize), Error>)
        requires
            self@.wf(),
        ensures
            match r {
                Ok(shape) => {
                    &&& self@.input matches Some(x)
                    &&& rows == x.rows
                    &&& cols == self@.outputs()
                    &&& shape.0 == x.rows
                    &&& shape.1 == self@.inputs()
                },
                Err(e) => match self@.input {
                    None => e == Error::MissingCache,
                    Some(x) => e == Error::ShapeMismatch && !(rows == x.rows && cols == self@.outputs()),
                },
            },
    {
        match &self.input {
            Some(x) => {
                if rows == x.rows() && cols == self.weight.data.cols() {
                    Ok((rows, x.cols()))
                } else {
                    Err(Error::ShapeMismatch)
                }
            },
            None => Err(Error::MissingCache),
        }
    }

    /// Adds the gradients that `partial` gives to the accumulators of weight
    /// and bias and returns the gradient with respect to the kept input.
    /// `partial` must have the shape of what `forward` returned; a call that
    /// is refused leaves the layer as it was.
    pub fn backward(&mut self, partial: &Matrix<T>) -> (r: Result<Matrix<T>, Error>)
        requires
            old(self)@.wf(),
        ensures
            final(self)@.wf(),
            match r {
                Ok(dx) => {
                    &&& old(self)@.input matches Some(x)
                    &&& partial@.rows == x.rows
                    &&& partial@.cols == old(self)@.outputs()
                    &&& dx@.same_shape(x)
                    &&& old(self)@.same_but_grads(final(self)@)
                    &&& deterministic::<T>() ==> {
                        &&& final(self)@ == old(self)@.accumulated(partial@)
                        &&& dx@ == old(self)@.input_grad(partial@)
                    }
                },
                Err(e) => {
                    &&& final(self)@ == old(self)@
                    &&& match old(self)@.input {
                        None => e == Error::MissingCache,
                        Some(x) => e == Error::ShapeMismatch && !(partial@.rows == x.rows && partial@.cols
                            == old(self)@.outputs()),
                    }
                },
            },
    {
        let rows = match &self.input {
            Some(x) => x.rows(),
            None => {
                return Err(Error::MissingCache);
            },
        };
        if partial.rows() != rows || partial.cols() != self.weight.data.cols() {
            return Err(Error::ShapeMismatch);
        }
        let x_t = match &self.input {
            Some(x) => x.T(),
            None => unreached(),
        };
        // The weight has as many cells as the product below.
        let _ = self.weight.data.size();
        let delta = match x_t.matmul(partial) {
            Ok(d) => d,
            Err(_) => unreached(),
        };
        self.weight.grad = self.weight.grad.add_same(&delta);
        match &mut self.bias {
            Some(b) => {
                b.grad = b.grad.add_same(&partial.row_sum());
            },
            None => {},
        }
        let w_t = self.weight.data.T();
        // The kept input has as many cells as the product below.
        let _ = x_t.size();
        match partial.matmul(&w_t) {
            Ok(dx) => Ok(dx),
            Err(_) => unreached(),
        }
    }

    /// The parameters, weight first, to be changed in place.
    pub fn parameters(&mut self) -> (r: Vec<&mut Parameter<T>>)
        ensures
            r@.len() == old(self)@.params().len(),
            forall|i: int| #![trigger r@[i]] 0 <= i < r@.len() ==> r@[i]@ == old(self)@.params()[i],
            old(self)@.wf() ==> forall|i: int| #![trigger r@[i]] 0 <= i < r@.len() ==> r@[i].wf(),
            final(self)@ == old(self)@.with_params(Seq::new(r@.len(), |i: int| final(r@[i])@)),
    {
        let mut v: Vec<&mut Parameter<T>> = Vec::new();
        v.push(&mut self.weight);
        match &mut self.bias {
            Some(b) => {
                v.push(b);
            },
            None => {},
        }
        v
    }
}

/// What a [`ReLU`] layer holds: the mask of the latest `forward`, if there was
/// one.
pub struct ReLUView<T> {
    pub mask: Option<Grid<T>>,
}

impl<T: Scalar> ReLUView<T> {
    pub open spec fn wf(self) -> bool {
        match self.mask {
            Some(m) => m.wf(),
            None => true,
        }
    }

    /// The mask of `input`: one where a cell is at least zero, zero elsewhere.
    pub open spec fn mask_of(input: Grid<T>) -> Grid<T> {
        input.map(|x: T| indicator(x, zero::<T>()))
    }

    /// What `forward` returns for `input`: every cell times its mask.
    pub open spec fn output(input: Grid<T>) -> Grid<T> {
        input.zip(Self::mask_of(input), |x: T, m: T| product(x, m))
    }

    /// What `backward` returns for `partial`: every cell times the kept mask.
    pub open spec fn input_grad(self, partial: Grid<T>) -> Grid<T> {
        partial.zip(self.mask.unwrap(), |g: T, m: T| product(g, m))
    }
}

/// The rectifier: lets through what is at least zero and blocks the rest.
pub struct ReLU<T> {
    mask: Option<Matrix<T>>,
}

impl<T: Scalar> View for ReLU<T> {
    type V = ReLUView<T>;

    closed spec fn view(&self) -> ReLUView<T> {
        ReLUView {
            mask: match self.mask {
                Some(m) => Some(m@),
                None => None,
            },
        }
    }
}

impl<T: Scalar> ReLU<T> {
    pub fn new() -> (r: Self)
        ensures
            r@.mask is None,
    {
        ReLU { mask: None }
    }

    /// Keeps the mask of `input` for the backward pass and returns `input`
    /// times it.
    pub fn forward(&mut self, input: &Matrix<T>) -> (y: Matrix<T>)
        ensures
            y@.same_shape(input@),
            final(self)@.mask matches Some(m) && m.same_shape(input@),
            deterministic::<T>() ==> {
                &&& final(self)@.mask == Some(ReLUView::mask_of(input@))
                &&& y@ == ReLUView::<T>::output(input@)
            },
    {
        let mask = input.maximum(zero_value());
        let y = input.mul_same(&mask);
        self.mask = Some(mask);
        y
    }

    /// The shape that `backward` would return for a gradient of `rows` by
    /// `cols`, or the error with which it would refuse it.
    pub fn gradient_shape(&self, rows: usize, cols: usize) -> (r: Result<(usize, usize), Error>)
        ensures
            match r {
                Ok(shape) => self@.mask matches Some(m) && rows == m.rows && cols == m.cols && shape == (
                    rows,
                    cols,
                ),
                Err(e) => match self@.mask {
                    None => e == Error::MissingCache,
                    Some(m) => e == Error::ShapeMismatch && !(rows == m.rows && cols == m.cols),
                },
            },
    {
        match &self.mask {
            Some(m) => {
                if rows == m.rows() && cols == m.cols() {
                    Ok((rows, cols))
                } else {
                    Err(Error::ShapeMismatch)
                }
            },
            None => Err(Error::MissingCache),
        }
    }

    /// Returns `partial` times the kept mask. `partial` must have the shape of
    /// what `forward` returned. The layer is left as it was.
    pub fn backward(&mut self, partial: &Matrix<T>) -> (r: Result<Matrix<T>, Error>)
        ensures
            final(self)@ == old(self)@,
            match r {
                Ok(dx) => {
                    &&& old(self)@.mask matches Some(m)
                    &&& partial@.same_shape(m)
                    &&& dx@.same_shape(m)
                    &&& deterministic::<T>() ==> dx@ == old(self)@.input_grad(partial@)
                },
                Err(e) => match old(self)@.mask {
                    None => e == Error::MissingCache,
                    Some(m) => e == Error::ShapeMismatch && !partial@.same_shape(m),
                },
            },
    {
        match &self.mask {
            Some(mask) => {
                if partial.rows() != mask.rows() || partial.cols() != mask.cols() {
                    Err(Error::ShapeMismatch)
                } else {
                    Ok(partial.mul_same(mask))
                }
            },
            None => Err(Error::MissingCache),
        }
    }

    /// The parameters: none.
    pub fn parameters(&mut self) -> (r: Vec<&mut Parameter<T>>)
        ensures
            r@.len() == 0,
            final(self)@ == old(self)@,
    {
        Vec::new()
    }
}

} // verus!
