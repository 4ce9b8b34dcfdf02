//! Loss functions: the end of the forward pass and the start of the backward
//! pass.

use vstd::prelude::*;
use crate::error::Error;
use crate::matrix::reduce::total;
use crate::matrix::{lemma_view_wf, Grid, Matrix};
use crate::scalar::{
    deterministic, difference, exponential, logarithm, negation, of_usize, one, product, quotient,
    Scalar,
};
use crate::scalar::{count_value, negated, one_value, over, times};

verus! {

broadcast use lemma_view_wf;

/// What every loss offers: `forward` gives the loss of a batch and keeps what
/// `backward` needs; `backward` gives the gradient of the loss with respect to
/// the input of the latest `forward`, times `seed`.
pub trait Loss<T: Scalar>: Sized {
    /// Whether `forward` can work on this input and target.
    open spec fn accepts(&self, input: Grid<T>, target: Grid<T>) -> bool {
        true
    }

    fn forward(&mut self, input: &Matrix<T>, target: &Matrix<T>) -> Result<T, Error>
        requires
            old(self).accepts(input@, target@),
    ;

    fn backward(&self, seed: T) -> Result<Matrix<T>, Error>;
}

/// The logarithm of the softmax of every row of `logits`, computed stably: the
/// row's maximum is taken off before the exponential.
pub open spec fn log_softmax<T: Scalar>(logits: Grid<T>) -> Grid<T> {
    let shifted = logits.combine(logits.col_max(), |x: T, m: T| difference(x, m));
    let norm = shifted.map(|x: T| exponential(x)).col_sum().map(|s: T| logarithm(s));
    shifted.combine(norm, |x: T, n: T| difference(x, n))
}

/// The softmax of every row of `logits`.
pub open spec fn softmax<T: Scalar>(logits: Grid<T>) -> Grid<T> {
    log_softmax(logits).map(|x: T| exponential(x))
}

/// The mean over the batch of the negative log-likelihood of the targets.
pub open spec fn crossentropy<T: Scalar>(logits: Grid<T>, target: Grid<T>) -> T {
    product(
        quotient(negation(one::<T>()), of_usize::<T>(logits.rows as usize)),
        total(log_softmax(logits).zip(target, |x: T, t: T| product(x, t)).flat()),
    )
}

/// The gradient of [`crossentropy`] with respect to the logits, times `seed`:
/// softmax less target, scaled by `seed` over the batch size.
pub open spec fn crossentropy_grad<T: Scalar>(activation: Grid<T>, target: Grid<T>, seed: T) -> Grid<T> {
    activation.zip(target, |a: T, t: T| difference(a, t)).map(
        |d: T| product(quotient(seed, of_usize::<T>(activation.rows as usize)), d),
    )
}

/// What a [`Crossentropy`] holds after `forward`: the target and the softmax
/// of the logits.
pub struct Kept<T> {
    pub target: Grid<T>,
    pub activation: Grid<T>,
}

/// Cross-entropy on logits, for targets that are one-hot rows.
pub struct Crossentropy<T> {
    target: Option<Matrix<T>>,
    activation: Option<Matrix<T>>,
}

impl<T> Crossentropy<T> {
    /// Target and softmax are kept together and have one shape.
    #[verifier::type_invariant]
    spec fn kept_ok(&self) -> bool {
        match (self.target, self.activation) {
            (Some(t), Some(a)) => t@.same_shape(a@),
            (None, None) => true,
            _ => false,
        }
    }
}

impl<T: Scalar> View for Crossentropy<T> {
    type V = Option<Kept<T>>;

    closed spec fn view(&self) -> Option<Kept<T>> {
        match (self.target, self.activation) {
            (Some(t), Some(a)) => Some(Kept { target: t@, activation: a@ }),
            _ => None,
        }
    }
}

impl<T: Scalar> Crossentropy<T> {
    pub fn new() -> (r: Self)
        ensures
            r@ is None,
    {
        Crossentropy { target: None, activation: None }
    }

    /// The logarithm of the softmax of every row of `logits`.
    fn log_softmax(logits: &Matrix<T>) -> (r: Matrix<T>)
        requires
            logits@.cols > 0 || logits@.rows == 0,
        ensures
            r@.same_shape(logits@),
            deterministic::<T>() ==> r@ == log_softmax(logits@),
    {
        // The differences below have as many cells as the logits.
        let _ = logits.size();
        let peak = logits.col_max();
        let shifted = match logits.sub(&peak) {
            Ok(m) => m,
            Err(_) => unreached(),
        };
        let norm = shifted.exp().col_sum().ln();
        match shifted.sub(&norm) {
            Ok(m) => m,
            Err(_) => unreached(),
        }
    }
}

impl<T: Scalar> Loss<T> for Crossentropy<T> {
    /// There is a class to take the maximum over, unless the batch is empty.
    open spec fn accepts(&self, input: Grid<T>, target: Grid<T>) -> bool {
        input.cols > 0 || input.rows == 0
    }

    /// The cross-entropy of `input` against `target`, which must have the
    /// shape of `input`. Keeps the target and the softmax of `input`; an
    /// input that is refused leaves what was kept before.
    fn forward(&mut self, input: &Matrix<T>, target: &Matrix<T>) -> (r: Result<T, Error>)
        ensures
            match r {
                Ok(loss) => {
                    &&& input@.same_shape(target@)
                    &&& final(self)@ matches Some(kept)
                    &&& kept.target == target@
                    &&& kept.activation.same_shape(input@)
                    &&& deterministic::<T>() ==> {
                        &&& kept.activation == softmax(input@)
                        &&& loss == crossentropy(input@, target@)
                    }
                },
                Err(e) => {
                    &&& e == Error::ShapeMismatch
                    &&& !input@.same_shape(target@)
                    &&& final(self)@ == old(self)@
                },
            },
    {
        if input.rows() != target.rows() || input.cols() != target.cols() {
            return Err(Error::ShapeMismatch);
        }
        let x = Self::log_softmax(input);
        let activation = x.exp();
        let n: T = count_value(x.rows());
        let loss = times(over(negated(one_value()), n), x.mul_same(target).sum());
        *self = Crossentropy { target: Some(target.clone()), activation: Some(activation) };
        Ok(loss)
    }

    /// The gradient of the loss of the latest `forward` with respect to its
    /// input, times `seed`.
    fn backward(&self, seed: T) -> (r: Result<Matrix<T>, Error>)
        ensures
            match r {
                Ok(g) => {
                    &&& self@ matches Some(kept)
                    &&& g@.same_shape(kept.activation)
                    &&& deterministic::<T>() ==> g@ == crossentropy_grad(kept.activation, kept.target, seed)
                },
                Err(e) => e == Error::MissingCache && self@ is None,
            },
    {
        proof {
            use_type_invariant(self);
        }
        match (&self.activation, &self.target) {
            (Some(a), Some(t)) => {
                let n: T = count_value(a.rows());
                Ok(Matrix::scalar_mul(over(seed, n), &a.sub_same(t)))
            },
            _ => Err(Error::MissingCache),
        }
    }
}

} // verus!
