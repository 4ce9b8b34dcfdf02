//! Optimizers: they read each parameter's accumulated gradient and move its
//! value.
//!
//! An optimizer never owns parameters. It is handed them, in the order in which
//! the model lists them, for the length of one call.

use vstd::prelude::*;
use crate::error::Error;
use crate::matrix::{lemma_grid_ext, lemma_view_wf, Grid, Matrix};
use crate::parameter::{Parameter, ParameterView};
use crate::scalar::{
    deterministic, difference, one, power, product, quotient, square_root, sum, zero, Scalar,
};
use crate::scalar::{minus, one_value, raised, zero_value};

verus! {

broadcast use lemma_view_wf;

/// What every optimizer offers.
pub trait Optimizer<T: Scalar>: Sized {
    open spec fn wf(&self) -> bool {
        true
    }

    /// The learning rate.
    open spec fn lr(&self) -> T {
        arbitrary()
    }

    /// Whether the optimizer can count one more step.
    open spec fn can_step(&self) -> bool {
        true
    }

    /// Moves the value of every parameter by what its gradient says. The
    /// gradients are left as they are; on an error nothing is changed.
    fn step(&mut self, parameters: Vec<&mut Parameter<T>>) -> (r: Result<(), Error>)
        requires
            old(self).wf(),
            old(self).can_step(),
            forall|i: int| #![trigger parameters@[i]] 0 <= i < parameters@.len() ==> parameters@[i].wf(),
        ensures
            final(self).wf(),
            final(self).lr() == old(self).lr(),
            forall|i: int|
                #![trigger parameters@[i]]
                0 <= i < parameters@.len() ==> {
                    &&& final(parameters@[i]).wf()
                    &&& final(parameters@[i]).grad@ == parameters@[i].grad@
                    &&& final(parameters@[i]).data@.same_shape(parameters@[i].data@)
                },
            r is Err ==> forall|i: int|
                #![trigger parameters@[i]]
                0 <= i < parameters@.len() ==> final(parameters@[i])@ == parameters@[i]@,
    ;

    /// Sets the gradient of every parameter to zero.
    fn zero_grad(&self, parameters: Vec<&mut Parameter<T>>)
        requires
            forall|i: int| #![trigger parameters@[i]] 0 <= i < parameters@.len() ==> parameters@[i].wf(),
        ensures
            forall|i: int|
                #![trigger parameters@[i]]
                0 <= i < parameters@.len() ==> {
                    &&& final(parameters@[i]).wf()
                    &&& final(parameters@[i]).data@ == parameters@[i].data@
                    &&& deterministic::<T>() ==> final(parameters@[i])@ == parameters@[i]@.zeroed(
                        zero::<T>(),
                    )
                },
    {
        let ghost given = parameters;
        let mut parameters = parameters;
        let mut k: usize = 0;
        while k < parameters.len()
            invariant
                k <= parameters@.len(),
                parameters@.len() == given@.len(),
                forall|i: int|
                    #![trigger parameters@[i]]
                    0 <= i < parameters@.len() ==> *final(parameters@[i]) == *final(given@[i]),
                forall|i: int|
                    #![trigger parameters@[i]]
                    k <= i < parameters@.len() ==> *parameters@[i] == *given@[i],
                forall|i: int| #![trigger given@[i]] 0 <= i < given@.len() ==> given@[i].wf(),
                forall|i: int|
                    #![trigger parameters@[i]]
                    0 <= i < k ==> {
                        &&& parameters@[i].wf()
                        &&& parameters@[i].data@ == given@[i].data@
                        &&& deterministic::<T>() ==> parameters@[i]@ == given@[i]@.zeroed(zero::<T>())
                    },
            decreases parameters@.len() - k,
        {
            parameters[k].zero_grad();
            k += 1;
        }
        proof {
            assert(has_resolved(parameters));
            assert forall|i: int| #![trigger given@[i]] 0 <= i < given@.len() implies {
                &&& final(given@[i]).wf()
                &&& final(given@[i]).data@ == given@[i].data@
                &&& deterministic::<T>() ==> final(given@[i])@ == given@[i]@.zeroed(zero::<T>())
            } by {
                assert(has_resolved(parameters@[i]));
                assert(parameters@[i].wf());
            }
        }
    }

    fn get_lr(&self) -> (r: T)
        ensures
            r == self.lr(),
    ;

    fn set_lr(&mut self, lr: T)
        requires
            old(self).wf(),
        ensures
            final(self).wf(),
            final(self).lr() == lr,
            final(self).can_step() == old(self).can_step(),
    ;
}

/// The value that one step of gradient descent gives: every cell less the
/// learning rate times its gradient.
pub open spec fn sgd_update<T: Scalar>(data: Grid<T>, grad: Grid<T>, lr: T) -> Grid<T> {
    data.zip(grad, |x: T, g: T| difference(x, product(lr, g)))
}

/// Stochastic gradient descent, with no momentum and no weight decay.
#[allow(clippy::upper_case_acronyms)]
pub struct SGD<T> {
    lr: T,
}

impl<T: Scalar> SGD<T> {
    pub fn new(lr: T) -> (r: Self)
        ensures
            r.lr() == lr,
            r.wf(),
            r.can_step(),
    {
        SGD { lr }
    }

    /// Moves one parameter one step down its gradient.
    fn descend(&self, p: &mut Parameter<T>)
        requires
            old(p).wf(),
        ensures
            final(p).wf(),
            final(p).grad@ == old(p).grad@,
            final(p).data@.same_shape(old(p).data@),
            deterministic::<T>() ==> final(p).data@ == sgd_update(old(p).data@, old(p).grad@, self.lr),
    {
        let scaled = Matrix::scalar_mul(self.lr, &p.grad);
        let next = p.data.sub_same(&scaled);
        proof {
            if deterministic::<T>() {
                lemma_grid_ext(next@, sgd_update(p.data@, p.grad@, self.lr));
            }
        }
        p.data = next;
    }
}

impl<T: Scalar> Optimizer<T> for SGD<T> {
    open spec fn wf(&self) -> bool {
        true
    }

    closed spec fn lr(&self) -> T {
        self.lr
    }

    open spec fn can_step(&self) -> bool {
        true
    }

    /// Replaces the value of every parameter by [`sgd_update`] of it. This
    /// cannot fail.
    fn step(&mut self, parameters: Vec<&mut Parameter<T>>) -> (r: Result<(), Error>)
        ensures
            r is Ok,
            deterministic::<T>() ==> forall|i: int|
                #![trigger parameters@[i]]
                0 <= i < parameters@.len() ==> final(parameters@[i]).data@ == sgd_update(
                    parameters@[i].data@,
                    parameters@[i].grad@,
                    old(self).lr(),
                ),
    {
        let ghost given = parameters;
        let mut parameters = parameters;
        let mut k: usize = 0;
        while k < parameters.len()
            invariant
                *self == *old(self),
                k <= parameters@.len(),
                parameters@.len() == given@.len(),
                forall|i: int|
                    #![trigger parameters@[i]]
                    0 <= i < parameters@.len() ==> *final(parameters@[i]) == *final(given@[i]),
                forall|i: int|
                    #![trigger parameters@[i]]
                    k <= i < parameters@.len() ==> *parameters@[i] == *given@[i],
                forall|i: int| #![trigger given@[i]] 0 <= i < given@.len() ==> given@[i].wf(),
                forall|i: int|
                    #![trigger parameters@[i]]
                    0 <= i < k ==> {
                        &&& parameters@[i].wf()
                        &&& parameters@[i].grad@ == given@[i].grad@
                        &&& parameters@[i].data@.same_shape(given@[i].data@)
                        &&& deterministic::<T>() ==> parameters@[i].data@ == sgd_update(
                            given@[i].data@,
                            given@[i].grad@,
                            self.lr,
                        )
                    },
            decreases parameters@.len() - k,
        {
            self.descend(parameters[k]);
            k += 1;
        }
        proof {
            assert(has_resolved(parameters));
            assert forall|i: int| #![trigger given@[i]] 0 <= i < given@.len() implies {
                &&& final(given@[i]).wf()
                &&& final(given@[i]).grad@ == given@[i].grad@
                &&& final(given@[i]).data@.same_shape(given@[i].data@)
                &&& deterministic::<T>() ==> final(given@[i]).data@ == sgd_update(
                    given@[i].data@,
                    given@[i].grad@,
                    self.lr,
                )
            } by {
                assert(has_resolved(parameters@[i]));
                assert(parameters@[i].wf());
            }
        }
        Ok(())
    }

    fn get_lr(&self) -> (r: T) {
        self.lr
    }

    fn set_lr(&mut self, lr: T) {
        self.lr = lr;
    }
}

/// The settings of [`Adam`].
pub struct Rates<T> {
    pub lr: T,
    pub beta1: T,
    pub beta2: T,
    pub eps: T,
    pub weight_decay: T,
}

/// A moment estimate `m` taken after `t` steps with decay `beta`, scaled up to
/// undo its start from zero.
pub open spec fn corrected<T: Scalar>(m: T, beta: T, t: int) -> T {
    quotient(m, difference(one::<T>(), power(beta, t as i32)))
}

impl<T: Scalar> Rates<T> {
    /// The gradient with the weight decay folded in.
    pub open spec fn effective_grad(self, data: T, grad: T) -> T {
        sum(grad, product(self.weight_decay, data))
    }

    /// The first moment after a step with effective gradient `g`.
    pub open spec fn first_moment(self, m1: T, g: T) -> T {
        sum(product(m1, self.beta1), product(difference(one::<T>(), self.beta1), g))
    }

    /// The second moment after a step with effective gradient `g`.
    pub open spec fn second_moment(self, m2: T, g: T) -> T {
        sum(product(m2, self.beta2), product(difference(one::<T>(), self.beta2), product(g, g)))
    }

    /// The value after a step with corrected moments `m1_hat` and `m2_hat`.
    pub open spec fn moved(self, data: T, m1_hat: T, m2_hat: T) -> T {
        difference(data, product(self.lr, quotient(m1_hat, sum(square_root(m2_hat), self.eps))))
    }

    /// The first moments of a parameter after a step.
    pub open spec fn next_m1(self, p: ParameterView<T>, m1: Grid<T>) -> Grid<T> {
        Grid::build(
            p.data.rows,
            p.data.cols,
            |i: int, j: int| self.first_moment(m1.at(i, j), self.effective_grad(p.data.at(i, j), p.grad.at(i, j))),
        )
    }

    /// The second moments of a parameter after a step.
    pub open spec fn next_m2(self, p: ParameterView<T>, m2: Grid<T>) -> Grid<T> {
        Grid::build(
            p.data.rows,
            p.data.cols,
            |i: int, j: int| self.second_moment(m2.at(i, j), self.effective_grad(p.data.at(i, j), p.grad.at(i, j))),
        )
    }

    /// The value of a parameter after step number `t`, taken from moments `m1`
    /// and `m2` as they were before the step.
    pub open spec fn next_data(self, t: int, p: ParameterView<T>, m1: Grid<T>, m2: Grid<T>) -> Grid<T> {
        Grid::build(
            p.data.rows,
            p.data.cols,
            |i: int, j: int|
                self.moved(
                    p.data.at(i, j),
                    corrected(self.next_m1(p, m1).at(i, j), self.beta1, t),
                    corrected(self.next_m2(p, m2).at(i, j), self.beta2, t),
                ),
        )
    }

    /// Arithmetic is exact where the first step needs it: a zero moment adds
    /// nothing, the first power of a decay is the decay, and scaling by one
    /// minus the decay is undone by dividing by it.
    pub open spec fn first_step_exact(self, g: T) -> bool {
        let c1 = difference(one::<T>(), self.beta1);
        let c2 = difference(one::<T>(), self.beta2);
        &&& product(zero::<T>(), self.beta1) == zero::<T>()
        &&& product(zero::<T>(), self.beta2) == zero::<T>()
        &&& sum(zero::<T>(), product(c1, g)) == product(c1, g)
        &&& sum(zero::<T>(), product(c2, product(g, g))) == product(c2, product(g, g))
        &&& power(self.beta1, 1) == self.beta1
        &&& power(self.beta2, 1) == self.beta2
        &&& quotient(product(c1, g), c1) == g
        &&& quotient(product(c2, product(g, g)), c2) == product(g, g)
    }
}

/// On the first step from zero moments the corrected first moment is the
/// effective gradient and the corrected second moment is its square, wherever
/// the arithmetic involved is exact.
pub proof fn lemma_first_step_unbiased<T: Scalar>(rates: Rates<T>, g: T)
    requires
        rates.first_step_exact(g),
    ensures
        corrected(rates.first_moment(zero::<T>(), g), rates.beta1, 1) == g,
        corrected(rates.second_moment(zero::<T>(), g), rates.beta2, 1) == product(g, g),
{
}

/// What an [`Adam`] optimizer holds: its settings, the number of steps taken,
/// and one pair of moment estimates for each parameter, in the parameters'
/// order.
pub struct AdamView<T> {
    pub rates: Rates<T>,
    pub t: nat,
    pub moms1: Seq<Grid<T>>,
    pub moms2: Seq<Grid<T>>,
}

/// The values with which a list of parameters enters a call.
pub open spec fn entry_views<T>(parameters: Vec<&mut Parameter<T>>) -> Seq<ParameterView<T>> {
    Seq::new(parameters@.len(), |i: int| parameters@[i]@)
}

impl<T: Scalar> AdamView<T> {
    /// There is one pair of moments for each parameter, shaped like it.
    pub open spec fn pairs_with(self, ps: Seq<ParameterView<T>>) -> bool {
        &&& ps.len() == self.moms1.len()
        &&& ps.len() == self.moms2.len()
        &&& forall|i: int|
            0 <= i < ps.len() ==> (#[trigger] ps[i]).data.same_shape(self.moms1[i]) && ps[i].data.same_shape(
                self.moms2[i],
            )
    }

    /// The optimizer after a step over parameters `ps`.
    pub open spec fn stepped(self, ps: Seq<ParameterView<T>>) -> AdamView<T> {
        AdamView {
            rates: self.rates,
            t: self.t + 1,
            moms1: Seq::new(ps.len(), |i: int| self.rates.next_m1(ps[i], self.moms1[i])),
            moms2: Seq::new(ps.len(), |i: int| self.rates.next_m2(ps[i], self.moms2[i])),
        }
    }

    /// The value of parameter `i` of `ps` after the step.
    pub open spec fn stepped_data(self, ps: Seq<ParameterView<T>>, i: int) -> Grid<T> {
        self.rates.next_data((self.t + 1) as int, ps[i], self.moms1[i], self.moms2[i])
    }
}

/// Adam, with weight decay folded into the gradient. The moment estimates are
/// made once, for the parameters given to [`Adam::new`], and are paired with
/// the parameters of each later step by position.
pub struct Adam<T> {
    lr: T,
    beta1: T,
    beta2: T,
    eps: T,
    weight_decay: T,
    t: usize,
    moms1: Vec<Matrix<T>>,
    moms2: Vec<Matrix<T>>,
}

impl<T: Scalar> View for Adam<T> {
    type V = AdamView<T>;

    closed spec fn view(&self) -> AdamView<T> {
        AdamView {
            rates: Rates {
                lr: self.lr,
                beta1: self.beta1,
                beta2: self.beta2,
                eps: self.eps,
                weight_decay: self.weight_decay,
            },
            t: self.t as nat,
            moms1: Seq::new(self.moms1@.len(), |i: int| self.moms1@[i]@),
            moms2: Seq::new(self.moms2@.len(), |i: int| self.moms2@[i]@),
        }
    }
}

impl<T: Scalar> Adam<T> {
    /// An optimizer for the given parameters, with all moments at zero and no
    /// step taken. The parameters are only read.
    pub fn new(
        parameters: Vec<&mut Parameter<T>>,
        lr: T,
        beta1: T,
        beta2: T,
        eps: T,
        weight_decay: T,
    ) -> (r: Self)
        requires
            forall|i: int| #![trigger parameters@[i]] 0 <= i < parameters@.len() ==> parameters@[i].wf(),
        ensures
            r.wf(),
            r.can_step(),
            r@.rates == (Rates { lr, beta1, beta2, eps, weight_decay }),
            r@.t == 0,
            r@.pairs_with(entry_views(parameters)),
            deterministic::<T>() ==> forall|i: int|
                #![trigger parameters@[i]]
                0 <= i < parameters@.len() ==> {
                    &&& r@.moms1[i] == Grid::constant(
                        parameters@[i].data@.rows,
                        parameters@[i].data@.cols,
                        zero::<T>(),
                    )
                    &&& r@.moms2[i] == r@.moms1[i]
                },
            forall|i: int|
                #![trigger parameters@[i]]
                0 <= i < parameters@.len() ==> *final(parameters@[i]) == *parameters@[i],
    {
        let mut moms1: Vec<Matrix<T>> = Vec::new();
        let mut moms2: Vec<Matrix<T>> = Vec::new();
        let mut k: usize = 0;
        while k < parameters.len()
            invariant
                k <= parameters@.len(),
                moms1@.len() == k,
                moms2@.len() == k,
                forall|i: int| #![trigger parameters@[i]] 0 <= i < parameters@.len() ==> parameters@[i].wf(),
                forall|i: int|
                    #![trigger moms1@[i]]
                    0 <= i < k ==> {
                        &&& moms1@[i]@.same_shape(parameters@[i].data@)
                        &&& moms2@[i]@ == moms1@[i]@
                        &&& deterministic::<T>() ==> moms1@[i]@ == Grid::constant(
                            parameters@[i].data@.rows,
                            parameters@[i].data@.cols,
                            zero::<T>(),
                        )
                    },
            decreases parameters@.len() - k,
        {
            let z: T = zero_value();
            let m1 = Matrix::full_like(&parameters[k].data, z);
            let m2 = Matrix::full_like(&parameters[k].data, z);
            moms1.push(m1);
            moms2.push(m2);
            k += 1;
        }
        let r = Adam { lr, beta1, beta2, eps, weight_decay, t: 0, moms1, moms2 };
        proof {
            assert(has_resolved(parameters));
            assert forall|i: int|
                #![trigger parameters@[i]]
                0 <= i < parameters@.len() implies *final(parameters@[i]) == *parameters@[i] by {
                assert(has_resolved(parameters@[i]));
            }
        }
        r
    }

    /// One minus `beta`.
    fn complement(beta: T) -> (r: T)
        ensures
            deterministic::<T>() ==> r == difference(one::<T>(), beta),
    {
        minus(one_value(), beta)
    }

    /// Takes step number `t` on one parameter: moves its value and returns its
    /// new moments.
    fn advance(&self, t: i32, p: &mut Parameter<T>, m1: &Matrix<T>, m2: &Matrix<T>) -> (r: (
        Matrix<T>,
        Matrix<T>,
    ))
        requires
            old(p).wf(),
            old(p).data@.same_shape(m1@),
            old(p).data@.same_shape(m2@),
        ensures
            final(p).wf(),
            final(p).grad@ == old(p).grad@,
            final(p).data@.same_shape(old(p).data@),
            r.0@.same_shape(m1@),
            r.1@.same_shape(m2@),
            deterministic::<T>() ==> {
                &&& r.0@ == self@.rates.next_m1(old(p)@, m1@)
                &&& r.1@ == self@.rates.next_m2(old(p)@, m2@)
                &&& final(p).data@ == self@.rates.next_data(t as int, old(p)@, m1@, m2@)
            },
    {
        let decay = Matrix::scalar_mul(self.weight_decay, &p.data);
        let grad = p.grad.add_same(&decay);

        let kept1 = m1.mul_scalar(self.beta1);
        let fresh1 = Matrix::scalar_mul(Self::complement(self.beta1), &grad);
        let n1 = kept1.add_same(&fresh1);

        let kept2 = m2.mul_scalar(self.beta2);
        let squared = grad.mul_same(&grad);
        let fresh2 = Matrix::scalar_mul(Self::complement(self.beta2), &squared);
        let n2 = kept2.add_same(&fresh2);

        let hat1 = n1.div_scalar(Self::complement(raised(self.beta1, t)));
        let hat2 = n2.div_scalar(Self::complement(raised(self.beta2, t)));

        let spread = hat2.sqrt().add_scalar(self.eps);
        let ratio = hat1.div_same(&spread);
        let delta = Matrix::scalar_mul(self.lr, &ratio);
        let next = p.data.sub_same(&delta);
        proof {
            if deterministic::<T>() {
                lemma_grid_ext(n1@, self@.rates.next_m1(p@, m1@));
                lemma_grid_ext(n2@, self@.rates.next_m2(p@, m2@));
                lemma_grid_ext(next@, self@.rates.next_data(t as int, p@, m1@, m2@));
            }
        }
        p.data = next;
        (n1, n2)
    }
}

impl<T: Scalar> Optimizer<T> for Adam<T> {
    closed spec fn wf(&self) -> bool {
        &&& self.moms1@.len() == self.moms2@.len()
        &&& self.t <= 0x7fff_ffff
        &&& forall|i: int|
            0 <= i < self.moms1@.len() ==> {
                &&& self.moms1@[i]@.same_shape(self.moms2@[i]@)
            }
    }

    closed spec fn lr(&self) -> T {
        self.lr
    }

    /// The step counter is below the largest exponent that a power can take.
    open spec fn can_step(&self) -> bool {
        self@.t < 0x7fff_ffff
    }

    /// Takes one step: counts it, updates each pair of moments from its
    /// parameter's gradient, and moves each parameter's value. Where the
    /// parameters do not pair with the moments, the step is refused and
    /// nothing changes.
    fn step(&mut self, parameters: Vec<&mut Parameter<T>>) -> (r: Result<(), Error>)
        ensures
            final(self)@.rates == old(self)@.rates,
            match r {
                Ok(_) => {
                    &&& old(self)@.pairs_with(entry_views(parameters))
                    &&& final(self)@.pairs_with(entry_views(parameters))
                    &&& final(self)@.t == old(self)@.t + 1
                    &&& deterministic::<T>() ==> {
                        &&& final(self)@ == old(self)@.stepped(entry_views(parameters))
                        &&& forall|i: int|
                            #![trigger parameters@[i]]
                            0 <= i < parameters@.len() ==> final(parameters@[i]).data@
                                == old(self)@.stepped_data(entry_views(parameters), i)
                    }
                },
                Err(e) => {
                    &&& e == Error::ShapeMismatch
                    &&& !old(self)@.pairs_with(entry_views(parameters))
                    &&& final(self)@ == old(self)@
                },
            },
    {
        let ghost given = parameters;
        let ghost before = *self;
        let mut parameters = parameters;
        if !self.pairs(&parameters) {
            proof {
                assert(has_resolved(parameters));
                assert forall|i: int| #![trigger given@[i]] 0 <= i < given@.len() implies *final(given@[i])
                    == *given@[i] by {
                    assert(has_resolved(parameters@[i]));
                }
            }
            return Err(Error::ShapeMismatch);
        }
        self.t += 1;
        let t: i32 = self.t as i32;
        let mut k: usize = 0;
        while k < parameters.len()
            invariant
                k <= parameters@.len(),
                parameters@.len() == given@.len(),
                self.moms1@.len() == given@.len(),
                self.moms2@.len() == given@.len(),
                self.t == before.t + 1,
                t == self.t,
                self@.rates == before@.rates,
                before.wf(),
                before@.pairs_with(entry_views(given)),
                forall|i: int|
                    #![trigger parameters@[i]]
                    0 <= i < parameters@.len() ==> *final(parameters@[i]) == *final(given@[i]),
                forall|i: int|
                    #![trigger parameters@[i]]
                    k <= i < parameters@.len() ==> *parameters@[i] == *given@[i],
                forall|i: int| #![trigger given@[i]] 0 <= i < given@.len() ==> given@[i].wf(),
                forall|i: int|
                    #![trigger self.moms1@[i]]
                    k <= i < given@.len() ==> self.moms1@[i] == before.moms1@[i],
                forall|i: int|
                    #![trigger self.moms2@[i]]
                    k <= i < given@.len() ==> self.moms2@[i] == before.moms2@[i],
                forall|i: int|
                    #![trigger self.moms1@[i]]
                    0 <= i < given@.len() ==> {
                        &&& self.moms1@[i]@.same_shape(before.moms1@[i]@)
                        &&& self.moms2@[i]@.same_shape(before.moms2@[i]@)
                    },
                forall|i: int|
                    #![trigger parameters@[i]]
                    0 <= i < k ==> {
                        &&& parameters@[i].wf()
                        &&& parameters@[i].grad@ == given@[i].grad@
                        &&& parameters@[i].data@.same_shape(given@[i].data@)
                        &&& deterministic::<T>() ==> {
                            &&& self.moms1@[i]@ == before@.rates.next_m1(given@[i]@, before.moms1@[i]@)
                            &&& self.moms2@[i]@ == before@.rates.next_m2(given@[i]@, before.moms2@[i]@)
                            &&& parameters@[i].data@ == before@.rates.next_data(
                                t as int,
                                given@[i]@,
                                before.moms1@[i]@,
                                before.moms2@[i]@,
                            )
                        }
                    },
            decreases parameters@.len() - k,
        {
            proof {
                assert(entry_views(given)[k as int].data.same_shape(before@.moms1[k as int]));
            }
            let (n1, n2) = self.advance(t, parameters[k], &self.moms1[k], &self.moms2[k]);
            self.moms1.set(k, n1);
            self.moms2.set(k, n2);
            k += 1;
        }
        proof {
            assert(has_resolved(parameters));
            assert forall|i: int| #![trigger given@[i]] 0 <= i < given@.len() implies {
                &&& final(given@[i]).wf()
                &&& final(given@[i]).grad@ == given@[i].grad@
                &&& final(given@[i]).data@.same_shape(given@[i].data@)
                &&& deterministic::<T>() ==> final(given@[i]).data@ == before@.stepped_data(
                    entry_views(given),
                    i,
                )
            } by {
                assert(has_resolved(parameters@[i]));
                assert(parameters@[i].wf());
            }
            assert forall|i: int| 0 <= i < given@.len() implies (#[trigger] entry_views(given)[i]).data.same_shape(
                self@.moms1[i],
            ) && entry_views(given)[i].data.same_shape(self@.moms2[i]) by {
                assert(entry_views(given)[i].data.same_shape(before@.moms1[i]));
            }
            if deterministic::<T>() {
                let want = before@.stepped(entry_views(given));
                assert forall|i: int| 0 <= i < given@.len() implies #[trigger] self@.moms1[i] == want.moms1[i]
                    && self@.moms2[i] == want.moms2[i] by {
                    assert(parameters@[i].wf());
                }
                assert(self@.moms1 =~= want.moms1);
                assert(self@.moms2 =~= want.moms2);
            }
        }
        Ok(())
    }

    fn get_lr(&self) -> (r: T) {
        self.lr
    }

    fn set_lr(&mut self, lr: T)
        ensures
            final(self)@ == (AdamView { rates: Rates { lr, ..old(self)@.rates }, ..old(self)@ }),
    {
        self.lr = lr;
    }
}

impl<T: Scalar> Adam<T> {
    /// Whether there is one pair of moments for each parameter, shaped like it.
    fn pairs(&self, parameters: &Vec<&mut Parameter<T>>) -> (r: bool)
        requires
            self.wf(),
            forall|i: int| #![trigger parameters@[i]] 0 <= i < parameters@.len() ==> parameters@[i].wf(),
        ensures
            r == self@.pairs_with(entry_views(*parameters)),
    {
        if parameters.len() != self.moms1.len() {
            return false;
        }
        let mut k: usize = 0;
        while k < parameters.len()
            invariant
                self.wf(),
                k <= parameters@.len(),
                parameters@.len() == self.moms1@.len(),
                forall|i: int|
                    #![trigger parameters@[i]]
                    0 <= i < k ==> parameters@[i].data@.same_shape(self.moms1@[i]@),
            decreases parameters@.len() - k,
        {
            if parameters[k].data.rows() != self.moms1[k].rows() || parameters[k].data.cols()
                != self.moms1[k].cols() {
                proof {
                    assert(!entry_views(*parameters)[k as int].data.same_shape(self@.moms1[k as int]));
                }
                return false;
            }
            k += 1;
        }
        proof {
            assert forall|i: int| 0 <= i < parameters@.len() implies (#[trigger] entry_views(
                *parameters,
            )[i]).data.same_shape(self@.moms1[i]) && entry_views(*parameters)[i].data.same_shape(
                self@.moms2[i],
            ) by {
                assert(parameters@[i].data@.same_shape(self.moms1@[i]@));
            }
        }
        true
    }
}

} // verus!
