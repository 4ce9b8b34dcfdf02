//! Schedules that change an optimizer's learning rate as training goes on.

use vstd::prelude::*;
use crate::optimizer::Optimizer;
use crate::scalar::{deterministic, exponential, negation, of_usize, product, Scalar};
use crate::scalar::{count_value, exp_value, negated, times};

verus! {

/// What every schedule offers: a step that sets the optimizer's learning rate.
pub trait Scheduler<T: Scalar>: Sized {
    /// Whether the schedule can count one more step.
    open spec fn can_step(&self) -> bool {
        true
    }

    fn step<O: Optimizer<T>>(&mut self, optimizer: &mut O)
        requires
            old(self).can_step(),
            old(optimizer).wf(),
        ensures
            final(optimizer).wf(),
            final(optimizer).can_step() == old(optimizer).can_step(),
    ;
}

/// What an [`ExponentialDecay`] holds.
pub struct ExponentialDecayView<T> {
    /// The decay constant.
    pub k: T,
    /// The number of steps taken.
    pub t: nat,
    /// The optimizer's learning rate when the schedule was made.
    pub initial_lr: T,
}

/// The learning rate after step number `t` of a schedule with decay constant
/// `k`, from the rate `lr` before the step: `lr` times the exponential of
/// minus `k` times `t`.
pub open spec fn decayed<T: Scalar>(lr: T, k: T, t: nat) -> T {
    product(lr, exponential(product(negation(k), of_usize::<T>(t as usize))))
}

/// Exponential decay of the learning rate. Every step scales the rate that the
/// optimizer has at that moment, so the decay compounds from step to step.
pub struct ExponentialDecay<T> {
    k: T,
    t: usize,
    initial_lr: T,
}

impl<T: Scalar> View for ExponentialDecay<T> {
    type V = ExponentialDecayView<T>;

    closed spec fn view(&self) -> ExponentialDecayView<T> {
        ExponentialDecayView { k: self.k, t: self.t as nat, initial_lr: self.initial_lr }
    }
}

impl<T: Scalar> ExponentialDecay<T> {
    /// A schedule with decay constant `k` that has taken no step.
    pub fn new<O: Optimizer<T>>(k: T, optimizer: &O) -> (r: Self)
        ensures
            r@ == (ExponentialDecayView { k, t: 0, initial_lr: optimizer.lr() }),
            r.can_step(),
    {
        ExponentialDecay { k, t: 0, initial_lr: optimizer.get_lr() }
    }
}

impl<T: Scalar> Scheduler<T> for ExponentialDecay<T> {
    /// The step counter is below the largest count that a machine word holds.
    open spec fn can_step(&self) -> bool {
        self@.t < usize::MAX
    }

    /// Counts one step and sets the optimizer's learning rate to [`decayed`]
    /// of its rate before the call.
    fn step<O: Optimizer<T>>(&mut self, optimizer: &mut O)
        ensures
            final(self)@ == (ExponentialDecayView { t: old(self)@.t + 1, ..old(self)@ }),
            deterministic::<T>() ==> final(optimizer).lr() == decayed(
                old(optimizer).lr(),
                old(self)@.k,
                old(self)@.t + 1,
            ),
    {
        self.t += 1;
        let factor = exp_value(times(negated(self.k), count_value(self.t)));
        let new_lr = times(optimizer.get_lr(), factor);
        optimizer.set_lr(new_lr);
    }
}

} // verus!
