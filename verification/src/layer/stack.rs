//! Layers of any kind, and stacks of them.

use vstd::prelude::*;
use crate::error::Error;
use crate::layer::outline::{
    lemma_params_wf, lemma_run_out_shape_prefix, lemma_run_values_kept, values_kept, LayerView,
    Outline, Pass, Passes,
};
use crate::layer::{Linear, ReLU};
use crate::matrix::{lemma_view_wf, Matrix};
use crate::parameter::Parameter;
use crate::scalar::{deterministic, Scalar};

verus! {

broadcast use lemma_view_wf;

/// A layer of any kind.
pub enum Layer<T> {
    Linear(Linear<T>),
    ReLU(ReLU<T>),
    Sequential(Sequential<T>),
}

/// Layers applied one after the other: `forward` goes through them first to
/// last, `backward` last to first.
pub struct Sequential<T> {
    layers: Vec<Layer<T>>,
}

impl<T: Scalar> Layer<T> {
    /// What the layer holds.
    pub closed spec fn model(self) -> LayerView<T>
        decreases self,
    {
        match self {
            Layer::Linear(l) => LayerView::Linear(l@),
            Layer::ReLU(r) => LayerView::ReLU(r@),
            Layer::Sequential(s) => LayerView::Sequential(views_of(s.layers@, s.layers@.len())),
        }
    }
}

/// What the first `n` of `layers` hold.
pub closed spec fn views_of<T: Scalar>(layers: Seq<Layer<T>>, n: nat) -> Seq<LayerView<T>>
    decreases layers, n,
{
    if n == 0 || n > layers.len() {
        Seq::empty()
    } else {
        views_of(layers, (n - 1) as nat).push(layers[n - 1].model())
    }
}

impl<T: Scalar> View for Layer<T> {
    type V = LayerView<T>;

    closed spec fn view(&self) -> LayerView<T> {
        self.model()
    }
}

impl<T: Scalar> View for Sequential<T> {
    type V = LayerView<T>;

    closed spec fn view(&self) -> LayerView<T> {
        LayerView::Sequential(views_of(self.layers@, self.layers@.len()))
    }
}

proof fn lemma_views_of<T: Scalar>(layers: Seq<Layer<T>>, n: nat)
    requires
        n <= layers.len(),
    ensures
        views_of(layers, n).len() == n,
        forall|k: int| 0 <= k < n ==> #[trigger] views_of(layers, n)[k] == layers[k]@,
    decreases n,
{
    if n > 0 {
        lemma_views_of(layers, (n - 1) as nat);
    }
}

impl<T: Scalar> Layer<T> {
    /// The shape that `forward` would return for an input of `rows` by
    /// `cols`, or the error with which it would refuse it.
    pub fn output_shape(&self, rows: usize, cols: usize) -> (r: Result<(usize, usize), Error>)
        requires
            self@.wf(),
        ensures
            match r {
                Ok(shape) => self@.outline().out_shape(rows as nat, cols as nat) == Ok::<(nat, nat), Error>(
                    (shape.0 as nat, shape.1 as nat),
                ) && shape.0 == rows,
                Err(e) => self@.outline().out_shape(rows as nat, cols as nat) == Err::<(nat, nat), Error>(e),
            },
        decreases self@, 1nat,
    {
        match self {
            Layer::Linear(l) => l.output_shape(rows, cols),
            Layer::ReLU(_) => Ok((rows, cols)),
            Layer::Sequential(s) => s.output_shape(rows, cols),
        }
    }

    /// The shape that `backward` would return for a gradient of `rows` by
    /// `cols`, or the error with which it would refuse it.
    pub fn gradient_shape(&self, rows: usize, cols: usize) -> (r: Result<(usize, usize), Error>)
        requires
            self@.wf(),
        ensures
            match r {
                Ok(shape) => self@.outline().grad_shape(rows as nat, cols as nat) == Ok::<(nat, nat), Error>(
                    (shape.0 as nat, shape.1 as nat),
                ),
                Err(e) => self@.outline().grad_shape(rows as nat, cols as nat) == Err::<(nat, nat), Error>(e),
            },
        decreases self@, 1nat,
    {
        match self {
            Layer::Linear(l) => l.gradient_shape(rows, cols),
            Layer::ReLU(r) => r.gradient_shape(rows, cols),
            Layer::Sequential(s) => s.gradient_shape(rows, cols),
        }
    }

    /// Runs the layer on `input` and keeps what the matching `backward` will
    /// need. An input that the layer, or a layer inside it, cannot take is
    /// refused before anything is changed.
    pub fn forward(&mut self, input: &Matrix<T>) -> (r: Result<Matrix<T>, Error>)
        requires
            old(self)@.wf(),
            old(self)@.outline().fits(input@.rows),
        ensures
            final(self)@.wf(),
            final(self)@.params() == old(self)@.params(),
            match r {
                Ok(y) => {
                    &&& old(self)@.outline().out_shape(input@.rows, input@.cols) == Ok::<(nat, nat), Error>(
                        (y@.rows, y@.cols),
                    )
                    &&& y@.rows == input@.rows
                    &&& final(self)@.outline() == old(self)@.outline().after_forward(input@.rows, input@.cols)
                    &&& deterministic::<T>() ==> old(self)@.forward(input@) == (Pass {
                        layer: final(self)@,
                        out: y@,
                    })
                },
                Err(e) => {
                    &&& old(self)@.outline().out_shape(input@.rows, input@.cols) == Err::<(nat, nat), Error>(e)
                    &&& final(self)@ == old(self)@
                },
            },
        decreases old(self)@, 1nat,
    {
        match self {
            Layer::Linear(l) => l.forward(input),
            Layer::ReLU(r) => Ok(r.forward(input)),
            Layer::Sequential(s) => s.forward(input),
        }
    }

    /// Adds to the gradient accumulators of the layer's parameters what the
    /// upstream gradient `partial` gives, and returns the gradient with
    /// respect to the input of the latest `forward`. A call with nothing kept,
    /// or with a gradient of the wrong shape, is refused before anything is
    /// changed.
    pub fn backward(&mut self, partial: &Matrix<T>) -> (r: Result<Matrix<T>, Error>)
        requires
            old(self)@.wf(),
        ensures
            final(self)@.wf(),
            final(self)@.outline() == old(self)@.outline(),
            values_kept(old(self)@.params(), final(self)@.params()),
            match r {
                Ok(dx) => {
                    &&& old(self)@.outline().grad_shape(partial@.rows, partial@.cols) == Ok::<(nat, nat), Error>(
                        (dx@.rows, dx@.cols),
                    )
                    &&& deterministic::<T>() ==> old(self)@.backward(partial@) == (Pass {
                        layer: final(self)@,
                        out: dx@,
                    })
                },
                Err(e) => {
                    &&& old(self)@.outline().grad_shape(partial@.rows, partial@.cols) == Err::<(nat, nat), Error>(
                        e,
                    )
                    &&& final(self)@ == old(self)@
                },
            },
        decreases old(self)@, 1nat,
    {
        match self {
            Layer::Linear(l) => l.backward(partial),
            Layer::ReLU(r) => r.backward(partial),
            Layer::Sequential(s) => s.backward(partial),
        }
    }
}

impl<T: Scalar> Sequential<T> {
    /// A stack holds what its layers hold, in their order.
    proof fn lemma_view(&self)
        ensures
            self@ is Sequential,
            self@->Sequential_0.len() == self.layers@.len(),
            forall|k: int| 0 <= k < self.layers@.len() ==> #[trigger] self@->Sequential_0[k] == self.layers@[k]@,
    {
        lemma_views_of(self.layers@, self.layers@.len());
    }

    /// The stack of the given layers, in their order.
    pub fn new(layers: Vec<Layer<T>>) -> (r: Self)
        ensures
            r@ == LayerView::Sequential(Seq::new(layers@.len(), |k: int| layers@[k]@)),
    {
        let r = Sequential { layers };
        proof {
            r.lemma_view();
            assert(r@->Sequential_0 =~= Seq::new(layers@.len(), |k: int| layers@[k]@));
        }
        r
    }

    /// The shape that `forward` would return for an input of `rows` by
    /// `cols`, or the error with which it would refuse it.
    pub fn output_shape(&self, rows: usize, cols: usize) -> (r: Result<(usize, usize), Error>)
        requires
            self@.wf(),
        ensures
            match r {
                Ok(shape) => self@.outline().out_shape(rows as nat, cols as nat) == Ok::<(nat, nat), Error>(
                    (shape.0 as nat, shape.1 as nat),
                ) && shape.0 == rows,
                Err(e) => self@.outline().out_shape(rows as nat, cols as nat) == Err::<(nat, nat), Error>(e),
            },
        decreases self@, 0nat,
    {
        let ghost views = self@->Sequential_0;
        let ghost outlines = LayerView::run_outline(views);
        let mut shape: (usize, usize) = (rows, cols);
        let mut i: usize = 0;
        proof {
            self.lemma_view();
            assert(outlines.take(0) =~= Seq::<Outline>::empty());
        }
        while i < self.layers.len()
            invariant
                self@ == LayerView::Sequential(views),
                views.len() == self.layers@.len(),
                forall|k: int| 0 <= k < self.layers@.len() ==> #[trigger] views[k] == self.layers@[k]@,
                outlines == LayerView::run_outline(views),
                self@.wf(),
                i <= self.layers@.len(),
                shape.0 == rows,
                Outline::run_out_shape(outlines.take(i as int), rows as nat, cols as nat) == Ok::<
                    (nat, nat),
                    Error,
                >((shape.0 as nat, shape.1 as nat)),
            decreases self.layers@.len() - i,
        {
            proof {
                assert(outlines.take(i + 1).drop_last() =~= outlines.take(i as int));
                assert(views[i as int].wf());
            }
            match self.layers[i].output_shape(shape.0, shape.1) {
                Ok(next) => {
                    shape = next;
                },
                Err(e) => {
                    proof {
                        lemma_run_out_shape_fails(outlines, i + 1, rows as nat, cols as nat);
                    }
                    return Err(e);
                },
            }
            i += 1;
        }
        proof {
            assert(outlines.take(i as int) =~= outlines);
        }
        Ok(shape)
    }
}

impl<T: Scalar> Sequential<T> {
    /// The shape that `backward` would return for a gradient of `rows` by
    /// `cols`, or the error with which it would refuse it.
    pub fn gradient_shape(&self, rows: usize, cols: usize) -> (r: Result<(usize, usize), Error>)
        requires
            self@.wf(),
        ensures
            match r {
                Ok(shape) => self@.outline().grad_shape(rows as nat, cols as nat) == Ok::<(nat, nat), Error>(
                    (shape.0 as nat, shape.1 as nat),
                ),
                Err(e) => self@.outline().grad_shape(rows as nat, cols as nat) == Err::<(nat, nat), Error>(e),
            },
        decreases self@, 0nat,
    {
        let ghost views = self@->Sequential_0;
        let ghost outlines = LayerView::run_outline(views);
        let mut shape: (usize, usize) = (rows, cols);
        let mut i: usize = self.layers.len();
        proof {
            self.lemma_view();
            assert(outlines.take(i as int) =~= outlines);
        }
        while i > 0
            invariant
                self@ == LayerView::Sequential(views),
                views.len() == self.layers@.len(),
                forall|k: int| 0 <= k < self.layers@.len() ==> #[trigger] views[k] == self.layers@[k]@,
                outlines == LayerView::run_outline(views),
                self@.wf(),
                i <= self.layers@.len(),
                Outline::run_grad_shape(outlines, rows as nat, cols as nat) == Outline::run_grad_shape(
                    outlines.take(i as int),
                    shape.0 as nat,
                    shape.1 as nat,
                ),
            decreases i,
        {
            proof {
                assert(outlines.take(i as int).drop_last() =~= outlines.take(i - 1));
                assert(views[i - 1].wf());
            }
            match self.layers[i - 1].gradient_shape(shape.0, shape.1) {
                Ok(next) => {
                    shape = next;
                },
                Err(e) => {
                    return Err(e);
                },
            }
            i -= 1;
        }
        Ok(shape)
    }

    /// Runs the layers on `input`, first to last, each on what the one before
    /// it returned. An input that some layer cannot take is refused before
    /// anything is changed.
    pub fn forward(&mut self, input: &Matrix<T>) -> (r: Result<Matrix<T>, Error>)
        requires
            old(self)@.wf(),
            old(self)@.outline().fits(input@.rows),
        ensures
            final(self)@.wf(),
            final(self)@.params() == old(self)@.params(),
            match r {
                Ok(y) => {
                    &&& old(self)@.outline().out_shape(input@.rows, input@.cols) == Ok::<(nat, nat), Error>(
                        (y@.rows, y@.cols),
                    )
                    &&& y@.rows == input@.rows
                    &&& final(self)@.outline() == old(self)@.outline().after_forward(input@.rows, input@.cols)
                    &&& deterministic::<T>() ==> old(self)@.forward(input@) == (Pass {
                        layer: final(self)@,
                        out: y@,
                    })
                },
                Err(e) => {
                    &&& old(self)@.outline().out_shape(input@.rows, input@.cols) == Err::<(nat, nat), Error>(e)
                    &&& final(self)@ == old(self)@
                },
            },
        decreases old(self)@, 0nat,
    {
        let ghost views = self@->Sequential_0;
        let ghost outlines = LayerView::run_outline(views);
        let ghost rows = input@.rows;
        let ghost cols = input@.cols;
        proof {
            self.lemma_view();
        }
        match self.output_shape(input.rows(), input.cols()) {
            Ok(_) => {},
            Err(e) => {
                return Err(e);
            },
        }
        let mut x = input.clone();
        let ghost mut done: Seq<LayerView<T>> = Seq::empty();
        let mut i: usize = 0;
        proof {
            assert(outlines.take(0) =~= Seq::<Outline>::empty());
            assert(views.take(0) =~= Seq::<LayerView<T>>::empty());
            assert forall|k: int| 0 <= k < self.layers@.len() implies (#[trigger] self.layers@[k]@).wf() by {
                assert(views[k].wf());
            }
        }
        while i < self.layers.len()
            invariant
                old(self)@ == LayerView::Sequential(views),
                views.len() == self.layers@.len(),
                outlines == LayerView::run_outline(views),
                LayerView::run_wf(views),
                Outline::run_fits(outlines, rows),
                Outline::run_out_shape(outlines, rows, cols) is Ok,
                i <= self.layers@.len(),
                forall|k: int| i <= k < self.layers@.len() ==> views[k] == #[trigger] self.layers@[k]@,
                forall|k: int| 0 <= k < self.layers@.len() ==> (#[trigger] self.layers@[k]@).wf(),
                forall|k: int| 0 <= k < i ==> (#[trigger] self.layers@[k]@).params() == views[k].params(),
                forall|k: int|
                    0 <= k < i ==> (#[trigger] self.layers@[k]@).outline() == outlines[k].after_forward(
                        Outline::shape_at(outlines, k, rows, cols).0,
                        Outline::shape_at(outlines, k, rows, cols).1,
                    ),
                x@.rows == rows,
                Outline::run_out_shape(outlines.take(i as int), rows, cols) == Ok::<(nat, nat), Error>(
                    (x@.rows, x@.cols),
                ),
                done.len() == i,
                forall|k: int| 0 <= k < i ==> done[k] == #[trigger] self.layers@[k]@,
                deterministic::<T>() ==> LayerView::run_forward(views.take(i as int), input@) == (Passes {
                    layers: done,
                    out: x@,
                }),
            decreases self.layers@.len() - i,
        {
            proof {
                assert(outlines.take(i + 1).drop_last() =~= outlines.take(i as int));
                assert(views.take(i + 1).drop_last() =~= views.take(i as int));
                assert(outlines[i as int].fits(rows));
                lemma_run_out_shape_prefix(outlines, i + 1, rows, cols);
                assert(self.layers@[i as int]@ == views[i as int]);
                assert(decreases_to!(old(self)@ => old(self)@->Sequential_0));
                assert(decreases_to!(views => views[i as int]));
                assert(decreases_to!(old(self)@ => views[i as int]));
            }
            let ghost before = self.layers@;
            let y = match self.layers[i].forward(&x) {
                Ok(y) => y,
                Err(_) => unreached(),
            };
            proof {
                done = done.push(self.layers@[i as int]@);
                assert forall|k: int| 0 <= k < self.layers@.len() && k != i implies self.layers@[k]
                    == before[k] by {}
            }
            x = y;
            i += 1;
        }
        proof {
            self.lemma_view();
            let now = self@->Sequential_0;
            assert(outlines.take(i as int) =~= outlines);
            assert(views.take(i as int) =~= views);
            assert(now =~= done);
            lemma_run_params_pointwise(now, views);
            assert(LayerView::run_outline(now) =~= Outline::run_after_forward(outlines, rows, cols));
        }
        Ok(x)
    }

    /// Runs `backward` through the layers, last to first, each on what the
    /// one after it returned. A call that some layer cannot take is refused
    /// before anything is changed.
    pub fn backward(&mut self, partial: &Matrix<T>) -> (r: Result<Matrix<T>, Error>)
        requires
            old(self)@.wf(),
        ensures
            final(self)@.wf(),
            final(self)@.outline() == old(self)@.outline(),
            values_kept(old(self)@.params(), final(self)@.params()),
            match r {
                Ok(dx) => {
                    &&& old(self)@.outline().grad_shape(partial@.rows, partial@.cols) == Ok::<(nat, nat), Error>(
                        (dx@.rows, dx@.cols),
                    )
                    &&& deterministic::<T>() ==> old(self)@.backward(partial@) == (Pass {
                        layer: final(self)@,
                        out: dx@,
                    })
                },
                Err(e) => {
                    &&& old(self)@.outline().grad_shape(partial@.rows, partial@.cols) == Err::<(nat, nat), Error>(
                        e,
                    )
                    &&& final(self)@ == old(self)@
                },
            },
        decreases old(self)@, 0nat,
    {
        let ghost views = self@->Sequential_0;
        let ghost outlines = LayerView::run_outline(views);
        let ghost rows = partial@.rows;
        let ghost cols = partial@.cols;
        proof {
            self.lemma_view();
        }
        match self.gradient_shape(partial.rows(), partial.cols()) {
            Ok(_) => {},
            Err(e) => {
                return Err(e);
            },
        }
        let mut x = partial.clone();
        let ghost mut done: Seq<LayerView<T>> = Seq::empty();
        let mut i: usize = self.layers.len();
        proof {
            assert(outlines.take(i as int) =~= outlines);
            assert(views.take(i as int) =~= views);
            assert(LayerView::run_backward(views, partial@).layers + done =~= LayerView::run_backward(
                views,
                partial@,
            ).layers);
            assert forall|k: int| 0 <= k < self.layers@.len() implies (#[trigger] self.layers@[k]@).wf() by {
                assert(views[k].wf());
            }
        }
        while i > 0
            invariant
                old(self)@ == LayerView::Sequential(views),
                views.len() == self.layers@.len(),
                outlines == LayerView::run_outline(views),
                LayerView::run_wf(views),
                Outline::run_grad_shape(outlines, rows, cols) is Ok,
                i <= self.layers@.len(),
                forall|k: int| 0 <= k < i ==> views[k] == #[trigger] self.layers@[k]@,
                forall|k: int| 0 <= k < self.layers@.len() ==> (#[trigger] self.layers@[k]@).wf(),
                forall|k: int|
                    0 <= k < self.layers@.len() ==> (#[trigger] self.layers@[k]@).outline() == outlines[k],
                forall|k: int|
                    0 <= k < self.layers@.len() ==> values_kept(
                        views[k].params(),
                        (#[trigger] self.layers@[k]@).params(),
                    ),
                Outline::run_grad_shape(outlines, rows, cols) == Outline::run_grad_shape(
                    outlines.take(i as int),
                    x@.rows,
                    x@.cols,
                ),
                done.len() == self.layers@.len() - i,
                forall|k: int| i <= k < self.layers@.len() ==> done[k - i] == #[trigger] self.layers@[k]@,
                deterministic::<T>() ==> LayerView::run_backward(views, partial@) == (Passes {
                    layers: LayerView::run_backward(views.take(i as int), x@).layers + done,
                    out: LayerView::run_backward(views.take(i as int), x@).out,
                }),
            decreases i,
        {
            proof {
                assert(outlines.take(i as int).drop_last() =~= outlines.take(i - 1));
                assert(views.take(i as int).drop_last() =~= views.take(i - 1));
                assert(self.layers@[i - 1]@ == views[i - 1]);
                assert(decreases_to!(old(self)@ => old(self)@->Sequential_0));
                assert(decreases_to!(views => views[i - 1]));
                assert(decreases_to!(old(self)@ => views[i - 1]));
            }
            let ghost before = self.layers@;
            let dx = match self.layers[i - 1].backward(&x) {
                Ok(dx) => dx,
                Err(_) => unreached(),
            };
            proof {
                let fresh = self.layers@[i - 1]@;
                assert forall|k: int| 0 <= k < self.layers@.len() && k != i - 1 implies self.layers@[k]
                    == before[k] by {}
                if deterministic::<T>() {
                    let rest = LayerView::run_backward(views.take(i - 1), dx@);
                    assert(rest.layers.push(fresh) + done =~= rest.layers + (seq![fresh] + done));
                }
                done = seq![fresh] + done;
            }
            x = dx;
            i -= 1;
        }
        proof {
            self.lemma_view();
            let now = self@->Sequential_0;
            assert(views.take(0) =~= Seq::<LayerView<T>>::empty());
            assert(outlines.take(0) =~= Seq::<Outline>::empty());
            assert(now =~= done);
            assert(LayerView::run_backward(views.take(0), x@).layers + done =~= done);
            assert(LayerView::run_outline(now) =~= outlines);
            lemma_run_values_kept(views, now);
        }
        Ok(x)
    }
}

/// What the layers of a slice hold.
pub closed spec fn slice_views<T: Scalar>(layers: Seq<Layer<T>>) -> Seq<LayerView<T>> {
    views_of(layers, layers.len())
}

impl<T: Scalar> Layer<T> {
    /// The parameters of the layer, in the order in which `forward` meets
    /// them, to be changed in place.
    pub fn parameters(&mut self) -> (r: Vec<&mut Parameter<T>>)
        ensures
            r@.len() == old(self)@.params().len(),
            forall|i: int| #![trigger r@[i]] 0 <= i < r@.len() ==> r@[i]@ == old(self)@.params()[i],
            old(self)@.wf() ==> forall|i: int| #![trigger r@[i]] 0 <= i < r@.len() ==> r@[i].wf(),
            final(self)@ == old(self)@.with_params(Seq::new(r@.len(), |i: int| final(r@[i])@)),
        decreases old(self)@, 1nat,
    {
        proof {
            if self@.wf() {
                lemma_params_wf(self@);
            }
        }
        match self {
            Layer::Linear(l) => l.parameters(),
            Layer::ReLU(r) => r.parameters(),
            Layer::Sequential(s) => s.parameters(),
        }
    }
}

impl<T: Scalar> Sequential<T> {
    /// The parameters of all layers, in the order of the layers, to be
    /// changed in place.
    pub fn parameters(&mut self) -> (r: Vec<&mut Parameter<T>>)
        ensures
            r@.len() == old(self)@.params().len(),
            forall|i: int| #![trigger r@[i]] 0 <= i < r@.len() ==> r@[i]@ == old(self)@.params()[i],
            old(self)@.wf() ==> forall|i: int| #![trigger r@[i]] 0 <= i < r@.len() ==> r@[i].wf(),
            final(self)@ == old(self)@.with_params(Seq::new(r@.len(), |i: int| final(r@[i])@)),
        decreases old(self)@, 0nat,
    {
        let mut out: Vec<&mut Parameter<T>> = Vec::new();
        proof {
            assert(decreases_to!(old(self)@ => old(self)@->Sequential_0));
            if self@.wf() {
                lemma_params_wf(self@);
            }
        }
        let slice = self.layers.as_mut_slice();
        let ghost held = slice;
        collect(slice, &mut out);
        proof {
            let fin = Seq::new(out@.len(), |i: int| final(out@[i])@);
            assert(Seq::new((out@.len() - 0) as nat, |j: int| final(out@[0 + j])@) =~= fin);
            assert(old(self)@ == LayerView::Sequential(slice_views(held@)));
            assert(slice_views(final(held)@) == LayerView::run_with_params(slice_views(held@), fin));
            if old(self)@.wf() {
                assert forall|i: int| #![trigger out@[i]] 0 <= i < out@.len() implies out@[i].wf() by {
                    assert(out@[i]@ == old(self)@.params()[i]);
                }
            }
        }
        out
    }
}

/// Appends to `out` the parameters of `layers`, in the order of the layers.
fn collect<'a, T: Scalar>(layers: &'a mut [Layer<T>], out: &mut Vec<&'a mut Parameter<T>>)
    ensures
        final(out)@.len() == old(out)@.len() + LayerView::run_params(slice_views(old(layers)@)).len(),
        forall|i: int| #![trigger final(out)@[i]] 0 <= i < old(out)@.len() ==> final(out)@[i] == old(out)@[i],
        forall|i: int|
            #![trigger final(out)@[i]]
            old(out)@.len() <= i < final(out)@.len() ==> final(out)@[i]@ == LayerView::run_params(
                slice_views(old(layers)@),
            )[i - old(out)@.len()],
        slice_views(final(layers)@) == LayerView::run_with_params(
            slice_views(old(layers)@),
            Seq::new(
                (final(out)@.len() - old(out)@.len()) as nat,
                |j: int| final(final(out)@[old(out)@.len() + j])@,
            ),
        ),
    decreases slice_views(old(layers)@), 2nat,
{
    let ghost vs = slice_views(layers@);
    let ghost out0 = out@;
    proof {
        lemma_views_of(layers@, layers@.len());
    }
    let n = layers.len();
    if n == 0 {
        proof {
            assert(Seq::new(0nat, |j: int| final(out@[out0.len() + j])@) =~= Seq::empty());
        }
        return;
    }
    let (init, last) = layers.split_at_mut(n - 1);
    let ghost init_ref = init;
    let ghost last_ref = last;
    let ghost vi = slice_views(init@);
    proof {
        lemma_views_of(init@, init@.len());
        assert(vi =~= vs.drop_last());
        assert(decreases_to!(vs => vs.subrange(0, n - 1)));
    }
    collect(init, out);
    let ghost out1 = out@;
    match last.first_mut() {
        Some(l) => {
            let ghost l_ref = l;
            proof {
                assert(l@ == vs[n - 1]);
                assert(decreases_to!(vs => vs[n - 1]));
            }
            let mut ps = l.parameters();
            let ghost ps0 = ps@;
            out.append(&mut ps);
            proof {
                let mid = LayerView::run_params(vi).len() as int;
                let fin = Seq::new((out@.len() - out0.len()) as nat, |j: int| final(out@[out0.len() + j])@);
                let fin_init = Seq::new((out1.len() - out0.len()) as nat, |j: int| final(out1[out0.len() + j])@);
                let fin_last = Seq::new(ps0.len(), |i: int| final(ps0[i])@);
                assert(fin.take(mid) =~= fin_init);
                assert(fin.skip(mid) =~= fin_last);
                lemma_views_of(final(init_ref)@, final(init_ref)@.len());
                lemma_views_of(final(init_ref)@ + final(last_ref)@, (final(init_ref)@ + final(last_ref)@).len());
                assert(slice_views(final(init_ref)@ + final(last_ref)@) =~= slice_views(final(init_ref)@).push(
                    final(l_ref)@,
                ));
            }
        },
        None => {},
    }
}

/// Runs of layers with the same parameters, layer by layer, have the same
/// parameters.
pub proof fn lemma_run_params_pointwise<T: Scalar>(a: Seq<LayerView<T>>, b: Seq<LayerView<T>>)
    requires
        a.len() == b.len(),
        forall|k: int| 0 <= k < a.len() ==> (#[trigger] a[k]).params() == b[k].params(),
    ensures
        LayerView::run_params(a) == LayerView::run_params(b),
    decreases a.len(),
{
    if a.len() > 0 {
        lemma_run_params_pointwise(a.drop_last(), b.drop_last());
    }
}

/// Where the first layers of a run refuse an input, the run refuses it with
/// the same error.
pub proof fn lemma_run_out_shape_fails(s: Seq<Outline>, k: int, rows: nat, cols: nat)
    requires
        0 <= k <= s.len(),
        Outline::run_out_shape(s.take(k), rows, cols) is Err,
    ensures
        Outline::run_out_shape(s, rows, cols) == Outline::run_out_shape(s.take(k), rows, cols),
    decreases s.len(),
{
    if k == s.len() {
        assert(s.take(k) =~= s);
    } else {
        assert(s.drop_last().take(k) =~= s.take(k));
        lemma_run_out_shape_fails(s.drop_last(), k, rows, cols);
    }
}

} // verus!
