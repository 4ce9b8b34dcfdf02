//! What a stack of layers holds, and the shapes that pass through it.
//!
//! Whether a pass is accepted depends on shapes alone: the widths of the
//! layers and the shapes of what they kept. An [`Outline`] holds exactly that,
//! so that the errors of `forward` and `backward` can be stated, and found
//! before anything is changed, without a word about cell values.

use vstd::prelude::*;
use crate::error::Error;
use crate::layer::{LinearView, ReLUView};
use crate::matrix::Grid;
use crate::parameter::ParameterView;
use crate::scalar::Scalar;

verus! {

/// What a layer holds.
pub enum LayerView<T> {
    Linear(LinearView<T>),
    ReLU(ReLUView<T>),
    /// Sub-layers, applied first to last.
    Sequential(Seq<LayerView<T>>),
}

/// The new state of a layer after a pass, and what the pass returned.
pub struct Pass<T> {
    pub layer: LayerView<T>,
    pub out: Grid<T>,
}

/// The new states of a run of layers after a pass, and what the pass returned.
pub struct Passes<T> {
    pub layers: Seq<LayerView<T>>,
    pub out: Grid<T>,
}

/// The shapes in a layer.
pub enum Outline {
    /// A linear layer's widths, and the number of rows of the input it keeps.
    Linear { inputs: nat, outputs: nat, batch: Option<nat> },
    /// The shape of the mask that a rectifier keeps.
    ReLU { mask: Option<(nat, nat)> },
    Sequential(Seq<Outline>),
}

impl Outline {
    /// The shape that `forward` returns for an input of `rows` by `cols`, or
    /// the error with which it refuses the input.
    pub open spec fn out_shape(self, rows: nat, cols: nat) -> Result<(nat, nat), Error>
        decreases self,
    {
        match self {
            Outline::Linear { inputs, outputs, batch } => if cols == inputs {
                Ok((rows, outputs))
            } else {
                Err(Error::ShapeMismatch)
            },
            Outline::ReLU { mask } => Ok((rows, cols)),
            Outline::Sequential(s) => Self::run_out_shape(s, rows, cols),
        }
    }

    /// [`Outline::out_shape`] through a run of layers, first to last.
    pub open spec fn run_out_shape(s: Seq<Outline>, rows: nat, cols: nat) -> Result<(nat, nat), Error>
        decreases s,
    {
        if s.len() == 0 {
            Ok((rows, cols))
        } else {
            match Self::run_out_shape(s.drop_last(), rows, cols) {
                Ok(shape) => s.last().out_shape(shape.0, shape.1),
                Err(e) => Err(e),
            }
        }
    }

    /// The outline after `forward` on an input of `rows` by `cols` that was
    /// accepted: every layer keeps the shape of what it was given.
    pub open spec fn after_forward(self, rows: nat, cols: nat) -> Outline
        decreases self,
    {
        match self {
            Outline::Linear { inputs, outputs, batch } => Outline::Linear { inputs, outputs, batch: Some(rows) },
            Outline::ReLU { mask } => Outline::ReLU { mask: Some((rows, cols)) },
            Outline::Sequential(s) => Outline::Sequential(Self::run_after_forward(s, rows, cols)),
        }
    }

    /// The shape that reaches layer `k` of a run whose input is `rows` by
    /// `cols`.
    pub open spec fn shape_at(s: Seq<Outline>, k: int, rows: nat, cols: nat) -> (nat, nat) {
        Self::run_out_shape(s.take(k), rows, cols).unwrap()
    }

    /// [`Outline::after_forward`] through a run of layers: each for the shape
    /// that reaches it.
    pub open spec fn run_after_forward(s: Seq<Outline>, rows: nat, cols: nat) -> Seq<Outline>
        decreases s,
    {
        Seq::new(
            s.len(),
            |k: int|
                if 0 <= k < s.len() {
                    s[k].after_forward(Self::shape_at(s, k, rows, cols).0, Self::shape_at(s, k, rows, cols).1)
                } else {
                    Outline::ReLU { mask: None }
                },
        )
    }

    /// The shape that `backward` returns for a gradient of `rows` by `cols`,
    /// or the error with which it refuses the call: nothing kept, or a
    /// gradient that is not shaped like what `forward` returned.
    pub open spec fn grad_shape(self, rows: nat, cols: nat) -> Result<(nat, nat), Error>
        decreases self,
    {
        match self {
            Outline::Linear { inputs, outputs, batch } => match batch {
                None => Err(Error::MissingCache),
                Some(n) => if rows == n && cols == outputs {
                    Ok((n, inputs))
                } else {
                    Err(Error::ShapeMismatch)
                },
            },
            Outline::ReLU { mask } => match mask {
                None => Err(Error::MissingCache),
                Some(shape) => if rows == shape.0 && cols == shape.1 {
                    Ok(shape)
                } else {
                    Err(Error::ShapeMismatch)
                },
            },
            Outline::Sequential(s) => Self::run_grad_shape(s, rows, cols),
        }
    }

    /// [`Outline::grad_shape`] through a run of layers, last to first.
    pub open spec fn run_grad_shape(s: Seq<Outline>, rows: nat, cols: nat) -> Result<(nat, nat), Error>
        decreases s,
    {
        if s.len() == 0 {
            Ok((rows, cols))
        } else {
            match s.last().grad_shape(rows, cols) {
                Ok(shape) => Self::run_grad_shape(s.drop_last(), shape.0, shape.1),
                Err(e) => Err(e),
            }
        }
    }

    /// Whether what every linear layer returns for an input of `rows` rows has
    /// a number of cells that a machine word can hold.
    pub open spec fn fits(self, rows: nat) -> bool
        decreases self,
    {
        match self {
            Outline::Linear { inputs, outputs, batch } => rows * outputs <= usize::MAX,
            Outline::ReLU { mask } => true,
            Outline::Sequential(s) => Self::run_fits(s, rows),
        }
    }

    /// [`Outline::fits`] of every layer of a run.
    pub open spec fn run_fits(s: Seq<Outline>, rows: nat) -> bool
        decreases s,
    {
        forall|k: int| 0 <= k < s.len() ==> (#[trigger] s[k]).fits(rows)
    }
}

/// A forward pass leaves every layer ready for the matching backward pass: a
/// gradient shaped like what `forward` returned is accepted, and what comes
/// back is shaped like the input.
pub proof fn lemma_backward_follows_forward(o: Outline, rows: nat, cols: nat)
    requires
        o.out_shape(rows, cols) is Ok,
    ensures
        ({
            let out = o.out_shape(rows, cols).unwrap();
            o.after_forward(rows, cols).grad_shape(out.0, out.1) == Ok::<(nat, nat), Error>((rows, cols))
        }),
    decreases o,
{
    match o {
        Outline::Sequential(s) => lemma_run_backward_follows_forward(s, rows, cols),
        _ => {},
    }
}

/// [`lemma_backward_follows_forward`] for a run of layers.
pub proof fn lemma_run_backward_follows_forward(s: Seq<Outline>, rows: nat, cols: nat)
    requires
        Outline::run_out_shape(s, rows, cols) is Ok,
    ensures
        ({
            let out = Outline::run_out_shape(s, rows, cols).unwrap();
            Outline::run_grad_shape(Outline::run_after_forward(s, rows, cols), out.0, out.1) == Ok::<
                (nat, nat),
                Error,
            >((rows, cols))
        }),
    decreases s,
{
    if s.len() > 0 {
        let after = Outline::run_after_forward(s, rows, cols);
        let head = s.drop_last();
        let mid = Outline::run_out_shape(head, rows, cols).unwrap();
        assert(s.take(s.len() - 1) =~= head);
        lemma_backward_follows_forward(s.last(), mid.0, mid.1);
        lemma_run_backward_follows_forward(head, rows, cols);
        assert forall|k: int| 0 <= k < head.len() implies s.take(k) == head.take(k) by {
            assert(s.take(k) =~= head.take(k));
        }
        assert(after.drop_last() =~= Outline::run_after_forward(head, rows, cols));
    }
}

/// Where a run of layers accepts an input, so does every run of its first
/// layers.
pub proof fn lemma_run_out_shape_prefix(s: Seq<Outline>, k: int, rows: nat, cols: nat)
    requires
        Outline::run_out_shape(s, rows, cols) is Ok,
        0 <= k <= s.len(),
    ensures
        Outline::run_out_shape(s.take(k), rows, cols) is Ok,
    decreases s.len(),
{
    if k == s.len() {
        assert(s.take(k) =~= s);
    } else {
        lemma_run_out_shape_prefix(s.drop_last(), k, rows, cols);
        assert(s.drop_last().take(k) =~= s.take(k));
    }
}

impl<T: Scalar> LayerView<T> {
    pub open spec fn wf(self) -> bool
        decreases self,
    {
        match self {
            LayerView::Linear(l) => l.wf(),
            LayerView::ReLU(r) => r.wf(),
            LayerView::Sequential(s) => Self::run_wf(s),
        }
    }

    pub open spec fn run_wf(s: Seq<LayerView<T>>) -> bool
        decreases s,
    {
        forall|k: int| 0 <= k < s.len() ==> (#[trigger] s[k]).wf()
    }

    /// The shapes in the layer.
    pub open spec fn outline(self) -> Outline
        decreases self,
    {
        match self {
            LayerView::Linear(l) => Outline::Linear {
                inputs: l.inputs(),
                outputs: l.outputs(),
                batch: match l.input {
                    Some(x) => Some(x.rows),
                    None => None,
                },
            },
            LayerView::ReLU(r) => Outline::ReLU {
                mask: match r.mask {
                    Some(m) => Some((m.rows, m.cols)),
                    None => None,
                },
            },
            LayerView::Sequential(s) => Outline::Sequential(Self::run_outline(s)),
        }
    }

    pub open spec fn run_outline(s: Seq<LayerView<T>>) -> Seq<Outline>
        decreases s,
    {
        Seq::new(
            s.len(),
            |k: int|
                if 0 <= k < s.len() {
                    s[k].outline()
                } else {
                    Outline::ReLU { mask: None }
                },
        )
    }

    /// The parameters, in the order in which `forward` meets them.
    pub open spec fn params(self) -> Seq<ParameterView<T>>
        decreases self,
    {
        match self {
            LayerView::Linear(l) => l.params(),
            LayerView::ReLU(r) => Seq::empty(),
            LayerView::Sequential(s) => Self::run_params(s),
        }
    }

    pub open spec fn run_params(s: Seq<LayerView<T>>) -> Seq<ParameterView<T>>
        decreases s,
    {
        if s.len() == 0 {
            Seq::empty()
        } else {
            Self::run_params(s.drop_last()) + s.last().params()
        }
    }

    /// The layer with its parameters replaced by `ps`, in the order of
    /// [`LayerView::params`].
    pub open spec fn with_params(self, ps: Seq<ParameterView<T>>) -> LayerView<T>
        decreases self,
    {
        match self {
            LayerView::Linear(l) => LayerView::Linear(l.with_params(ps)),
            LayerView::ReLU(r) => self,
            LayerView::Sequential(s) => LayerView::Sequential(Self::run_with_params(s, ps)),
        }
    }

    pub open spec fn run_with_params(s: Seq<LayerView<T>>, ps: Seq<ParameterView<T>>) -> Seq<LayerView<T>>
        decreases s,
    {
        if s.len() == 0 {
            Seq::empty()
        } else {
            let n = Self::run_params(s.drop_last()).len() as int;
            Self::run_with_params(s.drop_last(), ps.take(n)).push(s.last().with_params(ps.skip(n)))
        }
    }

    /// The layer after `forward` on `input`, and what `forward` returns.
    pub open spec fn forward(self, input: Grid<T>) -> Pass<T>
        decreases self,
    {
        match self {
            LayerView::Linear(l) => Pass { layer: LayerView::Linear(l.with_input(input)), out: l.output(input) },
            LayerView::ReLU(r) => Pass {
                layer: LayerView::ReLU(ReLUView { mask: Some(ReLUView::mask_of(input)) }),
                out: ReLUView::<T>::output(input),
            },
            LayerView::Sequential(s) => {
                let p = Self::run_forward(s, input);
                Pass { layer: LayerView::Sequential(p.layers), out: p.out }
            },
        }
    }

    /// `forward` through a run of layers, each fed what the one before it
    /// returned.
    pub open spec fn run_forward(s: Seq<LayerView<T>>, input: Grid<T>) -> Passes<T>
        decreases s,
    {
        if s.len() == 0 {
            Passes { layers: Seq::empty(), out: input }
        } else {
            let before = Self::run_forward(s.drop_last(), input);
            let last = s.last().forward(before.out);
            Passes { layers: before.layers.push(last.layer), out: last.out }
        }
    }

    /// The layer after `backward` on `partial`, and what `backward` returns.
    pub open spec fn backward(self, partial: Grid<T>) -> Pass<T>
        decreases self,
    {
        match self {
            LayerView::Linear(l) => Pass {
                layer: LayerView::Linear(l.accumulated(partial)),
                out: l.input_grad(partial),
            },
            LayerView::ReLU(r) => Pass { layer: self, out: r.input_grad(partial) },
            LayerView::Sequential(s) => {
                let p = Self::run_backward(s, partial);
                Pass { layer: LayerView::Sequential(p.layers), out: p.out }
            },
        }
    }

    /// `backward` through a run of layers in reverse, each fed what the one
    /// after it returned.
    pub open spec fn run_backward(s: Seq<LayerView<T>>, partial: Grid<T>) -> Passes<T>
        decreases s,
    {
        if s.len() == 0 {
            Passes { layers: Seq::empty(), out: partial }
        } else {
            let last = s.last().backward(partial);
            let before = Self::run_backward(s.drop_last(), last.out);
            Passes { layers: before.layers.push(last.layer), out: before.out }
        }
    }
}

/// `ps` are the parameters `qs` with the same values and with gradients of the
/// same shapes.
pub open spec fn values_kept<T>(qs: Seq<ParameterView<T>>, ps: Seq<ParameterView<T>>) -> bool {
    &&& ps.len() == qs.len()
    &&& forall|i: int|
        0 <= i < ps.len() ==> (#[trigger] ps[i]).data == qs[i].data && ps[i].grad.same_shape(qs[i].grad)
}

/// Runs of layers that keep their values layer by layer keep them as a whole.
pub proof fn lemma_run_values_kept<T: Scalar>(a: Seq<LayerView<T>>, b: Seq<LayerView<T>>)
    requires
        a.len() == b.len(),
        forall|k: int| 0 <= k < a.len() ==> values_kept((#[trigger] a[k]).params(), b[k].params()),
    ensures
        values_kept(LayerView::run_params(a), LayerView::run_params(b)),
    decreases a.len(),
{
    if a.len() > 0 {
        lemma_run_values_kept(a.drop_last(), b.drop_last());
        assert(values_kept(a.last().params(), b.last().params()));
        let qs = LayerView::run_params(a);
        let ps = LayerView::run_params(b);
        let n = LayerView::run_params(a.drop_last()).len();
        assert forall|i: int| 0 <= i < ps.len() implies (#[trigger] ps[i]).data == qs[i].data && ps[i].grad.same_shape(
            qs[i].grad,
        ) by {
            if i < n {
                assert(ps[i] == LayerView::run_params(b.drop_last())[i]);
            } else {
                assert(ps[i] == b.last().params()[i - n]);
            }
        }
    }
}

/// `ps` can take the place of the parameters `qs`: there are as many, each
/// is well formed, and each has the shape of the one it replaces.
pub open spec fn can_replace<T>(ps: Seq<ParameterView<T>>, qs: Seq<ParameterView<T>>) -> bool {
    &&& ps.len() == qs.len()
    &&& forall|i: int| 0 <= i < ps.len() ==> (#[trigger] ps[i]).wf() && ps[i].data.same_shape(qs[i].data)
}

/// A layer whose parameters were changed in place, with their shapes kept, is
/// still well formed, has the same outline, and lists the new parameters.
pub proof fn lemma_with_params<T: Scalar>(v: LayerView<T>, ps: Seq<ParameterView<T>>)
    requires
        v.wf(),
        can_replace(ps, v.params()),
    ensures
        v.with_params(ps).wf(),
        v.with_params(ps).outline() == v.outline(),
        v.with_params(ps).params() == ps,
    decreases v,
{
    match v {
        LayerView::Linear(l) => {
            assert(ps[0].wf());
            if l.bias is Some {
                assert(ps[1].wf());
            }
            assert(l.with_params(ps).params() =~= ps);
        },
        LayerView::ReLU(r) => {
            assert(v.params() =~= ps);
        },
        LayerView::Sequential(s) => {
            lemma_run_with_params(s, ps);
            assert(LayerView::run_outline(LayerView::run_with_params(s, ps)) =~= LayerView::run_outline(s));
        },
    }
}

/// [`lemma_with_params`] for a run of layers.
pub proof fn lemma_run_with_params<T: Scalar>(s: Seq<LayerView<T>>, ps: Seq<ParameterView<T>>)
    requires
        LayerView::run_wf(s),
        can_replace(ps, LayerView::run_params(s)),
    ensures
        LayerView::run_with_params(s, ps).len() == s.len(),
        LayerView::run_wf(LayerView::run_with_params(s, ps)),
        forall|k: int|
            0 <= k < s.len() ==> (#[trigger] LayerView::run_with_params(s, ps)[k]).outline() == s[k].outline(),
        LayerView::run_params(LayerView::run_with_params(s, ps)) == ps,
    decreases s,
{
    if s.len() == 0 {
        assert(ps =~= Seq::empty());
    } else {
        let head = s.drop_last();
        let qs = LayerView::run_params(s);
        let n = LayerView::run_params(head).len() as int;
        let front = ps.take(n);
        let back = ps.skip(n);
        assert forall|i: int| 0 <= i < front.len() implies (#[trigger] front[i]).wf() && front[i].data.same_shape(
            LayerView::run_params(head)[i].data,
        ) by {
            assert(ps[i].wf());
            assert(qs[i] == LayerView::run_params(head)[i]);
        }
        assert forall|i: int| 0 <= i < back.len() implies (#[trigger] back[i]).wf() && back[i].data.same_shape(
            s.last().params()[i].data,
        ) by {
            assert(ps[n + i].wf());
            assert(qs[n + i] == s.last().params()[i]);
        }
        assert(s.last().wf());
        assert forall|k: int| 0 <= k < head.len() implies (#[trigger] head[k]).wf() by {
            assert(s[k].wf());
        }
        lemma_run_with_params(head, front);
        lemma_with_params(s.last(), back);
        let done = LayerView::run_with_params(s, ps);
        assert(done.drop_last() =~= LayerView::run_with_params(head, front));
        assert(front + back =~= ps);
    }
}

/// The parameters of a well-formed layer are well formed.
pub proof fn lemma_params_wf<T: Scalar>(v: LayerView<T>)
    requires
        v.wf(),
    ensures
        forall|i: int| 0 <= i < v.params().len() ==> (#[trigger] v.params()[i]).wf(),
    decreases v,
{
    match v {
        LayerView::Sequential(s) => {
            lemma_run_params_wf(s);
            assert(v.params() == LayerView::run_params(s));
        },
        _ => {},
    }
}

/// [`lemma_params_wf`] for a run of layers.
pub proof fn lemma_run_params_wf<T: Scalar>(s: Seq<LayerView<T>>)
    requires
        LayerView::run_wf(s),
    ensures
        forall|i: int|
            0 <= i < LayerView::run_params(s).len() ==> (#[trigger] LayerView::run_params(s)[i]).wf(),
    decreases s,
{
    if s.len() > 0 {
        assert(s.last().wf());
        assert forall|k: int| 0 <= k < s.drop_last().len() implies (#[trigger] s.drop_last()[k]).wf() by {
            assert(s[k].wf());
        }
        lemma_run_params_wf(s.drop_last());
        lemma_params_wf(s.last());
        let head = LayerView::run_params(s.drop_last());
        let tail = s.last().params();
        assert forall|i: int| 0 <= i < (head + tail).len() implies (#[trigger] (head + tail)[i]).wf() by {
            if i < head.len() {
                assert(head[i].wf());
            } else {
                assert(tail[i - head.len()].wf());
            }
        }
    }
}

} // verus!
