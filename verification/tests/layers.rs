use nn::error::Error;
use nn::layer::{Layer, Linear, ReLU, Sequential};
use nn::loss::{Crossentropy, Loss};
use nn::matrix::Matrix;
use nn::scalar::Scalar;
use rand::rngs::StdRng;
use rand::{Rng, SeedableRng};

#[derive(Clone, Copy, Debug, PartialEq)]
struct F(f32);

impl Scalar for F {
    fn zero() -> Self {
        F(0.0)
    }
    fn one() -> Self {
        F(1.0)
    }
    fn from_usize(n: usize) -> Self {
        F(n as f32)
    }
    fn add(self, rhs: Self) -> Self {
        F(self.0 + rhs.0)
    }
    fn sub(self, rhs: Self) -> Self {
        F(self.0 - rhs.0)
    }
    fn mul(self, rhs: Self) -> Self {
        F(self.0 * rhs.0)
    }
    fn div(self, rhs: Self) -> Self {
        F(self.0 / rhs.0)
    }
    fn neg(self) -> Self {
        F(-self.0)
    }
    fn exp(self) -> Self {
        F(self.0.exp())
    }
    fn ln(self) -> Self {
        F(self.0.ln())
    }
    fn sqrt(self) -> Self {
        F(self.0.sqrt())
    }
    fn powi(self, n: i32) -> Self {
        F(self.0.powi(n))
    }
    fn gt(self, rhs: Self) -> bool {
        self.0 > rhs.0
    }
    fn ge(self, rhs: Self) -> bool {
        self.0 >= rhs.0
    }
    fn eq(self, rhs: Self) -> bool {
        self.0 == rhs.0
    }
    fn total_ge(self, rhs: Self) -> bool {
        self.0.total_cmp(&rhs.0) != std::cmp::Ordering::Less
    }
    fn uniform(rng: &mut StdRng) -> Self {
        F(rng.gen::<f32>())
    }
}

fn mat(rows: usize, cols: usize, cells: &[f32]) -> Matrix<F> {
    Matrix::from_vec(rows, cols, cells.iter().map(|x| F(*x)).collect()).unwrap()
}

fn cells(m: &Matrix<F>) -> Vec<f32> {
    let mut v = vec![];
    for i in 0..m.rows() {
        for j in 0..m.cols() {
            v.push(m.get(i, j).0);
        }
    }
    v
}


/// A linear layer with the given weight and bias, set through its parameters.
fn linear(inputs: usize, outputs: usize, weight: &[f32], bias: Option<&[f32]>) -> Linear<F> {
    let mut l = Linear::from_samples(&Matrix::full(inputs, outputs, F(0.0)), bias.is_some());
    {
        let mut ps = l.parameters();
        ps[0].data = mat(inputs, outputs, weight);
        if let Some(b) = bias {
            ps[1].data = mat(1, outputs, b);
        }
    }
    l
}

#[test]
fn fresh_weights_are_spread_by_the_samples() {
    let samples = mat(2, 2, &[0.0, 0.5, 1.0, 0.25]);
    let mut l = Linear::from_samples(&samples, true);
    let bound = 1.0 / (2.0f32).sqrt();
    let ps = l.parameters();
    assert_eq!(ps.len(), 2);
    let want: Vec<f32> = [0.0f32, 0.5, 1.0, 0.25].iter().map(|x| bound - (2.0 * bound) * x).collect();
    assert_eq!(cells(&ps[0].data), want);
    assert_eq!(ps[0].data.get(0, 0).0, bound);
    assert_eq!(ps[0].data.get(1, 0).0, -bound);
    assert_eq!(cells(&ps[0].grad), vec![0.0; 4]);
    assert_eq!((ps[1].data.rows(), ps[1].data.cols()), (1, 2));
    assert_eq!(cells(&ps[1].data), vec![0.0; 2]);
    assert_eq!(cells(&ps[1].grad), vec![0.0; 2]);
}

#[test]
fn new_draws_weights_within_the_bound() {
    let mut rng = StdRng::seed_from_u64(1337);
    let mut l: Linear<F> = Linear::new(16, 5, false, &mut rng);
    let ps = l.parameters();
    assert_eq!(ps.len(), 1);
    assert_eq!((ps[0].data.rows(), ps[0].data.cols()), (16, 5));
    let w = cells(&ps[0].data);
    assert!(w.iter().all(|x| x.abs() <= 0.25));
    assert!(w.iter().any(|x| *x != w[0]));
}

#[test]
fn linear_forward_multiplies_and_adds_the_bias() {
    let mut l = linear(2, 2, &[1.0, 2.0, 3.0, 4.0], Some(&[10.0, 20.0]));
    let y = l.forward(&mat(2, 2, &[1.0, 1.0, 2.0, 0.0])).unwrap();
    assert_eq!(cells(&y), vec![14.0, 26.0, 12.0, 24.0]);
    let mut plain = linear(2, 2, &[1.0, 2.0, 3.0, 4.0], None);
    let y = plain.forward(&mat(1, 2, &[1.0, 1.0])).unwrap();
    assert_eq!((y.rows(), y.cols()), (1, 2));
    assert_eq!(cells(&y), vec![4.0, 6.0]);
}

#[test]
fn linear_backward_accumulates_and_returns_the_input_gradient() {
    let mut l = linear(2, 2, &[1.0, 2.0, 3.0, 4.0], Some(&[10.0, 20.0]));
    l.forward(&mat(2, 2, &[1.0, 1.0, 2.0, 0.0])).unwrap();
    let g = mat(2, 2, &[1.0, 0.0, 0.0, 1.0]);
    let dx = l.backward(&g).unwrap();
    assert_eq!(cells(&dx), vec![1.0, 3.0, 2.0, 4.0]);
    {
        let ps = l.parameters();
        assert_eq!(cells(&ps[0].grad), vec![1.0, 2.0, 1.0, 0.0]);
        assert_eq!(cells(&ps[1].grad), vec![1.0, 1.0]);
        assert_eq!(cells(&ps[0].data), vec![1.0, 2.0, 3.0, 4.0]);
    }
    l.backward(&g).unwrap();
    let ps = l.parameters();
    assert_eq!(cells(&ps[0].grad), vec![2.0, 4.0, 2.0, 0.0]);
    assert_eq!(cells(&ps[1].grad), vec![2.0, 2.0]);
}

#[test]
fn linear_refuses_what_does_not_fit_and_stays_as_it_was() {
    let mut l = linear(2, 3, &[0.0; 6], None);
    assert_eq!(l.output_shape(4, 2), Ok((4, 3)));
    assert_eq!(l.output_shape(4, 3), Err(Error::ShapeMismatch));
    assert!(matches!(l.backward(&mat(1, 3, &[0.0; 3])), Err(Error::MissingCache)));
    assert!(matches!(l.forward(&mat(1, 3, &[0.0; 3])), Err(Error::ShapeMismatch)));
    assert_eq!(l.gradient_shape(1, 3), Err(Error::MissingCache));
    l.forward(&mat(4, 2, &[0.0; 8])).unwrap();
    assert_eq!(l.gradient_shape(4, 3), Ok((4, 2)));
    assert!(matches!(l.backward(&mat(4, 2, &[0.0; 8])), Err(Error::ShapeMismatch)));
    assert!(matches!(l.backward(&mat(3, 3, &[0.0; 9])), Err(Error::ShapeMismatch)));
    assert!(matches!(l.backward(&mat(1, 3, &[0.0; 3])), Err(Error::ShapeMismatch)));
    assert!(l.backward(&mat(4, 3, &[0.0; 12])).is_ok());
}

#[test]
fn relu_masks_forward_and_backward() {
    let mut r: ReLU<F> = ReLU::new();
    assert!(matches!(r.backward(&mat(1, 3, &[5.0, 6.0, 7.0])), Err(Error::MissingCache)));
    assert_eq!(r.gradient_shape(1, 3), Err(Error::MissingCache));
    let y = r.forward(&mat(1, 3, &[-1.0, 0.0, 2.0]));
    assert_eq!(cells(&y), vec![0.0, 0.0, 2.0]);
    let dx = r.backward(&mat(1, 3, &[5.0, 6.0, 7.0])).unwrap();
    assert_eq!(cells(&dx), vec![0.0, 6.0, 7.0]);
    assert!(matches!(r.backward(&mat(3, 1, &[5.0, 6.0, 7.0])), Err(Error::ShapeMismatch)));
    assert_eq!(r.gradient_shape(1, 3), Ok((1, 3)));
    assert_eq!(r.parameters().len(), 0);
}

fn small_stack() -> Sequential<F> {
    Sequential::new(vec![
        Layer::Linear(linear(2, 2, &[1.0, -1.0, 2.0, 1.0], Some(&[0.0, -4.0]))),
        Layer::ReLU(ReLU::new()),
        Layer::Linear(linear(2, 1, &[3.0, 5.0], None)),
    ])
}

#[test]
fn sequential_runs_forward_in_order() {
    let mut s = small_stack();
    // [1, 1] -> [3, 0] + [0, -4] = [3, -4] -> [3, 0] -> 9
    let y = s.forward(&mat(1, 2, &[1.0, 1.0])).unwrap();
    assert_eq!((y.rows(), y.cols()), (1, 1));
    assert_eq!(cells(&y), vec![9.0]);
    assert_eq!(s.output_shape(7, 2), Ok((7, 1)));
}

#[test]
fn sequential_runs_backward_in_reverse() {
    let mut s = small_stack();
    s.forward(&mat(1, 2, &[1.0, 1.0])).unwrap();
    let dx = s.backward(&mat(1, 1, &[2.0])).unwrap();
    // 2 -> [6, 10] -> masked [6, 0] -> [6*1 + 0*-1, 6*2 + 0*1] = [6, 12]
    assert_eq!(cells(&dx), vec![6.0, 12.0]);
    let ps = s.parameters();
    assert_eq!(ps.len(), 3);
    assert_eq!(cells(&ps[0].grad), vec![6.0, 0.0, 6.0, 0.0]);
    assert_eq!(cells(&ps[1].grad), vec![6.0, 0.0]);
    assert_eq!(cells(&ps[2].grad), vec![6.0, 0.0]);
}

#[test]
fn parameters_come_in_forward_order() {
    let mut s = Sequential::new(vec![
        Layer::Sequential(Sequential::new(vec![
            Layer::Linear(linear(1, 1, &[1.0], Some(&[2.0]))),
            Layer::ReLU(ReLU::new()),
        ])),
        Layer::Linear(linear(1, 1, &[3.0], None)),
        Layer::Sequential(Sequential::new(vec![])),
        Layer::Linear(linear(1, 1, &[4.0], Some(&[5.0]))),
    ]);
    let ps = s.parameters();
    let firsts: Vec<f32> = ps.iter().map(|p| p.data.get(0, 0).0).collect();
    assert_eq!(firsts, vec![1.0, 2.0, 3.0, 4.0, 5.0]);
}

#[test]
fn parameters_can_be_changed_in_place() {
    let mut s = small_stack();
    {
        let mut ps = s.parameters();
        ps[2].data = mat(2, 1, &[1.0, 1.0]);
    }
    let y = s.forward(&mat(1, 2, &[1.0, 1.0])).unwrap();
    assert_eq!(cells(&y), vec![3.0]);
}

#[test]
fn nested_stacks_behave_like_flat_ones() {
    let mut nested = Layer::Sequential(Sequential::new(vec![
        Layer::Sequential(Sequential::new(vec![
            Layer::Linear(linear(2, 2, &[1.0, -1.0, 2.0, 1.0], Some(&[0.0, -4.0]))),
            Layer::ReLU(ReLU::new()),
        ])),
        Layer::Linear(linear(2, 1, &[3.0, 5.0], None)),
    ]));
    let y = nested.forward(&mat(1, 2, &[1.0, 1.0])).unwrap();
    assert_eq!(cells(&y), vec![9.0]);
    let dx = nested.backward(&mat(1, 1, &[2.0])).unwrap();
    assert_eq!(cells(&dx), vec![6.0, 12.0]);
    assert_eq!(nested.parameters().len(), 3);
    assert_eq!(nested.gradient_shape(1, 1), Ok((1, 2)));
    assert_eq!(nested.output_shape(3, 2), Ok((3, 1)));
}

#[test]
fn a_stack_refuses_before_it_changes_anything() {
    let mut s = Sequential::new(vec![
        Layer::Linear(linear(2, 3, &[0.0; 6], None)),
        Layer::ReLU(ReLU::new()),
        Layer::Linear(linear(2, 1, &[0.0; 2], None)),
    ]);
    assert_eq!(s.output_shape(1, 2), Err(Error::ShapeMismatch));
    assert!(matches!(s.forward(&mat(1, 2, &[1.0, 1.0])), Err(Error::ShapeMismatch)));
    // Nothing was kept: not even by the first layer, which would have taken the input.
    assert_eq!(s.gradient_shape(1, 1), Err(Error::MissingCache));
    assert!(matches!(s.backward(&mat(1, 1, &[1.0])), Err(Error::MissingCache)));

    let mut t = small_stack();
    assert!(matches!(t.backward(&mat(1, 1, &[1.0])), Err(Error::MissingCache)));
    t.forward(&mat(1, 2, &[1.0, 1.0])).unwrap();
    assert!(matches!(t.backward(&mat(1, 2, &[1.0, 1.0])), Err(Error::ShapeMismatch)));
    assert!(matches!(t.backward(&mat(2, 1, &[1.0, 1.0])), Err(Error::ShapeMismatch)));
    let ps = t.parameters();
    assert!(ps.iter().all(|p| cells(&p.grad).iter().all(|g| *g == 0.0)));
}

#[test]
fn an_empty_stack_hands_its_input_through() {
    let mut s: Sequential<F> = Sequential::new(vec![]);
    let y = s.forward(&mat(1, 2, &[1.0, 2.0])).unwrap();
    assert_eq!(cells(&y), vec![1.0, 2.0]);
    let dx = s.backward(&mat(3, 1, &[1.0, 2.0, 3.0])).unwrap();
    assert_eq!(cells(&dx), vec![1.0, 2.0, 3.0]);
    assert_eq!(s.parameters().len(), 0);
}

fn loss_of(weight: &[f32], x: &Matrix<F>, target: &Matrix<F>) -> f32 {
    let mut l = linear(3, 2, weight, Some(&[0.1, -0.2]));
    let mut ce = Crossentropy::new();
    let logits = l.forward(x).unwrap();
    ce.forward(&logits, target).unwrap().0
}

#[test]
fn linear_gradient_matches_finite_differences() {
    let mut rng = StdRng::seed_from_u64(42);
    let weight: Vec<f32> = (0..6).map(|_| rng.gen::<f32>() - 0.5).collect();
    let x = mat(2, 3, &[0.5, -1.0, 2.0, 1.5, 0.25, -0.75]);
    let target = mat(2, 2, &[1.0, 0.0, 0.0, 1.0]);

    let mut l = linear(3, 2, &weight, Some(&[0.1, -0.2]));
    let mut ce = Crossentropy::new();
    let logits = l.forward(&x).unwrap();
    ce.forward(&logits, &target).unwrap();
    l.backward(&ce.backward(F(1.0)).unwrap()).unwrap();
    let analytic = cells(&l.parameters()[0].grad);

    let h = 1e-2f32;
    for k in 0..6 {
        let mut up = weight.clone();
        let mut down = weight.clone();
        up[k] += h;
        down[k] -= h;
        let numeric = (loss_of(&up, &x, &target) - loss_of(&down, &x, &target)) / (2.0 * h);
        assert!(
            (numeric - analytic[k]).abs() <= 2e-3 * (1.0 + analytic[k].abs()),
            "weight {}: numeric {} against analytic {}",
            k,
            numeric,
            analytic[k]
        );
    }
}
