use nn::error::Error;
use nn::layer::{Layer, Linear, Sequential};
use nn::loss::{Crossentropy, Loss};
use nn::lr_scheduler::{ExponentialDecay, Scheduler};
use nn::matrix::Matrix;
use nn::optimizer::{Adam, Optimizer, SGD};
use nn::parameter::Parameter;
use nn::scalar::Scalar;
use rand::rngs::StdRng;
use rand::{Rng, SeedableRng};

#[derive(Clone, Copy, Debug, PartialEq)]
struct F(f32);

impl Scalar for F {
    fn zero() -> Self {
        F(0.0)
    }
    fn one() -> Self {
        F(1.0)
    }
    fn from_usize(n: usize) -> Self {
        F(n as f32)
    }
    fn add(self, rhs: Self) -> Self {
        F(self.0 + rhs.0)
    }
    fn sub(self, rhs: Self) -> Self {
        F(self.0 - rhs.0)
    }
    fn mul(self, rhs: Self) -> Self {
        F(self.0 * rhs.0)
    }
    fn div(self, rhs: Self) -> Self {
        F(self.0 / rhs.0)
    }
    fn neg(self) -> Self {
        F(-self.0)
    }
    fn exp(self) -> Self {
        F(self.0.exp())
    }
    fn ln(self) -> Self {
        F(self.0.ln())
    }
    fn sqrt(self) -> Self {
        F(self.0.sqrt())
    }
    fn powi(self, n: i32) -> Self {
        F(self.0.powi(n))
    }
    fn gt(self, rhs: Self) -> bool {
        self.0 > rhs.0
    }
    fn ge(self, rhs: Self) -> bool {
        self.0 >= rhs.0
    }
    fn eq(self, rhs: Self) -> bool {
        self.0 == rhs.0
    }
    fn total_ge(self, rhs: Self) -> bool {
        self.0.total_cmp(&rhs.0) != std::cmp::Ordering::Less
    }
    fn uniform(rng: &mut StdRng) -> Self {
        F(rng.gen::<f32>())
    }
}

fn mat(rows: usize, cols: usize, cells: &[f32]) -> Matrix<F> {
    Matrix::from_vec(rows, cols, cells.iter().map(|x| F(*x)).collect()).unwrap()
}

fn cells(m: &Matrix<F>) -> Vec<f32> {
    let mut v = vec![];
    for i in 0..m.rows() {
        for j in 0..m.cols() {
            v.push(m.get(i, j).0);
        }
    }
    v
}

fn close(a: f32, b: f32) -> bool {
    (a - b).abs() <= 1e-5 * (1.0 + a.abs().max(b.abs()))
}


fn param(rows: usize, cols: usize, data: &[f32], grad: &[f32]) -> Parameter<F> {
    let mut p = Parameter::new(mat(rows, cols, data));
    p.grad = mat(rows, cols, grad);
    p
}

#[test]
fn a_new_parameter_has_a_zero_gradient_of_its_shape() {
    let p = Parameter::new(mat(2, 3, &[1.0, 2.0, 3.0, 4.0, 5.0, 6.0]).T());
    assert_eq!((p.grad.rows(), p.grad.cols()), (3, 2));
    assert_eq!(cells(&p.grad), vec![0.0; 6]);
    assert_eq!(cells(&p.data), vec![1.0, 4.0, 2.0, 5.0, 3.0, 6.0]);
}

#[test]
fn zero_grad_clears_whatever_was_accumulated() {
    let mut p = param(1, 4, &[1.0, 2.0, 3.0, 4.0], &[5.0, f32::NAN, f32::INFINITY, -0.5]);
    p.zero_grad();
    assert_eq!(cells(&p.grad), vec![0.0; 4]);
    assert_eq!(cells(&p.data), vec![1.0, 2.0, 3.0, 4.0]);
    p.zero_grad();
    assert_eq!(cells(&p.grad), vec![0.0; 4]);
}

#[test]
fn an_optimizer_zeroes_every_gradient() {
    let mut a = param(1, 2, &[1.0, 2.0], &[3.0, f32::NEG_INFINITY]);
    let mut b = param(2, 1, &[1.0, 2.0], &[f32::NAN, 7.0]);
    let sgd = SGD::new(F(0.1));
    sgd.zero_grad(vec![&mut a, &mut b]);
    assert_eq!(cells(&a.grad), vec![0.0; 2]);
    assert_eq!(cells(&b.grad), vec![0.0; 2]);
    assert_eq!(cells(&a.data), vec![1.0, 2.0]);
    let adam = Adam::new(vec![&mut a], F(0.1), F(0.9), F(0.999), F(1e-8), F(0.0));
    a.grad = mat(1, 2, &[1.0, 1.0]);
    adam.zero_grad(vec![&mut a]);
    assert_eq!(cells(&a.grad), vec![0.0; 2]);
}

#[test]
fn sgd_steps_down_the_gradient() {
    let mut a = param(1, 2, &[1.0, 2.0], &[10.0, -20.0]);
    let mut b = param(2, 1, &[0.0, 0.5], &[1.0, 0.0]);
    let mut sgd = SGD::new(F(0.5));
    assert_eq!(sgd.get_lr(), F(0.5));
    assert_eq!(sgd.step(vec![&mut a, &mut b]), Ok(()));
    assert_eq!(cells(&a.data), vec![-4.0, 12.0]);
    assert_eq!(cells(&b.data), vec![-0.5, 0.5]);
    assert_eq!(cells(&a.grad), vec![10.0, -20.0]);
    sgd.set_lr(F(0.1));
    assert_eq!(sgd.get_lr(), F(0.1));
    sgd.step(vec![&mut b]).unwrap();
    assert_eq!(cells(&b.data), vec![-0.5 - 0.1 * 1.0, 0.5]);
}

struct Moments {
    m1: f32,
    m2: f32,
}

fn adam_by_hand(d: f32, g: f32, m: &mut Moments, t: i32, lr: f32, b1: f32, b2: f32, eps: f32, wd: f32) -> f32 {
    let ge = g + wd * d;
    m.m1 = m.m1 * b1 + (1.0 - b1) * ge;
    m.m2 = m.m2 * b2 + (1.0 - b2) * (ge * ge);
    let m1h = m.m1 / (1.0 - b1.powi(t));
    let m2h = m.m2 / (1.0 - b2.powi(t));
    d - lr * (m1h / (m2h.sqrt() + eps))
}

#[test]
fn adam_follows_its_formula_step_by_step() {
    let (lr, b1, b2, eps, wd) = (0.01f32, 0.9f32, 0.999f32, 1e-8f32, 0.1f32);
    let mut p = param(1, 2, &[1.0, -2.0], &[0.5, -0.25]);
    let mut adam = Adam::new(vec![&mut p], F(lr), F(b1), F(b2), F(eps), F(wd));
    let mut want = [1.0f32, -2.0];
    let mut ms = [Moments { m1: 0.0, m2: 0.0 }, Moments { m1: 0.0, m2: 0.0 }];
    let grads = [[0.5f32, -0.25], [0.3, 0.1], [-0.7, 0.2]];
    for (t, g) in grads.iter().enumerate() {
        p.grad = mat(1, 2, g);
        assert_eq!(adam.step(vec![&mut p]), Ok(()));
        for k in 0..2 {
            want[k] = adam_by_hand(want[k], g[k], &mut ms[k], t as i32 + 1, lr, b1, b2, eps, wd);
        }
        assert_eq!(cells(&p.data), want.to_vec());
        assert_eq!(cells(&p.grad), g.to_vec());
    }
}

#[test]
fn adam_first_step_is_corrected_for_bias() {
    // With the moments corrected, the first step moves every cell by the learning
    // rate in the direction of its gradient, whatever the gradient's size.
    let mut p = param(1, 3, &[1.0, -2.0, 0.5], &[0.5, -0.25, 40.0]);
    let mut adam = Adam::new(vec![&mut p], F(0.1), F(0.9), F(0.999), F(1e-8), F(0.0));
    adam.step(vec![&mut p]).unwrap();
    let got = cells(&p.data);
    assert!(close(got[0], 0.9) && close(got[1], -1.9) && close(got[2], 0.4), "{:?}", got);

    let (b1, b2) = (0.9f32, 0.999f32);
    for g in [0.5f32, -0.25, 40.0] {
        let m1 = 0.0 * b1 + (1.0 - b1) * g;
        let m2 = 0.0 * b2 + (1.0 - b2) * (g * g);
        assert!(close(m1 / (1.0 - b1.powi(1)), g));
        assert!(close(m2 / (1.0 - b2.powi(1)), g * g));
    }
}

#[test]
fn adam_refuses_parameters_it_was_not_made_for() {
    let mut a = param(1, 2, &[1.0, 2.0], &[1.0, 1.0]);
    let mut b = param(2, 1, &[3.0, 4.0], &[1.0, 1.0]);
    let mut adam = Adam::new(vec![&mut a, &mut b], F(0.1), F(0.9), F(0.999), F(1e-8), F(0.0));
    assert_eq!(adam.step(vec![&mut a]), Err(Error::ShapeMismatch));
    assert_eq!(adam.step(vec![&mut b, &mut a]), Err(Error::ShapeMismatch));
    let mut c = param(1, 2, &[0.0, 0.0], &[1.0, 1.0]);
    assert_eq!(adam.step(vec![&mut a, &mut b, &mut c]), Err(Error::ShapeMismatch));
    assert_eq!(cells(&a.data), vec![1.0, 2.0]);
    assert_eq!(cells(&b.data), vec![3.0, 4.0]);
    // The refused steps were not counted: this one is the first.
    adam.step(vec![&mut a, &mut b]).unwrap();
    assert!(close(a.data.get(0, 0).0, 0.9) && close(b.data.get(1, 0).0, 3.9));
    adam.set_lr(F(0.5));
    assert_eq!(adam.get_lr(), F(0.5));
}

#[test]
fn crossentropy_of_even_logits() {
    let mut ce = Crossentropy::new();
    let loss = ce.forward(&mat(1, 3, &[0.0, 0.0, 0.0]), &mat(1, 3, &[1.0, 0.0, 0.0])).unwrap();
    assert!(close(loss.0, (3.0f32).ln()), "{}", loss.0);
    assert!(close(loss.0, 1.0986123));
    let g = cells(&ce.backward(F(1.0)).unwrap());
    assert!(close(g[0], -2.0 / 3.0) && close(g[1], 1.0 / 3.0) && close(g[2], 1.0 / 3.0), "{:?}", g);
    let g = cells(&ce.backward(F(3.0)).unwrap());
    assert!(close(g[0], -2.0) && close(g[1], 1.0) && close(g[2], 1.0), "{:?}", g);
}

#[test]
fn crossentropy_averages_over_the_batch() {
    let mut ce = Crossentropy::new();
    let logits = mat(2, 2, &[0.0, 0.0, 2.0, 0.0]);
    let target = mat(2, 2, &[1.0, 0.0, 0.0, 1.0]);
    let loss = ce.forward(&logits, &target).unwrap();
    let want = ((2.0f32).ln() + (1.0 + (2.0f32).exp()).ln()) / 2.0;
    assert!(close(loss.0, want), "{} against {}", loss.0, want);
    let g = ce.backward(F(1.0)).unwrap();
    assert_eq!((g.rows(), g.cols()), (2, 2));
    let p = (2.0f32).exp() / (1.0 + (2.0f32).exp());
    let got = cells(&g);
    assert!(close(got[0], -0.25) && close(got[1], 0.25));
    assert!(close(got[2], p / 2.0) && close(got[3], -p / 2.0), "{:?}", got);
}

#[test]
fn crossentropy_stays_finite_for_large_logits() {
    let mut ce = Crossentropy::new();
    let loss = ce.forward(&mat(1, 2, &[1000.0, 0.0]), &mat(1, 2, &[0.0, 1.0])).unwrap();
    assert!(close(loss.0, 1000.0), "{}", loss.0);
    let g = cells(&ce.backward(F(1.0)).unwrap());
    assert!(close(g[0], 1.0) && close(g[1], -1.0), "{:?}", g);
}

#[test]
fn crossentropy_refusals() {
    let mut ce: Crossentropy<F> = Crossentropy::new();
    assert!(matches!(ce.backward(F(1.0)), Err(Error::MissingCache)));
    let r = ce.forward(&mat(1, 3, &[0.0; 3]), &mat(3, 1, &[0.0; 3]));
    assert_eq!(r, Err(Error::ShapeMismatch));
    assert!(matches!(ce.backward(F(1.0)), Err(Error::MissingCache)));
    ce.forward(&mat(1, 2, &[0.0; 2]), &mat(1, 2, &[1.0, 0.0])).unwrap();
    let r = ce.forward(&mat(1, 3, &[0.0; 3]), &mat(1, 2, &[0.0; 2]));
    assert_eq!(r, Err(Error::ShapeMismatch));
    let g = ce.backward(F(1.0)).unwrap();
    assert_eq!((g.rows(), g.cols()), (1, 2));
}

#[test]
fn exponential_decay_compounds() {
    let mut sgd = SGD::new(F(1.0));
    let mut sch = ExponentialDecay::new(F(0.5), &sgd);
    sch.step(&mut sgd);
    let first = 1.0f32 * (-0.5f32 * 1.0).exp();
    assert_eq!(sgd.get_lr(), F(first));
    sch.step(&mut sgd);
    let second = first * (-0.5f32 * 2.0).exp();
    assert_eq!(sgd.get_lr(), F(second));
    assert!(close(second, (-1.5f32).exp()));
    // A rate set by hand is what the next step decays.
    sgd.set_lr(F(8.0));
    sch.step(&mut sgd);
    assert_eq!(sgd.get_lr(), F(8.0 * (-0.5f32 * 3.0).exp()));
}

#[test]
fn one_training_step_on_blank_images() {
    let mut rng = StdRng::seed_from_u64(1337);
    let mut model = Sequential::new(vec![Layer::Linear(Linear::new(3072, 10, true, &mut rng))]);
    let before: Vec<Vec<f32>> = model.parameters().iter().map(|p| cells(&p.data)).collect();

    let x = Matrix::full(4, 3072, F(0.0));
    let mut t = vec![0.0f32; 40];
    for row in 0..4 {
        t[row * 10 + 3] = 1.0;
    }
    let target = mat(4, 10, &t);

    let mut loss_fn = Crossentropy::new();
    let mut optim = SGD::new(F(0.5));
    let logits = model.forward(&x).unwrap();
    assert_eq!(cells(&logits), vec![0.0; 40]);
    let loss = loss_fn.forward(&logits, &target).unwrap();
    assert!(close(loss.0, (10.0f32).ln()));
    optim.zero_grad(model.parameters());
    model.backward(&loss_fn.backward(F(1.0)).unwrap()).unwrap();
    optim.step(model.parameters()).unwrap();

    let ps = model.parameters();
    // Blank inputs give the weights no gradient: every column stays as it was.
    assert_eq!(cells(&ps[0].grad), vec![0.0; 30720]);
    assert_eq!(cells(&ps[0].data), before[0]);
    // The bias of the class that was the target goes up, the others go down.
    let bias = cells(&ps[1].data);
    for (class, b) in bias.iter().enumerate() {
        if class == 3 {
            assert!(close(*b, 0.5 * 0.9), "{}", b);
        } else {
            assert!(close(*b, -0.5 * 0.1), "{}", b);
        }
    }
    let again = loss_fn.forward(&model.forward(&x).unwrap(), &target).unwrap();
    assert!(again.0 < loss.0);
}

/// An optimizer of the caller's own: every cell moves by the learning rate
/// against the sign of its gradient.
struct SignDescent {
    lr: F,
}

impl Optimizer<F> for SignDescent {
    fn step(&mut self, parameters: Vec<&mut Parameter<F>>) -> Result<(), Error> {
        for p in parameters {
            let lr = self.lr.0;
            let delta = p.grad.apply_unary(|g: &F| F(lr * g.0.signum()));
            p.data = p.data.sub(&delta)?;
        }
        Ok(())
    }

    fn get_lr(&self) -> F {
        self.lr
    }

    fn set_lr(&mut self, lr: F) {
        self.lr = lr;
    }
}

#[test]
fn an_optimizer_of_ones_own_fits_in() {
    let mut p = param(1, 2, &[1.0, 1.0], &[3.0, -0.5]);
    let mut optim = SignDescent { lr: F(0.25) };
    let mut sch = ExponentialDecay::new(F(1.0), &optim);
    optim.step(vec![&mut p]).unwrap();
    assert_eq!(cells(&p.data), vec![0.75, 1.25]);
    optim.zero_grad(vec![&mut p]);
    assert_eq!(cells(&p.grad), vec![0.0, 0.0]);
    sch.step(&mut optim);
    assert_eq!(optim.get_lr(), F(0.25 * (-1.0f32).exp()));
}
