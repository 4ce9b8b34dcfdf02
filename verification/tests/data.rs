use nn::error::Error;
use nn::data::{DataLoader, Dataset, CIFAR10};
use nn::matrix::Matrix;
use nn::metric::accuracy;
use nn::scalar::Scalar;
use rand::rngs::StdRng;
use rand::{Rng, SeedableRng};

#[derive(Clone, Copy, Debug, PartialEq)]
struct F(f32);

impl Scalar for F {
    fn zero() -> Self {
        F(0.0)
    }
    fn one() -> Self {
        F(1.0)
    }
    fn from_usize(n: usize) -> Self {
        F(n as f32)
    }
    fn add(self, rhs: Self) -> Self {
        F(self.0 + rhs.0)
    }
    fn sub(self, rhs: Self) -> Self {
        F(self.0 - rhs.0)
    }
    fn mul(self, rhs: Self) -> Self {
        F(self.0 * rhs.0)
    }
    fn div(self, rhs: Self) -> Self {
        F(self.0 / rhs.0)
    }
    fn neg(self) -> Self {
        F(-self.0)
    }
    fn exp(self) -> Self {
        F(self.0.exp())
    }
    fn ln(self) -> Self {
        F(self.0.ln())
    }
    fn sqrt(self) -> Self {
        F(self.0.sqrt())
    }
    fn powi(self, n: i32) -> Self {
        F(self.0.powi(n))
    }
    fn gt(self, rhs: Self) -> bool {
        self.0 > rhs.0
    }
    fn ge(self, rhs: Self) -> bool {
        self.0 >= rhs.0
    }
    fn eq(self, rhs: Self) -> bool {
        self.0 == rhs.0
    }
    fn total_ge(self, rhs: Self) -> bool {
        self.0.total_cmp(&rhs.0) != std::cmp::Ordering::Less
    }
    fn uniform(rng: &mut StdRng) -> Self {
        F(rng.gen::<f32>())
    }
}

fn mat(rows: usize, cols: usize, cells: &[f32]) -> Matrix<F> {
    Matrix::from_vec(rows, cols, cells.iter().map(|x| F(*x)).collect()).unwrap()
}

fn cells(m: &Matrix<F>) -> Vec<f32> {
    let mut v = vec![];
    for i in 0..m.rows() {
        for j in 0..m.cols() {
            v.push(m.get(i, j).0);
        }
    }
    v
}

fn close(a: f32, b: f32) -> bool {
    (a - b).abs() <= 1e-5 * (1.0 + a.abs().max(b.abs()))
}


fn record(label: u8, pixel: u8) -> Vec<u8> {
    let mut r = vec![label];
    r.extend(std::iter::repeat(pixel).take(3072));
    r
}

#[test]
fn accuracy_counts_rows_whose_maximum_is_on_the_target() {
    let y = mat(4, 3, &[0.1, 0.7, 0.2, 0.9, 0.0, 0.1, 0.3, 0.3, 0.4, 5.0, 1.0, 2.0]);
    let t = mat(4, 3, &[0.0, 1.0, 0.0, 0.0, 0.0, 1.0, 0.0, 0.0, 1.0, 1.0, 0.0, 0.0]);
    assert_eq!(accuracy(&y, &t), F(0.75));
    assert_eq!(accuracy(&t, &t), F(1.0));
}

#[test]
fn accuracy_takes_the_last_of_equal_maxima() {
    let y = mat(2, 3, &[1.0, 1.0, 0.0, 2.0, 2.0, 2.0]);
    let first = mat(2, 3, &[1.0, 0.0, 0.0, 1.0, 0.0, 0.0]);
    let last = mat(2, 3, &[0.0, 1.0, 0.0, 0.0, 0.0, 1.0]);
    assert_eq!(accuracy(&y, &first), F(0.0));
    assert_eq!(accuracy(&y, &last), F(1.0));
}

#[test]
fn records_become_scaled_pixels_and_one_hot_labels() {
    let mut bytes = record(3, 255);
    bytes.extend(record(0, 51));
    bytes.extend(vec![9, 0, 102]);
    let (images, labels): (Vec<Vec<F>>, Vec<Vec<F>>) = CIFAR10::parse_file(&bytes);
    assert_eq!(images.len(), 3);
    assert_eq!(labels.len(), 3);
    assert_eq!(images[0].len(), 3072);
    assert!(images[0].iter().all(|p| p.0 == 1.0));
    assert!(images[1].iter().all(|p| p.0 == 51.0 / 255.0));
    assert_eq!(images[2], vec![F(0.0), F(102.0 / 255.0)]);
    let hot = |k: usize| -> Vec<F> { (0..10).map(|c| F(if c == k { 1.0 } else { 0.0 })).collect() };
    assert_eq!(labels[0], hot(3));
    assert_eq!(labels[1], hot(0));
    assert_eq!(labels[2], hot(9));
    let (images, labels): (Vec<Vec<F>>, Vec<Vec<F>>) = CIFAR10::parse_file(&vec![]);
    assert!(images.is_empty() && labels.is_empty());
}

#[test]
fn a_dataset_holds_the_samples_of_all_files() {
    let files = vec![[record(1, 10), record(2, 20)].concat(), vec![], record(3, 30)];
    let data: CIFAR10<F> = CIFAR10::new(&files);
    assert_eq!(data.len(), 3);
    for k in 0..3 {
        let (x, y) = data.get_sample(k);
        assert_eq!(x[0], F((10.0 * (k + 1) as f32) / 255.0));
        assert_eq!(y.iter().position(|c| c.0 == 1.0), Some(k + 1));
    }
}

struct Rows {
    rows: Vec<(Vec<F>, Vec<F>)>,
}

impl Dataset for Rows {
    type Item = F;
    fn len(&self) -> usize {
        self.rows.len()
    }
    fn get_sample(&self, index: usize) -> (&Vec<F>, &Vec<F>) {
        (&self.rows[index].0, &self.rows[index].1)
    }
}

fn rows(n: usize) -> Rows {
    Rows { rows: (0..n).map(|k| (vec![F(k as f32), F(-(k as f32))], vec![F(10.0 * k as f32)])).collect() }
}

#[test]
fn batches_come_in_order_and_stop_short_of_the_end() {
    let mut loader = DataLoader::new(2, rows(5));
    assert_eq!(loader.batch_size, 2);
    let (x, y) = loader.next().unwrap().unwrap();
    assert_eq!((x.rows(), x.cols(), y.rows(), y.cols()), (2, 2, 2, 1));
    assert_eq!(cells(&x), vec![0.0, 0.0, 1.0, -1.0]);
    assert_eq!(cells(&y), vec![0.0, 10.0]);
    let (x, y) = loader.next().unwrap().unwrap();
    assert_eq!(cells(&x), vec![2.0, -2.0, 3.0, -3.0]);
    assert_eq!(cells(&y), vec![20.0, 30.0]);
    assert!(loader.next().unwrap().is_none());
    assert!(loader.next().unwrap().is_none());

    // A batch that would end exactly at the last sample is not handed out.
    let mut exact = DataLoader::new(2, rows(4));
    assert!(exact.next().unwrap().is_some());
    assert!(exact.next().unwrap().is_none());
    let mut large = DataLoader::new(usize::MAX, rows(4));
    assert!(large.next().unwrap().is_none());
}

#[test]
fn samples_that_do_not_line_up_are_refused() {
    let ragged = Rows {
        rows: vec![
            (vec![F(1.0)], vec![F(0.0)]),
            (vec![F(1.0), F(2.0)], vec![F(0.0)]),
            (vec![F(1.0)], vec![F(0.0)]),
        ],
    };
    let mut loader = DataLoader::new(2, ragged);
    assert!(matches!(loader.next(), Err(Error::ShapeMismatch)));
    assert!(matches!(loader.next(), Err(Error::ShapeMismatch)));
}

#[test]
fn shuffling_keeps_every_sample_once() {
    let mut loader = DataLoader::new(1, rows(9));
    let mut rng = StdRng::seed_from_u64(3);
    loader.shuffle(&mut rng);
    let mut seen = vec![];
    while let Some((x, _)) = loader.next().unwrap() {
        seen.push(x.get(0, 0).0 as usize);
    }
    assert_eq!(seen.len(), 8);
    assert_ne!(seen, (0..8).collect::<Vec<usize>>());
    let mut sorted = seen.clone();
    sorted.sort();
    sorted.dedup();
    assert_eq!(sorted.len(), 8);
    assert!(sorted.iter().all(|k| *k < 9));
}
