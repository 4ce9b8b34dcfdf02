use nn::error::Error;
use nn::matrix::{broadcast_idx, broadcast_shape, Matrix};
use nn::scalar::Scalar;
use rand::rngs::StdRng;
use rand::{Rng, SeedableRng};

#[derive(Clone, Copy, Debug, PartialEq)]
struct F(f32);

impl Scalar for F {
    fn zero() -> Self {
        F(0.0)
    }
    fn one() -> Self {
        F(1.0)
    }
    fn from_usize(n: usize) -> Self {
        F(n as f32)
    }
    fn add(self, rhs: Self) -> Self {
        F(self.0 + rhs.0)
    }
    fn sub(self, rhs: Self) -> Self {
        F(self.0 - rhs.0)
    }
    fn mul(self, rhs: Self) -> Self {
        F(self.0 * rhs.0)
    }
    fn div(self, rhs: Self) -> Self {
        F(self.0 / rhs.0)
    }
    fn neg(self) -> Self {
        F(-self.0)
    }
    fn exp(self) -> Self {
        F(self.0.exp())
    }
    fn ln(self) -> Self {
        F(self.0.ln())
    }
    fn sqrt(self) -> Self {
        F(self.0.sqrt())
    }
    fn powi(self, n: i32) -> Self {
        F(self.0.powi(n))
    }
    fn gt(self, rhs: Self) -> bool {
        self.0 > rhs.0
    }
    fn ge(self, rhs: Self) -> bool {
        self.0 >= rhs.0
    }
    fn eq(self, rhs: Self) -> bool {
        self.0 == rhs.0
    }
    fn total_ge(self, rhs: Self) -> bool {
        self.0.total_cmp(&rhs.0) != std::cmp::Ordering::Less
    }
    fn uniform(rng: &mut StdRng) -> Self {
        F(rng.gen::<f32>())
    }
}

fn mat(rows: usize, cols: usize, cells: &[f32]) -> Matrix<F> {
    Matrix::from_vec(rows, cols, cells.iter().map(|x| F(*x)).collect()).unwrap()
}

fn cells(m: &Matrix<F>) -> Vec<f32> {
    let mut v = vec![];
    for i in 0..m.rows() {
        for j in 0..m.cols() {
            v.push(m.get(i, j).0);
        }
    }
    v
}

#[test]
fn from_vec_reads_row_major() {
    let m = mat(2, 3, &[1.0, 2.0, 3.0, 4.0, 5.0, 6.0]);
    assert_eq!(m.rows(), 2);
    assert_eq!(m.cols(), 3);
    assert_eq!(m.get(0, 0), F(1.0));
    assert_eq!(m.get(0, 2), F(3.0));
    assert_eq!(m.get(1, 0), F(4.0));
    assert_eq!(m.get(1, 2), F(6.0));
}

#[test]
fn from_vec_refuses_wrong_length() {
    let r = Matrix::from_vec(2, 3, vec![F(0.0); 5]);
    assert!(matches!(r, Err(Error::ShapeMismatch)));
    let r = Matrix::from_vec(usize::MAX, 2, vec![F(0.0); 2]);
    assert!(matches!(r, Err(Error::ShapeMismatch)));
}

#[test]
fn broadcast_shape_rules() {
    assert_eq!(broadcast_shape(3, 3), Ok(3));
    assert_eq!(broadcast_shape(1, 4), Ok(4));
    assert_eq!(broadcast_shape(4, 1), Ok(4));
    assert_eq!(broadcast_shape(0, 1), Ok(0));
    assert_eq!(broadcast_shape(2, 3), Err(Error::ShapeMismatch));
}

#[test]
fn broadcast_idx_rules() {
    assert_eq!(broadcast_idx(1, 7), Ok(0));
    assert_eq!(broadcast_idx(4, 3), Ok(3));
    assert_eq!(broadcast_idx(4, 4), Err(Error::BroadcastViolation));
    assert_eq!(broadcast_idx(0, 0), Err(Error::BroadcastViolation));
}

#[test]
fn transpose_reads_through_strides() {
    let m = mat(2, 3, &[1.0, 2.0, 3.0, 4.0, 5.0, 6.0]);
    let t = m.T();
    assert_eq!((t.rows(), t.cols()), (3, 2));
    assert_eq!(cells(&t), vec![1.0, 4.0, 2.0, 5.0, 3.0, 6.0]);
}

#[test]
fn random_has_the_shape_asked_for() {
    let mut rng = StdRng::seed_from_u64(7);
    let m: Matrix<F> = Matrix::random(3, 4, &mut rng);
    assert_eq!((m.rows(), m.cols()), (3, 4));
    for x in cells(&m) {
        assert!((0.0..1.0).contains(&x));
    }
}

fn close(a: f32, b: f32) -> bool {
    (a - b).abs() <= 1e-5 * (1.0 + a.abs().max(b.abs()))
}

#[test]
fn full_and_full_like_fill_every_cell() {
    let m = Matrix::full(2, 3, F(7.5));
    assert_eq!(cells(&m), vec![7.5; 6]);
    let n = Matrix::full_like(&m.T(), F(-1.0));
    assert_eq!((n.rows(), n.cols()), (3, 2));
    assert_eq!(cells(&n), vec![-1.0; 6]);
    let e = Matrix::full(0, 5, F(1.0));
    assert_eq!((e.rows(), e.cols(), e.size()), (0, 5, 0));
}

#[test]
fn row_and_column_vectors_are_told_apart() {
    assert!(mat(1, 3, &[1.0, 2.0, 3.0]).is_row());
    assert!(!mat(1, 3, &[1.0, 2.0, 3.0]).is_col());
    assert!(mat(3, 1, &[1.0, 2.0, 3.0]).is_col());
    assert!(mat(1, 1, &[1.0]).is_row() && mat(1, 1, &[1.0]).is_col());
}

#[test]
fn set_changes_one_cell_also_through_a_transpose() {
    let mut m = mat(2, 2, &[1.0, 2.0, 3.0, 4.0]);
    m.set(0, 1, F(9.0));
    assert_eq!(cells(&m), vec![1.0, 9.0, 3.0, 4.0]);
    let mut t = m.T();
    t.set(0, 1, F(5.0));
    assert_eq!(cells(&t), vec![1.0, 5.0, 9.0, 4.0]);
    assert_eq!(cells(&m), vec![1.0, 9.0, 3.0, 4.0]);
}

#[test]
fn clone_keeps_cells_and_view() {
    let t = mat(2, 3, &[1.0, 2.0, 3.0, 4.0, 5.0, 6.0]).T();
    let c = t.clone();
    assert_eq!((c.rows(), c.cols()), (3, 2));
    assert_eq!(cells(&c), cells(&t));
}

#[test]
fn get_row_and_get_col_cut_out_vectors() {
    let m = mat(2, 3, &[1.0, 2.0, 3.0, 4.0, 5.0, 6.0]);
    let r = m.get_row(1);
    assert_eq!((r.rows(), r.cols()), (1, 3));
    assert_eq!(cells(&r), vec![4.0, 5.0, 6.0]);
    let c = m.get_col(2);
    assert_eq!((c.rows(), c.cols()), (3 - 1, 1));
    assert_eq!(cells(&c), vec![3.0, 6.0]);
}

#[test]
fn get_b_repeats_axes_of_length_one() {
    let row = mat(1, 3, &[1.0, 2.0, 3.0]);
    assert_eq!(row.get_b(5, 2), Ok(F(3.0)));
    assert_eq!(row.get_b(0, 3), Err(Error::BroadcastViolation));
    let col = mat(2, 1, &[1.0, 2.0]);
    assert_eq!(col.get_b(1, 9), Ok(F(2.0)));
    assert_eq!(col.get_b(2, 0), Err(Error::BroadcastViolation));
}

#[test]
fn transpose_twice_gives_the_matrix_back() {
    let m = mat(2, 3, &[1.0, 2.0, 3.0, 4.0, 5.0, 6.0]);
    let tt = m.T().T();
    assert_eq!((tt.rows(), tt.cols()), (2, 3));
    assert_eq!(cells(&tt), cells(&m));
    let e = mat(0, 4, &[]);
    assert_eq!((e.T().rows(), e.T().cols()), (4, 0));
    assert_eq!((e.T().T().rows(), e.T().T().cols()), (0, 4));
}

#[test]
fn apply_unary_maps_every_cell() {
    let m = mat(2, 2, &[1.0, 2.0, 3.0, 4.0]).T();
    let r = m.apply_unary(|x: &F| F(x.0 * 10.0));
    assert_eq!(cells(&r), vec![10.0, 30.0, 20.0, 40.0]);
}

#[test]
fn apply_binary_broadcasts_each_axis() {
    let a = mat(1, 3, &[1.0, 2.0, 3.0]);
    let b = mat(2, 1, &[10.0, 20.0]);
    let r = a.apply_binary(&b, |x: &F, y: &F| F(x.0 - y.0)).unwrap();
    assert_eq!((r.rows(), r.cols()), (2, 3));
    assert_eq!(cells(&r), vec![-9.0, -8.0, -7.0, -19.0, -18.0, -17.0]);
    let c = mat(2, 2, &[0.0; 4]);
    assert!(matches!(a.apply_binary(&c, |x: &F, y: &F| F(x.0 + y.0)), Err(Error::ShapeMismatch)));
}

#[test]
fn adding_a_row_to_a_column_fills_the_rectangle() {
    let a = mat(1, 3, &[1.0, 2.0, 3.0]);
    let b = mat(2, 1, &[10.0, 20.0]);
    let r = a.add(&b).unwrap();
    assert_eq!((r.rows(), r.cols()), (2, 3));
    for i in 0..2 {
        for j in 0..3 {
            assert_eq!(r.get(i, j).0, a.get(0, j).0 + b.get(i, 0).0);
        }
    }
    let s = b.add(&a).unwrap();
    assert_eq!(cells(&s), vec![11.0, 12.0, 13.0, 21.0, 22.0, 23.0]);
}

#[test]
fn arithmetic_between_matrices_is_cell_by_cell() {
    let a = mat(2, 2, &[8.0, 6.0, 4.0, 2.0]);
    let b = mat(2, 2, &[2.0, 3.0, 4.0, 8.0]);
    assert_eq!(cells(&a.add(&b).unwrap()), vec![10.0, 9.0, 8.0, 10.0]);
    assert_eq!(cells(&a.sub(&b).unwrap()), vec![6.0, 3.0, 0.0, -6.0]);
    assert_eq!(cells(&a.mul(&b).unwrap()), vec![16.0, 18.0, 16.0, 16.0]);
    assert_eq!(cells(&a.div(&b).unwrap()), vec![4.0, 2.0, 1.0, 0.25]);
    assert_eq!(cells(&a.sub(&b.T()).unwrap()), vec![6.0, 2.0, 1.0, -6.0]);
}

#[test]
fn shapes_that_do_not_broadcast_are_refused() {
    let a = mat(2, 3, &[0.0; 6]);
    let b = mat(3, 2, &[0.0; 6]);
    assert!(matches!(a.add(&b), Err(Error::ShapeMismatch)));
    assert!(matches!(a.sub(&b), Err(Error::ShapeMismatch)));
    assert!(matches!(a.mul(&b), Err(Error::ShapeMismatch)));
    assert!(matches!(a.div(&b), Err(Error::ShapeMismatch)));
    assert!(a.add(&mat(1, 1, &[1.0])).is_ok());
    assert!(a.add(&mat(2, 1, &[1.0, 2.0])).is_ok());
    assert!(matches!(a.add(&mat(1, 2, &[1.0, 2.0])), Err(Error::ShapeMismatch)));
}

#[test]
fn arithmetic_with_a_number_keeps_the_side_of_the_number() {
    let m = mat(1, 3, &[1.0, 2.0, 4.0]);
    assert_eq!(cells(&m.add_scalar(F(1.0))), vec![2.0, 3.0, 5.0]);
    assert_eq!(cells(&m.sub_scalar(F(1.0))), vec![0.0, 1.0, 3.0]);
    assert_eq!(cells(&m.mul_scalar(F(2.0))), vec![2.0, 4.0, 8.0]);
    assert_eq!(cells(&m.div_scalar(F(2.0))), vec![0.5, 1.0, 2.0]);
    assert_eq!(cells(&Matrix::scalar_add(F(1.0), &m)), vec![2.0, 3.0, 5.0]);
    assert_eq!(cells(&Matrix::scalar_sub(F(1.0), &m)), vec![0.0, -1.0, -3.0]);
    assert_eq!(cells(&Matrix::scalar_mul(F(2.0), &m)), vec![2.0, 4.0, 8.0]);
    assert_eq!(cells(&Matrix::scalar_div(F(2.0), &m)), vec![2.0, 1.0, 0.5]);
    assert_eq!(cells(&m.neg()), vec![-1.0, -2.0, -4.0]);
}

#[test]
fn unary_transforms_apply_to_every_cell() {
    let m = mat(1, 3, &[1.0, 4.0, 9.0]);
    assert_eq!(cells(&m.sqrt()), vec![1.0, 2.0, 3.0]);
    let e = mat(1, 2, &[0.0, 1.0]).exp();
    assert!(close(e.get(0, 0).0, 1.0) && close(e.get(0, 1).0, std::f32::consts::E));
    let l = mat(1, 2, &[1.0, std::f32::consts::E]).ln();
    assert!(close(l.get(0, 0).0, 0.0) && close(l.get(0, 1).0, 1.0));
}

#[test]
fn maximum_is_a_mask_not_a_clamp() {
    let m = mat(2, 2, &[-1.0, 0.0, 0.5, 3.0]);
    assert_eq!(cells(&m.maximum(F(0.0))), vec![0.0, 1.0, 1.0, 1.0]);
    assert_eq!(cells(&m.maximum(F(1.0))), vec![0.0, 0.0, 0.0, 1.0]);
}

#[test]
fn dot_multiplies_a_row_by_a_column() {
    let r = mat(1, 3, &[1.0, 2.0, 3.0]);
    let c = mat(3, 1, &[4.0, 5.0, 6.0]);
    assert_eq!(r.dot(&c), Ok(F(32.0)));
    assert_eq!(r.dot(&mat(2, 1, &[4.0, 5.0])), Ok(F(14.0)));
    assert_eq!(mat(1, 0, &[]).dot(&mat(0, 1, &[])), Ok(F(0.0)));
    assert_eq!(c.dot(&c), Err(Error::ShapeMismatch));
    assert_eq!(r.dot(&r), Err(Error::ShapeMismatch));
}

#[test]
fn matmul_takes_rows_times_columns() {
    let a = mat(2, 3, &[1.0, 2.0, 3.0, 4.0, 5.0, 6.0]);
    let b = mat(3, 2, &[7.0, 8.0, 9.0, 10.0, 11.0, 12.0]);
    let c = a.matmul(&b).unwrap();
    assert_eq!((c.rows(), c.cols()), (2, 2));
    assert_eq!(cells(&c), vec![58.0, 64.0, 139.0, 154.0]);
    assert!(matches!(a.matmul(&a), Err(Error::ShapeMismatch)));
    let z = mat(2, 0, &[]).matmul(&mat(0, 3, &[])).unwrap();
    assert_eq!(cells(&z), vec![0.0; 6]);
}

#[test]
fn matmul_agrees_with_the_transposed_product() {
    let a = mat(2, 3, &[1.5, -2.0, 3.0, 4.0, 0.5, -6.0]);
    let b = mat(3, 4, &[7.0, 8.0, 9.0, 1.0, 10.0, 11.0, 12.0, 2.0, -1.0, 0.25, 3.0, 5.0]);
    let direct = a.matmul(&b).unwrap();
    let around = b.T().matmul(&a.T()).unwrap().T();
    assert_eq!((around.rows(), around.cols()), (2, 4));
    assert_eq!(cells(&direct), cells(&around));
}

#[test]
fn sums_collapse_all_cells_or_one_axis() {
    let m = mat(2, 3, &[1.0, 2.0, 3.0, 4.0, 5.0, 6.0]);
    assert_eq!(m.sum(), F(21.0));
    assert_eq!(m.T().sum(), F(21.0));
    let rs = m.row_sum();
    assert_eq!((rs.rows(), rs.cols()), (1, 3));
    assert_eq!(cells(&rs), vec![5.0, 7.0, 9.0]);
    let cs = m.col_sum();
    assert_eq!((cs.rows(), cs.cols()), (2, 1));
    assert_eq!(cells(&cs), vec![6.0, 15.0]);
    assert_eq!(mat(0, 2, &[]).sum(), F(0.0));
    assert_eq!(cells(&mat(0, 2, &[]).row_sum()), vec![0.0, 0.0]);
}

#[test]
fn sum_goes_through_the_cells_row_after_row() {
    let big = 16777216.0;
    let m = mat(2, 2, &[big, 1.0, -big, 1.0]);
    assert_eq!(m.sum(), F(((big + 1.0) + -big) + 1.0));
    assert_eq!(m.T().sum(), F(((big + -big) + 1.0) + 1.0));
    assert_eq!(m.sum(), F(1.0));
    assert_eq!(m.T().sum(), F(2.0));
}

#[test]
fn maxima_collapse_all_cells_or_one_axis() {
    let m = mat(2, 3, &[1.0, 9.0, 3.0, 4.0, 5.0, 6.0]);
    assert_eq!(m.max(), F(9.0));
    assert_eq!(cells(&m.row_max()), vec![4.0, 9.0, 6.0]);
    assert_eq!(cells(&m.col_max()), vec![9.0, 6.0]);
    assert_eq!(mat(1, 1, &[-2.0]).max(), F(-2.0));
    assert_eq!(mat(2, 2, &[-3.0, -1.0, -2.0, -4.0]).max(), F(-1.0));
}
