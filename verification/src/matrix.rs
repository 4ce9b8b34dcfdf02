//! Dense two-dimensional matrices.
//!
//! A [`Matrix`] is a flat buffer with a shape and a pair of strides. Transposing
//! swaps shape and strides and leaves the order of the buffer alone; everything
//! that reads a matrix goes through the strides, so a transposed matrix behaves
//! as if its cells had been moved. Contracts speak of the [`Grid`] that a matrix
//! stands for, never of the buffer.

use vstd::prelude::*;
use crate::error::Error;

pub mod ops;
pub mod reduce;

verus! {

/// What a matrix holds: `rows` rows of `cols` cells each.
pub struct Grid<T> {
    pub rows: nat,
    pub cols: nat,
    pub cells: Seq<Seq<T>>,
}

impl<T> Grid<T> {
    /// There are `rows` rows and each has `cols` cells.
    pub open spec fn wf(self) -> bool {
        &&& self.cells.len() == self.rows
        &&& forall|i: int| 0 <= i < self.rows ==> (#[trigger] self.cells[i]).len() == self.cols
    }

    pub open spec fn at(self, i: int, j: int) -> T {
        self.cells[i][j]
    }

    /// The cell that row `i`, column `j` of a larger matrix maps to when an axis
    /// of length one is repeated along that axis.
    pub open spec fn at_broadcast(self, i: int, j: int) -> T {
        self.cells[if self.rows == 1 { 0 } else { i }][if self.cols == 1 { 0 } else { j }]
    }

    pub open spec fn row(self, i: int) -> Seq<T> {
        self.cells[i]
    }

    pub open spec fn col(self, j: int) -> Seq<T> {
        Seq::new(self.rows, |i: int| self.cells[i][j])
    }

    /// The grid of the given shape whose cell at `(i, j)` is `f(i, j)`.
    pub open spec fn build(rows: nat, cols: nat, f: spec_fn(int, int) -> T) -> Grid<T> {
        Grid { rows, cols, cells: Seq::new(rows, |i: int| Seq::new(cols, |j: int| f(i, j))) }
    }

    pub open spec fn constant(rows: nat, cols: nat, value: T) -> Grid<T> {
        Self::build(rows, cols, |i: int, j: int| value)
    }

    /// The grid that a buffer in row-major order stands for.
    pub open spec fn from_flat(rows: nat, cols: nat, flat: Seq<T>) -> Grid<T> {
        Self::build(rows, cols, |i: int, j: int| flat[i * cols + j])
    }

    pub open spec fn transpose(self) -> Grid<T> {
        Self::build(self.cols, self.rows, |i: int, j: int| self.cells[j][i])
    }

    pub open spec fn update(self, i: int, j: int, value: T) -> Grid<T> {
        Grid { rows: self.rows, cols: self.cols, cells: self.cells.update(i, self.cells[i].update(j, value)) }
    }

    pub open spec fn same_shape(self, other: Grid<T>) -> bool {
        self.rows == other.rows && self.cols == other.cols
    }

    /// Whether `(i, j)` names a cell.
    pub open spec fn has(self, i: int, j: int) -> bool {
        0 <= i < self.rows && 0 <= j < self.cols
    }

    /// The grid of the same shape with `f` applied to every cell.
    pub open spec fn map(self, f: spec_fn(T) -> T) -> Grid<T> {
        Self::build(self.rows, self.cols, |i: int, j: int| f(self.cells[i][j]))
    }

    /// The shape that `self` and `other` broadcast to, axis by axis, if they do.
    pub open spec fn broadcast_with(self, other: Grid<T>) -> Option<(nat, nat)> {
        match (broadcast_len(self.rows, other.rows), broadcast_len(self.cols, other.cols)) {
            (Some(r), Some(c)) => Some((r, c)),
            _ => None,
        }
    }

    /// The grid of the broadcast shape whose cell at `(i, j)` is `f` of the
    /// cells that `(i, j)` reads in `self` and in `other`.
    pub open spec fn combine(self, other: Grid<T>, f: spec_fn(T, T) -> T) -> Grid<T>
        recommends
            self.broadcast_with(other) is Some,
    {
        let shape = self.broadcast_with(other).unwrap();
        Self::build(
            shape.0,
            shape.1,
            |i: int, j: int| f(self.at_broadcast(i, j), other.at_broadcast(i, j)),
        )
    }

    /// Whether the shape that `self` and `other` broadcast to, if any, has a
    /// number of cells that a machine word can hold.
    pub open spec fn broadcast_fits(self, other: Grid<T>) -> bool {
        match self.broadcast_with(other) {
            Some(shape) => shape.0 * shape.1 <= usize::MAX,
            None => true,
        }
    }

    /// All cells, row after row.
    pub open spec fn flat(self) -> Seq<T> {
        concat(self.cells)
    }
}

/// The rows one after the other.
pub open spec fn concat<T>(rows: Seq<Seq<T>>) -> Seq<T>
    decreases rows.len(),
{
    if rows.len() == 0 {
        Seq::empty()
    } else {
        concat(rows.drop_last()) + rows.last()
    }
}

/// Two grids of one shape with the same cells are the same grid.
pub proof fn lemma_grid_ext<T>(a: Grid<T>, b: Grid<T>)
    requires
        a.wf(),
        b.wf(),
        a.same_shape(b),
        forall|i: int, j: int| a.has(i, j) ==> a.at(i, j) == b.at(i, j),
    ensures
        a == b,
{
    assert forall|i: int| 0 <= i < a.rows implies #[trigger] a.cells[i] == b.cells[i] by {
        assert forall|j: int| 0 <= j < a.cols implies a.cells[i][j] == b.cells[i][j] by {
            assert(a.has(i, j));
        }
        assert(a.cells[i] =~= b.cells[i]);
    }
    assert(a.cells =~= b.cells);
}

/// Transposing twice gives the grid back.
pub proof fn lemma_transpose_involution<T>(g: Grid<T>)
    requires
        g.wf(),
    ensures
        g.transpose().transpose() == g,
        g.transpose().wf(),
{
    let t = g.transpose().transpose();
    assert(t.cells.len() == g.cells.len());
    assert forall|i: int| 0 <= i < g.rows implies #[trigger] t.cells[i] == g.cells[i] by {
        assert(t.cells[i] =~= g.cells[i]);
    }
    assert(t.cells =~= g.cells);
}

/// The length that two axis lengths broadcast to, if they do: equal lengths stay,
/// and a length of one gives way to the other.
pub open spec fn broadcast_len(a: nat, b: nat) -> Option<nat> {
    if a == 1 || a == b {
        Some(b)
    } else if b == 1 {
        Some(a)
    } else {
        None
    }
}

/// The axis length that lengths `dim1` and `dim2` broadcast to.
pub fn broadcast_shape(dim1: usize, dim2: usize) -> (r: Result<usize, Error>)
    ensures
        match broadcast_len(dim1 as nat, dim2 as nat) {
            Some(n) => r == Ok::<usize, Error>(n as usize),
            None => r == Err::<usize, Error>(Error::ShapeMismatch),
        },
{
    if dim1 == 1 || dim1 == dim2 {
        Ok(dim2)
    } else if dim2 == 1 {
        Ok(dim1)
    } else {
        Err(Error::ShapeMismatch)
    }
}

/// The index along an axis of length `dim` that index `idx` of a broadcast
/// result reads: always the first on an axis of length one.
pub fn broadcast_idx(dim: usize, idx: usize) -> (r: Result<usize, Error>)
    ensures
        dim == 1 ==> r == Ok::<usize, Error>(0),
        dim != 1 && idx < dim ==> r == Ok::<usize, Error>(idx),
        dim != 1 && idx >= dim ==> r == Err::<usize, Error>(Error::BroadcastViolation),
{
    if dim == 1 {
        Ok(0)
    } else if idx < dim {
        Ok(idx)
    } else {
        Err(Error::BroadcastViolation)
    }
}

#[derive(Debug)]
pub struct Matrix<T> {
    data: Vec<T>,
    rows: usize,
    cols: usize,
    row_stride: usize,
    col_stride: usize,
}

/// The cell at `(i, j)` of a row-major buffer with `cols` columns.
spec fn flat_at<T>(flat: Seq<T>, cols: usize, i: usize, j: usize) -> T {
    flat[i * cols + j]
}

proof fn lemma_offset_in_bounds(rows: int, cols: int, i: int, j: int)
    requires
        0 <= i < rows,
        0 <= j < cols,
    ensures
        0 <= i * cols + j < rows * cols,
        0 <= cols * i <= cols * i + j < rows * cols,
        0 <= rows * j <= i + rows * j < rows * cols,
        0 <= i + j * rows < rows * cols,
{
    assert(0 <= i * cols + j < rows * cols) by (nonlinear_arith)
        requires
            0 <= i < rows,
            0 <= j < cols,
    ;
    assert(0 <= i + j * rows < rows * cols) by (nonlinear_arith)
        requires
            0 <= i < rows,
            0 <= j < cols,
    ;
    assert(cols * i == i * cols && rows * j == j * rows) by (nonlinear_arith);
    assert(0 <= cols * i && 0 <= rows * j) by (nonlinear_arith)
        requires
            0 <= i < rows,
            0 <= j < cols,
    ;
}

impl<T> Matrix<T> {
    /// The buffer is as long as the shape says, and the strides are those of a
    /// row-major matrix or of its transpose.
    #[verifier::type_invariant]
    spec fn layout_ok(&self) -> bool {
        &&& self.data@.len() == self.rows * self.cols
        &&& self.rows * self.cols <= usize::MAX
        &&& (self.row_stride == self.cols && self.col_stride == 1) || (self.row_stride == 1
            && self.col_stride == self.rows)
    }
}

impl<T> View for Matrix<T> {
    type V = Grid<T>;

    closed spec fn view(&self) -> Grid<T> {
        Grid::build(
            self.rows as nat,
            self.cols as nat,
            |i: int, j: int| self.data@[self.row_stride * i + self.col_stride * j],
        )
    }
}

/// What a matrix stands for always has the rows and columns that its shape
/// says.
pub broadcast proof fn lemma_view_wf<T>(m: Matrix<T>)
    ensures
        #[trigger] m@.wf(),
{
}

impl<T: Copy> Clone for Matrix<T> {
    /// A copy with the same cells and the same layout.
    fn clone(&self) -> (r: Self)
        ensures
            r@ == self@,
    {
        proof {
            use_type_invariant(self);
        }
        let mut data: Vec<T> = Vec::new();
        let mut k: usize = 0;
        while k < self.data.len()
            invariant
                k <= self.data@.len(),
                data@ == self.data@.subrange(0, k as int),
            decreases self.data@.len() - k,
        {
            data.push(self.data[k]);
            assert(data@ =~= self.data@.subrange(0, k + 1));
            k += 1;
        }
        assert(data@ =~= self.data@);
        Matrix {
            data,
            rows: self.rows,
            cols: self.cols,
            row_stride: self.row_stride,
            col_stride: self.col_stride,
        }
    }
}

impl<T: Copy> Matrix<T> {

    /// The number of cells.
    pub fn size(&self) -> (n: usize)
        ensures
            n == self@.rows * self@.cols,
    {
        proof {
            use_type_invariant(self);
        }
        self.data.len()
    }

    /// The row-major matrix over a buffer of the right length.
    fn from_row_major(rows: usize, cols: usize, data: Vec<T>) -> (r: Self)
        requires
            data@.len() == rows * cols,
        ensures
            r@ == Grid::from_flat(rows as nat, cols as nat, data@),
    {
        assert(data.len() <= usize::MAX);
        let m = Matrix { data, rows, cols, row_stride: cols, col_stride: 1 };
        proof {
            let g = Grid::from_flat(rows as nat, cols as nat, data@);
            assert forall|i: int, j: int| m@.has(i, j) implies m@.at(i, j) == g.at(i, j) by {
                assert(cols * i == i * cols) by (nonlinear_arith);
            }
            lemma_grid_ext(m@, g);
        }
        m
    }

    /// The matrix of the given shape whose cell at `(i, j)` is `f(i, j)`, the
    /// cells computed row after row.
    pub(crate) fn tabulate<F: Fn(usize, usize) -> T>(rows: usize, cols: usize, f: F) -> (r: Self)
        requires
            rows * cols <= usize::MAX,
            forall|i: usize, j: usize| i < rows && j < cols ==> f.requires((i, j)),
        ensures
            r@.rows == rows,
            r@.cols == cols,
            forall|i: usize, j: usize| i < rows && j < cols ==> f.ensures((i, j), r@.at(i as int, j as int)),
    {
        let mut data: Vec<T> = Vec::new();
        let mut i: usize = 0;
        while i < rows
            invariant
                rows * cols <= usize::MAX,
                forall|i: usize, j: usize| i < rows && j < cols ==> f.requires((i, j)),
                i <= rows,
                data@.len() == i * cols,
                forall|p: usize, q: usize| p < i && q < cols ==> f.ensures((p, q), #[trigger] flat_at(data@, cols, p, q)),
            decreases rows - i,
        {
            let mut j: usize = 0;
            while j < cols
                invariant
                    rows * cols <= usize::MAX,
                    forall|i: usize, j: usize| i < rows && j < cols ==> f.requires((i, j)),
                    i < rows,
                    j <= cols,
                    data@.len() == i * cols + j,
                    forall|p: usize, q: usize| p < i && q < cols ==> f.ensures((p, q), #[trigger] flat_at(data@, cols, p, q)),
                    forall|q: usize| q < j ==> f.ensures((i, q), #[trigger] flat_at(data@, cols, i, q)),
                decreases cols - j,
            {
                let y = f(i, j);
                let ghost before = data@;
                data.push(y);
                proof {
                    assert forall|p: usize, q: usize| p < i && q < cols implies f.ensures((p, q), #[trigger] flat_at(data@, cols, p, q)) by {
                        lemma_offset_in_bounds(i as int, cols as int, p as int, q as int);
                        assert(flat_at(data@, cols, p, q) == flat_at(before, cols, p, q));
                    }
                    assert forall|q: usize| q < j + 1 implies f.ensures((i, q), #[trigger] flat_at(data@, cols, i, q)) by {
                        if q < j {
                            assert(flat_at(data@, cols, i, q) == flat_at(before, cols, i, q));
                        }
                    }
                    lemma_offset_in_bounds(rows as int, cols as int, i as int, j as int);
                }
                j += 1;
            }
            proof {
                assert(i * cols + cols == (i + 1) * cols) by (nonlinear_arith);
            }
            i += 1;
        }
        let m = Self::from_row_major(rows, cols, data);
        proof {
            assert forall|i: usize, j: usize| i < rows && j < cols implies f.ensures((i, j), m@.at(i as int, j as int)) by {
                assert(m@.at(i as int, j as int) == flat_at(data@, cols, i, j));
            }
        }
        m
    }

    /// The matrix of the given shape over `vec`, read in row-major order.
    pub fn from_vec(rows: usize, cols: usize, vec: Vec<T>) -> (r: Result<Self, Error>)
        ensures
            match r {
                Ok(m) => vec@.len() == rows * cols && m@ == Grid::from_flat(
                    rows as nat,
                    cols as nat,
                    vec@,
                ),
                Err(e) => vec@.len() != rows * cols && e == Error::ShapeMismatch,
            },
    {
        let fits = match rows.checked_mul(cols) {
            Some(n) => n == vec.len(),
            None => false,
        };
        assert(vec.len() <= usize::MAX);
        if fits {
            Ok(Self::from_row_major(rows, cols, vec))
        } else {
            Err(Error::ShapeMismatch)
        }
    }

    /// The matrix of the given shape whose every cell is `value`.
    pub fn full(rows: usize, cols: usize, value: T) -> (r: Self)
        requires
            rows * cols <= usize::MAX,
        ensures
            r@ == Grid::constant(rows as nat, cols as nat, value),
    {
        let n: usize = rows * cols;
        let mut data: Vec<T> = Vec::new();
        let mut k: usize = 0;
        while k < n
            invariant
                k <= n,
                data@.len() == k,
                forall|x: int| 0 <= x < k ==> data@[x] == value,
            decreases n - k,
        {
            data.push(value);
            k += 1;
        }
        let m = Matrix { data, rows, cols, row_stride: cols, col_stride: 1 };
        proof {
            let g = Grid::constant(rows as nat, cols as nat, value);
            assert forall|i: int| 0 <= i < rows implies #[trigger] m@.cells[i] == g.cells[i] by {
                assert forall|j: int| 0 <= j < cols implies m@.cells[i][j] == g.cells[i][j] by {
                    lemma_offset_in_bounds(rows as int, cols as int, i, j);
                }
                assert(m@.cells[i] =~= g.cells[i]);
            }
            assert(m@.cells =~= g.cells);
        }
        m
    }

    /// A matrix shaped like `other` whose every cell is `value`.
    pub fn full_like(other: &Self, value: T) -> (r: Self)
        ensures
            r@ == Grid::constant(other@.rows, other@.cols, value),
    {
        proof {
            use_type_invariant(other);
        }
        Self::full(other.rows, other.cols, value)
    }

    pub fn rows(&self) -> (r: usize)
        ensures
            r == self@.rows,
    {
        self.rows
    }

    pub fn cols(&self) -> (r: usize)
        ensures
            r == self@.cols,
    {
        self.cols
    }

    /// Whether the matrix is a single row.
    pub fn is_row(&self) -> (r: bool)
        ensures
            r == (self@.rows == 1),
    {
        self.rows == 1
    }

    /// Whether the matrix is a single column.
    pub fn is_col(&self) -> (r: bool)
        ensures
            r == (self@.cols == 1),
    {
        self.cols == 1
    }

    pub fn get(&self, row: usize, col: usize) -> (r: T)
        requires
            row < self@.rows,
            col < self@.cols,
        ensures
            r == self@.at(row as int, col as int),
    {
        proof {
            use_type_invariant(self);
            lemma_offset_in_bounds(self.rows as int, self.cols as int, row as int, col as int);
        }
        self.data[self.row_stride * row + self.col_stride * col]
    }

    /// The cell that `(row, col)` of a broadcast result reads from this matrix.
    pub fn get_b(&self, row: usize, col: usize) -> (r: Result<T, Error>)
        ensures
            (self@.rows == 1 || row < self@.rows) && (self@.cols == 1 || col < self@.cols) ==> r
                == Ok::<T, Error>(self@.at_broadcast(row as int, col as int)),
            !((self@.rows == 1 || row < self@.rows) && (self@.cols == 1 || col < self@.cols)) ==> r
                == Err::<T, Error>(Error::BroadcastViolation),
    {
        let i = broadcast_idx(self.rows, row)?;
        let j = broadcast_idx(self.cols, col)?;
        Ok(self.get(i, j))
    }

    pub fn set(&mut self, row: usize, col: usize, value: T)
        requires
            row < old(self)@.rows,
            col < old(self)@.cols,
        ensures
            final(self)@ == old(self)@.update(row as int, col as int, value),
    {
        proof {
            use_type_invariant(&*self);
            lemma_offset_in_bounds(self.rows as int, self.cols as int, row as int, col as int);
        }
        let k: usize = self.row_stride * row + self.col_stride * col;
        self.data[k] = value;
        proof {
            let g = old(self)@.update(row as int, col as int, value);
            assert forall|i: int| 0 <= i < self.rows implies #[trigger] self@.cells[i] == g.cells[i] by {
                assert forall|j: int| 0 <= j < self.cols implies self@.cells[i][j] == g.cells[i][j] by {
                    lemma_offset_in_bounds(self.rows as int, self.cols as int, i, j);
                    lemma_offset_injective(self.rows as int, self.cols as int, i, j, row as int, col as int);
                }
                assert(self@.cells[i] =~= g.cells[i]);
            }
            assert(self@.cells =~= g.cells);
        }
    }

    /// The transpose: shape and strides trade places, the buffer keeps its
    /// order.
    #[allow(non_snake_case)]
    pub fn T(&self) -> (r: Self)
        ensures
            r@ == self@.transpose(),
    {
        proof {
            use_type_invariant(self);
        }
        let mut data: Vec<T> = Vec::new();
        let mut k: usize = 0;
        while k < self.data.len()
            invariant
                k <= self.data@.len(),
                data@ == self.data@.subrange(0, k as int),
            decreases self.data@.len() - k,
        {
            data.push(self.data[k]);
            assert(data@ =~= self.data@.subrange(0, k + 1));
            k += 1;
        }
        assert(data@ =~= self.data@);
        assert(self.rows * self.cols == self.cols * self.rows) by (nonlinear_arith);
        let m = Matrix {
            data,
            rows: self.cols,
            cols: self.rows,
            row_stride: self.col_stride,
            col_stride: self.row_stride,
        };
        proof {
            assert(self.rows * self.cols == self.cols * self.rows) by (nonlinear_arith);
            let g = self@.transpose();
            assert forall|i: int| 0 <= i < m.rows implies #[trigger] m@.cells[i] == g.cells[i] by {
                assert(m@.cells[i] =~= g.cells[i]);
            }
            assert(m@.cells =~= g.cells);
        }
        m
    }
}

impl<T: Copy> Matrix<T> {
    /// Row `row` as a matrix of one row.
    pub fn get_row(&self, row: usize) -> (r: Self)
        requires
            row < self@.rows,
        ensures
            r@ == (Grid { rows: 1, cols: self@.cols, cells: seq![self@.row(row as int)] }),
    {
        let cell = |i: usize, j: usize| -> (y: T)
            requires
                j < self.cols,
            ensures
                y == self@.at(row as int, j as int),
        {
            self.get(row, j)
        };
        let m = Self::tabulate(1, self.cols, cell);
        proof {
            lemma_grid_ext(m@, Grid { rows: 1, cols: self@.cols, cells: seq![self@.row(row as int)] });
        }
        m
    }

    /// Column `col` as a matrix of one column.
    pub fn get_col(&self, col: usize) -> (r: Self)
        requires
            col < self@.cols,
        ensures
            r@ == Grid::build(self@.rows, 1, |i: int, j: int| self@.at(i, col as int)),
    {
        let cell = |i: usize, j: usize| -> (y: T)
            requires
                i < self.rows,
            ensures
                y == self@.at(i as int, col as int),
        {
            self.get(i, col)
        };
        let m = Self::tabulate(self.rows, 1, cell);
        proof {
            lemma_grid_ext(m@, Grid::build(self@.rows, 1, |i: int, j: int| self@.at(i, col as int)));
        }
        m
    }

    /// A matrix of the same shape whose every cell is `fn_` of the cell there.
    pub fn apply_unary<F: Fn(&T) -> T>(&self, fn_: F) -> (r: Self)
        requires
            forall|i: int, j: int| self@.has(i, j) ==> fn_.requires((&self@.at(i, j),)),
        ensures
            r@.same_shape(self@),
            forall|i: int, j: int| self@.has(i, j) ==> fn_.ensures((&self@.at(i, j),), r@.at(i, j)),
    {
        proof {
            use_type_invariant(self);
        }
        let ghost gives: spec_fn(T, T) -> bool = |x: T, y: T| fn_.ensures((&x,), y);
        let cell = |i: usize, j: usize| -> (y: T)
            requires
                i < self.rows,
                j < self.cols,
            ensures
                gives(self@.at(i as int, j as int), y),
        {
            assert(self@.has(i as int, j as int));
            let x = self.get(i, j);
            fn_(&x)
        };
        let m = Self::tabulate(self.rows, self.cols, cell);
        proof {
            assert forall|i: int, j: int| self@.has(i, j) implies fn_.ensures((&self@.at(i, j),), m@.at(i, j)) by {
                assert(m@.at(i as usize as int, j as usize as int) == m@.at(i, j));
            }
        }
        m
    }

    /// The matrix of the broadcast shape whose every cell is `fn_` of the cells
    /// that it reads in `self` and in `other`.
    pub fn apply_binary<F: Fn(&T, &T) -> T>(&self, other: &Self, fn_: F) -> (r: Result<Self, Error>)
        requires
            match self@.broadcast_with(other@) {
                Some(shape) => {
                    &&& shape.0 * shape.1 <= usize::MAX
                    &&& forall|i: int, j: int|
                        0 <= i < shape.0 && 0 <= j < shape.1 ==> fn_.requires(
                            (&self@.at_broadcast(i, j), &other@.at_broadcast(i, j)),
                        )
                },
                None => true,
            },
        ensures
            match r {
                Ok(m) => {
                    &&& self@.broadcast_with(other@) == Some((m@.rows, m@.cols))
                    &&& forall|i: int, j: int|
                        m@.has(i, j) ==> fn_.ensures(
                            (&self@.at_broadcast(i, j), &other@.at_broadcast(i, j)),
                            m@.at(i, j),
                        )
                },
                Err(e) => self@.broadcast_with(other@) is None && e == Error::ShapeMismatch,
            },
    {
        let rows = broadcast_shape(self.rows, other.rows)?;
        let cols = broadcast_shape(self.cols, other.cols)?;
        let ghost gives: spec_fn(T, T, T) -> bool = |x: T, o: T, y: T| fn_.ensures((&x, &o), y);
        let cell = |i: usize, j: usize| -> (y: T)
            requires
                i < rows,
                j < cols,
            ensures
                gives(self@.at_broadcast(i as int, j as int), other@.at_broadcast(i as int, j as int), y),
        {
            let s = self.get_b(i, j);
            let o = other.get_b(i, j);
            match (s, o) {
                (Ok(s), Ok(o)) => fn_(&s, &o),
                _ => unreached(),
            }
        };
        let m = Self::tabulate(rows, cols, cell);
        proof {
            assert forall|i: int, j: int| m@.has(i, j) implies fn_.ensures(
                (&self@.at_broadcast(i, j), &other@.at_broadcast(i, j)),
                m@.at(i, j),
            ) by {
                assert(m@.at(i as usize as int, j as usize as int) == m@.at(i, j));
            }
        }
        Ok(m)
    }
}

proof fn lemma_offset_injective(rows: int, cols: int, i: int, j: int, p: int, q: int)
    requires
        0 <= i < rows,
        0 <= j < cols,
        0 <= p < rows,
        0 <= q < cols,
    ensures
        cols * i + j == cols * p + q <==> i == p && j == q,
        i + rows * j == p + rows * q <==> i == p && j == q,
{
    assert(cols * i + j == cols * p + q ==> i == p) by (nonlinear_arith)
        requires
            0 <= j < cols,
            0 <= q < cols,
    ;
    assert(i + rows * j == p + rows * q ==> j == q) by (nonlinear_arith)
        requires
            0 <= i < rows,
            0 <= p < rows,
    ;
}

} // verus!
