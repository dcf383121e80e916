//! The tensor itself: storage, construction and access to single cells.

use crate::element::is_zero;
use crate::outside::random_value;
use vstd::prelude::*;

pub mod arith;
pub mod index;
pub mod product;
pub mod reduce;
pub mod shape;

verus! {

/// A rectangular grid of `ROWS` by `COLS` cells of type `T`. The extents are
/// part of the type, so two tensors of different shape never meet in an
/// operation that needs them alike.
#[derive(Clone, Copy, Debug)]
pub struct Tensor<T, const ROWS: usize, const COLS: usize> {
    data: [[T; COLS]; ROWS],
}

/// The two directions along which a tensor can be reduced.
#[derive(Clone, Copy, Debug)]
pub enum Axis {
    /// Collapse the columns: one value for each row.
    Row,
    /// Collapse the rows: one value for each column.
    Col,
}

/// What a reduction along an axis gives: a column of one value per row, or a
/// row of one value per column.
#[derive(Clone, Copy, Debug)]
pub enum AxisRes<T, const ROWS: usize, const COLS: usize> {
    Row(Tensor<T, ROWS, 1>),
    Col(Tensor<T, 1, COLS>),
}

/// How `index_cols` picks one cell from each row.
#[derive(Clone, Copy, Debug)]
pub enum TensorIndex<const ROWS: usize, const COLS: usize> {
    /// The same column in every row.
    Scalar(usize),
    /// In each row the first column at which the mask holds 1.
    Mask(Tensor<usize, ROWS, COLS>),
}

/// Why `index_cols` could not pick a cell from every row.
#[derive(Clone, Copy, Debug, PartialEq, Eq, Structural)]
pub enum IndexError {
    /// The column asked for is none of the tensor's `cols` columns.
    ScalarOutOfRange { index: usize, cols: usize },
    /// Some row of the mask holds no 1.
    InvalidMask,
}

spec fn array_of<A, const N: usize>(f: spec_fn(int) -> A, n: nat) -> [A; N]
    decreases n,
{
    if n == 0 {
        arbitrary()
    } else {
        vstd::array::spec_array_update(array_of::<A, N>(f, (n - 1) as nat), n - 1, f(n - 1))
    }
}

proof fn lemma_array_of<A, const N: usize>(f: spec_fn(int) -> A, n: nat)
    requires
        n <= N,
    ensures
        forall|k: int| 0 <= k < n ==> (#[trigger] array_of::<A, N>(f, n)[k]) == f(k),
    decreases n,
{
    if n > 0 {
        lemma_array_of::<A, N>(f, (n - 1) as nat);
        vstd::array::axiom_spec_array_update(array_of::<A, N>(f, (n - 1) as nat), n - 1, f(n - 1));
    }
}

impl<T, const ROWS: usize, const COLS: usize> AxisRes<T, ROWS, COLS> {
    /// The result is of the kind that a reduction along `axis` gives.
    pub open spec fn is_along(&self, axis: Axis) -> bool {
        match axis {
            Axis::Row => self is Row,
            Axis::Col => self is Col,
        }
    }

    /// The value that stands for line `l`.
    pub open spec fn value(&self, l: int) -> T {
        match self {
            AxisRes::Row(t) => t.at(l, 0),
            AxisRes::Col(t) => t.at(0, l),
        }
    }

    /// The column of values, one per row, of a reduction along `Axis::Row`.
    pub fn unwrap_row(self) -> (out: Tensor<T, ROWS, 1>)
        requires
            self is Row,
        ensures
            out == self->Row_0,
    {
        match self {
            AxisRes::Row(tensor) => tensor,
            AxisRes::Col(_) => unreached(),
        }
    }

    /// The row of values, one per column, of a reduction along `Axis::Col`.
    pub fn unwrap_col(self) -> (out: Tensor<T, 1, COLS>)
        requires
            self is Col,
        ensures
            out == self->Col_0,
    {
        match self {
            AxisRes::Col(tensor) => tensor,
            AxisRes::Row(_) => unreached(),
        }
    }
}

impl<T, const ROWS: usize, const COLS: usize> View for Tensor<T, ROWS, COLS> {
    type V = Seq<Seq<T>>;

    /// The tensor as a sequence of `ROWS` rows of `COLS` cells each.
    open spec fn view(&self) -> Seq<Seq<T>> {
        Seq::new(ROWS as nat, |i: int| self.row(i))
    }
}

impl<T, const ROWS: usize, const COLS: usize> Tensor<T, ROWS, COLS> {
    /// The cell in row `i` and column `j`.
    pub closed spec fn at(&self, i: int, j: int) -> T {
        self.data[i][j]
    }

    /// Row `i`, from its first column to its last.
    pub open spec fn row(&self, i: int) -> Seq<T> {
        Seq::new(COLS as nat, |j: int| self.at(i, j))
    }

    /// Column `j`, from its first row to its last.
    pub open spec fn col(&self, j: int) -> Seq<T> {
        Seq::new(ROWS as nat, |i: int| self.at(i, j))
    }

    /// The cells of the first `n` rows, row after row.
    pub open spec fn first_rows(&self, n: nat) -> Seq<T>
        decreases n,
    {
        if n == 0 {
            Seq::empty()
        } else {
            self.first_rows((n - 1) as nat) + self.row(n - 1)
        }
    }

    /// All cells in row-major order.
    pub open spec fn cells(&self) -> Seq<T> {
        self.first_rows(ROWS as nat)
    }

    /// The cells that come before cell `(i, j)` in row-major order.
    pub open spec fn cells_before(&self, i: int, j: int) -> Seq<T> {
        self.first_rows(i as nat) + self.row(i).take(j)
    }

    /// How many lines a reduction along `axis` takes one by one: the rows
    /// for `Axis::Row`, the columns for `Axis::Col`.
    pub open spec fn lines(axis: Axis) -> int {
        match axis {
            Axis::Row => ROWS as int,
            Axis::Col => COLS as int,
        }
    }

    /// How many cells each of those lines has.
    pub open spec fn line_len(axis: Axis) -> int {
        match axis {
            Axis::Row => COLS as int,
            Axis::Col => ROWS as int,
        }
    }

    /// Line `l` along `axis`: row `l` for `Axis::Row`, column `l` for
    /// `Axis::Col`.
    pub open spec fn line(&self, axis: Axis, l: int) -> Seq<T> {
        match axis {
            Axis::Row => self.row(l),
            Axis::Col => self.col(l),
        }
    }

    /// Every cell holds `v`.
    pub open spec fn is_filled_with(&self, v: T) -> bool {
        forall|i: int, j: int| 0 <= i < ROWS && 0 <= j < COLS ==> #[trigger] self.at(i, j) == v
    }

    /// The tensor whose cell `(i, j)` is `f(i, j)`.
    pub closed spec fn from_fn(f: spec_fn(int, int) -> T) -> Self {
        Tensor {
            data: array_of::<[T; COLS], ROWS>(
                |i: int| array_of::<T, COLS>(|j: int| f(i, j), COLS as nat),
                ROWS as nat,
            ),
        }
    }

    /// `from_fn(f)` holds `f(i, j)` in each of its cells.
    pub proof fn lemma_from_fn(f: spec_fn(int, int) -> T)
        ensures
            forall|i: int, j: int|
                0 <= i < ROWS && 0 <= j < COLS ==> (#[trigger] Self::from_fn(f).at(i, j)) == f(
                    i,
                    j,
                ),
    {
        assert forall|i: int, j: int| 0 <= i < ROWS && 0 <= j < COLS implies (
        #[trigger] Self::from_fn(f).at(i, j)) == f(i, j) by {
            let rows = |i: int| array_of::<T, COLS>(|j: int| f(i, j), COLS as nat);
            lemma_array_of::<[T; COLS], ROWS>(rows, ROWS as nat);
            lemma_array_of::<T, COLS>(|j: int| f(i, j), COLS as nat);
        }
    }

    /// The first `n` rows are where the first `m` rows start, for `n <= m`.
    pub proof fn lemma_first_rows_prefix(&self, n: nat, m: nat)
        requires
            n <= m,
        ensures
            self.first_rows(n).is_prefix_of(self.first_rows(m)),
            self.first_rows(n).len() <= self.first_rows(m).len(),
        decreases m,
    {
        if n < m {
            self.lemma_first_rows_prefix(n, (m - 1) as nat);
        }
    }

    /// In row-major order cell `(i, j)` comes right after the cells before
    /// it, and what has been passed by then is where `cells()` starts.
    pub proof fn lemma_cells_before_step(&self, i: int, j: int)
        requires
            0 <= i < ROWS,
            0 <= j < COLS,
        ensures
            self.cells_before(i, j + 1) == self.cells_before(i, j).push(self.at(i, j)),
            self.cells_before(i, j + 1).is_prefix_of(self.cells()),
            self.cells_before(i, 0) == self.first_rows(i as nat),
            self.cells_before(i, COLS as int) == self.first_rows((i + 1) as nat),
            self.cells_before(i, j).len() == self.cells_before(i, 0).len() + j,
    {
        let row = self.row(i);
        assert(self.cells_before(i, j + 1) =~= self.cells_before(i, j).push(self.at(i, j)));
        assert(row.take(0) =~= Seq::<T>::empty());
        assert(self.cells_before(i, 0) =~= self.first_rows(i as nat));
        assert(row.take(COLS as int) =~= row);
        assert(self.cells_before(i, COLS as int) =~= self.first_rows((i + 1) as nat));
        self.lemma_first_rows_prefix((i + 1) as nat, ROWS as nat);
        assert(self.cells_before(i, j + 1).is_prefix_of(self.first_rows((i + 1) as nat)));
    }

    /// Two tensors that agree in every cell are the same tensor.
    pub proof fn lemma_ext_equal(self, other: Self)
        requires
            forall|i: int, j: int|
                0 <= i < ROWS && 0 <= j < COLS ==> self.at(i, j) == other.at(i, j),
        ensures
            self == other,
    {
        assert forall|i: int| 0 <= i < ROWS implies self.data[i] == other.data[i] by {
            assert forall|j: int| 0 <= j < COLS implies self.data[i][j] == other.data[i][j] by {
                assert(self.at(i, j) == other.at(i, j));
            }
            assert(self.data[i] =~= other.data[i]);
        }
        assert(self.data =~= other.data);
    }

    /// A tensor with a zero of `T` in every cell.
    pub fn new() -> (out: Self) where T: Default + Copy
        ensures
            exists|z: T| is_zero(z) && out.is_filled_with(z),
    {
        let z = T::default();
        let out = Tensor { data: [[z; COLS]; ROWS] };
        assert(is_zero(z) && out.is_filled_with(z));
        out
    }

    /// A tensor of the given rows.
    pub fn from_data(data: [[T; COLS]; ROWS]) -> (out: Self) where T: Default + Copy
        ensures
            forall|i: int, j: int|
                0 <= i < ROWS && 0 <= j < COLS ==> #[trigger] out.at(i, j) == data[i][j],
    {
        Tensor { data }
    }

    /// A tensor with `val` in every cell.
    pub fn fill(val: T) -> (out: Self) where T: Copy
        ensures
            out.is_filled_with(val),
    {
        Tensor { data: [[val; COLS]; ROWS] }
    }

    /// A tensor with a random value in every cell, each drawn on its own
    /// from the random generator of the calling thread.
    pub fn rand_fill() -> (out: Self) where
        T: Copy,
        rand::distr::StandardUniform: rand::distr::Distribution<T>,
     {
        let first: T = random_value();
        let mut out = Tensor { data: [[first; COLS]; ROWS] };
        for i in 0..ROWS {
            for j in 0..COLS
                invariant
                    i < ROWS,
            {
                let v: T = random_value();
                out.set(i, j, v);
            }
        }
        out
    }

    /// The rows of the tensor, as they were given to `from_data`.
    pub fn into_data(self) -> (out: [[T; COLS]; ROWS])
        ensures
            forall|i: int, j: int|
                0 <= i < ROWS && 0 <= j < COLS ==> #[trigger] out[i][j] == self.at(i, j),
    {
        self.data
    }

    /// Reads the cell in row `i` and column `j`.
    pub fn get(&self, i: usize, j: usize) -> (out: T) where T: Copy
        requires
            i < ROWS,
            j < COLS,
        ensures
            out == self.at(i as int, j as int),
    {
        self.data[i][j]
    }

    /// Borrows the cell in row `i` and column `j`.
    pub fn get_ref(&self, i: usize, j: usize) -> (out: &T)
        requires
            i < ROWS,
            j < COLS,
        ensures
            *out == self.at(i as int, j as int),
    {
        &self.data[i][j]
    }

    /// Writes `v` to the cell in row `i` and column `j` and leaves every
    /// other cell as it is.
    pub fn set(&mut self, i: usize, j: usize, v: T)
        requires
            i < ROWS,
            j < COLS,
        ensures
            forall|a: int, b: int|
                0 <= a < ROWS && 0 <= b < COLS ==> #[trigger] final(self).at(a, b) == if a == i
                    && b == j {
                    v
                } else {
                    old(self).at(a, b)
                },
    {
        self.data[i][j] = v;
    }
}

impl<T, const ROWS: usize> Tensor<T, ROWS, 1> {
    /// The cells of a tensor of one column are that column.
    pub proof fn lemma_single_column_cells(&self)
        ensures
            self.cells() == self.col(0),
    {
        self.lemma_single_column_rows(ROWS as int);
        assert(self.col(0).take(ROWS as int) =~= self.col(0));
    }

    proof fn lemma_single_column_rows(&self, n: int)
        requires
            0 <= n <= ROWS,
        ensures
            self.first_rows(n as nat) == self.col(0).take(n),
        decreases n,
    {
        if n > 0 {
            self.lemma_single_column_rows(n - 1);
            assert(self.first_rows(n as nat) =~= self.col(0).take(n));
        } else {
            assert(self.first_rows(0) =~= self.col(0).take(0));
        }
    }
}

} // verus!
