//! Elementwise arithmetic: a tensor with a tensor of the same shape, cell by
//! cell, and a tensor with one scalar, which meets every cell.
//!
//! Each operator asks of its operands what the cell type's own operator asks
//! of each pair of cells, and promises what that operator promises. Division
//! is the cell type's division, with nothing added for a zero divisor.

use core::ops::Add;
use core::ops::Div;
use core::ops::Mul;
use core::ops::Sub;
use crate::tensor::Tensor;
use vstd::prelude::*;
use vstd::std_specs::ops::AddSpec;
use vstd::std_specs::ops::DivSpec;
use vstd::std_specs::ops::MulSpec;
use vstd::std_specs::ops::SubSpec;

verus! {

impl<T: Copy, const ROWS: usize, const COLS: usize> Tensor<T, ROWS, COLS> {
    /// Replaces every cell by what `f` makes of it and of the cell of `rhs`
    /// in the same place.
    pub(crate) fn zip_apply<F>(&mut self, rhs: &Self, f: F) where F: Fn(T, T) -> T
        requires
            forall|i: int, j: int|
                0 <= i < ROWS && 0 <= j < COLS ==> call_requires(
                    f,
                    (#[trigger] old(self).at(i, j), rhs.at(i, j)),
                ),
        ensures
            forall|i: int, j: int|
                0 <= i < ROWS && 0 <= j < COLS ==> call_ensures(
                    f,
                    (old(self).at(i, j), rhs.at(i, j)),
                    #[trigger] final(self).at(i, j),
                ),
    {
        for i in 0..ROWS
            invariant
                forall|a: int, b: int|
                    0 <= a < ROWS && 0 <= b < COLS ==> call_requires(
                        f,
                        (#[trigger] old(self).at(a, b), rhs.at(a, b)),
                    ),
                forall|a: int, b: int|
                    0 <= a < i && 0 <= b < COLS ==> call_ensures(
                        f,
                        (old(self).at(a, b), rhs.at(a, b)),
                        #[trigger] self.at(a, b),
                    ),
                forall|a: int, b: int|
                    i <= a < ROWS && 0 <= b < COLS ==> #[trigger] self.at(a, b) == old(self).at(
                        a,
                        b,
                    ),
        {
            for j in 0..COLS
                invariant
                    i < ROWS,
                    forall|a: int, b: int|
                        0 <= a < ROWS && 0 <= b < COLS ==> call_requires(
                            f,
                            (#[trigger] old(self).at(a, b), rhs.at(a, b)),
                        ),
                    forall|a: int, b: int|
                        0 <= a < i && 0 <= b < COLS ==> call_ensures(
                            f,
                            (old(self).at(a, b), rhs.at(a, b)),
                            #[trigger] self.at(a, b),
                        ),
                    forall|a: int, b: int|
                        i < a < ROWS && 0 <= b < COLS ==> #[trigger] self.at(a, b) == old(
                            self,
                        ).at(a, b),
                    forall|b: int|
                        0 <= b < j ==> call_ensures(
                            f,
                            (old(self).at(i as int, b), rhs.at(i as int, b)),
                            #[trigger] self.at(i as int, b),
                        ),
                    forall|b: int|
                        j <= b < COLS ==> #[trigger] self.at(i as int, b) == old(self).at(
                            i as int,
                            b,
                        ),
            {
                assert(self.at(i as int, j as int) == old(self).at(i as int, j as int));
                let y = f(self.get(i, j), rhs.get(i, j));
                self.set(i, j, y);
            }
        }
    }
}

impl<T, const ROWS: usize, const COLS: usize> Tensor<T, ROWS, COLS> where T: Add<Output = T> + Copy {
    /// Every cell of `self` can be added to the cell of `rhs` in its place.
    pub open spec fn can_add(self, rhs: Self) -> bool {
        forall|i: int, j: int|
            0 <= i < ROWS && 0 <= j < COLS ==> (#[trigger] self.at(i, j)).add_req(rhs.at(i, j))
    }

    /// The cellwise sum of two tensors.
    pub open spec fn spec_add(self, rhs: Self) -> Self {
        Self::from_fn(|i: int, j: int| self.at(i, j).add_spec(rhs.at(i, j)))
    }

    /// `scalar` can be added to every cell of `self`.
    pub open spec fn can_add_scalar(self, scalar: T) -> bool {
        forall|i: int, j: int|
            0 <= i < ROWS && 0 <= j < COLS ==> (#[trigger] self.at(i, j)).add_req(scalar)
    }

    /// The tensor with `scalar` added to every cell.
    pub open spec fn spec_add_scalar(self, scalar: T) -> Self {
        Self::from_fn(|i: int, j: int| self.at(i, j).add_spec(scalar))
    }
}

impl<T, const ROWS: usize, const COLS: usize> vstd::std_specs::ops::AddSpecImpl for Tensor<T, ROWS, COLS> where T: Add<Output = T> + Copy {
    open spec fn obeys_add_spec() -> bool {
        T::obeys_add_spec()
    }

    open spec fn add_req(self, rhs: Self) -> bool {
        self.can_add(rhs)
    }

    open spec fn add_spec(self, rhs: Self) -> Self {
        self.spec_add(rhs)
    }
}

impl<T, const ROWS: usize, const COLS: usize> Add for Tensor<T, ROWS, COLS> where T: Add<Output = T> + Copy {
    type Output = Self;

    /// Adds two tensors of one shape cell by cell.
    fn add(self, rhs: Self) -> (out: Self)
        ensures
            T::obeys_add_spec() ==> forall|i: int, j: int|
                0 <= i < ROWS && 0 <= j < COLS ==> #[trigger] out.at(i, j) == self.at(
                    i,
                    j,
                ).add_spec(rhs.at(i, j)),
    {
        let cell_op = |x: T, y: T| -> (r: T)
            requires
                x.add_req(y),
            ensures
                T::obeys_add_spec() ==> r == x.add_spec(y),
            {
                x + y
            };
        let mut result = self;
        result.zip_apply(&rhs, cell_op);
        proof {
            if T::obeys_add_spec() {
                Self::lemma_from_fn(|i: int, j: int| self.at(i, j).add_spec(rhs.at(i, j)));
                result.lemma_ext_equal(self.spec_add(rhs));
            }
        }
        result
    }
}

impl<T, const ROWS: usize, const COLS: usize> vstd::std_specs::ops::AddSpecImpl<T> for Tensor<T, ROWS, COLS> where T: Add<Output = T> + Copy {
    open spec fn obeys_add_spec() -> bool {
        T::obeys_add_spec()
    }

    open spec fn add_req(self, scalar: T) -> bool {
        self.can_add_scalar(scalar)
    }

    open spec fn add_spec(self, scalar: T) -> Self {
        self.spec_add_scalar(scalar)
    }
}

impl<T, const ROWS: usize, const COLS: usize> Add<T> for Tensor<T, ROWS, COLS> where T: Add<Output = T> + Copy {
    type Output = Self;

    /// Adds `scalar` to every cell.
    fn add(self, scalar: T) -> (out: Self)
        ensures
            T::obeys_add_spec() ==> forall|i: int, j: int|
                0 <= i < ROWS && 0 <= j < COLS ==> #[trigger] out.at(i, j) == self.at(
                    i,
                    j,
                ).add_spec(scalar),
    {
        let cell_op = |x: &T| -> (r: T)
            requires
                x.add_req(scalar),
            ensures
                T::obeys_add_spec() ==> r == x.add_spec(scalar),
            {
                *x + scalar
            };
        let mut result = self;
        result.apply(cell_op);
        proof {
            if T::obeys_add_spec() {
                Self::lemma_from_fn(|i: int, j: int| self.at(i, j).add_spec(scalar));
                result.lemma_ext_equal(self.spec_add_scalar(scalar));
            }
        }
        result
    }
}

impl<T, const ROWS: usize, const COLS: usize> Tensor<T, ROWS, COLS> where T: Sub<Output = T> + Copy {
    /// From every cell of `self` the cell of `rhs` in its place can be subtracted.
    pub open spec fn can_sub(self, rhs: Self) -> bool {
        forall|i: int, j: int|
            0 <= i < ROWS && 0 <= j < COLS ==> (#[trigger] self.at(i, j)).sub_req(rhs.at(i, j))
    }

    /// The cellwise difference of two tensors.
    pub open spec fn spec_sub(self, rhs: Self) -> Self {
        Self::from_fn(|i: int, j: int| self.at(i, j).sub_spec(rhs.at(i, j)))
    }

    /// `scalar` can be subtracted from every cell of `self`.
    pub open spec fn can_sub_scalar(self, scalar: T) -> bool {
        forall|i: int, j: int|
            0 <= i < ROWS && 0 <= j < COLS ==> (#[trigger] self.at(i, j)).sub_req(scalar)
    }

    /// The tensor with `scalar` subtracted from every cell.
    pub open spec fn spec_sub_scalar(self, scalar: T) -> Self {
        Self::from_fn(|i: int, j: int| self.at(i, j).sub_spec(scalar))
    }
}

impl<T, const ROWS: usize, const COLS: usize> vstd::std_specs::ops::SubSpecImpl for Tensor<T, ROWS, COLS> where T: Sub<Output = T> + Copy {
    open spec fn obeys_sub_spec() -> bool {
        T::obeys_sub_spec()
    }

    open spec fn sub_req(self, rhs: Self) -> bool {
        self.can_sub(rhs)
    }

    open spec fn sub_spec(self, rhs: Self) -> Self {
        self.spec_sub(rhs)
    }
}

impl<T, const ROWS: usize, const COLS: usize> Sub for Tensor<T, ROWS, COLS> where T: Sub<Output = T> + Copy {
    type Output = Self;

    /// Subtracts `rhs` from `self` cell by cell.
    fn sub(self, rhs: Self) -> (out: Self)
        ensures
            T::obeys_sub_spec() ==> forall|i: int, j: int|
                0 <= i < ROWS && 0 <= j < COLS ==> #[trigger] out.at(i, j) == self.at(
                    i,
                    j,
                ).sub_spec(rhs.at(i, j)),
    {
        let cell_op = |x: T, y: T| -> (r: T)
            requires
                x.sub_req(y),
            ensures
                T::obeys_sub_spec() ==> r == x.sub_spec(y),
            {
                x - y
            };
        let mut result = self;
        result.zip_apply(&rhs, cell_op);
        proof {
            if T::obeys_sub_spec() {
                Self::lemma_from_fn(|i: int, j: int| self.at(i, j).sub_spec(rhs.at(i, j)));
                result.lemma_ext_equal(self.spec_sub(rhs));
            }
        }
        result
    }
}

impl<T, const ROWS: usize, const COLS: usize> vstd::std_specs::ops::SubSpecImpl<T> for Tensor<T, ROWS, COLS> where T: Sub<Output = T> + Copy {
    open spec fn obeys_sub_spec() -> bool {
        T::obeys_sub_spec()
    }

    open spec fn sub_req(self, scalar: T) -> bool {
        self.can_sub_scalar(scalar)
    }

    open spec fn sub_spec(self, scalar: T) -> Self {
        self.spec_sub_scalar(scalar)
    }
}

impl<T, const ROWS: usize, const COLS: usize> Sub<T> for Tensor<T, ROWS, COLS> where T: Sub<Output = T> + Copy {
    type Output = Self;

    /// Subtracts `scalar` from every cell.
    fn sub(self, scalar: T) -> (out: Self)
        ensures
            T::obeys_sub_spec() ==> forall|i: int, j: int|
                0 <= i < ROWS && 0 <= j < COLS ==> #[trigger] out.at(i, j) == self.at(
                    i,
                    j,
                ).sub_spec(scalar),
    {
        let cell_op = |x: &T| -> (r: T)
            requires
                x.sub_req(scalar),
            ensures
                T::obeys_sub_spec() ==> r == x.sub_spec(scalar),
            {
                *x - scalar
            };
        let mut result = self;
        result.apply(cell_op);
        proof {
            if T::obeys_sub_spec() {
                Self::lemma_from_fn(|i: int, j: int| self.at(i, j).sub_spec(scalar));
                result.lemma_ext_equal(self.spec_sub_scalar(scalar));
            }
        }
        result
    }
}

impl<T, const ROWS: usize, const COLS: usize> Tensor<T, ROWS, COLS> where T: Add<Output = T> + Default + Mul<Output = T> + Copy {
    /// Every cell of `self` can be multiplied by `scalar`.
    pub open spec fn can_mul_scalar(self, scalar: T) -> bool {
        forall|i: int, j: int|
            0 <= i < ROWS && 0 <= j < COLS ==> (#[trigger] self.at(i, j)).mul_req(scalar)
    }

    /// The tensor with every cell multiplied by `scalar`.
    pub open spec fn spec_mul_scalar(self, scalar: T) -> Self {
        Self::from_fn(|i: int, j: int| self.at(i, j).mul_spec(scalar))
    }
}

impl<T, const ROWS: usize, const COLS: usize> vstd::std_specs::ops::MulSpecImpl<T> for Tensor<T, ROWS, COLS> where T: Add<Output = T> + Default + Mul<Output = T> + Copy {
    open spec fn obeys_mul_spec() -> bool {
        T::obeys_mul_spec()
    }

    open spec fn mul_req(self, scalar: T) -> bool {
        self.can_mul_scalar(scalar)
    }

    open spec fn mul_spec(self, scalar: T) -> Self {
        self.spec_mul_scalar(scalar)
    }
}

impl<T, const ROWS: usize, const COLS: usize> Mul<T> for Tensor<T, ROWS, COLS> where T: Add<Output = T> + Default + Mul<Output = T> + Copy {
    type Output = Self;

    /// Multiplies every cell by `scalar`.
    fn mul(self, scalar: T) -> (out: Self)
        ensures
            T::obeys_mul_spec() ==> forall|i: int, j: int|
                0 <= i < ROWS && 0 <= j < COLS ==> #[trigger] out.at(i, j) == self.at(
                    i,
                    j,
                ).mul_spec(scalar),
    {
        let cell_op = |x: &T| -> (r: T)
            requires
                x.mul_req(scalar),
            ensures
                T::obeys_mul_spec() ==> r == x.mul_spec(scalar),
            {
                *x * scalar
            };
        let mut result = self;
        result.apply(cell_op);
        proof {
            if T::obeys_mul_spec() {
                Self::lemma_from_fn(|i: int, j: int| self.at(i, j).mul_spec(scalar));
                result.lemma_ext_equal(self.spec_mul_scalar(scalar));
            }
        }
        result
    }
}

impl<T, const ROWS: usize, const COLS: usize> Tensor<T, ROWS, COLS> where T: Default + Div<Output = T> + Copy {
    /// Every cell of `self` can be divided by the cell of `rhs` in its place.
    pub open spec fn can_div(self, rhs: Self) -> bool {
        forall|i: int, j: int|
            0 <= i < ROWS && 0 <= j < COLS ==> (#[trigger] self.at(i, j)).div_req(rhs.at(i, j))
    }

    /// The cellwise quotient of two tensors.
    pub open spec fn spec_div(self, rhs: Self) -> Self {
        Self::from_fn(|i: int, j: int| self.at(i, j).div_spec(rhs.at(i, j)))
    }

    /// Every cell of `self` can be divided by `scalar`.
    pub open spec fn can_div_scalar(self, scalar: T) -> bool {
        forall|i: int, j: int|
            0 <= i < ROWS && 0 <= j < COLS ==> (#[trigger] self.at(i, j)).div_req(scalar)
    }

    /// The tensor with every cell divided by `scalar`.
    pub open spec fn spec_div_scalar(self, scalar: T) -> Self {
        Self::from_fn(|i: int, j: int| self.at(i, j).div_spec(scalar))
    }
}

impl<T, const ROWS: usize, const COLS: usize> vstd::std_specs::ops::DivSpecImpl for Tensor<T, ROWS, COLS> where T: Default + Div<Output = T> + Copy {
    open spec fn obeys_div_spec() -> bool {
        T::obeys_div_spec()
    }

    open spec fn div_req(self, rhs: Self) -> bool {
        self.can_div(rhs)
    }

    open spec fn div_spec(self, rhs: Self) -> Self {
        self.spec_div(rhs)
    }
}

impl<T, const ROWS: usize, const COLS: usize> Div for Tensor<T, ROWS, COLS> where T: Default + Div<Output = T> + Copy {
    type Output = Self;

    /// Divides `self` by `rhs` cell by cell.
    fn div(self, rhs: Self) -> (out: Self)
        ensures
            T::obeys_div_spec() ==> forall|i: int, j: int|
                0 <= i < ROWS && 0 <= j < COLS ==> #[trigger] out.at(i, j) == self.at(
                    i,
                    j,
                ).div_spec(rhs.at(i, j)),
    {
        let cell_op = |x: T, y: T| -> (r: T)
            requires
                x.div_req(y),
            ensures
                T::obeys_div_spec() ==> r == x.div_spec(y),
            {
                x / y
            };
        let mut result = self;
        result.zip_apply(&rhs, cell_op);
        proof {
            if T::obeys_div_spec() {
                Self::lemma_from_fn(|i: int, j: int| self.at(i, j).div_spec(rhs.at(i, j)));
                result.lemma_ext_equal(self.spec_div(rhs));
            }
        }
        result
    }
}

impl<T, const ROWS: usize, const COLS: usize> vstd::std_specs::ops::DivSpecImpl<T> for Tensor<T, ROWS, COLS> where T: Default + Div<Output = T> + Copy {
    open spec fn obeys_div_spec() -> bool {
        T::obeys_div_spec()
    }

    open spec fn div_req(self, scalar: T) -> bool {
        self.can_div_scalar(scalar)
    }

    open spec fn div_spec(self, scalar: T) -> Self {
        self.spec_div_scalar(scalar)
    }
}

impl<T, const ROWS: usize, const COLS: usize> Div<T> for Tensor<T, ROWS, COLS> where T: Default + Div<Output = T> + Copy {
    type Output = Self;

    /// Divides every cell by `scalar`.
    fn div(self, scalar: T) -> (out: Self)
        ensures
            T::obeys_div_spec() ==> forall|i: int, j: int|
                0 <= i < ROWS && 0 <= j < COLS ==> #[trigger] out.at(i, j) == self.at(
                    i,
                    j,
                ).div_spec(scalar),
    {
        let cell_op = |x: &T| -> (r: T)
            requires
                x.div_req(scalar),
            ensures
                T::obeys_div_spec() ==> r == x.div_spec(scalar),
            {
                *x / scalar
            };
        let mut result = self;
        result.apply(cell_op);
        proof {
            if T::obeys_div_spec() {
                Self::lemma_from_fn(|i: int, j: int| self.at(i, j).div_spec(scalar));
                result.lemma_ext_equal(self.spec_div_scalar(scalar));
            }
        }
        result
    }
}

} // verus!
