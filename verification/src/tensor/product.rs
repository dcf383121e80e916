//! Products that contract an index: the inner product of a row with a
//! column, and the matrix product.

use core::ops::Add;
use core::ops::Mul;
use crate::element::can_sum;
use crate::element::is_sum;
use crate::element::sum_items;
use crate::tensor::Tensor;
use vstd::prelude::*;
use vstd::std_specs::ops::MulSpec;

verus! {

impl<T, const ROWS: usize, const COLS: usize> Tensor<T, ROWS, COLS> where
    T: Add<Output = T> + Default + Mul<Output = T> + Copy,
 {
    /// The products of the cells of row `i` of `self` with the cells of
    /// column `j` of `rhs`, in order.
    pub open spec fn products<const C2: usize>(
        self,
        rhs: Tensor<T, COLS, C2>,
        i: int,
        j: int,
    ) -> Seq<T> {
        Seq::new(COLS as nat, |k: int| self.at(i, k).mul_spec(rhs.at(k, j)))
    }

    /// Row `i` of `self` can be contracted with column `j` of `rhs`: `T`
    /// multiplies as its specification says, each pair of cells can be
    /// multiplied, and the products can be added up.
    pub open spec fn can_contract<const C2: usize>(
        self,
        rhs: Tensor<T, COLS, C2>,
        i: int,
        j: int,
    ) -> bool {
        &&& T::obeys_mul_spec()
        &&& forall|k: int| 0 <= k < COLS ==> (#[trigger] self.at(i, k)).mul_req(rhs.at(k, j))
        &&& can_sum(self.products(rhs, i, j))
    }

    /// Every row of `self` can be contracted with every column of `rhs`.
    pub open spec fn can_multiply<const C2: usize>(self, rhs: Tensor<T, COLS, C2>) -> bool {
        forall|i: int, j: int|
            0 <= i < ROWS && 0 <= j < C2 ==> #[trigger] self.can_contract(rhs, i, j)
    }

    /// Each cell `(i, j)` of `self` is the sum of the products of row `i` of
    /// `lhs` with column `j` of `rhs`.
    pub open spec fn is_product_of<const K: usize>(
        self,
        lhs: Tensor<T, ROWS, K>,
        rhs: Tensor<T, K, COLS>,
    ) -> bool {
        forall|i: int, j: int|
            0 <= i < ROWS && 0 <= j < COLS ==> is_sum(
                #[trigger] self.at(i, j),
                lhs.products(rhs, i, j),
            )
    }

    /// Contracts row `i` of `self` with column `j` of `rhs`.
    fn contract<const C2: usize>(&self, rhs: &Tensor<T, COLS, C2>, i: usize, j: usize) -> (out: T)
        requires
            i < ROWS,
            j < C2,
            self.can_contract(*rhs, i as int, j as int),
        ensures
            is_sum(out, self.products(*rhs, i as int, j as int)),
    {
        let term = |k: usize| -> (p: T)
            requires
                k < COLS,
            ensures
                p == self.at(i as int, k as int).mul_spec(rhs.at(k as int, j as int)),
            {
                self.get(i, k) * rhs.get(k, j)
            };
        sum_items(COLS, term, Ghost(self.products(*rhs, i as int, j as int)))
    }
}

impl<T, const COLS: usize> Tensor<T, 1, COLS> where
    T: Add<Output = T> + Default + Mul<Output = T> + Copy,
 {
    /// The inner product of a row with a column of the same length: the sum
    /// of the products of their cells.
    pub fn dot(self, rhs: Tensor<T, COLS, 1>) -> (out: T)
        requires
            self.can_contract(rhs, 0, 0),
        ensures
            is_sum(out, self.products(rhs, 0, 0)),
    {
        self.contract(&rhs, 0, 0)
    }
}

impl<T, const LH_ROWS: usize, const LH_COLS: usize, const RH_COLS: usize> vstd::std_specs::ops::MulSpecImpl<Tensor<T, LH_COLS, RH_COLS>> for Tensor<T, LH_ROWS, LH_COLS> where T: Add<Output = T> + Default + Mul<Output = T> + Copy {
    /// The product is no function of its operands for a `T` with more than
    /// one zero, so it is stated as a relation: see `is_product_of`.
    open spec fn obeys_mul_spec() -> bool {
        false
    }

    open spec fn mul_req(self, rhs: Tensor<T, LH_COLS, RH_COLS>) -> bool {
        self.can_multiply(rhs)
    }

    open spec fn mul_spec(self, rhs: Tensor<T, LH_COLS, RH_COLS>) -> Tensor<T, LH_ROWS, RH_COLS> {
        arbitrary()
    }
}

impl<T, const LH_ROWS: usize, const LH_COLS: usize, const RH_COLS: usize> Mul<Tensor<T, LH_COLS, RH_COLS>> for Tensor<T, LH_ROWS, LH_COLS> where T: Add<Output = T> + Default + Mul<Output = T> + Copy {
    type Output = Tensor<T, LH_ROWS, RH_COLS>;

    /// The matrix product: cell `(i, j)` is row `i` of `self` contracted with
    /// column `j` of `rhs`. The types see to it that `self` has as many
    /// columns as `rhs` has rows.
    fn mul(self, rhs: Tensor<T, LH_COLS, RH_COLS>) -> (out: Tensor<T, LH_ROWS, RH_COLS>)
        ensures
            out.is_product_of(self, rhs),
    {
        let mut result = Tensor::<T, LH_ROWS, RH_COLS>::new();
        for i in 0..LH_ROWS
            invariant
                self.can_multiply(rhs),
                forall|a: int, b: int|
                    0 <= a < i && 0 <= b < RH_COLS ==> is_sum(
                        #[trigger] result.at(a, b),
                        self.products(rhs, a, b),
                    ),
        {
            for j in 0..RH_COLS
                invariant
                    i < LH_ROWS,
                    self.can_multiply(rhs),
                    forall|a: int, b: int|
                        0 <= a < i && 0 <= b < RH_COLS ==> is_sum(
                            #[trigger] result.at(a, b),
                            self.products(rhs, a, b),
                        ),
                    forall|b: int|
                        0 <= b < j ==> is_sum(
                            #[trigger] result.at(i as int, b),
                            self.products(rhs, i as int, b),
                        ),
            {
                assert(self.can_contract(rhs, i as int, j as int));
                let cell = self.contract(&rhs, i, j);
                result.set(i, j, cell);
            }
        }
        result
    }
}

} // verus!
