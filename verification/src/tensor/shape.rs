//! Operations that move cells or map them one by one: transpose, broadcast
//! and apply.

use crate::tensor::Tensor;
use vstd::prelude::*;

verus! {

/// The extent `from` can be broadcast to the extent `to`: it is `to` itself or 1.
pub open spec fn broadcasts_to(from: usize, to: usize) -> bool {
    from == to || from == 1
}

/// Where a cell at position `k` of a broadcast comes from, along an axis whose
/// source has extent `from`: position 0 if that source is a single line, the
/// same position otherwise.
pub open spec fn broadcast_source(from: usize, k: int) -> int {
    if from == 1 {
        0
    } else {
        k
    }
}

impl<T, const ROWS: usize, const COLS: usize> Tensor<T, ROWS, COLS> {
    /// The tensor with rows and columns swapped.
    pub open spec fn spec_transpose(self) -> Tensor<T, COLS, ROWS> {
        Tensor::<T, COLS, ROWS>::from_fn(|i: int, j: int| self.at(j, i))
    }

    /// The tensor stretched to `R2` by `C2`.
    pub open spec fn spec_broadcast<const R2: usize, const C2: usize>(self) -> Tensor<T, R2, C2> {
        Tensor::<T, R2, C2>::from_fn(
            |i: int, j: int| self.at(broadcast_source(ROWS, i), broadcast_source(COLS, j)),
        )
    }

    /// Swaps rows and columns: cell `(i, j)` of the result is cell `(j, i)`
    /// of `self`.
    pub fn transpose(self) -> (out: Tensor<T, COLS, ROWS>) where T: Default + Copy
        ensures
            out == self.spec_transpose(),
            forall|i: int, j: int|
                0 <= i < COLS && 0 <= j < ROWS ==> #[trigger] out.at(i, j) == self.at(j, i),
    {
        let mut res: Tensor<T, COLS, ROWS> = Tensor::new();
        for i in 0..COLS
            invariant
                forall|a: int, b: int|
                    0 <= a < i && 0 <= b < ROWS ==> #[trigger] res.at(a, b) == self.at(b, a),
        {
            for j in 0..ROWS
                invariant
                    i < COLS,
                    forall|a: int, b: int|
                        0 <= a < i && 0 <= b < ROWS ==> #[trigger] res.at(a, b) == self.at(b, a),
                    forall|b: int| 0 <= b < j ==> #[trigger] res.at(i as int, b) == self.at(b, i as int),
            {
                res.set(i, j, self.get(j, i));
            }
        }
        proof {
            Tensor::<T, COLS, ROWS>::lemma_from_fn(|i: int, j: int| self.at(j, i));
            res.lemma_ext_equal(self.spec_transpose());
        }
        res
    }

    /// Stretches the tensor to `R2` by `C2`: along each axis the source either
    /// has the target's extent already, or has extent 1 and its single line is
    /// repeated.
    pub fn broadcast<const R2: usize, const C2: usize>(&self) -> (out: Tensor<T, R2, C2>) where
        T: Default + Copy,
        requires
            broadcasts_to(ROWS, R2),
            broadcasts_to(COLS, C2),
        ensures
            out == self.spec_broadcast::<R2, C2>(),
            forall|i: int, j: int|
                0 <= i < R2 && 0 <= j < C2 ==> #[trigger] out.at(i, j) == self.at(
                    broadcast_source(ROWS, i),
                    broadcast_source(COLS, j),
                ),
    {
        let mut res: Tensor<T, R2, C2> = Tensor::new();
        for i in 0..R2
            invariant
                broadcasts_to(ROWS, R2),
                broadcasts_to(COLS, C2),
                forall|a: int, b: int|
                    0 <= a < i && 0 <= b < C2 ==> #[trigger] res.at(a, b) == self.at(
                        broadcast_source(ROWS, a),
                        broadcast_source(COLS, b),
                    ),
        {
            for j in 0..C2
                invariant
                    i < R2,
                    broadcasts_to(ROWS, R2),
                    broadcasts_to(COLS, C2),
                    forall|a: int, b: int|
                        0 <= a < i && 0 <= b < C2 ==> #[trigger] res.at(a, b) == self.at(
                            broadcast_source(ROWS, a),
                            broadcast_source(COLS, b),
                        ),
                    forall|b: int|
                        0 <= b < j ==> #[trigger] res.at(i as int, b) == self.at(
                            broadcast_source(ROWS, i as int),
                            broadcast_source(COLS, b),
                        ),
            {
                let src_i = if ROWS == 1 {
                    0
                } else {
                    i
                };
                let src_j = if COLS == 1 {
                    0
                } else {
                    j
                };
                res.set(i, j, self.get(src_i, src_j));
            }
        }
        proof {
            Tensor::<T, R2, C2>::lemma_from_fn(
                |i: int, j: int| self.at(broadcast_source(ROWS, i), broadcast_source(COLS, j)),
            );
            res.lemma_ext_equal(self.spec_broadcast::<R2, C2>());
        }
        res
    }

    /// Replaces every cell by what `func` makes of it.
    pub fn apply<F>(&mut self, func: F) where F: Fn(&T) -> T
        requires
            forall|i: int, j: int|
                0 <= i < ROWS && 0 <= j < COLS ==> call_requires(
                    func,
                    (&#[trigger] old(self).at(i, j),),
                ),
        ensures
            forall|i: int, j: int|
                0 <= i < ROWS && 0 <= j < COLS ==> call_ensures(
                    func,
                    (&old(self).at(i, j),),
                    #[trigger] final(self).at(i, j),
                ),
    {
        self.apply_with(&func)
    }

    /// Replaces every cell by what `func` makes of it, and leaves `func`
    /// with the caller.
    pub fn apply_with<F>(&mut self, func: &F) where F: Fn(&T) -> T
        requires
            forall|i: int, j: int|
                0 <= i < ROWS && 0 <= j < COLS ==> call_requires(
                    *func,
                    (&#[trigger] old(self).at(i, j),),
                ),
        ensures
            forall|i: int, j: int|
                0 <= i < ROWS && 0 <= j < COLS ==> call_ensures(
                    *func,
                    (&old(self).at(i, j),),
                    #[trigger] final(self).at(i, j),
                ),
    {
        for i in 0..ROWS
            invariant
                forall|a: int, b: int|
                    0 <= a < ROWS && 0 <= b < COLS ==> call_requires(
                        *func,
                        (&#[trigger] old(self).at(a, b),),
                    ),
                forall|a: int, b: int|
                    0 <= a < i && 0 <= b < COLS ==> call_ensures(
                        *func,
                        (&old(self).at(a, b),),
                        #[trigger] self.at(a, b),
                    ),
                forall|a: int, b: int|
                    i <= a < ROWS && 0 <= b < COLS ==> #[trigger] self.at(a, b) == old(self).at(
                        a,
                        b,
                    ),
        {
            for j in 0..COLS
                invariant
                    i < ROWS,
                    forall|a: int, b: int|
                        0 <= a < ROWS && 0 <= b < COLS ==> call_requires(
                            *func,
                            (&#[trigger] old(self).at(a, b),),
                        ),
                    forall|a: int, b: int|
                        0 <= a < i && 0 <= b < COLS ==> call_ensures(
                            *func,
                            (&old(self).at(a, b),),
                            #[trigger] self.at(a, b),
                        ),
                    forall|a: int, b: int|
                        i < a < ROWS && 0 <= b < COLS ==> #[trigger] self.at(a, b) == old(
                            self,
                        ).at(a, b),
                    forall|b: int|
                        0 <= b < j ==> call_ensures(
                            *func,
                            (&old(self).at(i as int, b),),
                            #[trigger] self.at(i as int, b),
                        ),
                    forall|b: int|
                        j <= b < COLS ==> #[trigger] self.at(i as int, b) == old(self).at(
                            i as int,
                            b,
                        ),
            {
                assert(self.at(i as int, j as int) == old(self).at(i as int, j as int));
                let y = func(self.get_ref(i, j));
                self.set(i, j, y);
            }
        }
    }
}

} // verus!
