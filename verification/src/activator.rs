//! Activations: transforms of a batch of features that keep its shape.

use core::ops::Add;
use core::ops::Div;
use core::ops::Sub;
use crate::element::can_sum;
use crate::element::is_sum;
use crate::element::is_zero;
use crate::element::max_of;
use crate::element::orders_by_spec;
use crate::tensor::Axis;
use crate::tensor::Tensor;
use vstd::prelude::*;
use vstd::std_specs::cmp::PartialOrdIs;
use vstd::std_specs::ops::DivSpec;
use vstd::std_specs::ops::SubSpec;

verus! {

/// The rectifier: it lets a value pass that is not below zero, and gives
/// zero for one that is.
#[derive(Clone, Copy, Debug)]
pub struct ReLU<const BATCH_SIZE: usize, const N_INPUTS: usize>;

/// What the rectifier makes of `x`, with `zero` as the zero of `T`.
pub open spec fn rectified<T: PartialOrd>(x: T, zero: T) -> T {
    if x.is_lt(&zero) {
        zero
    } else {
        x
    }
}

impl<const BATCH_SIZE: usize, const N_INPUTS: usize> ReLU<BATCH_SIZE, N_INPUTS> {
    /// Replaces every cell below zero by zero and keeps the others.
    pub fn forward<T>(self, inputs: &Tensor<T, BATCH_SIZE, N_INPUTS>) -> (out: Tensor<
        T,
        BATCH_SIZE,
        N_INPUTS,
    >) where T: PartialOrd + Default + Copy
        ensures
            exists|zero: T| #[trigger]
                is_zero(zero) && (orders_by_spec::<T>() ==> forall|i: int, j: int|
                    0 <= i < BATCH_SIZE && 0 <= j < N_INPUTS ==> #[trigger] out.at(i, j)
                        == rectified(inputs.at(i, j), zero)),
    {
        let zero = T::default();
        let rectify = |x: &T| -> (r: T)
            ensures
                orders_by_spec::<T>() ==> r == rectified(*x, zero),
            {
                if *x < zero {
                    zero
                } else {
                    *x
                }
            };
        let mut res = *inputs;
        res.apply(rectify);
        assert(is_zero(zero));
        res
    }
}

/// Softmax: each row is shifted down by its greatest cell, every cell is
/// replaced by its exponential, and each row is divided by its sum, so
/// that its cells are shares of a whole.
///
/// The activation works on any cell type: what an exponential is (`exp`)
/// comes from the caller.
#[derive(Clone, Copy, Debug)]
pub struct Softmax<const BATCH_SIZE: usize, const N_INPUTS: usize>;

impl<const BATCH_SIZE: usize, const N_INPUTS: usize> Softmax<BATCH_SIZE, N_INPUTS> {
    /// `maxima` holds for each row of `inputs` its greatest cell.
    pub open spec fn is_row_maxima<T: PartialOrd>(
        inputs: Tensor<T, BATCH_SIZE, N_INPUTS>,
        maxima: Tensor<T, BATCH_SIZE, 1>,
    ) -> bool {
        &&& forall|i: int|
            0 <= i < BATCH_SIZE ==> inputs.row(i).contains(#[trigger] maxima.at(i, 0))
        &&& orders_by_spec::<T>() ==> forall|i: int|
            0 <= i < BATCH_SIZE ==> #[trigger] maxima.at(i, 0) == max_of(inputs.row(i))
    }

    /// `v` is something that `exp` can give.
    pub open spec fn can_give<T, E: Fn(&T) -> T>(exp: &E, v: T) -> bool {
        exists|x: T| call_ensures(*exp, (&x,), v)
    }

    /// Every cell of `exps` is something that `exp` can give.
    pub open spec fn is_exp_output<T, E: Fn(&T) -> T>(
        exp: &E,
        exps: Tensor<T, BATCH_SIZE, N_INPUTS>,
    ) -> bool {
        forall|i: int, j: int|
            0 <= i < BATCH_SIZE && 0 <= j < N_INPUTS ==> Self::can_give(
                exp,
                #[trigger] exps.at(i, j),
            )
    }

    /// `out` is the softmax of `inputs`, by way of the greatest cell of
    /// each row (`maxima`), the exponentials of the shifted cells (`exps`)
    /// and their sum in each row (`sums`).
    pub open spec fn is_softmax<T, E: Fn(&T) -> T>(
        inputs: Tensor<T, BATCH_SIZE, N_INPUTS>,
        exp: &E,
        maxima: Tensor<T, BATCH_SIZE, 1>,
        exps: Tensor<T, BATCH_SIZE, N_INPUTS>,
        sums: Tensor<T, BATCH_SIZE, 1>,
        out: Tensor<T, BATCH_SIZE, N_INPUTS>,
    ) -> bool where T: PartialOrd + Default + Sub<Output = T> + Add<Output = T> + Div<Output = T> {
        &&& Self::is_row_maxima(inputs, maxima)
        &&& T::obeys_sub_spec() ==> forall|i: int, j: int|
            0 <= i < BATCH_SIZE && 0 <= j < N_INPUTS ==> call_ensures(
                *exp,
                (&inputs.at(i, j).sub_spec(maxima.at(i, 0)),),
                #[trigger] exps.at(i, j),
            )
        &&& forall|i: int| 0 <= i < BATCH_SIZE ==> is_sum(#[trigger] sums.at(i, 0), exps.row(i))
        &&& T::obeys_div_spec() ==> forall|i: int, j: int|
            0 <= i < BATCH_SIZE && 0 <= j < N_INPUTS ==> #[trigger] out.at(i, j) == exps.at(
                i,
                j,
            ).div_spec(sums.at(i, 0))
    }

    /// The activation can be run on `inputs`: every cell can be shifted
    /// down by any cell of its row, and whatever `exp` gives can be added
    /// up by rows and divided by the sum of its row.
    pub open spec fn accepts<T, E: Fn(&T) -> T>(
        inputs: Tensor<T, BATCH_SIZE, N_INPUTS>,
        exp: &E,
    ) -> bool where T: PartialOrd + Default + Sub<Output = T> + Add<Output = T> + Div<Output = T> {
        &&& BATCH_SIZE > 0 ==> N_INPUTS > 0
        &&& forall|i: int, j: int, k: int|
            0 <= i < BATCH_SIZE && 0 <= j < N_INPUTS && 0 <= k < N_INPUTS ==> (
            #[trigger] inputs.at(i, j)).sub_req(#[trigger] inputs.at(i, k))
        &&& forall|x: T| call_requires(*exp, (&x,))
        &&& forall|exps: Tensor<T, BATCH_SIZE, N_INPUTS>, i: int|
            #![trigger exps.row(i)]
            Self::is_exp_output(exp, exps) && 0 <= i < BATCH_SIZE ==> can_sum(exps.row(i))
        &&& forall|exps: Tensor<T, BATCH_SIZE, N_INPUTS>, i: int, j: int, total: T|
            #![trigger exps.at(i, j).div_req(total)]
            Self::is_exp_output(exp, exps) && 0 <= i < BATCH_SIZE && 0 <= j < N_INPUTS && is_sum(
                total,
                exps.row(i),
            ) ==> exps.at(i, j).div_req(total)
    }

    /// The softmax of each row of `inputs`, with `exp` as the exponential.
    pub fn forward<T, E>(self, inputs: &Tensor<T, BATCH_SIZE, N_INPUTS>, exp: E) -> (out: Tensor<
        T,
        BATCH_SIZE,
        N_INPUTS,
    >) where
        T: PartialOrd + Default + Copy + Sub<Output = T> + Add<Output = T> + Div<Output = T>,
        E: Fn(&T) -> T,

        requires
            Self::accepts(*inputs, &exp),
        ensures
            exists|
                maxima: Tensor<T, BATCH_SIZE, 1>,
                exps: Tensor<T, BATCH_SIZE, N_INPUTS>,
                sums: Tensor<T, BATCH_SIZE, 1>,
            | #[trigger] Self::is_softmax(*inputs, &exp, maxima, exps, sums, out),
    {
        let by_row = inputs.max_axis(Axis::Row);
        let maxima = by_row.unwrap_row();
        proof {
            assert forall|i: int| 0 <= i < BATCH_SIZE implies inputs.row(i).contains(
                #[trigger] maxima.at(i, 0),
            ) && (orders_by_spec::<T>() ==> maxima.at(i, 0) == max_of(inputs.row(i))) by {
                assert(inputs.line(Axis::Row, i).contains(by_row.value(i)));
            }
        }
        let spread = maxima.broadcast::<BATCH_SIZE, N_INPUTS>();
        proof {
            assert forall|i: int, j: int| 0 <= i < BATCH_SIZE && 0 <= j < N_INPUTS implies (
            #[trigger] inputs.at(i, j)).sub_req(spread.at(i, j)) by {
                let m = maxima.at(i, 0);
                assert(inputs.row(i).contains(m));
                let k = choose|k: int| 0 <= k < inputs.row(i).len() && inputs.row(i)[k] == m;
                assert(inputs.at(i, j).sub_req(inputs.at(i, k)));
                assert(spread.at(i, j) == m);
            }
        }
        let shifted = *inputs - spread;
        let mut exps = shifted;
        exps.apply_with(&exp);
        proof {
            assert forall|i: int, j: int|
                0 <= i < BATCH_SIZE && 0 <= j < N_INPUTS implies Self::can_give(
                &exp,
                #[trigger] exps.at(i, j),
            ) by {
                assert(call_ensures(exp, (&shifted.at(i, j),), exps.at(i, j)));
            }
            assert(Self::is_exp_output(&exp, exps));
            assert forall|l: int| 0 <= l < Tensor::<T, BATCH_SIZE, N_INPUTS>::lines(
                Axis::Row,
            ) implies can_sum(#[trigger] exps.line(Axis::Row, l)) by {
                assert(can_sum(exps.row(l)));
            }
        }
        let sums_by_row = exps.sum_axis(Axis::Row);
        let sums = sums_by_row.unwrap_row();
        let divisors = sums.broadcast::<BATCH_SIZE, N_INPUTS>();
        proof {
            assert forall|i: int| 0 <= i < BATCH_SIZE implies is_sum(
                #[trigger] sums.at(i, 0),
                exps.row(i),
            ) by {
                assert(is_sum(sums_by_row.value(i), exps.line(Axis::Row, i)));
            }
            assert forall|i: int, j: int| 0 <= i < BATCH_SIZE && 0 <= j < N_INPUTS implies (
            #[trigger] exps.at(i, j)).div_req(divisors.at(i, j)) by {
                assert(divisors.at(i, j) == sums.at(i, 0));
                assert(is_sum(sums.at(i, 0), exps.row(i)));
                assert(exps.at(i, j).div_req(sums.at(i, 0)));
            }
        }
        let out = exps / divisors;
        proof {
            if T::obeys_sub_spec() {
                Tensor::<T, BATCH_SIZE, N_INPUTS>::lemma_from_fn(
                    |i: int, j: int| inputs.at(i, j).sub_spec(spread.at(i, j)),
                );
                assert forall|i: int, j: int|
                    0 <= i < BATCH_SIZE && 0 <= j < N_INPUTS implies call_ensures(
                    exp,
                    (&inputs.at(i, j).sub_spec(maxima.at(i, 0)),),
                    #[trigger] exps.at(i, j),
                ) by {
                    assert(spread.at(i, j) == maxima.at(i, 0));
                    assert(shifted.at(i, j) == inputs.at(i, j).sub_spec(spread.at(i, j)));
                }
            }
            if T::obeys_div_spec() {
                assert forall|i: int, j: int|
                    0 <= i < BATCH_SIZE && 0 <= j < N_INPUTS implies #[trigger] out.at(i, j)
                    == exps.at(i, j).div_spec(sums.at(i, 0)) by {
                    assert(divisors.at(i, j) == sums.at(i, 0));
                }
            }
            assert(Self::is_softmax(*inputs, &exp, maxima, exps, sums, out));
        }
        out
    }
}

} // verus!
