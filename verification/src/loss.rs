//! Losses: how far a batch of predictions is from its labels.

use core::ops::Add;
use core::ops::Div;
use crate::element::can_sum;
use crate::element::differs_from_zero;
use crate::element::is_mean;
use crate::element::is_sum;
use crate::metrics::Targets;
use crate::tensor::IndexError;
use crate::tensor::Tensor;
use crate::tensor::index::first_one;
use crate::tensor::index::has_one;
use crate::tensor::index::lemma_first_one_exists;
use vstd::prelude::*;
use vstd::std_specs::ops::DivSpec;

verus! {

/// The cross-entropy loss: the mean, over the rows of a batch, of the cost
/// of what was predicted for the row's true class.
///
/// The loss works on any cell type. What keeps a prediction away from the
/// values that have no finite cost (`clip`), and what a prediction costs
/// (`cost`, for probabilities the negative logarithm), come from the caller.
#[derive(Clone, Copy, Debug)]
pub struct CrossEntropyLoss<const BATCH_SIZE: usize, const N_INPUTS: usize> {}

impl<const BATCH_SIZE: usize, const N_INPUTS: usize> CrossEntropyLoss<BATCH_SIZE, N_INPUTS> {
    /// Every row of one-hot labels marks a class.
    pub open spec fn marks_every_row(targets: Targets<BATCH_SIZE, N_INPUTS>) -> bool {
        match targets {
            Targets::OneHot(mask) => forall|i: int|
                0 <= i < BATCH_SIZE ==> has_one(#[trigger] mask.row(i)),
        }
    }

    /// The prediction for the true class of row `i`: the cell at the first 1
    /// of the row's label.
    pub open spec fn true_class<T>(
        inputs: Tensor<T, BATCH_SIZE, N_INPUTS>,
        targets: Targets<BATCH_SIZE, N_INPUTS>,
        i: int,
    ) -> T {
        match targets {
            Targets::OneHot(mask) => inputs.at(i, first_one(mask.row(i))),
        }
    }

    /// `c` can be the cost of row `i`: what `cost` makes of what `clip`
    /// makes of the prediction for the row's true class.
    pub open spec fn is_cost_of_row<T, C: Fn(&T) -> T, L: Fn(&T) -> T>(
        inputs: Tensor<T, BATCH_SIZE, N_INPUTS>,
        targets: Targets<BATCH_SIZE, N_INPUTS>,
        clip: &C,
        cost: &L,
        i: int,
        c: T,
    ) -> bool {
        exists|clipped: T| #[trigger]
            call_ensures(*clip, (&Self::true_class(inputs, targets, i),), clipped) && call_ensures(
                *cost,
                (&clipped,),
                c,
            )
    }

    /// `costs` can be the costs of the rows of the batch.
    pub open spec fn is_costs<T, C: Fn(&T) -> T, L: Fn(&T) -> T>(
        inputs: Tensor<T, BATCH_SIZE, N_INPUTS>,
        targets: Targets<BATCH_SIZE, N_INPUTS>,
        clip: &C,
        cost: &L,
        costs: Tensor<T, BATCH_SIZE, 1>,
    ) -> bool {
        forall|i: int|
            0 <= i < BATCH_SIZE ==> Self::is_cost_of_row(
                inputs,
                targets,
                clip,
                cost,
                i,
                #[trigger] costs.at(i, 0),
            )
    }

    /// The costs of a batch can be averaged, whatever `clip` and `cost`
    /// make them: they can be added up, and their sum can be divided by
    /// any count but zero.
    pub open spec fn can_average<T, C: Fn(&T) -> T, L: Fn(&T) -> T>(
        inputs: Tensor<T, BATCH_SIZE, N_INPUTS>,
        targets: Targets<BATCH_SIZE, N_INPUTS>,
        clip: &C,
        cost: &L,
    ) -> bool where T: Add<Output = T> + Div<Output = T> + Default + PartialEq {
        forall|costs: Tensor<T, BATCH_SIZE, 1>| #[trigger]
            Self::is_costs(inputs, targets, clip, cost, costs) ==> {
                &&& can_sum(costs.cells())
                &&& forall|total: T, count: T|
                    is_sum(total, costs.cells()) && differs_from_zero(count)
                        ==> #[trigger] total.div_req(count)
            }
    }

    /// `mean` can be the loss of the batch: the mean of costs of its rows.
    pub open spec fn is_loss<T, C: Fn(&T) -> T, L: Fn(&T) -> T>(
        inputs: Tensor<T, BATCH_SIZE, N_INPUTS>,
        targets: Targets<BATCH_SIZE, N_INPUTS>,
        clip: &C,
        cost: &L,
        mean: T,
    ) -> bool where T: Add<Output = T> + Div<Output = T> + Default + PartialEq {
        exists|costs: Tensor<T, BATCH_SIZE, 1>, count: T| #[trigger]
            is_mean(mean, costs.cells(), count) && differs_from_zero(count) && Self::is_costs(
                inputs,
                targets,
                clip,
                cost,
                costs,
            )
    }

    /// The loss of a batch of predictions against its labels: every
    /// prediction is clipped, from each row the clipped prediction for the
    /// true class is taken, and the costs of these are averaged.
    ///
    /// Labels with a row that marks no class are an error. The result is
    /// `Ok(None)` where `T` has no value for the number of rows, or the zero
    /// of `T` for it, as for a batch without rows.
    pub fn forward<T, C, L>(
        &self,
        inputs: Tensor<T, BATCH_SIZE, N_INPUTS>,
        targets: Targets<BATCH_SIZE, N_INPUTS>,
        clip: C,
        cost: L,
    ) -> (out: Result<Option<T>, IndexError>) where
        T: Default + Copy + Add<Output = T> + Div<Output = T> + PartialEq
            + num_traits::FromPrimitive,
        C: Fn(&T) -> T,
        L: Fn(&T) -> T,

        requires
            forall|x: T| call_requires(clip, (&x,)),
            forall|x: T| call_requires(cost, (&x,)),
            Self::can_average(inputs, targets, &clip, &cost),
        ensures
            out is Ok <==> Self::marks_every_row(targets),
            out is Err ==> out == Err::<Option<T>, IndexError>(IndexError::InvalidMask),
            out matches Ok(Some(mean)) ==> Self::is_loss(inputs, targets, &clip, &cost, mean),
    {
        let mut clipped = inputs;
        clipped.apply_with(&clip);
        let mut costs = match targets.select(&clipped) {
            Ok(picked) => picked,
            Err(error) => {
                return Err(error);
            },
        };
        let ghost picked = costs;
        costs.apply_with(&cost);
        proof {
            let mask = targets->OneHot_0;
            Tensor::<T, BATCH_SIZE, 1>::lemma_from_fn(
                |i: int, j: int| clipped.at(i, first_one(mask.row(i))),
            );
            assert forall|i: int| 0 <= i < BATCH_SIZE implies Self::is_cost_of_row(
                inputs,
                targets,
                &clip,
                &cost,
                i,
                #[trigger] costs.at(i, 0),
            ) by {
                let k = first_one(mask.row(i));
                assert(has_one(mask.row(i)));
                lemma_first_one_exists(mask.row(i));
                assert(picked.at(i, 0) == clipped.at(i, k));
                assert(Self::true_class(inputs, targets, i) == inputs.at(i, k));
                assert(call_ensures(
                    clip,
                    (&Self::true_class(inputs, targets, i),),
                    clipped.at(i, k),
                ));
                assert(call_ensures(cost, (&clipped.at(i, k),), costs.at(i, 0)));
            }
            assert(Self::is_costs(inputs, targets, &clip, &cost, costs));
        }
        let mean = costs.mean();
        proof {
            if mean is Some {
                let count = choose|count: T|
                    differs_from_zero(count) && #[trigger] is_mean(
                        mean->Some_0,
                        costs.cells(),
                        count,
                    );
                assert(is_mean(mean->Some_0, costs.cells(), count) && differs_from_zero(count)
                    && Self::is_costs(
                    inputs,
                    targets,
                    &clip,
                    &cost,
                    costs,
                ));
            }
        }
        Ok(mean)
    }
}

} // verus!
