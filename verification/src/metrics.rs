//! Labels and what is measured against them: the cell of the true class in
//! each row of a batch of predictions, and how many rows are predicted right.

use core::ops::Div;
use crate::element::argmax_of;
use crate::element::differs_from_zero;
use crate::element::equals_zero;
use crate::element::is_share_from;
use crate::element::is_share;
use crate::element::is_zero;
use crate::element::orders_by_spec;
use crate::integer::Integer;
use crate::integer::int_sum;
use crate::integer::lemma_can_sum_integers;
use crate::integer::lemma_is_sum_as_int;
use crate::outside::count_as;
use crate::tensor::Axis;
use crate::tensor::IndexError;
use crate::tensor::Tensor;
use crate::tensor::TensorIndex;
use vstd::prelude::*;
use vstd::std_specs::cmp::PartialEqSpec;
use vstd::std_specs::ops::DivSpec;

verus! {

/// The labels of a batch of `BATCH_SIZE` rows over `N_INPUTS` classes.
#[derive(Clone, Copy, Debug)]
pub enum Targets<const BATCH_SIZE: usize, const N_INPUTS: usize> {
    /// One row for each row of the batch, with a 1 in the column of its
    /// class and 0 in the others.
    OneHot(Tensor<usize, BATCH_SIZE, N_INPUTS>),
}

/// The share of the rows of a batch that are predicted right.
#[derive(Clone, Copy, Debug)]
pub struct Accuracy<const BATCH_SIZE: usize, const N_INPUTS: usize> {}

/// How many of the first `n` places hold the same in `a` and in `b`.
pub open spec fn count_same(a: Seq<usize>, b: Seq<usize>, n: int) -> int
    decreases n,
{
    if n <= 0 {
        0
    } else {
        count_same(a, b, n - 1) + if a[n - 1] == b[n - 1] {
            1int
        } else {
            0int
        }
    }
}

/// Not more places hold the same than there are.
pub proof fn lemma_count_same_bound(a: Seq<usize>, b: Seq<usize>, n: int)
    requires
        0 <= n,
    ensures
        0 <= count_same(a, b, n) <= n,
    decreases n,
{
    if n > 0 {
        lemma_count_same_bound(a, b, n - 1);
    }
}

/// Marks of 1 where `a` and `b` hold the same and of 0 where they do not
/// add up to the number of places that hold the same.
proof fn lemma_marks_count(marks: Seq<usize>, a: Seq<usize>, b: Seq<usize>, n: int)
    requires
        0 <= n <= marks.len(),
        forall|i: int|
            0 <= i < marks.len() ==> #[trigger] marks[i] == if a[i] == b[i] {
                1usize
            } else {
                0usize
            },
    ensures
        int_sum(marks.take(n)) == count_same(a, b, n),
    decreases n,
{
    if n > 0 {
        lemma_marks_count(marks, a, b, n - 1);
        assert(marks.take(n).drop_last() =~= marks.take(n - 1));
    }
}

impl<const BATCH_SIZE: usize, const N_INPUTS: usize> Targets<BATCH_SIZE, N_INPUTS> {
    /// The class of each row: for one-hot labels the place of the first
    /// greatest cell of the row.
    pub open spec fn spec_classes(&self) -> Seq<usize> {
        match self {
            Targets::OneHot(t) => Seq::new(
                BATCH_SIZE as nat,
                |i: int| argmax_of(t.row(i)) as usize,
            ),
        }
    }

    /// The class of each row of the batch, or `None` where there are no
    /// classes.
    pub fn classes(&self) -> (out: Option<Tensor<usize, BATCH_SIZE, 1>>)
        ensures
            out is None <==> N_INPUTS == 0,
            out matches Some(c) ==> c.col(0) == self.spec_classes(),
    {
        match self {
            Targets::OneHot(t) => {
                match t.argmax(Axis::Row) {
                    Some(places) => {
                        let c = places.unwrap_row();
                        proof {
                            assert forall|i: int| 0 <= i < BATCH_SIZE implies #[trigger] c.col(
                                0,
                            )[i] == self.spec_classes()[i] by {
                                assert(places.value(i) == argmax_of(t.line(Axis::Row, i)));
                            }
                            assert(c.col(0) =~= self.spec_classes());
                        }
                        Some(c)
                    },
                    None => None,
                }
            },
        }
    }

    /// From each row of `values` the cell of the row's class: for one-hot
    /// labels the cell at the first 1 of the label's row. Labels with a row
    /// that marks no class are an error.
    pub fn select<T>(&self, values: &Tensor<T, BATCH_SIZE, N_INPUTS>) -> (out: Result<
        Tensor<T, BATCH_SIZE, 1>,
        IndexError,
    >) where T: Default + Copy
        ensures
            self matches Targets::OneHot(t) && out == values.spec_index_cols(TensorIndex::Mask(*t)),
    {
        match self {
            Targets::OneHot(t) => values.index_cols(TensorIndex::Mask(*t)),
        }
    }
}

impl<const BATCH_SIZE: usize, const N_INPUTS: usize> Accuracy<BATCH_SIZE, N_INPUTS> {
    /// The predicted class of each row of `inputs`: the place of its first
    /// greatest cell.
    pub open spec fn predictions<T: PartialOrd>(
        inputs: Tensor<T, BATCH_SIZE, N_INPUTS>,
    ) -> Seq<usize> {
        Seq::new(BATCH_SIZE as nat, |i: int| argmax_of(inputs.row(i)) as usize)
    }

    /// How many rows of the batch are predicted right: those whose greatest
    /// prediction stands in the column of their class. `None` where there
    /// are no classes.
    pub fn matches<T>(
        &self,
        inputs: &Tensor<T, BATCH_SIZE, N_INPUTS>,
        targets: &Targets<BATCH_SIZE, N_INPUTS>,
    ) -> (out: Option<usize>) where T: PartialOrd + Copy
        ensures
            out is None <==> N_INPUTS == 0,
            out matches Some(n) ==> n <= BATCH_SIZE && (orders_by_spec::<T>() ==> n == count_same(
                Self::predictions(*inputs),
                targets.spec_classes(),
                BATCH_SIZE as int,
            )),
    {
        let places = match inputs.argmax(Axis::Row) {
            Some(places) => places,
            None => {
                return None;
            },
        };
        let predicted = places.unwrap_row();
        let classes = match targets.classes() {
            Some(c) => c,
            None => {
                return None;
            },
        };
        let marks: Tensor<usize, BATCH_SIZE, 1> = predicted.eq(&classes).convert(1usize, 0usize);
        proof {
            let a = predicted.col(0);
            let b = classes.col(0);
            marks.lemma_single_column_cells();
            assert forall|i: int| 0 <= i < BATCH_SIZE implies #[trigger] marks.cells()[i] == if a[i]
                == b[i] {
                1usize
            } else {
                0usize
            } by {
                assert(marks.at(i, 0) == if predicted.at(i, 0) == classes.at(i, 0) {
                    1usize
                } else {
                    0usize
                });
            }
            assert forall|n: int| 0 <= n <= BATCH_SIZE implies usize::fits(
                #[trigger] int_sum(marks.cells().take(n)),
            ) by {
                lemma_marks_count(marks.cells(), a, b, n);
                lemma_count_same_bound(a, b, n);
            }
            lemma_can_sum_integers(marks.cells());
        }
        let n = marks.sum();
        proof {
            let a = predicted.col(0);
            let b = classes.col(0);
            lemma_is_sum_as_int(n, marks.cells());
            lemma_marks_count(marks.cells(), a, b, BATCH_SIZE as int);
            assert(marks.cells().take(BATCH_SIZE as int) =~= marks.cells());
            lemma_count_same_bound(a, b, BATCH_SIZE as int);
            if orders_by_spec::<T>() {
                assert(a =~= Self::predictions(*inputs)) by {
                    assert forall|i: int| 0 <= i < BATCH_SIZE implies a[i] == Self::predictions(
                        *inputs,
                    )[i] by {
                        assert(places.value(i) == argmax_of(inputs.line(Axis::Row, i)));
                    }
                }
            }
            lemma_count_same_ext(
                a,
                Self::predictions(*inputs),
                b,
                targets.spec_classes(),
                BATCH_SIZE as int,
            );
        }
        Some(n)
    }

    /// The share that `right` rows are of `rows` rows: the one divided by
    /// the other, or `None` where `rows` is the zero of `R`.
    pub fn share<R>(right: R, rows: R) -> (out: Option<R>) where
        R: Default + PartialEq + Div<Output = R>,

        requires
            differs_from_zero(rows) ==> right.div_req(rows),
        ensures
            out matches Some(share) ==> is_share(share, right, rows),
            out is None ==> equals_zero(rows),
    {
        let zero = R::default();
        if rows == zero {
            assert(is_zero(zero) && (R::obeys_eq_spec() ==> rows.eq_spec(&zero)));
            return None;
        }
        assert(is_zero(zero) && (R::obeys_eq_spec() ==> !rows.eq_spec(&zero)));
        let out = Some(right / rows);
        assert(is_share(out->Some_0, right, rows));
        out
    }

    /// The share, given what the number of rows that are predicted right
    /// and the number of all rows have been converted to: the one divided by
    /// the other, and `None` where one of them is missing or the number of
    /// all rows is the zero of `R`.
    pub fn share_from<R>(right: Option<R>, rows: Option<R>) -> (out: Option<R>) where
        R: Default + PartialEq + Div<Output = R>,

        requires
            right is Some && rows is Some && differs_from_zero(rows->Some_0)
                ==> right->Some_0.div_req(rows->Some_0),
        ensures
            is_share_from(out, right, rows),
    {
        match (right, rows) {
            (Some(part), Some(whole)) => Self::share(part, whole),
            _ => None,
        }
    }

    /// The share of the rows of the batch that are predicted right, as a
    /// value of `R`: the number of such rows divided by the number of rows,
    /// both converted by `R`. `None` where there are no classes, where `R`
    /// has no value for one of the two numbers, and where it has its zero
    /// for the number of rows, as for a batch without rows.
    pub fn calculate<T, R>(
        &self,
        inputs: Tensor<T, BATCH_SIZE, N_INPUTS>,
        targets: Targets<BATCH_SIZE, N_INPUTS>,
    ) -> (out: Option<R>) where
        T: PartialOrd + Copy,
        R: Default + PartialEq + Div<Output = R> + num_traits::FromPrimitive,

        requires
            forall|right: R, rows: R| differs_from_zero(rows) ==> #[trigger] right.div_req(rows),
        ensures
            N_INPUTS == 0 ==> out is None,
            N_INPUTS > 0 ==> exists|right: Option<R>, rows: Option<R>| #[trigger]
                is_share_from(out, right, rows),
    {
        let n = match self.matches(&inputs, &targets) {
            Some(n) => n,
            None => {
                return None;
            },
        };
        let right = count_as::<R>(n);
        let rows = count_as::<R>(BATCH_SIZE);
        let out = Self::share_from(right, rows);
        assert(is_share_from(out, right, rows));
        out
    }
}

/// Where two pairs of sequences hold the same at the first `n` places, as
/// many of those places hold the same in the one pair as in the other.
proof fn lemma_count_same_ext(a: Seq<usize>, a2: Seq<usize>, b: Seq<usize>, b2: Seq<usize>, n: int)
    requires
        0 <= n <= a.len(),
        a.len() == a2.len() == b.len() == b2.len(),
    ensures
        (forall|i: int| 0 <= i < n ==> a[i] == a2[i] && b[i] == b2[i]) ==> count_same(a, b, n)
            == count_same(a2, b2, n),
    decreases n,
{
    if n > 0 {
        lemma_count_same_ext(a, a2, b, b2, n - 1);
    }
}

} // verus!
