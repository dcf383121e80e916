//! Picking one cell from each row, by a column or by a mask, and comparing
//! two tensors cell by cell.

use crate::tensor::IndexError;
use crate::tensor::Tensor;
use crate::tensor::TensorIndex;
use vstd::prelude::*;
use vstd::std_specs::cmp::PartialEqSpec;

verus! {

/// `s` holds a 1 somewhere.
pub open spec fn has_one(s: Seq<usize>) -> bool {
    exists|k: int| 0 <= k < s.len() && #[trigger] s[k] == 1
}

/// `k` is the first place at which `s` holds a 1.
pub open spec fn is_first_one(s: Seq<usize>, k: int) -> bool {
    &&& 0 <= k < s.len()
    &&& s[k] == 1
    &&& forall|a: int| 0 <= a < k ==> #[trigger] s[a] != 1
}

/// The first place at which `s` holds a 1, where it holds one.
pub open spec fn first_one(s: Seq<usize>) -> int {
    choose|k: int| is_first_one(s, k)
}

/// There is one first place of a 1 in `s`, and `first_one` names it.
pub proof fn lemma_first_one(s: Seq<usize>, k: int)
    requires
        is_first_one(s, k),
    ensures
        has_one(s),
        first_one(s) == k,
{
    let c = first_one(s);
    assert(is_first_one(s, c));
    if c < k {
        assert(s[c] != 1);
    } else if k < c {
        assert(s[k] != 1);
    }
}

/// Where `s` holds a 1, `first_one` names the first place of one.
pub proof fn lemma_first_one_exists(s: Seq<usize>)
    requires
        has_one(s),
    ensures
        is_first_one(s, first_one(s)),
{
    let k = choose|k: int| 0 <= k < s.len() && #[trigger] s[k] == 1;
    lemma_one_has_a_first(s, k);
}

proof fn lemma_one_has_a_first(s: Seq<usize>, k: int)
    requires
        0 <= k < s.len(),
        s[k] == 1,
    ensures
        exists|j: int| is_first_one(s, j),
    decreases k,
{
    if exists|a: int| 0 <= a < k && #[trigger] s[a] == 1 {
        let a = choose|a: int| 0 <= a < k && #[trigger] s[a] == 1;
        lemma_one_has_a_first(s, a);
    } else {
        assert(is_first_one(s, k));
    }
}

impl<T, const ROWS: usize, const COLS: usize> Tensor<T, ROWS, COLS> {
    /// What `index_cols` gives. By a column: that column, if the tensor has
    /// it. By a mask: from each row the cell at the first 1 of the mask's
    /// row, if every row of the mask holds a 1.
    pub open spec fn spec_index_cols(self, idx: TensorIndex<ROWS, COLS>) -> Result<
        Tensor<T, ROWS, 1>,
        IndexError,
    > {
        match idx {
            TensorIndex::Scalar(c) => if c < COLS {
                Ok(Tensor::<T, ROWS, 1>::from_fn(|i: int, j: int| self.at(i, c as int)))
            } else {
                Err(IndexError::ScalarOutOfRange { index: c, cols: COLS })
            },
            TensorIndex::Mask(mask) => if forall|i: int|
                0 <= i < ROWS ==> has_one(#[trigger] mask.row(i)) {
                Ok(
                    Tensor::<T, ROWS, 1>::from_fn(
                        |i: int, j: int| self.at(i, first_one(mask.row(i))),
                    ),
                )
            } else {
                Err(IndexError::InvalidMask)
            },
        }
    }

    /// Picks one cell from each row: the one in the column that a scalar
    /// index names, or the one at the first 1 in the row of a mask. A column
    /// that the tensor does not have, and a mask with a row without a 1, are
    /// errors.
    pub fn index_cols(&self, idx: TensorIndex<ROWS, COLS>) -> (out: Result<
        Tensor<T, ROWS, 1>,
        IndexError,
    >) where T: Default + Copy
        ensures
            out == self.spec_index_cols(idx),
    {
        let mut res: Tensor<T, ROWS, 1> = Tensor::new();
        match idx {
            TensorIndex::Scalar(c) => {
                if c >= COLS {
                    return Err(IndexError::ScalarOutOfRange { index: c, cols: COLS });
                }
                for i in 0..ROWS
                    invariant
                        c < COLS,
                        forall|a: int| 0 <= a < i ==> #[trigger] res.at(a, 0) == self.at(a, c as int),
                {
                    res.set(i, 0, self.get(i, c));
                }
                proof {
                    let picked = Tensor::<T, ROWS, 1>::from_fn(|i: int, j: int| self.at(i, c as int));
                    Tensor::<T, ROWS, 1>::lemma_from_fn(|i: int, j: int| self.at(i, c as int));
                    res.lemma_ext_equal(picked);
                }
                Ok(res)
            },
            TensorIndex::Mask(mask) => {
                for i in 0..ROWS
                    invariant
                        idx == TensorIndex::<ROWS, COLS>::Mask(mask),
                        forall|a: int| 0 <= a < i ==> has_one(#[trigger] mask.row(a)),
                        forall|a: int|
                            0 <= a < i ==> #[trigger] res.at(a, 0) == self.at(
                                a,
                                first_one(mask.row(a)),
                            ),
                {
                    match first_one_in_row(&mask, i) {
                        Some(j) => {
                            res.set(i, 0, self.get(i, j));
                        },
                        None => {
                            assert(!has_one(mask.row(i as int)));
                            return Err(IndexError::InvalidMask);
                        },
                    }
                }
                proof {
                    let picked = Tensor::<T, ROWS, 1>::from_fn(
                        |i: int, j: int| self.at(i, first_one(mask.row(i))),
                    );
                    Tensor::<T, ROWS, 1>::lemma_from_fn(
                        |i: int, j: int| self.at(i, first_one(mask.row(i))),
                    );
                    res.lemma_ext_equal(picked);
                }
                Ok(res)
            },
        }
    }

    /// Compares two tensors of one shape cell by cell: `true` where the
    /// cells are equal.
    pub fn eq(&self, other: &Self) -> (out: Tensor<bool, ROWS, COLS>) where T: PartialEq + Copy
        ensures
            T::obeys_eq_spec() ==> forall|i: int, j: int|
                0 <= i < ROWS && 0 <= j < COLS ==> #[trigger] out.at(i, j) == self.at(
                    i,
                    j,
                ).eq_spec(&other.at(i, j)),
    {
        let mut res: Tensor<bool, ROWS, COLS> = Tensor::new();
        for i in 0..ROWS
            invariant
                T::obeys_eq_spec() ==> forall|a: int, b: int|
                    0 <= a < i && 0 <= b < COLS ==> #[trigger] res.at(a, b) == self.at(
                        a,
                        b,
                    ).eq_spec(&other.at(a, b)),
        {
            for j in 0..COLS
                invariant
                    i < ROWS,
                    T::obeys_eq_spec() ==> forall|a: int, b: int|
                        0 <= a < i && 0 <= b < COLS ==> #[trigger] res.at(a, b) == self.at(
                            a,
                            b,
                        ).eq_spec(&other.at(a, b)),
                    T::obeys_eq_spec() ==> forall|b: int|
                        0 <= b < j ==> #[trigger] res.at(i as int, b) == self.at(
                            i as int,
                            b,
                        ).eq_spec(&other.at(i as int, b)),
            {
                let same = self.get(i, j) == other.get(i, j);
                res.set(i, j, same);
            }
        }
        res
    }
}

impl<const ROWS: usize, const COLS: usize> Tensor<bool, ROWS, COLS> {
    /// Turns truth values into values of another type: `yes` where a cell
    /// holds `true`, `no` where it holds `false`.
    pub fn convert<U>(&self, yes: U, no: U) -> (out: Tensor<U, ROWS, COLS>) where U: Copy
        ensures
            forall|i: int, j: int|
                0 <= i < ROWS && 0 <= j < COLS ==> #[trigger] out.at(i, j) == if self.at(i, j) {
                    yes
                } else {
                    no
                },
    {
        let mut res: Tensor<U, ROWS, COLS> = Tensor::fill(no);
        for i in 0..ROWS
            invariant
                forall|a: int, b: int|
                    0 <= a < i && 0 <= b < COLS ==> #[trigger] res.at(a, b) == if self.at(a, b) {
                        yes
                    } else {
                        no
                    },
        {
            for j in 0..COLS
                invariant
                    i < ROWS,
                    forall|a: int, b: int|
                        0 <= a < i && 0 <= b < COLS ==> #[trigger] res.at(a, b) == if self.at(
                            a,
                            b,
                        ) {
                            yes
                        } else {
                            no
                        },
                    forall|b: int|
                        0 <= b < j ==> #[trigger] res.at(i as int, b) == if self.at(i as int, b) {
                            yes
                        } else {
                            no
                        },
            {
                let v = if self.get(i, j) {
                    yes
                } else {
                    no
                };
                res.set(i, j, v);
            }
        }
        res
    }
}

/// Finds the first 1 in row `i` of a mask.
fn first_one_in_row<const ROWS: usize, const COLS: usize>(
    mask: &Tensor<usize, ROWS, COLS>,
    i: usize,
) -> (out: Option<usize>)
    requires
        i < ROWS,
    ensures
        out is Some <==> has_one(mask.row(i as int)),
        out matches Some(j) ==> j < COLS && j == first_one(mask.row(i as int)),
{
    let ghost row = mask.row(i as int);
    let mut j: usize = 0;
    while j < COLS
        invariant
            i < ROWS,
            j <= COLS,
            row == mask.row(i as int),
            forall|a: int| 0 <= a < j ==> #[trigger] row[a] != 1,
        decreases COLS - j,
    {
        if mask.get(i, j) == 1 {
            proof {
                lemma_first_one(row, j as int);
            }
            return Some(j);
        }
        j += 1;
    }
    None
}

} // verus!
