//! What holds between the tensor operations, whatever the tensors.

use crate::element::argmax_of;
use crate::element::can_sum;
use crate::element::can_sum_from;
use crate::element::greater;
use crate::element::is_sum;
use crate::element::is_total_order;
use crate::element::is_zero;
use crate::element::max_of;
use crate::element::orders_by_spec;
use crate::element::sum_from;
use crate::integer::Integer;
use crate::integer::int_sum;
use crate::integer::lemma_is_sum_as_int;
use crate::tensor::Tensor;
use crate::tensor::TensorIndex;
use crate::tensor::index::first_one;
use crate::tensor::index::has_one;
use crate::tensor::index::lemma_first_one;
use vstd::prelude::*;
use vstd::std_specs::ops::AddSpec;
use vstd::std_specs::ops::MulSpec;
use vstd::std_specs::ops::SubSpec;

verus! {

/// Subtracting what was added gives the first tensor back: where two
/// tensors of integers can be added, the second can be subtracted from
/// their sum, and the difference is the first.
pub proof fn lemma_add_then_sub<T: Integer, const ROWS: usize, const COLS: usize>(
    a: Tensor<T, ROWS, COLS>,
    b: Tensor<T, ROWS, COLS>,
)
    requires
        a.can_add(b),
    ensures
        a.spec_add(b).can_sub(b),
        a.spec_add(b).spec_sub(b) == a,
{
    T::lemma_integer();
    let sum = a.spec_add(b);
    Tensor::<T, ROWS, COLS>::lemma_from_fn(|i: int, j: int| a.at(i, j).add_spec(b.at(i, j)));
    Tensor::<T, ROWS, COLS>::lemma_from_fn(|i: int, j: int| sum.at(i, j).sub_spec(b.at(i, j)));
    assert forall|i: int, j: int| 0 <= i < ROWS && 0 <= j < COLS implies (#[trigger] sum.at(
        i,
        j,
    )).sub_req(b.at(i, j)) && sum.at(i, j).sub_spec(b.at(i, j)) == a.at(i, j) by {
        assert(a.at(i, j).add_req(b.at(i, j)));
        assert(sum.at(i, j) == a.at(i, j).add_spec(b.at(i, j)));
        assert(sum.at(i, j).as_int() - b.at(i, j).as_int() == a.at(i, j).as_int());
        assert(sum.at(i, j).sub_spec(b.at(i, j)).as_int() == a.at(i, j).as_int());
    }
    sum.spec_sub(b).lemma_ext_equal(a);
}

/// Broadcasting a tensor to the extents that it has leaves it as it is.
pub proof fn lemma_broadcast_to_own_extents<T, const ROWS: usize, const COLS: usize>(
    t: Tensor<T, ROWS, COLS>,
)
    ensures
        t.spec_broadcast::<ROWS, COLS>() == t,
{
    Tensor::<T, ROWS, COLS>::lemma_from_fn(
        |i: int, j: int|
            t.at(
                crate::tensor::shape::broadcast_source(ROWS, i),
                crate::tensor::shape::broadcast_source(COLS, j),
            ),
    );
    t.spec_broadcast::<ROWS, COLS>().lemma_ext_equal(t);
}

/// `s` holds a 1 at place `j` and at no other.
pub open spec fn marks_only(s: Seq<usize>, j: int) -> bool {
    &&& 0 <= j < s.len()
    &&& forall|k: int| 0 <= k < s.len() ==> (#[trigger] s[k] == 1 <==> k == j)
}

/// `s` holds a 1 at one place and at no other.
pub open spec fn marks_one(s: Seq<usize>) -> bool {
    exists|j: int| marks_only(s, j)
}

/// Each row of `mask` holds a 1 in one column and in no other.
pub open spec fn marks_one_per_row<const ROWS: usize, const COLS: usize>(
    mask: Tensor<usize, ROWS, COLS>,
) -> bool {
    forall|i: int| 0 <= i < ROWS ==> marks_one(#[trigger] mask.row(i))
}

/// Indexing by a mask that marks one column in each row succeeds, and gives
/// for each row the cell in the column that the mask marks there.
pub proof fn lemma_index_by_one_hot<T, const ROWS: usize, const COLS: usize>(
    t: Tensor<T, ROWS, COLS>,
    mask: Tensor<usize, ROWS, COLS>,
)
    requires
        marks_one_per_row(mask),
    ensures
        t.spec_index_cols(TensorIndex::Mask(mask)) is Ok,
        forall|i: int, j: int|
            0 <= i < ROWS && 0 <= j < COLS && #[trigger] mask.at(i, j) == 1 ==> t.spec_index_cols(
                TensorIndex::Mask(mask),
            )->Ok_0.at(i, 0) == t.at(i, j),
{
    assert forall|i: int| 0 <= i < ROWS implies has_one(#[trigger] mask.row(i)) by {
        let row = mask.row(i);
        let m = choose|m: int| marks_only(row, m);
        assert(row[m] == 1);
    }
    assert forall|i: int, j: int| 0 <= i < ROWS && 0 <= j < COLS && #[trigger] mask.at(i, j)
        == 1 implies first_one(mask.row(i)) == j by {
        let row = mask.row(i);
        let m = choose|m: int| marks_only(row, m);
        assert(row[j] == 1);
        assert forall|a: int| 0 <= a < j implies #[trigger] row[a] != 1 by {
            assert(row[a] == 1 <==> a == m);
        }
        lemma_first_one(row, j);
    }
    Tensor::<T, ROWS, 1>::lemma_from_fn(|i: int, j: int| t.at(i, first_one(mask.row(i))));
}

/// `id` is an identity: 1 on its diagonal and 0 everywhere else.
pub open spec fn is_identity<T: Integer, const N: usize>(id: Tensor<T, N, N>) -> bool {
    forall|i: int, j: int|
        0 <= i < N && 0 <= j < N ==> (#[trigger] id.at(i, j)).as_int() == if i == j {
            1int
        } else {
            0int
        }
}

/// A running sum over items that are all 0 but the one at place `j` stays
/// in the type all the way, and is that one item once it has been passed.
proof fn lemma_sum_of_one_item<T: Integer>(z: T, s: Seq<T>, j: int, v: int, n: int)
    requires
        is_zero(z),
        0 <= j < s.len(),
        0 <= n <= s.len(),
        T::fits(v),
        forall|k: int| 0 <= k < s.len() ==> (#[trigger] s[k]).as_int() == if k == j {
            v
        } else {
            0
        },
    ensures
        can_sum_from(z, s.take(n)),
        sum_from(z, s.take(n)).as_int() == if n > j {
            v
        } else {
            0
        },
    decreases n,
{
    T::lemma_integer();
    if n > 0 {
        lemma_sum_of_one_item(z, s, j, v, n - 1);
        assert(s.take(n).drop_last() =~= s.take(n - 1));
        assert(s.take(n).last() == s[n - 1]);
    }
}

/// One cell of a product with an identity: the row can be contracted with
/// the identity's column, and every sum of the products is the cell of the
/// first operand.
proof fn lemma_contract_with_identity<T: Integer, const ROWS: usize, const COLS: usize>(
    a: Tensor<T, ROWS, COLS>,
    id: Tensor<T, COLS, COLS>,
    i: int,
    j: int,
)
    requires
        is_identity(id),
        0 <= i < ROWS,
        0 <= j < COLS,
    ensures
        a.can_contract(id, i, j),
        forall|cell: T| is_sum(cell, a.products(id, i, j)) ==> cell == a.at(i, j),
{
    T::lemma_integer();
    let terms = a.products(id, i, j);
    let v = a.at(i, j).as_int();
    assert forall|k: int| 0 <= k < COLS implies (#[trigger] a.at(i, k)).mul_req(id.at(k, j)) && (
    #[trigger] terms[k]).as_int() == if k == j {
        v
    } else {
        0
    } by {
        let x = a.at(i, k).as_int();
        let d = id.at(k, j).as_int();
        assert(d == if k == j {
            1int
        } else {
            0int
        });
        assert(x * d == if k == j {
            x
        } else {
            0
        }) by (nonlinear_arith)
            requires
                d == if k == j {
                    1int
                } else {
                    0int
                },
        ;
    }
    assert forall|z: T| is_zero(z) implies can_sum_from(z, terms) && sum_from(z, terms).as_int()
        == v by {
        lemma_sum_of_one_item(z, terms, j, v, COLS as int);
        assert(terms.take(COLS as int) =~= terms);
    }
    assert(can_sum(terms));
}

/// A tensor of integers times an identity is the tensor itself: the
/// product can always be taken, and whatever it comes to is the first
/// operand.
pub proof fn lemma_multiply_by_identity<T: Integer, const ROWS: usize, const COLS: usize>(
    a: Tensor<T, ROWS, COLS>,
    id: Tensor<T, COLS, COLS>,
)
    requires
        is_identity(id),
    ensures
        a.can_multiply(id),
        forall|product: Tensor<T, ROWS, COLS>| #[trigger]
            product.is_product_of(a, id) ==> product == a,
{
    assert forall|i: int, j: int| 0 <= i < ROWS && 0 <= j < COLS implies #[trigger] a.can_contract(
        id,
        i,
        j,
    ) by {
        lemma_contract_with_identity(a, id, i, j);
    }
    assert forall|product: Tensor<T, ROWS, COLS>| #[trigger]
        product.is_product_of(a, id) implies product == a by {
        assert forall|i: int, j: int| 0 <= i < ROWS && 0 <= j < COLS implies product.at(i, j)
            == a.at(i, j) by {
            lemma_contract_with_identity(a, id, i, j);
            assert(is_sum(product.at(i, j), a.products(id, i, j)));
        }
        product.lemma_ext_equal(a);
    }
}

/// The sum of the integers of two sequences, one after the other, is the
/// sum of their sums.
proof fn lemma_int_sum_concat<T: Integer>(a: Seq<T>, b: Seq<T>)
    ensures
        int_sum(a + b) == int_sum(a) + int_sum(b),
    decreases b.len(),
{
    if b.len() == 0 {
        assert(a + b =~= a);
    } else {
        lemma_int_sum_concat(a, b.drop_last());
        assert((a + b).drop_last() =~= a + b.drop_last());
    }
}

/// One more item of a sum of integers.
proof fn lemma_int_sum_step<T: Integer>(s: Seq<T>, n: int)
    requires
        0 <= n < s.len(),
    ensures
        int_sum(s.take(n + 1)) == int_sum(s.take(n)) + s[n].as_int(),
{
    assert(s.take(n + 1).drop_last() =~= s.take(n));
}

/// The integers of the first `m` cells of each of the first `n` rows, all
/// together, taken row by row.
spec fn block_by_rows<T: Integer, const ROWS: usize, const COLS: usize>(
    t: Tensor<T, ROWS, COLS>,
    n: int,
    m: int,
) -> int
    decreases n,
{
    if n <= 0 {
        0
    } else {
        block_by_rows(t, n - 1, m) + int_sum(t.row(n - 1).take(m))
    }
}

/// The same integers, taken column by column.
spec fn block_by_cols<T: Integer, const ROWS: usize, const COLS: usize>(
    t: Tensor<T, ROWS, COLS>,
    n: int,
    m: int,
) -> int
    decreases m,
{
    if m <= 0 {
        0
    } else {
        block_by_cols(t, n, m - 1) + int_sum(t.col(m - 1).take(n))
    }
}

/// One more row, seen column by column.
proof fn lemma_block_by_cols_row<T: Integer, const ROWS: usize, const COLS: usize>(
    t: Tensor<T, ROWS, COLS>,
    n: int,
    m: int,
)
    requires
        0 <= n < ROWS,
        0 <= m <= COLS,
    ensures
        block_by_cols(t, n + 1, m) == block_by_cols(t, n, m) + int_sum(t.row(n).take(m)),
    decreases m,
{
    if m > 0 {
        lemma_block_by_cols_row(t, n, m - 1);
        lemma_int_sum_step(t.col(m - 1), n);
        lemma_int_sum_step(t.row(n), m - 1);
    } else {
        assert(t.row(n).take(0) =~= Seq::<T>::empty());
    }
}

/// Row by row and column by column the integers of a block add up to the
/// same.
proof fn lemma_blocks_agree<T: Integer, const ROWS: usize, const COLS: usize>(
    t: Tensor<T, ROWS, COLS>,
    n: int,
    m: int,
)
    requires
        0 <= n <= ROWS,
        0 <= m <= COLS,
    ensures
        block_by_rows(t, n, m) == block_by_cols(t, n, m),
    decreases n, m,
{
    if n > 0 {
        lemma_blocks_agree(t, n - 1, m);
        lemma_block_by_cols_row(t, n - 1, m);
    } else if m > 0 {
        lemma_blocks_agree(t, n, m - 1);
        assert(t.col(m - 1).take(0) =~= Seq::<T>::empty());
    }
}

/// The integers of the first `n` rows add up row by row.
proof fn lemma_first_rows_sum<T: Integer, const ROWS: usize, const COLS: usize>(
    t: Tensor<T, ROWS, COLS>,
    n: int,
)
    requires
        0 <= n <= ROWS,
    ensures
        int_sum(t.first_rows(n as nat)) == block_by_rows(t, n, COLS as int),
    decreases n,
{
    if n > 0 {
        lemma_first_rows_sum(t, n - 1);
        lemma_int_sum_concat(t.first_rows((n - 1) as nat), t.row(n - 1));
        assert(t.row(n - 1).take(COLS as int) =~= t.row(n - 1));
    }
}

/// Where each of the first `n` items of `sums` stands for the sum of a row
/// of `t`, they add up to the integers of the first `n` rows of `t`.
proof fn lemma_sum_of_row_sums<T: Integer, const ROWS: usize, const COLS: usize>(
    t: Tensor<T, ROWS, COLS>,
    sums: Seq<T>,
    n: int,
)
    requires
        0 <= n <= ROWS,
        sums.len() == ROWS,
        forall|i: int| 0 <= i < ROWS ==> (#[trigger] sums[i]).as_int() == int_sum(t.row(i)),
    ensures
        int_sum(sums.take(n)) == block_by_rows(t, n, COLS as int),
    decreases n,
{
    if n > 0 {
        lemma_sum_of_row_sums(t, sums, n - 1);
        lemma_int_sum_step(sums, n - 1);
        assert(t.row(n - 1).take(COLS as int) =~= t.row(n - 1));
    }
}

/// Where each of the first `m` items of `sums` stands for the sum of a
/// column of `t`, they add up to the integers of the first `m` columns of
/// `t`.
proof fn lemma_sum_of_col_sums<T: Integer, const ROWS: usize, const COLS: usize>(
    t: Tensor<T, ROWS, COLS>,
    sums: Seq<T>,
    m: int,
)
    requires
        0 <= m <= COLS,
        sums.len() == COLS,
        forall|j: int| 0 <= j < COLS ==> (#[trigger] sums[j]).as_int() == int_sum(t.col(j)),
    ensures
        int_sum(sums.take(m)) == block_by_cols(t, ROWS as int, m),
    decreases m,
{
    if m > 0 {
        lemma_sum_of_col_sums(t, sums, m - 1);
        lemma_int_sum_step(sums, m - 1);
        assert(t.col(m - 1).take(ROWS as int) =~= t.col(m - 1));
    }
}

/// The three ways to the total agree: the sums of the rows added up, the
/// sums of the columns added up, and all cells added up at once come to the
/// same, for a tensor of integers on which each of these sums can be taken.
///
/// `row_sums` and `col_sums` are what `sum_axis` gives along `Axis::Row` and
/// along `Axis::Col`, `of_rows`, `of_cols` and `total` what `sum` gives on
/// them and on `t`.
pub proof fn lemma_axis_sums_agree<T: Integer, const ROWS: usize, const COLS: usize>(
    t: Tensor<T, ROWS, COLS>,
    row_sums: Tensor<T, ROWS, 1>,
    col_sums: Tensor<T, 1, COLS>,
    of_rows: T,
    of_cols: T,
    total: T,
)
    requires
        forall|i: int| 0 <= i < ROWS ==> can_sum(#[trigger] t.row(i)),
        forall|i: int| 0 <= i < ROWS ==> is_sum(#[trigger] row_sums.at(i, 0), t.row(i)),
        can_sum(row_sums.cells()),
        is_sum(of_rows, row_sums.cells()),
        forall|j: int| 0 <= j < COLS ==> can_sum(#[trigger] t.col(j)),
        forall|j: int| 0 <= j < COLS ==> is_sum(#[trigger] col_sums.at(0, j), t.col(j)),
        can_sum(col_sums.cells()),
        is_sum(of_cols, col_sums.cells()),
        can_sum(t.cells()),
        is_sum(total, t.cells()),
    ensures
        of_rows == total,
        of_cols == total,
{
    T::lemma_integer();
    lemma_is_sum_as_int(total, t.cells());
    lemma_first_rows_sum(t, ROWS as int);
    lemma_blocks_agree(t, ROWS as int, COLS as int);

    let rs = row_sums.col(0);
    assert forall|i: int| 0 <= i < ROWS implies (#[trigger] rs[i]).as_int() == int_sum(
        t.row(i),
    ) by {
        assert(is_sum(row_sums.at(i, 0), t.row(i)));
        lemma_is_sum_as_int(row_sums.at(i, 0), t.row(i));
    }
    lemma_sum_of_row_sums(t, rs, ROWS as int);
    assert(rs.take(ROWS as int) =~= rs);
    lemma_is_sum_as_int(of_rows, row_sums.cells());
    row_sums.lemma_single_column_cells();

    let cs = col_sums.row(0);
    assert forall|j: int| 0 <= j < COLS implies (#[trigger] cs[j]).as_int() == int_sum(
        t.col(j),
    ) by {
        assert(is_sum(col_sums.at(0, j), t.col(j)));
        lemma_is_sum_as_int(col_sums.at(0, j), t.col(j));
    }
    lemma_sum_of_col_sums(t, cs, COLS as int);
    assert(cs.take(COLS as int) =~= cs);
    lemma_is_sum_as_int(of_cols, col_sums.cells());
    assert(col_sums.first_rows(0) =~= Seq::<T>::empty());
    assert(col_sums.cells() =~= cs);
}

/// In a total order the first greatest item is what its name says: no item
/// is greater, and every item before it is less.
pub proof fn lemma_argmax_is_first_greatest<T: PartialOrd>(s: Seq<T>)
    requires
        s.len() > 0,
        is_total_order::<T>(),
    ensures
        0 <= argmax_of(s) < s.len(),
        forall|k: int| 0 <= k < s.len() ==> !greater(#[trigger] s[k], max_of(s)),
        forall|k: int| 0 <= k < argmax_of(s) ==> greater(max_of(s), #[trigger] s[k]),
    decreases s.len(),
{
    if s.len() > 1 {
        let front = s.drop_last();
        lemma_argmax_is_first_greatest(front);
        let held = front[argmax_of(front)];
        assert(max_of(front) == held);
        if greater(s.last(), held) {
            assert forall|k: int| 0 <= k < s.len() implies !greater(#[trigger] s[k], s.last()) by {
                if k < front.len() {
                    assert(front[k] == s[k]);
                    if greater(s[k], s.last()) {
                        assert(greater(s[k], held));
                    }
                }
            }
            assert forall|k: int| 0 <= k < s.len() - 1 implies greater(s.last(), #[trigger] s[k]) by {
                assert(front[k] == s[k]);
                assert(!greater(s[k], held));
                if s[k] != held {
                    assert(greater(held, s[k]) || greater(s[k], held));
                }
            }
        } else {
            assert forall|k: int| 0 <= k < s.len() implies !greater(#[trigger] s[k], held) by {
                if k < front.len() {
                    assert(front[k] == s[k]);
                }
            }
            assert forall|k: int| 0 <= k < argmax_of(front) implies greater(held, #[trigger] s[k]) by {
                assert(front[k] == s[k]);
            }
        }
    }
}

/// The primitive integer types compare as their specification says, and
/// stand in a line.
pub proof fn lemma_integers_are_totally_ordered()
    ensures
        orders_by_spec::<i8>() && is_total_order::<i8>(),
        orders_by_spec::<i16>() && is_total_order::<i16>(),
        orders_by_spec::<i32>() && is_total_order::<i32>(),
        orders_by_spec::<i64>() && is_total_order::<i64>(),
        orders_by_spec::<i128>() && is_total_order::<i128>(),
        orders_by_spec::<isize>() && is_total_order::<isize>(),
        orders_by_spec::<u8>() && is_total_order::<u8>(),
        orders_by_spec::<u16>() && is_total_order::<u16>(),
        orders_by_spec::<u32>() && is_total_order::<u32>(),
        orders_by_spec::<u64>() && is_total_order::<u64>(),
        orders_by_spec::<u128>() && is_total_order::<u128>(),
        orders_by_spec::<usize>() && is_total_order::<usize>(),
{
}

} // verus!
