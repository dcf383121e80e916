//! Reductions: of the whole tensor to one value, and along an axis to one
//! value for each row or for each column.

use core::ops::Add;
use core::ops::Div;
use crate::element::argmax_items;
use crate::element::argmax_of;
use crate::element::can_ask_every;
use crate::element::can_sum;
use crate::element::can_sum_from;
use crate::element::differs_from_zero;
use crate::element::is_mean;
use crate::element::is_mean_from;
use crate::element::is_sum;
use crate::element::is_zero;
use crate::element::lemma_can_sum_start;
use crate::element::max_of;
use crate::element::orders_by_spec;
use crate::element::says_of_every;
use crate::element::says_of_some;
use crate::element::sum_from;
use crate::element::sum_items;
use crate::outside::count_as;
use crate::tensor::Axis;
use crate::tensor::AxisRes;
use crate::tensor::Tensor;
use vstd::prelude::*;
use vstd::std_specs::cmp::PartialEqSpec;
use vstd::std_specs::ops::AddSpec;
use vstd::std_specs::ops::DivSpec;

verus! {

impl<T, const ROWS: usize, const COLS: usize> Tensor<T, ROWS, COLS> {
    /// Reads cell `k` of line `l` along `axis`.
    fn get_in_line(&self, axis: Axis, l: usize, k: usize) -> (out: T) where T: Copy
        requires
            l < Self::lines(axis),
            k < Self::line_len(axis),
        ensures
            out == self.line(axis, l as int)[k as int],
    {
        match axis {
            Axis::Row => self.get(l, k),
            Axis::Col => self.get(k, l),
        }
    }

    /// Gives each line along `axis` the value that `f` finds for it.
    fn collect_lines<U, F>(axis: Axis, f: F) -> (out: AxisRes<U, ROWS, COLS>) where
        U: Default + Copy,
        F: Fn(usize) -> U,

        requires
            forall|l: usize| l < Self::lines(axis) ==> call_requires(f, (l,)),
        ensures
            out.is_along(axis),
            forall|l: usize|
                l < Self::lines(axis) ==> call_ensures(f, (l,), #[trigger] out.value(l as int)),
    {
        match axis {
            Axis::Row => {
                let mut result = Tensor::<U, ROWS, 1>::new();
                for l in 0..ROWS
                    invariant
                        forall|l: usize| l < ROWS ==> call_requires(f, (l,)),
                        forall|a: usize|
                            a < l ==> call_ensures(f, (a,), #[trigger] result.at(a as int, 0)),
                {
                    let v = f(l);
                    result.set(l, 0, v);
                }
                AxisRes::Row(result)
            },
            Axis::Col => {
                let mut result = Tensor::<U, 1, COLS>::new();
                for l in 0..COLS
                    invariant
                        forall|l: usize| l < COLS ==> call_requires(f, (l,)),
                        forall|a: usize|
                            a < l ==> call_ensures(f, (a,), #[trigger] result.at(0, a as int)),
                {
                    let v = f(l);
                    result.set(0, l, v);
                }
                AxisRes::Col(result)
            },
        }
    }

    /// The sum of all cells, added up in row-major order from a zero of `T`.
    pub fn sum(&self) -> (out: T) where T: Default + Add<Output = T> + Copy
        requires
            can_sum(self.cells()),
        ensures
            is_sum(out, self.cells()),
    {
        let z = T::default();
        assert(is_zero(z));
        assert(can_sum(self.cells()));
        assert(can_sum_from(z, self.cells()));
        let mut acc = z;
        for i in 0..ROWS
            invariant
                T::obeys_add_spec(),
                can_sum_from(z, self.cells()),
                acc == sum_from(z, self.first_rows(i as nat)),
        {
            proof {
                if COLS > 0 {
                    self.lemma_cells_before_step(i as int, 0);
                } else {
                    assert(self.row(i as int) =~= Seq::<T>::empty());
                    assert(self.cells_before(i as int, 0) =~= self.first_rows(i as nat));
                }
            }
            for j in 0..COLS
                invariant
                    i < ROWS,
                    T::obeys_add_spec(),
                    can_sum_from(z, self.cells()),
                    acc == sum_from(z, self.cells_before(i as int, j as int)),
            {
                let x = self.get(i, j);
                proof {
                    self.lemma_cells_before_step(i as int, j as int);
                    let next = self.cells_before(i as int, j + 1);
                    lemma_can_sum_start(z, next, self.cells());
                    assert(next.drop_last() =~= self.cells_before(i as int, j as int));
                }
                acc = acc + x;
            }
            proof {
                if COLS > 0 {
                    self.lemma_cells_before_step(i as int, 0);
                } else {
                    assert(self.row(i as int) =~= Seq::<T>::empty());
                    assert(self.cells_before(i as int, 0) =~= self.first_rows((i + 1) as nat));
                }
            }
        }
        acc
    }

    /// The sum of each line along `axis`: of each row for `Axis::Row`, of each
    /// column for `Axis::Col`, added up from its first cell to its last.
    pub fn sum_axis(&self, axis: Axis) -> (out: AxisRes<T, ROWS, COLS>) where
        T: Default + Copy + Add<Output = T>,

        requires
            forall|l: int| 0 <= l < Self::lines(axis) ==> can_sum(#[trigger] self.line(axis, l)),
        ensures
            out.is_along(axis),
            forall|l: int|
                0 <= l < Self::lines(axis) ==> is_sum(
                    #[trigger] out.value(l),
                    self.line(axis, l),
                ),
    {
        let len = match axis {
            Axis::Row => COLS,
            Axis::Col => ROWS,
        };
        let sum_line = |l: usize| -> (v: T)
            requires
                l < Self::lines(axis),
            ensures
                is_sum(v, self.line(axis, l as int)),
            {
                let cell = |k: usize| -> (x: T)
                    requires
                        k < Self::line_len(axis),
                    ensures
                        x == self.line(axis, l as int)[k as int],
                    {
                        self.get_in_line(axis, l, k)
                    };
                assert(can_sum(self.line(axis, l as int)));
                sum_items(len, cell, Ghost(self.line(axis, l as int)))
            };
        let out = Self::collect_lines(axis, sum_line);
        assert forall|l: int| 0 <= l < Self::lines(axis) implies is_sum(
            #[trigger] out.value(l),
            self.line(axis, l),
        ) by {
            let lu = l as usize;
            assert(call_ensures(sum_line, (lu,), out.value(lu as int)));
        }
        out
    }

    /// The sum of all cells divided by `count`.
    pub fn mean_with(&self, count: T) -> (out: T) where
        T: Default + Add<Output = T> + Div<Output = T> + Copy,

        requires
            can_sum(self.cells()),
            forall|total: T| is_sum(total, self.cells()) ==> total.div_req(count),
        ensures
            is_mean(out, self.cells(), count),
    {
        let total = self.sum();
        let out = total / count;
        assert(is_sum(total, self.cells()) && (T::obeys_div_spec() ==> out == total.div_spec(count)));
        out
    }

    /// The mean of all cells, given what their number has been converted
    /// to: the sum divided by that count, and `None` where there is no
    /// count or the count is the zero of `T`.
    pub fn mean_from(&self, count: Option<T>) -> (out: Option<T>) where
        T: Default + Add<Output = T> + Div<Output = T> + Copy + PartialEq,

        requires
            can_sum(self.cells()),
            forall|total: T|
                is_sum(total, self.cells()) && count is Some && differs_from_zero(count->Some_0)
                    ==> #[trigger] total.div_req(count->Some_0),
        ensures
            is_mean_from(out, self.cells(), count),
    {
        let divisor = match count {
            Some(divisor) => divisor,
            None => {
                return None;
            },
        };
        let zero = T::default();
        if divisor == zero {
            assert(is_zero(zero) && (T::obeys_eq_spec() ==> divisor.eq_spec(&zero)));
            return None;
        }
        assert(is_zero(zero) && (T::obeys_eq_spec() ==> !divisor.eq_spec(&zero)));
        let out = Some(self.mean_with(divisor));
        assert(differs_from_zero(divisor) && is_mean(out->Some_0, self.cells(), divisor));
        out
    }

    /// The mean of all cells: their sum divided by their number, which
    /// `T` converts from a count. `None` where there are more cells than can
    /// be counted, where `T` has no value for their number, and where that
    /// value is the zero of `T`, as it is for a tensor without cells.
    pub fn mean(&self) -> (out: Option<T>) where
        T: Default + Add<Output = T> + Div<Output = T> + Copy + PartialEq
            + num_traits::FromPrimitive,

        requires
            can_sum(self.cells()),
            forall|total: T, count: T|
                is_sum(total, self.cells()) && differs_from_zero(count) ==> #[trigger] total.div_req(
                    count,
                ),
        ensures
            ROWS * COLS > usize::MAX ==> out is None,
            ROWS * COLS <= usize::MAX ==> exists|count: Option<T>| #[trigger]
                is_mean_from(out, self.cells(), count),
    {
        let n = match ROWS.checked_mul(COLS) {
            Some(n) => n,
            None => {
                return None;
            },
        };
        let converted = count_as::<T>(n);
        let out = self.mean_from(converted);
        assert(is_mean_from(out, self.cells(), converted));
        out
    }

    /// The greatest cell: the first one, in row-major order, that no later
    /// cell is greater than on its way through the tensor.
    pub fn max(&self) -> (out: T) where T: Default + PartialOrd + Copy
        requires
            ROWS > 0,
            COLS > 0,
        ensures
            exists|i: int, j: int| 0 <= i < ROWS && 0 <= j < COLS && out == self.at(i, j),
            orders_by_spec::<T>() ==> out == max_of(self.cells()),
    {
        let mut best = self.get(0, 0);
        let ghost mut at_i = 0int;
        let ghost mut at_j = 0int;
        for i in 0..ROWS
            invariant
                COLS > 0,
                0 <= at_i < ROWS && 0 <= at_j < COLS && best == self.at(at_i, at_j),
                i == 0 ==> best == self.at(0, 0),
                i > 0 ==> self.first_rows(i as nat).len() > 0 && (orders_by_spec::<T>() ==> best
                    == max_of(self.first_rows(i as nat))),
        {
            proof {
                self.lemma_cells_before_step(i as int, 0);
            }
            for j in 0..COLS
                invariant
                    i < ROWS,
                    COLS > 0,
                    0 <= at_i < ROWS && 0 <= at_j < COLS && best == self.at(at_i, at_j),
                    i == 0 && j == 0 ==> best == self.at(0, 0),
                    self.cells_before(i as int, j as int).len() == self.first_rows(i as nat).len()
                        + j,
                    i > 0 ==> self.first_rows(i as nat).len() > 0,
                    i > 0 || j > 0 ==> (orders_by_spec::<T>() ==> best == max_of(
                        self.cells_before(i as int, j as int),
                    )),
            {
                let x = self.get(i, j);
                proof {
                    self.lemma_cells_before_step(i as int, j as int);
                    let seen = self.cells_before(i as int, j as int);
                    let next = self.cells_before(i as int, j + 1);
                    assert(next.drop_last() =~= seen);
                    if seen.len() > 0 {
                        crate::element::lemma_argmax_in_range(seen);
                    }
                }
                if x > best {
                    best = x;
                    proof {
                        at_i = i as int;
                        at_j = j as int;
                    }
                }
            }
            proof {
                self.lemma_cells_before_step(i as int, 0);
            }
        }
        best
    }

    /// The greatest cell of each line along `axis`: of each row for
    /// `Axis::Row`, of each column for `Axis::Col`. Among equals it is the
    /// first one.
    pub fn max_axis(&self, axis: Axis) -> (out: AxisRes<T, ROWS, COLS>) where
        T: Default + Copy + PartialOrd,

        requires
            Self::lines(axis) > 0 ==> Self::line_len(axis) > 0,
        ensures
            out.is_along(axis),
            forall|l: int|
                0 <= l < Self::lines(axis) ==> self.line(axis, l).contains(#[trigger] out.value(l)),
            orders_by_spec::<T>() ==> forall|l: int|
                0 <= l < Self::lines(axis) ==> #[trigger] out.value(l) == max_of(
                    self.line(axis, l),
                ),
    {
        let len = match axis {
            Axis::Row => COLS,
            Axis::Col => ROWS,
        };
        let max_line = |l: usize| -> (v: T)
            requires
                l < Self::lines(axis),
            ensures
                self.line(axis, l as int).contains(v),
                orders_by_spec::<T>() ==> v == max_of(self.line(axis, l as int)),
            {
                let cell = |k: usize| -> (x: T)
                    requires
                        k < Self::line_len(axis),
                    ensures
                        x == self.line(axis, l as int)[k as int],
                    {
                        self.get_in_line(axis, l, k)
                    };
                let place = argmax_items(len, cell, Ghost(self.line(axis, l as int)));
                self.get_in_line(axis, l, place)
            };
        let out = Self::collect_lines(axis, max_line);
        assert forall|l: int| 0 <= l < Self::lines(axis) implies self.line(axis, l).contains(
            #[trigger] out.value(l),
        ) && (orders_by_spec::<T>() ==> out.value(l) == max_of(self.line(axis, l))) by {
            let lu = l as usize;
            assert(call_ensures(max_line, (lu,), out.value(lu as int)));
        }
        out
    }

    /// The place of the greatest cell in each line along `axis`: for
    /// `Axis::Row` the column of the greatest cell of each row, for
    /// `Axis::Col` the row of the greatest cell of each column. Among equals
    /// the lowest place wins. There is no such place, and the result is
    /// `None`, where the lines have no cells.
    pub fn argmax(&self, axis: Axis) -> (out: Option<AxisRes<usize, ROWS, COLS>>) where
        T: Copy + PartialOrd,

        ensures
            out is None <==> Self::line_len(axis) == 0,
            out matches Some(places) ==> {
                &&& places.is_along(axis)
                &&& forall|l: int|
                    0 <= l < Self::lines(axis) ==> 0 <= #[trigger] places.value(l)
                        < Self::line_len(axis)
                &&& orders_by_spec::<T>() ==> forall|l: int|
                    0 <= l < Self::lines(axis) ==> #[trigger] places.value(l) == argmax_of(
                        self.line(axis, l),
                    )
            },
    {
        let len = match axis {
            Axis::Row => COLS,
            Axis::Col => ROWS,
        };
        if len == 0 {
            return None;
        }
        let place_in_line = |l: usize| -> (place: usize)
            requires
                l < Self::lines(axis),
            ensures
                place < Self::line_len(axis),
                orders_by_spec::<T>() ==> place == argmax_of(self.line(axis, l as int)),
            {
                let cell = |k: usize| -> (x: T)
                    requires
                        k < Self::line_len(axis),
                    ensures
                        x == self.line(axis, l as int)[k as int],
                    {
                        self.get_in_line(axis, l, k)
                    };
                argmax_items(len, cell, Ghost(self.line(axis, l as int)))
            };
        let places = Tensor::<usize, ROWS, COLS>::collect_lines(axis, place_in_line);
        assert forall|l: int| 0 <= l < Self::lines(axis) implies 0 <= #[trigger] places.value(l)
            < Self::line_len(axis) && (orders_by_spec::<T>() ==> places.value(l) == argmax_of(
            self.line(axis, l),
        )) by {
            let lu = l as usize;
            assert(call_ensures(place_in_line, (lu,), places.value(lu as int)));
        }
        Some(places)
    }

    /// Tells of line `l` along `axis` whether `f` holds of one of its cells
    /// (`want` is `true`), or whether it fails of one (`want` is `false`).
    fn some_in_line<F>(&self, axis: Axis, l: usize, f: &F, want: bool) -> (out: bool) where
        F: Fn(&T) -> bool,
        T: Copy,

        requires
            l < Self::lines(axis),
            can_ask_every(f, self.line(axis, l as int)),
        ensures
            out ==> says_of_some(f, self.line(axis, l as int), want),
            !out ==> says_of_every(f, self.line(axis, l as int), !want),
    {
        let len = match axis {
            Axis::Row => COLS,
            Axis::Col => ROWS,
        };
        let ghost line = self.line(axis, l as int);
        let mut found = false;
        for k in 0..len
            invariant
                len == line.len(),
                line == self.line(axis, l as int),
                l < Self::lines(axis),
                can_ask_every(f, line),
                found ==> says_of_some(f, line, want),
                !found ==> forall|a: int|
                    0 <= a < k ==> call_ensures(*f, (&#[trigger] line[a],), !want),
        {
            let x = self.get_in_line(axis, l, k);
            assert(x == line[k as int]);
            if f(&x) == want {
                found = true;
            }
        }
        found
    }

    /// For each line along `axis`, whether `f` holds of at least one of its
    /// cells: `true` only where `f` said `true` of a cell of the line,
    /// `false` only where it said `false` of every one.
    pub fn any<F>(&self, axis: Axis, f: F) -> (out: AxisRes<bool, ROWS, COLS>) where
        F: Fn(&T) -> bool,
        T: Default + Copy,

        requires
            forall|l: int|
                0 <= l < Self::lines(axis) ==> can_ask_every(&f, #[trigger] self.line(axis, l)),
        ensures
            out.is_along(axis),
            forall|l: int|
                0 <= l < Self::lines(axis) ==> if #[trigger] out.value(l) {
                    says_of_some(&f, self.line(axis, l), true)
                } else {
                    says_of_every(&f, self.line(axis, l), false)
                },
    {
        let pred = &f;
        let any_line = |l: usize| -> (v: bool)
            requires
                l < Self::lines(axis),
            ensures
                v ==> says_of_some(pred, self.line(axis, l as int), true),
                !v ==> says_of_every(pred, self.line(axis, l as int), false),
            {
                assert(can_ask_every(pred, self.line(axis, l as int)));
                self.some_in_line(axis, l, pred, true)
            };
        let out = Tensor::<bool, ROWS, COLS>::collect_lines(axis, any_line);
        assert forall|l: int| 0 <= l < Self::lines(axis) implies call_ensures(
            any_line,
            (l as usize,),
            #[trigger] out.value(l),
        ) by {
            let lu = l as usize;
            assert(call_ensures(any_line, (lu,), out.value(lu as int)));
        }
        out
    }

    /// For each line along `axis`, whether `f` holds of all of its cells:
    /// `true` only where `f` said `true` of every cell of the line, `false`
    /// only where it said `false` of one.
    pub fn all<F>(&self, axis: Axis, f: F) -> (out: AxisRes<bool, ROWS, COLS>) where
        F: Fn(&T) -> bool,
        T: Default + Copy,

        requires
            forall|l: int|
                0 <= l < Self::lines(axis) ==> can_ask_every(&f, #[trigger] self.line(axis, l)),
        ensures
            out.is_along(axis),
            forall|l: int|
                0 <= l < Self::lines(axis) ==> if #[trigger] out.value(l) {
                    says_of_every(&f, self.line(axis, l), true)
                } else {
                    says_of_some(&f, self.line(axis, l), false)
                },
    {
        let pred = &f;
        let all_line = |l: usize| -> (v: bool)
            requires
                l < Self::lines(axis),
            ensures
                v ==> says_of_every(pred, self.line(axis, l as int), true),
                !v ==> says_of_some(pred, self.line(axis, l as int), false),
            {
                assert(can_ask_every(pred, self.line(axis, l as int)));
                !self.some_in_line(axis, l, pred, false)
            };
        let out = Tensor::<bool, ROWS, COLS>::collect_lines(axis, all_line);
        assert forall|l: int| 0 <= l < Self::lines(axis) implies call_ensures(
            all_line,
            (l as usize,),
            #[trigger] out.value(l),
        ) by {
            let lu = l as usize;
            assert(call_ensures(all_line, (lu,), out.value(lu as int)));
        }
        out
    }
}

} // verus!
