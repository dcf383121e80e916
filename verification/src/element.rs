//! What the tensor operations ask of the type of a cell, and the
//! mathematical vocabulary that their contracts are written in.

use core::ops::Add;
use core::ops::Div;
use vstd::prelude::*;
use vstd::std_specs::cmp::PartialEqSpec;
use vstd::std_specs::cmp::PartialOrdIs;
use vstd::std_specs::cmp::PartialOrdSpec;
use vstd::std_specs::ops::AddSpec;
use vstd::std_specs::ops::DivSpec;

verus! {

/// `z` is a value that `T::default()` can return: for a numeric type, its zero.
pub open spec fn is_zero<T: Default>(z: T) -> bool {
    call_ensures(T::default, (), z)
}

/// The running sum `((z + s[0]) + s[1]) + ...`, taken with the addition of `T`.
pub open spec fn sum_from<T: Add<Output = T>>(z: T, s: Seq<T>) -> T
    decreases s.len(),
{
    if s.len() == 0 {
        z
    } else {
        sum_from(z, s.drop_last()).add_spec(s.last())
    }
}

/// Each addition of the running sum from `z` over `s` is one that `T` allows.
pub open spec fn can_sum_from<T: Add<Output = T>>(z: T, s: Seq<T>) -> bool
    decreases s.len(),
{
    s.len() == 0 || (can_sum_from(z, s.drop_last()) && sum_from(z, s.drop_last()).add_req(
        s.last(),
    ))
}

/// `T` adds as its specification says, and the running sum over `s` can be
/// taken from every zero of `T`.
pub open spec fn can_sum<T: Add<Output = T> + Default>(s: Seq<T>) -> bool {
    T::obeys_add_spec() && forall|z: T| is_zero(z) ==> can_sum_from(z, s)
}

/// `total` is the running sum over `s` from a zero of `T`.
pub open spec fn is_sum<T: Add<Output = T> + Default>(total: T, s: Seq<T>) -> bool {
    exists|z: T| is_zero(z) && total == sum_from(z, s)
}

/// `count` is a value to divide by: the equality of `T` sets it apart from
/// a zero of `T`.
pub open spec fn differs_from_zero<T: Default + PartialEq>(count: T) -> bool {
    exists|zero: T| is_zero(zero) && (T::obeys_eq_spec() ==> !count.eq_spec(&zero))
}

/// The equality of `T` takes `count` for a zero of `T`.
pub open spec fn equals_zero<T: Default + PartialEq>(count: T) -> bool {
    exists|zero: T| is_zero(zero) && (T::obeys_eq_spec() ==> count.eq_spec(&zero))
}

/// `share` is `part` divided by `whole`, and `whole` is a value to divide
/// by.
pub open spec fn is_share<T: Default + PartialEq + Div<Output = T>>(
    share: T,
    part: T,
    whole: T,
) -> bool {
    differs_from_zero(whole) && (T::obeys_div_spec() ==> share == part.div_spec(whole))
}

/// `mean` is the running sum over `s` from a zero of `T`, divided by `count`.
pub open spec fn is_mean<T: Add<Output = T> + Div<Output = T> + Default>(
    mean: T,
    s: Seq<T>,
    count: T,
) -> bool {
    exists|total: T| #[trigger]
        is_sum(total, s) && (T::obeys_div_spec() ==> mean == total.div_spec(count))
}

/// `out` is what a mean over `s` comes to once the number of items has been
/// converted to `count`, which is `None` where `T` has no value for it: the
/// mean by that count, and `None` where there is no count or it is zero.
pub open spec fn is_mean_from<T: Add<Output = T> + Div<Output = T> + Default + PartialEq>(
    out: Option<T>,
    s: Seq<T>,
    count: Option<T>,
) -> bool {
    match out {
        Some(mean) => count matches Some(c) && differs_from_zero(c) && is_mean(mean, s, c),
        None => count matches Some(c) ==> equals_zero(c),
    }
}

/// `out` is what a share comes to once the two numbers of rows have been
/// converted to `part` and `whole`, each `None` where `T` has no value for
/// it: their quotient, and `None` where one of them is missing or `whole`
/// is zero.
pub open spec fn is_share_from<T: Default + PartialEq + Div<Output = T>>(
    out: Option<T>,
    part: Option<T>,
    whole: Option<T>,
) -> bool {
    match out {
        Some(share) => part matches Some(p) && whole matches Some(w) && is_share(share, p, w),
        None => (part is Some && whole is Some) ==> equals_zero(whole->Some_0),
    }
}

/// A running sum that can be taken over `s` can be taken over each prefix of `s`.
pub proof fn lemma_can_sum_prefix<T: Add<Output = T>>(z: T, s: Seq<T>, n: int)
    requires
        can_sum_from(z, s),
        0 <= n <= s.len(),
    ensures
        can_sum_from(z, s.take(n)),
    decreases s.len(),
{
    if n < s.len() {
        lemma_can_sum_prefix(z, s.drop_last(), n);
        assert(s.drop_last().take(n) =~= s.take(n));
    } else {
        assert(s.take(n) =~= s);
    }
}

/// One more step of a running sum: the sum over the first `n + 1` items is
/// the sum over the first `n` plus item `n`.
pub proof fn lemma_sum_step<T: Add<Output = T>>(z: T, s: Seq<T>, n: int)
    requires
        0 <= n < s.len(),
    ensures
        sum_from(z, s.take(n + 1)) == sum_from(z, s.take(n)).add_spec(s[n]),
        can_sum_from(z, s.take(n + 1)) ==> sum_from(z, s.take(n)).add_req(s[n]),
{
    assert(s.take(n + 1).drop_last() =~= s.take(n));
    assert(s.take(n + 1).last() == s[n]);
}

/// `f` can be asked of every item of `s`.
pub open spec fn can_ask_every<T, F: Fn(&T) -> bool>(f: &F, s: Seq<T>) -> bool {
    forall|k: int| 0 <= k < s.len() ==> call_requires(*f, (&#[trigger] s[k],))
}

/// Asked of some item of `s`, `f` can say `answer`.
pub open spec fn says_of_some<T, F: Fn(&T) -> bool>(f: &F, s: Seq<T>, answer: bool) -> bool {
    exists|k: int| 0 <= k < s.len() && call_ensures(*f, (&#[trigger] s[k],), answer)
}

/// Asked of any item of `s`, `f` can say `answer`.
pub open spec fn says_of_every<T, F: Fn(&T) -> bool>(f: &F, s: Seq<T>, answer: bool) -> bool {
    forall|k: int| 0 <= k < s.len() ==> call_ensures(*f, (&#[trigger] s[k],), answer)
}

/// A running sum that can be taken over `s` can be taken over each sequence
/// that `s` starts with.
pub proof fn lemma_can_sum_start<T: Add<Output = T>>(z: T, start: Seq<T>, s: Seq<T>)
    requires
        can_sum_from(z, s),
        start.is_prefix_of(s),
    ensures
        can_sum_from(z, start),
{
    lemma_can_sum_prefix(z, s, start.len() as int);
    assert(s.take(start.len() as int) =~= start);
}

/// The comparisons of `T` give what its specification says.
pub open spec fn orders_by_spec<T: PartialOrd>() -> bool {
    T::obeys_partial_cmp_spec()
}

/// The place of the first greatest item of `s`: going through `s` from the
/// front, the place moves on only to an item greater than the one it holds.
pub open spec fn argmax_of<T: PartialOrd>(s: Seq<T>) -> int
    decreases s.len(),
{
    if s.len() <= 1 {
        0
    } else {
        let k = argmax_of(s.drop_last());
        if s.last().is_gt(&s[k]) {
            s.len() - 1
        } else {
            k
        }
    }
}

/// The first greatest item of `s`.
pub open spec fn max_of<T: PartialOrd>(s: Seq<T>) -> T {
    s[argmax_of(s)]
}

/// `x` is greater than `y`, as `T` compares.
pub open spec fn greater<T: PartialOrd>(x: T, y: T) -> bool {
    x.is_gt(&y)
}

/// The values of `T` stand in a line: none is greater than itself, what is
/// greater than a greater one is greater, and of two values that differ one
/// is the greater.
pub open spec fn is_total_order<T: PartialOrd>() -> bool {
    &&& forall|x: T| !(#[trigger] greater(x, x))
    &&& forall|x: T, y: T, z: T| #[trigger] greater(x, y) && #[trigger] greater(y, z) ==> greater(x, z)
    &&& forall|x: T, y: T| #[trigger] greater(x, y) || greater(y, x) || x == y
}

/// The place that `argmax_of` gives is a place of `s`.
pub proof fn lemma_argmax_in_range<T: PartialOrd>(s: Seq<T>)
    requires
        s.len() > 0,
    ensures
        0 <= argmax_of(s) < s.len(),
    decreases s.len(),
{
    if s.len() > 1 {
        lemma_argmax_in_range(s.drop_last());
    }
}

/// Taking one more item into account: the first greatest of the first
/// `n + 1` items is item `n` if that is greater than the first greatest of
/// the first `n`, which it is otherwise.
pub proof fn lemma_argmax_step<T: PartialOrd>(s: Seq<T>, n: int)
    requires
        0 < n < s.len(),
    ensures
        0 <= argmax_of(s.take(n)) < n,
        argmax_of(s.take(n + 1)) == if s[n].is_gt(&s[argmax_of(s.take(n))]) {
            n
        } else {
            argmax_of(s.take(n))
        },
{
    lemma_argmax_in_range(s.take(n));
    assert(s.take(n + 1).drop_last() =~= s.take(n));
}

/// Finds the place of the first greatest of `n` items; `item` reads the
/// `k`th, which is `s[k]`.
pub(crate) fn argmax_items<T, F>(n: usize, item: F, Ghost(s): Ghost<Seq<T>>) -> (place: usize) where
    T: PartialOrd + Copy,
    F: Fn(usize) -> T,

    requires
        n > 0,
        s.len() == n,
        forall|k: usize| k < n ==> call_requires(item, (k,)),
        forall|k: usize, v: T| k < n && call_ensures(item, (k,), v) ==> v == s[k as int],
    ensures
        place < n,
        orders_by_spec::<T>() ==> place == argmax_of(s),
{
    let mut best: usize = 0;
    let mut best_val = item(0);
    for k in 1..n
        invariant
            s.len() == n,
            forall|k: usize| k < n ==> call_requires(item, (k,)),
            forall|k: usize, v: T| k < n && call_ensures(item, (k,), v) ==> v == s[k as int],
            best < k,
            best_val == s[best as int],
            orders_by_spec::<T>() ==> best == argmax_of(s.take(k as int)),
    {
        let x = item(k);
        proof {
            lemma_argmax_step(s, k as int);
        }
        if x > best_val {
            best = k;
            best_val = x;
        }
    }
    assert(s.take(n as int) =~= s);
    best
}

/// Adds up `n` items from a zero of `T`, in order; `item` reads the `k`th,
/// which is `s[k]`.
pub(crate) fn sum_items<T, F>(n: usize, item: F, Ghost(s): Ghost<Seq<T>>) -> (total: T) where
    T: Add<Output = T> + Default + Copy,
    F: Fn(usize) -> T,

    requires
        s.len() == n,
        can_sum(s),
        forall|k: usize| k < n ==> call_requires(item, (k,)),
        forall|k: usize, v: T| k < n && call_ensures(item, (k,), v) ==> v == s[k as int],
    ensures
        is_sum(total, s),
{
    let z = T::default();
    assert(is_zero(z));
    assert(can_sum(s));
    assert(can_sum_from(z, s));
    let mut acc = z;
    for k in 0..n
        invariant
            s.len() == n,
            T::obeys_add_spec(),
            is_zero(z),
            can_sum_from(z, s),
            forall|k: usize| k < n ==> call_requires(item, (k,)),
            forall|k: usize, v: T| k < n && call_ensures(item, (k,), v) ==> v == s[k as int],
            acc == sum_from(z, s.take(k as int)),
    {
        let x = item(k);
        proof {
            lemma_can_sum_prefix(z, s, k + 1);
            lemma_sum_step(z, s, k as int);
        }
        acc = acc + x;
    }
    assert(s.take(n as int) =~= s);
    acc
}

} // verus!
