//! The cell types that are integers: for them the operators that the tensor
//! operations use are those of the integers, wherever the result fits the
//! type, and what holds of sums and products of integers holds of tensors.

use core::ops::Add;
use core::ops::Mul;
use core::ops::Sub;
use crate::element::can_sum;
use crate::element::can_sum_from;
use crate::element::is_sum;
use crate::element::is_zero;
use crate::element::sum_from;
use vstd::prelude::*;
use vstd::std_specs::ops::AddSpec;
use vstd::std_specs::ops::MulSpec;
use vstd::std_specs::ops::SubSpec;

verus! {

/// A primitive integer type, seen as a range of the integers.
pub trait Integer: Copy + Default + Add<Output = Self> + Sub<Output = Self> + Mul<Output = Self> {
    /// The integer that the value stands for.
    spec fn as_int(self) -> int;

    /// The least integer that the type holds.
    spec fn least() -> int;

    /// The greatest integer that the type holds.
    spec fn greatest() -> int;

    /// `n` is an integer that the type holds.
    open spec fn fits(n: int) -> bool {
        Self::least() <= n <= Self::greatest()
    }

    /// The type holds the integers from `least()` to `greatest()`, each
    /// once, with 0 as its zero, and adds, subtracts and multiplies them as
    /// integers wherever the result is among them.
    proof fn lemma_integer()
        ensures
            forall|x: Self| Self::fits(#[trigger] x.as_int()),
            forall|x: Self, y: Self|
                #![trigger x.as_int(), y.as_int()]
                x.as_int() == y.as_int() ==> x == y,
            forall|z: Self| #[trigger] is_zero(z) ==> z.as_int() == 0,
            Self::obeys_add_spec(),
            Self::obeys_sub_spec(),
            Self::obeys_mul_spec(),
            forall|x: Self, y: Self| #[trigger]
                x.add_req(y) <==> Self::fits(x.as_int() + y.as_int()),
            forall|x: Self, y: Self|
                Self::fits(x.as_int() + y.as_int()) ==> (#[trigger] x.add_spec(y)).as_int()
                    == x.as_int() + y.as_int(),
            forall|x: Self, y: Self| #[trigger]
                x.sub_req(y) <==> Self::fits(x.as_int() - y.as_int()),
            forall|x: Self, y: Self|
                Self::fits(x.as_int() - y.as_int()) ==> (#[trigger] x.sub_spec(y)).as_int()
                    == x.as_int() - y.as_int(),
            forall|x: Self, y: Self| #[trigger]
                x.mul_req(y) <==> Self::fits(x.as_int() * y.as_int()),
            forall|x: Self, y: Self|
                Self::fits(x.as_int() * y.as_int()) ==> (#[trigger] x.mul_spec(y)).as_int()
                    == x.as_int() * y.as_int(),
    ;
}

impl Integer for i8 {
    open spec fn as_int(self) -> int {
        self as int
    }

    open spec fn least() -> int {
        i8::MIN as int
    }

    open spec fn greatest() -> int {
        i8::MAX as int
    }

    proof fn lemma_integer() {
    }
}

impl Integer for i16 {
    open spec fn as_int(self) -> int {
        self as int
    }

    open spec fn least() -> int {
        i16::MIN as int
    }

    open spec fn greatest() -> int {
        i16::MAX as int
    }

    proof fn lemma_integer() {
    }
}

impl Integer for i32 {
    open spec fn as_int(self) -> int {
        self as int
    }

    open spec fn least() -> int {
        i32::MIN as int
    }

    open spec fn greatest() -> int {
        i32::MAX as int
    }

    proof fn lemma_integer() {
    }
}

impl Integer for i64 {
    open spec fn as_int(self) -> int {
        self as int
    }

    open spec fn least() -> int {
        i64::MIN as int
    }

    open spec fn greatest() -> int {
        i64::MAX as int
    }

    proof fn lemma_integer() {
    }
}

impl Integer for i128 {
    open spec fn as_int(self) -> int {
        self as int
    }

    open spec fn least() -> int {
        i128::MIN as int
    }

    open spec fn greatest() -> int {
        i128::MAX as int
    }

    proof fn lemma_integer() {
    }
}

impl Integer for isize {
    open spec fn as_int(self) -> int {
        self as int
    }

    open spec fn least() -> int {
        isize::MIN as int
    }

    open spec fn greatest() -> int {
        isize::MAX as int
    }

    proof fn lemma_integer() {
    }
}

impl Integer for u8 {
    open spec fn as_int(self) -> int {
        self as int
    }

    open spec fn least() -> int {
        u8::MIN as int
    }

    open spec fn greatest() -> int {
        u8::MAX as int
    }

    proof fn lemma_integer() {
    }
}

impl Integer for u16 {
    open spec fn as_int(self) -> int {
        self as int
    }

    open spec fn least() -> int {
        u16::MIN as int
    }

    open spec fn greatest() -> int {
        u16::MAX as int
    }

    proof fn lemma_integer() {
    }
}

impl Integer for u32 {
    open spec fn as_int(self) -> int {
        self as int
    }

    open spec fn least() -> int {
        u32::MIN as int
    }

    open spec fn greatest() -> int {
        u32::MAX as int
    }

    proof fn lemma_integer() {
    }
}

impl Integer for u64 {
    open spec fn as_int(self) -> int {
        self as int
    }

    open spec fn least() -> int {
        u64::MIN as int
    }

    open spec fn greatest() -> int {
        u64::MAX as int
    }

    proof fn lemma_integer() {
    }
}

impl Integer for u128 {
    open spec fn as_int(self) -> int {
        self as int
    }

    open spec fn least() -> int {
        u128::MIN as int
    }

    open spec fn greatest() -> int {
        u128::MAX as int
    }

    proof fn lemma_integer() {
    }
}

impl Integer for usize {
    open spec fn as_int(self) -> int {
        self as int
    }

    open spec fn least() -> int {
        usize::MIN as int
    }

    open spec fn greatest() -> int {
        usize::MAX as int
    }

    proof fn lemma_integer() {
    }
}

/// The sum of the integers that the items of `s` stand for.
pub open spec fn int_sum<T: Integer>(s: Seq<T>) -> int
    decreases s.len(),
{
    if s.len() == 0 {
        0
    } else {
        int_sum(s.drop_last()) + s.last().as_int()
    }
}

/// A running sum of integers that never leaves the type, taken from a zero,
/// stands for the sum of the integers.
pub proof fn lemma_sum_as_int<T: Integer>(z: T, s: Seq<T>)
    requires
        is_zero(z),
        can_sum_from(z, s),
    ensures
        sum_from(z, s).as_int() == int_sum(s),
    decreases s.len(),
{
    T::lemma_integer();
    if s.len() > 0 {
        lemma_sum_as_int(z, s.drop_last());
    }
}

/// Where the integers of every start of `s` add up to an integer of the
/// type, the running sum over `s` can be taken.
pub proof fn lemma_can_sum_integers<T: Integer>(s: Seq<T>)
    requires
        forall|n: int| 0 <= n <= s.len() ==> T::fits(#[trigger] int_sum(s.take(n))),
    ensures
        can_sum(s),
{
    T::lemma_integer();
    assert forall|z: T| is_zero(z) implies can_sum_from(z, s) by {
        lemma_can_sum_integers_from(z, s, s.len() as int);
        assert(s.take(s.len() as int) =~= s);
    }
}

proof fn lemma_can_sum_integers_from<T: Integer>(z: T, s: Seq<T>, n: int)
    requires
        is_zero(z),
        0 <= n <= s.len(),
        forall|k: int| 0 <= k <= s.len() ==> T::fits(#[trigger] int_sum(s.take(k))),
    ensures
        can_sum_from(z, s.take(n)),
        sum_from(z, s.take(n)).as_int() == int_sum(s.take(n)),
    decreases n,
{
    T::lemma_integer();
    if n > 0 {
        lemma_can_sum_integers_from(z, s, n - 1);
        assert(s.take(n).drop_last() =~= s.take(n - 1));
        assert(T::fits(int_sum(s.take(n))));
    }
}

/// A sum that can be taken stands for the sum of the integers.
pub proof fn lemma_is_sum_as_int<T: Integer>(total: T, s: Seq<T>)
    requires
        can_sum(s),
        is_sum(total, s),
    ensures
        total.as_int() == int_sum(s),
{
    let z = choose|z: T| is_zero(z) && total == sum_from(z, s);
    lemma_sum_as_int(z, s);
}

} // verus!
