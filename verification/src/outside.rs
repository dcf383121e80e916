//! The calls that leave the library: a random value from `rand`, and the
//! conversion of a count to a cell type from `num_traits`. Verus takes what
//! is said of them here on trust.

use vstd::prelude::*;

verus! {

/// `rand::random`: one value of `T`, drawn by the standard uniform
/// distribution from the generator of the calling thread. Every value of `T`
/// may come back, so nothing is promised of the result.
#[verifier::external_body]
pub(crate) fn random_value<T>() -> (out: T) where
    rand::distr::StandardUniform: rand::distr::Distribution<T>,
 {
    rand::random::<T>()
}

/// `num_traits::FromPrimitive::from_usize`: `n` as a value of `T`, or `None`
/// where `T` has no value for it. Which value that is lies with the
/// implementation for `T`, so nothing is promised of the result.
#[verifier::external_body]
pub(crate) fn count_as<T: num_traits::FromPrimitive>(n: usize) -> (out: Option<T>) {
    T::from_usize(n)
}

} // verus!
