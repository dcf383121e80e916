//! Layers: the dense layer, an affine map of a batch of inputs.

use core::ops::Add;
use core::ops::Mul;
use crate::element::is_zero;
use crate::tensor::Tensor;
use vstd::prelude::*;
use vstd::std_specs::ops::AddSpec;
use vstd::std_specs::ops::MulSpec;

verus! {

/// A dense layer of `N_NEURONS` neurons, each with one weight for each of
/// the `N_INPUTS` features and one bias, for batches of `BATCH_SIZE` rows.
#[derive(Clone, Copy, Debug)]
pub struct DenseLayer<T, const N_INPUTS: usize, const N_NEURONS: usize, const BATCH_SIZE: usize> {
    weights: Tensor<T, N_INPUTS, N_NEURONS>,
    biases: Tensor<T, 1, N_NEURONS>,
}

impl<
    T,
    const N_INPUTS: usize,
    const N_NEURONS: usize,
    const BATCH_SIZE: usize,
> DenseLayer<T, N_INPUTS, N_NEURONS, BATCH_SIZE> where
    T: Add<Output = T> + Default + Mul<Output = T> + Copy,
 {
    /// The weights: row `k` holds what each neuron gives to feature `k`.
    pub closed spec fn spec_weights(&self) -> Tensor<T, N_INPUTS, N_NEURONS> {
        self.weights
    }

    /// The biases, one for each neuron.
    pub closed spec fn spec_biases(&self) -> Tensor<T, 1, N_NEURONS> {
        self.biases
    }

    /// `out` is what the layer makes of `inputs`: the product of the inputs
    /// with the weights, and on each of its rows the biases.
    pub open spec fn is_output(
        &self,
        inputs: Tensor<T, BATCH_SIZE, N_INPUTS>,
        out: Tensor<T, BATCH_SIZE, N_NEURONS>,
    ) -> bool {
        exists|product: Tensor<T, BATCH_SIZE, N_NEURONS>| #[trigger]
            product.is_product_of(inputs, self.spec_weights()) && out == product.spec_add(
                self.spec_biases().spec_broadcast::<BATCH_SIZE, N_NEURONS>(),
            )
    }

    /// The layer can be run on `inputs`: the product with the weights can
    /// be taken, and the biases can be added to whatever it comes to.
    pub open spec fn accepts(&self, inputs: Tensor<T, BATCH_SIZE, N_INPUTS>) -> bool {
        &&& T::obeys_add_spec()
        &&& inputs.can_multiply(self.spec_weights())
        &&& forall|product: Tensor<T, BATCH_SIZE, N_NEURONS>| #[trigger]
            product.is_product_of(inputs, self.spec_weights()) ==> product.can_add(
                self.spec_biases().spec_broadcast::<BATCH_SIZE, N_NEURONS>(),
            )
    }

    /// A layer of the given weights and biases.
    pub fn with_parameters(
        weights: Tensor<T, N_INPUTS, N_NEURONS>,
        biases: Tensor<T, 1, N_NEURONS>,
    ) -> (out: Self)
        ensures
            out.spec_weights() == weights,
            out.spec_biases() == biases,
    {
        DenseLayer { weights, biases }
    }

    /// A layer of random weights, each a random value times `scale`, and of
    /// biases that are all zero.
    pub fn new(scale: T) -> (out: Self) where
        rand::distr::StandardUniform: rand::distr::Distribution<T>,

        requires
            forall|w: T| #[trigger] w.mul_req(scale),
        ensures
            exists|zero: T| #[trigger] is_zero(zero) && out.spec_biases().is_filled_with(zero),
            T::obeys_mul_spec() ==> exists|drawn: Tensor<T, N_INPUTS, N_NEURONS>|
                out.spec_weights() == #[trigger] drawn.spec_mul_scalar(scale),
    {
        let drawn: Tensor<T, N_INPUTS, N_NEURONS> = Tensor::rand_fill();
        let weights = drawn * scale;
        let biases: Tensor<T, 1, N_NEURONS> = Tensor::new();
        let out = DenseLayer { weights, biases };
        proof {
            let zero = choose|z: T| is_zero(z) && biases.is_filled_with(z);
            assert(is_zero(zero) && out.spec_biases().is_filled_with(zero));
            if T::obeys_mul_spec() {
                assert(out.spec_weights() == drawn.spec_mul_scalar(scale));
            }
        }
        out
    }

    /// The weights of the layer.
    pub fn weights(&self) -> (out: Tensor<T, N_INPUTS, N_NEURONS>)
        ensures
            out == self.spec_weights(),
    {
        self.weights
    }

    /// The biases of the layer.
    pub fn biases(&self) -> (out: Tensor<T, 1, N_NEURONS>)
        ensures
            out == self.spec_biases(),
    {
        self.biases
    }

    /// Runs the layer on a batch: the inputs times the weights, plus the
    /// biases on every row.
    pub fn forward(self, inputs: Tensor<T, BATCH_SIZE, N_INPUTS>) -> (out: Tensor<
        T,
        BATCH_SIZE,
        N_NEURONS,
    >)
        requires
            self.accepts(inputs),
        ensures
            self.is_output(inputs, out),
    {
        let product = inputs * self.weights;
        let out = product + self.biases.broadcast::<BATCH_SIZE, N_NEURONS>();
        assert(product.is_product_of(inputs, self.spec_weights()) && out == product.spec_add(
            self.spec_biases().spec_broadcast::<BATCH_SIZE, N_NEURONS>(),
        ));
        out
    }
}

} // verus!
