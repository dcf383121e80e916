//! A small tensor algebra with fixed extents: a rectangular grid of numbers
//! whose row and column counts are part of its type, with elementwise
//! arithmetic, broadcasting, reductions along an axis and masked indexing,
//! and the layers, activations and metrics of a feed-forward network on top.

pub mod activator;
pub mod element;
pub mod integer;
pub mod laws;
pub mod layer;
pub mod loss;
pub mod metrics;
mod outside;
pub mod tensor;
