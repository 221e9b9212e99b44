//! A multilayer feed-forward neural network trainer: a network is built from
//! a layer-size architecture, runs forward inference, accumulates gradients
//! by backpropagation, and updates its parameters by mini-batch gradient
//! descent. Scalars are IEEE binary32 values carried as bit patterns; every
//! contract states the computed bits exactly in terms of named arithmetic
//! operations.

use vstd::prelude::*;

pub mod act;
pub mod events;
pub mod fp;
pub mod laws;
pub mod model;
pub mod nn;
pub mod rng;
pub mod snapshot;

verus! {

/// The failures the engine can signal; each is detected before any state
/// is mutated.
#[derive(Clone, Copy, Debug, PartialEq, Eq, Structural)]
pub enum NNError {
    /// The architecture has fewer than 2 layers.
    InvalidArchitecture,
    /// An input or output vector's length disagrees with the layer it is
    /// matched against.
    ShapeMismatch,
    /// An empty batch was handed to training or scoring.
    EmptyBatch,
}

} // verus!
