//! Verified core of a stochastic Schrodinger equation solver: the sampled trajectory
//! driver with its renormalization step, the ordered pass over a noise ensemble, banded
//! operator storage with its transposed view, and the shape checks of operators and states.
//! The amplitude arithmetic is supplied by the caller through closures.

use vstd::prelude::*;

pub mod banded;
pub mod ensemble;
pub mod factorized;
pub mod shape;
pub mod trajectory;

verus! {

} // verus!
