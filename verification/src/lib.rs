//! A leaky integrate-and-fire spiking network with spike-timing-dependent
//! plasticity, lateral inhibition and homeostatic weight normalization.
//!
//! All simulation state is kept in fixed-point arithmetic: a value of
//! `fixed::SCALE` stands for 1.0. This keeps every update exactly
//! reproducible and lets each step be specified as a function of the
//! previous state.

use vstd::prelude::*;

pub mod cell;
pub mod codec;
pub mod fixed;
pub mod mnist;
pub mod network;
pub mod neuron;
pub mod sums;

verus! {

/// Input images are fixed-size grayscale rasters.
pub const IMAGE_WIDTH: usize = 28;
pub const IMAGE_HEIGHT: usize = 28;
/// Number of input pixels, and so of synapses per cell.
pub const IMAGE_SIZE: usize = 784;

} // verus!
