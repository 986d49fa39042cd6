//! Feedforward neural networks with a single hidden layer, and
//! backpropagation trainers for them.

pub mod fixed;
pub mod laws;
pub mod network;
pub mod params;
pub mod prelude;
pub mod scalar;
pub mod tolerance;
pub mod trainer;
