//! Trainers.

pub mod backpropagation;
pub mod util;
