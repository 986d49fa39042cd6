//! Multithreaded implementations of backpropagation trainers.

pub use crate::trainer::backpropagation::BatchEpochTrainerParallel as BatchEpochTrainer;
