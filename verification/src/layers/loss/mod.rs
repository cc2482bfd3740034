//! Layers that measure how far an output is from what was expected.

pub mod softmax;

pub use self::softmax::SoftmaxLoss;
