//! Layers that are neither activations nor losses.

pub mod softmax;

pub use self::softmax::Softmax;
