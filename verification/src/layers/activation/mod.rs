//! Layers that apply a function to every element on its own.

pub mod sigmoid;

pub use self::sigmoid::Sigmoid;
