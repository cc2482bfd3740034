//! The layers a network can be built from.

pub mod activation;
pub mod common;
pub mod loss;
