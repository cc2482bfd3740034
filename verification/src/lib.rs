//! Planning core of a small neural-network engine.
//!
//! The crate decides *what* is computed *where*: tensor shapes, device
//! residency of buffers, the order in which layers run, and which buffers a
//! numeric kernel may read and write. The kernels themselves work on
//! floating-point memory and are run by the embedding application, which
//! follows the steps handed out here and reports how each one ended.
//!
//! A [`network::Network`] is wired from a [`network::NetworkConfig`]. A
//! pass is started with [`network::Network::forward`] or
//! [`network::Network::backward`]; after that
//! [`network::Network::next_step`] hands out one [`plan::Step`] at a time
//! and [`network::Network::complete`] takes the report of how it ended.
//! What holds of every step of every pass is proved in [`network::laws`].

pub mod error;
pub mod layer;
pub mod layers;
pub mod network;
pub mod plan;
pub mod shape;
pub mod shared_memory;
pub mod tensor;
pub mod util;
