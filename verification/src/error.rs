use vstd::prelude::*;

verus! {

/// The ways in which wiring or running a network can fail.
#[derive(Clone, Copy, Debug, PartialEq, Eq, Structural)]
pub enum Error {
    /// A blob count or a dimension does not fit what a layer or a buffer asks for.
    ShapeMismatch,
    /// Memory for a copy of a buffer could not be had on a device.
    DeviceUnavailable,
    /// A numeric kernel reported failure.
    BackendOperationFailed,
    /// The network description names an unknown blob or breaks a layer's blob counts.
    ConfigurationError,
}

} // verus!
