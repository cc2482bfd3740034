//! Operations that are put together from the kernels of a backend.

use crate::plan::{Factor, Kernel};
use vstd::prelude::*;

verus! {

/// The kernels that `y := a * x + b * y` is made of, in the order in which
/// they run: first `y` is scaled by `b`, then `a * x` is added to it. Both
/// scalars are tensors of the caller. A kernel that fails ends the
/// operation, so `a * x` is never added to a `y` that was not scaled.
pub fn axpby_plain<B: Copy>(x: B, y: B) -> (kernels: Vec<Kernel<B>>)
    ensures
        kernels@ == seq![
            Kernel::Scale { factor: Factor::Given, y },
            Kernel::ScaledAccumulate { factor: Factor::Given, x, y },
        ],
{
    let mut kernels: Vec<Kernel<B>> = Vec::new();
    kernels.push(Kernel::Scale { factor: Factor::Given, y });
    kernels.push(Kernel::ScaledAccumulate { factor: Factor::Given, x, y });
    kernels
}

} // verus!
