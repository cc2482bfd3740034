//! What the embedding application is asked to do: kernels to run on
//! buffers, and the other steps of a pass over the network.

use crate::tensor::Device;
use vstd::prelude::*;

verus! {

/// The two buffers of a blob.
#[derive(Clone, Copy, Debug, PartialEq, Eq, Structural)]
pub enum Part {
    /// The values.
    Data,
    /// The gradient accumulated for the values.
    Diff,
}

/// One buffer of one blob of a network.
#[derive(Clone, Copy, Debug, PartialEq, Eq, Structural)]
pub struct Operand {
    /// The position of the blob in the network's table.
    pub blob: usize,
    /// Which of its buffers.
    pub part: Part,
}

/// The scalar of a scaled operation.
#[derive(Clone, Copy, Debug, PartialEq, Eq, Structural)]
pub enum Factor {
    /// The constant -1.
    MinusOne,
    /// A one-element tensor that the caller supplies.
    Given,
}

/// One call of a numeric kernel of the backend, on buffers named by `B`.
#[derive(Debug, PartialEq, Eq)]
pub enum Kernel<B> {
    /// `output[i] := 1 / (1 + exp(-input[i]))`.
    Sigmoid { input: B, output: B },
    /// `input_gradient[i] := output[i] * (1 - output[i]) * output_gradient[i]`.
    SigmoidGradient { output: B, output_gradient: B, input: B, input_gradient: B },
    /// `output := exp(input) / sum(exp(input))` within each slice along axis 1.
    Softmax { input: B, output: B },
    /// The gradient of the softmax, from its output and the gradient of its output.
    SoftmaxGradient { output: B, output_gradient: B, input_gradient: B },
    /// `y := factor * x + y`.
    ScaledAccumulate { factor: Factor, x: B, y: B },
    /// The dot product of `x` and `y`, written to a one-element tensor that
    /// the caller supplies.
    DotProduct { x: B, y: B },
    /// `y := factor * y`.
    Scale { factor: Factor, y: B },
}

impl<B: Copy> Clone for Kernel<B> {
    fn clone(&self) -> (copy: Self)
        ensures
            copy == *self,
    {
        *self
    }
}

impl<B: Copy> Copy for Kernel<B> {

}

impl<B> Kernel<B> {
    /// The buffers whose values the kernel reads, in the order in which it
    /// takes them.
    pub open spec fn reads(self) -> Seq<B> {
        match self {
            Kernel::Sigmoid { input, output } => seq![input],
            Kernel::SigmoidGradient { output, output_gradient, input, input_gradient } => seq![
                output,
                output_gradient,
                input,
            ],
            Kernel::Softmax { input, output } => seq![input],
            Kernel::SoftmaxGradient { output, output_gradient, input_gradient } => seq![
                output,
                output_gradient,
            ],
            Kernel::ScaledAccumulate { factor, x, y } => seq![x, y],
            Kernel::DotProduct { x, y } => seq![x, y],
            Kernel::Scale { factor, y } => seq![y],
        }
    }

    /// The one buffer that the kernel writes, if it writes a buffer at all.
    pub open spec fn writes(self) -> Option<B> {
        match self {
            Kernel::Sigmoid { input, output } => Some(output),
            Kernel::SigmoidGradient { output, output_gradient, input, input_gradient } => Some(
                input_gradient,
            ),
            Kernel::Softmax { input, output } => Some(output),
            Kernel::SoftmaxGradient { output, output_gradient, input_gradient } => Some(
                input_gradient,
            ),
            Kernel::ScaledAccumulate { factor, x, y } => Some(y),
            Kernel::DotProduct { x, y } => None,
            Kernel::Scale { factor, y } => Some(y),
        }
    }
}

/// One step of a pass over a network.
#[derive(Clone, Copy, Debug, PartialEq, Eq)]
pub enum Step {
    /// Give both buffers of blob `blob` the shape of blob `like`, with new
    /// memory.
    Reshape { blob: usize, like: usize },
    /// Bring the copy of a buffer on a device up to date.
    Synchronize { operand: Operand, device: Device },
    /// Run a kernel of layer `layer` on the device of the network.
    Compute { layer: usize, kernel: Kernel<Operand> },
    /// Read the class labels and the probabilities on the host and add the
    /// loss of layer `layer` to the loss of the pass.
    AccumulateLoss { layer: usize, labels: Operand, probability: Operand },
}

/// The values of blob `blob`.
pub open spec fn data_of(blob: usize) -> Operand {
    Operand { blob, part: Part::Data }
}

/// The gradient of blob `blob`.
pub open spec fn diff_of(blob: usize) -> Operand {
    Operand { blob, part: Part::Diff }
}

/// What running `kernel` for layer `layer` on `device` takes: every buffer
/// that the kernel reads is brought up to date there first, in the order in
/// which the kernel takes them, and then the kernel runs.
pub open spec fn compute_steps(layer: usize, kernel: Kernel<Operand>, device: Device) -> Seq<Step> {
    kernel.reads().map_values(|operand: Operand| Step::Synchronize { operand, device }).push(
        Step::Compute { layer, kernel },
    )
}

impl Kernel<Operand> {
    /// The buffers whose values the kernel reads, in the order in which it
    /// takes them.
    pub fn operands_read(&self) -> (operands: Vec<Operand>)
        ensures
            operands@ == self.reads(),
    {
        let mut operands: Vec<Operand> = Vec::new();
        match *self {
            Kernel::Sigmoid { input, output } => {
                operands.push(input);
            },
            Kernel::SigmoidGradient { output, output_gradient, input, input_gradient } => {
                operands.push(output);
                operands.push(output_gradient);
                operands.push(input);
            },
            Kernel::Softmax { input, output } => {
                operands.push(input);
            },
            Kernel::SoftmaxGradient { output, output_gradient, input_gradient } => {
                operands.push(output);
                operands.push(output_gradient);
            },
            Kernel::ScaledAccumulate { factor, x, y } => {
                operands.push(x);
                operands.push(y);
            },
            Kernel::DotProduct { x, y } => {
                operands.push(x);
                operands.push(y);
            },
            Kernel::Scale { factor, y } => {
                operands.push(y);
            },
        }
        operands
    }

    /// The one buffer that the kernel writes, if it writes a buffer at all.
    pub fn operand_written(&self) -> (operand: Option<Operand>)
        ensures
            operand == self.writes(),
    {
        match *self {
            Kernel::Sigmoid { input, output } => Some(output),
            Kernel::SigmoidGradient { output, output_gradient, input, input_gradient } => Some(
                input_gradient,
            ),
            Kernel::Softmax { input, output } => Some(output),
            Kernel::SoftmaxGradient { output, output_gradient, input_gradient } => Some(
                input_gradient,
            ),
            Kernel::ScaledAccumulate { factor, x, y } => Some(y),
            Kernel::DotProduct { x, y } => None,
            Kernel::Scale { factor, y } => Some(y),
        }
    }
}

/// Lists the steps that running `kernel` for layer `layer` on `device`
/// takes.
pub fn steps_to_compute(layer: usize, kernel: Kernel<Operand>, device: Device) -> (steps: Vec<Step>)
    ensures
        steps@ == compute_steps(layer, kernel, device),
{
    let reads = kernel.operands_read();
    let mut steps: Vec<Step> = Vec::new();
    let mut i: usize = 0;
    while i < reads.len()
        invariant
            0 <= i <= reads@.len(),
            reads@ == kernel.reads(),
            steps@ == reads@.take(i as int).map_values(
                |operand: Operand| Step::Synchronize { operand, device },
            ),
        decreases reads@.len() - i,
    {
        steps.push(Step::Synchronize { operand: reads[i], device });
        i += 1;
    }
    steps.push(Step::Compute { layer, kernel });
    steps
}

} // verus!
