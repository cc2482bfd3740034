//! The softmax of the input: within each slice along axis 1, the
//! exponentials of the elements divided by their sum.

use crate::error::Error;
use crate::plan::{Kernel, Operand, Part};
use crate::shape::countable;
use crate::shared_memory::Blob;
use vstd::prelude::*;

verus! {

/// Softmax layer.
#[derive(Clone, Copy, Debug)]
pub struct Softmax;

impl Softmax {
    /// The number of input blobs the layer takes.
    pub fn exact_num_bottom_blobs(&self) -> (n: usize)
        ensures
            n == 1,
    {
        1
    }

    /// The number of output blobs the layer fills.
    pub fn exact_num_top_blobs(&self) -> (n: usize)
        ensures
            n == 1,
    {
        1
    }

    /// Gives the output the shape `input` of the input.
    ///
    /// Returns whether the output needs new memory: `false` when it has
    /// that shape already, and then nothing changes. Fails with
    /// `ShapeMismatch`, and changes nothing, when the element count of
    /// `input` does not fit a machine word.
    pub fn reshape(&self, input: &Vec<usize>, output: &mut Blob) -> (r: Result<bool, Error>)
        requires
            old(output).wf(),
        ensures
            final(output).wf(),
            r is Ok <==> countable(input@),
            r is Ok ==> r->Ok_0 == (old(output)@.data.shape != input@) && final(output)@ == old(
                output,
            )@.reshaped(input@),
            r is Err ==> r->Err_0 == Error::ShapeMismatch && final(output)@ == old(output)@,
    {
        output.resize(input)
    }

    /// The kernel that computes the output: it reads the values of the one
    /// input and writes the values of the one output.
    ///
    /// Fails with `ConfigurationError` unless there is exactly one input
    /// and one output.
    pub fn forward_layer(&self, bottom: &Vec<usize>, top: &Vec<usize>) -> (r: Result<
        Kernel<Operand>,
        Error,
    >)
        ensures
            r is Ok <==> bottom@.len() == 1 && top@.len() == 1,
            r is Ok ==> r->Ok_0 == (Kernel::Softmax {
                input: Operand { blob: bottom@[0], part: Part::Data },
                output: Operand { blob: top@[0], part: Part::Data },
            }),
            r is Err ==> r->Err_0 == Error::ConfigurationError,
    {
        if bottom.len() != 1 || top.len() != 1 {
            return Err(Error::ConfigurationError);
        }
        Ok(
            Kernel::Softmax {
                input: Operand { blob: bottom[0], part: Part::Data },
                output: Operand { blob: top[0], part: Part::Data },
            },
        )
    }

    /// The kernel that computes the gradient of the input from the values
    /// and the gradient of the output, or none when `propagate_down` does
    /// not ask for it: the gradient of the input is then left untouched.
    ///
    /// Fails with `ConfigurationError` unless there is exactly one input,
    /// one output and one flag.
    pub fn backward_layer(
        &self,
        top: &Vec<usize>,
        propagate_down: &Vec<bool>,
        bottom: &Vec<usize>,
    ) -> (r: Result<Option<Kernel<Operand>>, Error>)
        ensures
            r is Ok <==> bottom@.len() == 1 && top@.len() == 1 && propagate_down@.len() == 1,
            r is Ok ==> (r->Ok_0 is Some <==> propagate_down@[0]),
            r is Ok && r->Ok_0 is Some ==> r->Ok_0->0 == (Kernel::SoftmaxGradient {
                output: Operand { blob: top@[0], part: Part::Data },
                output_gradient: Operand { blob: top@[0], part: Part::Diff },
                input_gradient: Operand { blob: bottom@[0], part: Part::Diff },
            }),
            r is Err ==> r->Err_0 == Error::ConfigurationError,
    {
        if bottom.len() != 1 || top.len() != 1 || propagate_down.len() != 1 {
            return Err(Error::ConfigurationError);
        }
        if !propagate_down[0] {
            return Ok(None);
        }
        Ok(
            Some(
                Kernel::SoftmaxGradient {
                    output: Operand { blob: top[0], part: Part::Data },
                    output_gradient: Operand { blob: top[0], part: Part::Diff },
                    input_gradient: Operand { blob: bottom[0], part: Part::Diff },
                },
            ),
        )
    }
}

} // verus!
