//! The multinomial logistic loss of the softmax of a prediction.
//!
//! The softmax itself and the logarithms are floating-point work and are
//! done elsewhere. What is decided here is how the probability tensor is
//! cut into slices, and which of its entries enter the loss for a given
//! vector of class labels.

use crate::error::Error;
use crate::plan::{compute_steps, data_of, steps_to_compute, Kernel, Operand, Part, Step};
use crate::shape::{countable, element_count, leading_dims, product_of, trailing_dims};
use crate::shared_memory::Blob;
use crate::tensor::Device;
use vstd::arithmetic::div_mod::lemma_fundamental_div_mod_converse;
use vstd::prelude::*;

verus! {

/// How a probability tensor is cut along the softmax axis.
#[derive(Clone, Copy, Debug, PartialEq, Eq, Structural)]
pub struct Partition {
    /// Product of the dimensions up to and including the softmax axis.
    pub outer_num: usize,
    /// Product of the dimensions behind the softmax axis.
    pub inner_num: usize,
    /// Number of probability entries per outer index.
    pub dim: usize,
}

/// Whether a prediction of shape `dims` can be cut along `axis`: both
/// products can be computed and there is at least one outer slice.
pub open spec fn partition_defined(dims: Seq<usize>, axis: usize) -> bool {
    &&& countable(leading_dims(dims, axis))
    &&& countable(trailing_dims(dims, axis))
    &&& element_count(leading_dims(dims, axis)) > 0
}

/// The cut of a prediction of shape `dims` along `axis`, for a probability
/// buffer of `probability_len` entries.
pub open spec fn partition_of(dims: Seq<usize>, axis: usize, probability_len: usize) -> Partition {
    Partition {
        outer_num: element_count(leading_dims(dims, axis)) as usize,
        inner_num: element_count(trailing_dims(dims, axis)) as usize,
        dim: (probability_len as nat / element_count(leading_dims(dims, axis))) as usize,
    }
}

/// The number of outer indices that the accumulation visits (none when
/// there is no outer index at all).
///
/// The last outer index is left out. This bound is suspect: the full range
/// would be `outer_num`. It is kept as it is and stated here so that callers
/// can see it.
pub open spec fn visited_rows(p: Partition) -> int {
    if p.outer_num == 0 {
        0
    } else {
        p.outer_num - 1
    }
}

/// The number of inner indices that the accumulation visits per outer
/// index. The last inner index is left out, as suspect as in
/// [`visited_rows`].
pub open spec fn visited_cols(p: Partition) -> int {
    if p.inner_num == 0 {
        0
    } else {
        p.inner_num - 1
    }
}

/// Where the class label for outer index `i` and inner index `j` stands.
pub open spec fn label_index(p: Partition, i: int, j: int) -> int {
    i * p.inner_num + j
}

/// Which probability entry enters the loss for outer index `i` and inner
/// index `j`: the one of the labelled class.
pub open spec fn probability_index(p: Partition, labels: Seq<usize>, i: int, j: int) -> int {
    i * p.dim + labels[label_index(p, i, j)] * p.inner_num + j
}

/// The label for `(i, j)` exists and the probability entry it selects lies
/// inside the probability buffer.
pub open spec fn term_in_reach(
    p: Partition,
    labels: Seq<usize>,
    probability_len: usize,
    i: int,
    j: int,
) -> bool {
    &&& label_index(p, i, j) < labels.len()
    &&& probability_index(p, labels, i, j) < probability_len
}

/// Every visited pair of indices is in reach.
pub open spec fn terms_in_reach(p: Partition, labels: Seq<usize>, probability_len: usize) -> bool {
    forall|i: int, j: int|
        0 <= i < visited_rows(p) && 0 <= j < visited_cols(p) ==> #[trigger] term_in_reach(
            p,
            labels,
            probability_len,
            i,
            j,
        )
}

/// The probability entries whose negative logarithms add up to the loss,
/// in the order in which they are visited: outer index first.
pub open spec fn loss_terms_of(p: Partition, labels: Seq<usize>) -> Seq<int> {
    Seq::new(
        (visited_rows(p) * visited_cols(p)) as nat,
        |k: int| probability_index(p, labels, k / visited_cols(p), k % visited_cols(p)),
    )
}

/// With a single outer slice, or a single inner position, the accumulation
/// visits nothing: no label is read, no probability enters the sum, and the
/// loss is zero whatever the prediction is. This follows from the bounds in
/// [`visited_rows`] and [`visited_cols`] and is as suspect as they are.
pub proof fn lemma_single_slice_has_no_terms(
    p: Partition,
    labels: Seq<usize>,
    probability_len: usize,
)
    requires
        p.outer_num == 1 || p.inner_num == 1,
    ensures
        terms_in_reach(p, labels, probability_len),
        loss_terms_of(p, labels).len() == 0,
{
}

/// Cuts a prediction of shape `dims` along `axis`.
///
/// Fails with `ShapeMismatch` when a product of dimensions does not fit a
/// machine word or when there is no outer slice to divide by.
pub fn partition(dims: &Vec<usize>, axis: usize, probability_len: usize) -> (r: Result<
    Partition,
    Error,
>)
    ensures
        r is Ok <==> partition_defined(dims@, axis),
        r is Ok ==> r->Ok_0 == partition_of(dims@, axis, probability_len),
        r is Ok ==> r->Ok_0.outer_num == element_count(leading_dims(dims@, axis)),
        r is Ok ==> r->Ok_0.inner_num == element_count(trailing_dims(dims@, axis)),
        r is Err ==> r->Err_0 == Error::ShapeMismatch,
{
    let cut: usize = if axis < dims.len() {
        axis + 1
    } else {
        dims.len()
    };
    let outer = match product_of(dims, 0, cut) {
        Some(n) => n,
        None => {
            return Err(Error::ShapeMismatch);
        },
    };
    let inner = match product_of(dims, cut, dims.len()) {
        Some(n) => n,
        None => {
            return Err(Error::ShapeMismatch);
        },
    };
    if outer == 0 {
        return Err(Error::ShapeMismatch);
    }
    Ok(Partition { outer_num: outer, inner_num: inner, dim: probability_len / outer })
}

/// The flat position `i * cols + j` splits back into `i` and `j`.
proof fn lemma_flat_position(i: int, j: int, cols: int)
    requires
        0 <= i,
        0 <= j < cols,
    ensures
        (i * cols + j) / cols == i,
        (i * cols + j) % cols == j,
        i * cols + j >= 0,
        (i + 1) * cols == i * cols + cols,
{
    lemma_fundamental_div_mod_converse(i * cols + j, cols, i, j);
    assert((i + 1) * cols == i * cols + cols) by (nonlinear_arith);
}

/// Computes one probability index, or `None` when it is out of reach.
fn locate_term(
    p: &Partition,
    labels: &Vec<usize>,
    probability_len: usize,
    i: usize,
    j: usize,
) -> (r: Option<usize>)
    ensures
        r is Some <==> term_in_reach(*p, labels@, probability_len, i as int, j as int),
        r is Some ==> r->0 == probability_index(*p, labels@, i as int, j as int),
{
    let count = labels.len();
    let at = match i.checked_mul(p.inner_num) {
        Some(base) => match base.checked_add(j) {
            Some(at) => at,
            None => {
                return None;
            },
        },
        None => {
            return None;
        },
    };
    if at >= count {
        return None;
    }
    let label = labels[at];
    let row = match i.checked_mul(p.dim) {
        Some(row) => row,
        None => {
            return None;
        },
    };
    let class = match label.checked_mul(p.inner_num) {
        Some(class) => class,
        None => {
            return None;
        },
    };
    let index = match row.checked_add(class) {
        Some(part) => match part.checked_add(j) {
            Some(index) => index,
            None => {
                return None;
            },
        },
        None => {
            return None;
        },
    };
    if index >= probability_len {
        return None;
    }
    Some(index)
}

/// The steps of a forward pass through a softmax loss layer with the
/// inputs `bottom` (prediction, then labels) and the output `top`: the
/// softmax of the prediction on `device`, then labels and probabilities are
/// brought to the host, where the loss is added up.
pub open spec fn loss_forward_steps(
    layer: usize,
    device: Device,
    bottom: Seq<usize>,
    top: Seq<usize>,
) -> Seq<Step> {
    compute_steps(
        layer,
        Kernel::Softmax { input: data_of(bottom[0]), output: data_of(top[0]) },
        device,
    ) + seq![
        Step::Synchronize { operand: data_of(bottom[1]), device: Device::Host },
        Step::Synchronize { operand: data_of(top[0]), device: Device::Host },
        Step::AccumulateLoss {
            layer,
            labels: data_of(bottom[1]),
            probability: data_of(top[0]),
        },
    ]
}

/// Softmax loss layer.
#[derive(Debug)]
pub struct SoftmaxLoss {
    softmax_axis: Option<usize>,
}

impl SoftmaxLoss {
    /// The axis along which the softmax normalises, once the layer is
    /// initialised.
    pub closed spec fn axis(&self) -> Option<usize> {
        self.softmax_axis
    }

    /// The axis along which the softmax normalises, once the layer is
    /// initialised.
    pub fn softmax_axis(&self) -> (axis: Option<usize>)
        ensures
            axis == self.axis(),
    {
        self.softmax_axis
    }

    /// The number of input blobs the layer takes: the prediction and the
    /// class labels.
    pub fn exact_num_bottom_blobs(&self) -> (n: usize)
        ensures
            n == 2,
    {
        2
    }

    /// The number of output blobs the layer fills: the probabilities.
    pub fn exact_num_top_blobs(&self) -> (n: usize)
        ensures
            n == 1,
    {
        1
    }

    /// Whether the network makes the output blob when the description of
    /// the layer names none.
    pub fn auto_top_blobs(&self) -> (yes: bool)
        ensures
            yes,
    {
        true
    }

    /// Gives the probabilities the shape `input` of the prediction.
    ///
    /// Returns whether the output needs new memory: `false` when it has
    /// that shape already, and then nothing changes. Fails with
    /// `ShapeMismatch`, and changes nothing, when the element count of
    /// `input` does not fit a machine word.
    pub fn reshape(&self, input: &Vec<usize>, output: &mut Blob) -> (r: Result<bool, Error>)
        requires
            old(output).wf(),
        ensures
            final(output).wf(),
            r is Ok <==> countable(input@),
            r is Ok ==> r->Ok_0 == (old(output)@.data.shape != input@) && final(output)@ == old(
                output,
            )@.reshaped(input@),
            r is Err ==> r->Err_0 == Error::ShapeMismatch && final(output)@ == old(output)@,
    {
        output.resize(input)
    }

    /// The steps of a forward pass through the layer, which is layer
    /// `layer` of its network and computes on `device`.
    ///
    /// Fails with `ConfigurationError` unless there are exactly two inputs
    /// and one output.
    pub fn forward_layer(
        &self,
        layer: usize,
        device: Device,
        bottom: &Vec<usize>,
        top: &Vec<usize>,
    ) -> (r: Result<Vec<Step>, Error>)
        ensures
            r is Ok <==> bottom@.len() == 2 && top@.len() == 1,
            r is Ok ==> r->Ok_0@ == loss_forward_steps(layer, device, bottom@, top@),
            r is Err ==> r->Err_0 == Error::ConfigurationError,
    {
        if bottom.len() != 2 || top.len() != 1 {
            return Err(Error::ConfigurationError);
        }
        let prediction = Operand { blob: bottom[0], part: Part::Data };
        let labels = Operand { blob: bottom[1], part: Part::Data };
        let probability = Operand { blob: top[0], part: Part::Data };
        let mut steps = steps_to_compute(
            layer,
            Kernel::Softmax { input: prediction, output: probability },
            device,
        );
        steps.push(Step::Synchronize { operand: labels, device: Device::Host });
        steps.push(Step::Synchronize { operand: probability, device: Device::Host });
        steps.push(Step::AccumulateLoss { layer, labels, probability });
        Ok(steps)
    }

    /// The kernel that computes the gradient of the prediction from the
    /// probabilities and their gradient, or none when `propagate_down` does
    /// not ask for it: the gradient of the prediction is then left
    /// untouched. The labels never get a gradient.
    ///
    /// Fails with `ConfigurationError` unless there are exactly two inputs,
    /// one output and two flags.
    pub fn backward_layer(
        &self,
        top: &Vec<usize>,
        propagate_down: &Vec<bool>,
        bottom: &Vec<usize>,
    ) -> (r: Result<Option<Kernel<Operand>>, Error>)
        ensures
            r is Ok <==> bottom@.len() == 2 && top@.len() == 1 && propagate_down@.len() == 2,
            r is Ok ==> (r->Ok_0 is Some <==> propagate_down@[0]),
            r is Ok && r->Ok_0 is Some ==> r->Ok_0->0 == (Kernel::SoftmaxGradient {
                output: Operand { blob: top@[0], part: Part::Data },
                output_gradient: Operand { blob: top@[0], part: Part::Diff },
                input_gradient: Operand { blob: bottom@[0], part: Part::Diff },
            }),
            r is Err ==> r->Err_0 == Error::ConfigurationError,
    {
        if bottom.len() != 2 || top.len() != 1 || propagate_down.len() != 2 {
            return Err(Error::ConfigurationError);
        }
        if !propagate_down[0] {
            return Ok(None);
        }
        Ok(
            Some(
                Kernel::SoftmaxGradient {
                    output: Operand { blob: top[0], part: Part::Data },
                    output_gradient: Operand { blob: top[0], part: Part::Diff },
                    input_gradient: Operand { blob: bottom[0], part: Part::Diff },
                },
            ),
        )
    }

    /// Prepares the layer for use: the softmax runs along axis 1.
    pub fn init(&mut self)
        ensures
            final(self).axis() == Some(1usize),
    {
        self.softmax_axis = Some(1);
    }

    /// Lists the probability entries whose negative logarithms add up to
    /// the loss, for a prediction of shape `dims`, a probability buffer of
    /// `probability_len` entries and the class labels `labels`.
    ///
    /// The last outer and the last inner index are left out of the sum; see
    /// [`visited_rows`]. Fails with `ShapeMismatch` when the prediction
    /// cannot be cut, when a label is missing, or when a label selects an
    /// entry outside the probability buffer.
    pub fn loss_terms(
        &self,
        dims: &Vec<usize>,
        probability_len: usize,
        labels: &Vec<usize>,
    ) -> (r: Result<Vec<usize>, Error>)
        requires
            self.axis() is Some,
        ensures
            r is Ok <==> partition_defined(dims@, self.axis()->0) && terms_in_reach(
                partition_of(dims@, self.axis()->0, probability_len),
                labels@,
                probability_len,
            ),
            r is Ok ==> r->Ok_0@.map_values(|t: usize| t as int) == loss_terms_of(
                partition_of(dims@, self.axis()->0, probability_len),
                labels@,
            ),
            r is Err ==> r->Err_0 == Error::ShapeMismatch,
    {
        let axis = match self.softmax_axis {
            Some(axis) => axis,
            None => {
                return Err(Error::ShapeMismatch);
            },
        };
        let p = match partition(dims, axis, probability_len) {
            Ok(p) => p,
            Err(e) => {
                return Err(e);
            },
        };
        let rows: usize = p.outer_num - 1;
        let cols: usize = if p.inner_num == 0 {
            0
        } else {
            p.inner_num - 1
        };
        let mut terms: Vec<usize> = Vec::new();
        let mut i: usize = 0;
        while i < rows
            invariant
                0 <= i <= rows,
                self.axis() == Some(axis),
                partition_defined(dims@, axis),
                p == partition_of(dims@, axis, probability_len),
                rows == visited_rows(p),
                cols == visited_cols(p),
                terms@.len() == i * cols,
                forall|a: int, b: int|
                    0 <= a < i && 0 <= b < cols ==> #[trigger] term_in_reach(
                        p,
                        labels@,
                        probability_len,
                        a,
                        b,
                    ),
                forall|k: int|
                    0 <= k < terms@.len() ==> #[trigger] terms@[k] as int == probability_index(
                        p,
                        labels@,
                        k / (cols as int),
                        k % (cols as int),
                    ),
            decreases rows - i,
        {
            let mut j: usize = 0;
            while j < cols
                invariant
                    0 <= i < rows,
                    0 <= j <= cols,
                    self.axis() == Some(axis),
                    partition_defined(dims@, axis),
                    p == partition_of(dims@, axis, probability_len),
                    rows == visited_rows(p),
                    cols == visited_cols(p),
                    terms@.len() == i * cols + j,
                    forall|a: int, b: int|
                        0 <= a < i && 0 <= b < cols ==> #[trigger] term_in_reach(
                            p,
                            labels@,
                            probability_len,
                            a,
                            b,
                        ),
                    forall|b: int|
                        0 <= b < j ==> #[trigger] term_in_reach(
                            p,
                            labels@,
                            probability_len,
                            i as int,
                            b,
                        ),
                    forall|k: int|
                        0 <= k < terms@.len() ==> #[trigger] terms@[k] as int == probability_index(
                            p,
                            labels@,
                            k / (cols as int),
                            k % (cols as int),
                        ),
                decreases cols - j,
            {
                proof {
                    lemma_flat_position(i as int, j as int, cols as int);
                }
                match locate_term(&p, labels, probability_len, i, j) {
                    Some(index) => {
                        terms.push(index);
                    },
                    None => {
                        return Err(Error::ShapeMismatch);
                    },
                }
                j += 1;
            }
            proof {
                assert((i + 1) * cols == i * cols + cols) by (nonlinear_arith);
            }
            i += 1;
        }
        Ok(terms)
    }
}

impl Default for SoftmaxLoss {
    /// A layer that is not initialised yet.
    fn default() -> (layer: SoftmaxLoss)
        ensures
            layer.axis() is None,
    {
        SoftmaxLoss { softmax_axis: None }
    }
}

} // verus!
