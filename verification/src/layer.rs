//! What all layers have in common: how many blobs they take and fill, the
//! states they go through, and the steps that a pass through one takes.

use crate::error::Error;
use crate::layers::activation::sigmoid::Sigmoid;
use crate::layers::common::softmax::Softmax;
use crate::layers::loss::softmax::{loss_forward_steps, SoftmaxLoss};
use crate::plan::{compute_steps, data_of, diff_of, steps_to_compute, Kernel, Operand, Part, Step};
use crate::shape::countable;
use crate::shared_memory::Blob;
use crate::tensor::Device;
use vstd::pervasive::unreached;
use vstd::prelude::*;

verus! {

/// The kinds of layer.
#[derive(Clone, Copy, Debug, PartialEq, Eq, Structural)]
pub enum LayerType {
    /// The logistic function, element by element.
    Sigmoid,
    /// The normalised exponential along axis 1.
    Softmax,
    /// The softmax followed by the cross-entropy against class labels.
    SoftmaxLoss,
}

/// Where a layer stands in its life.
#[derive(Clone, Copy, Debug, PartialEq, Eq, Structural)]
pub enum LayerState {
    /// Wired, but its outputs were never sized.
    Uninitialized,
    /// Its outputs have the shape that its inputs call for.
    Reshaped,
    /// Its outputs hold the result of a forward pass.
    Forwarded,
    /// The gradients of its inputs hold the result of a backward pass.
    Backwarded,
}

/// The number of input blobs a layer of kind `kind` takes.
pub open spec fn exact_bottoms(kind: LayerType) -> nat {
    match kind {
        LayerType::Sigmoid => 1,
        LayerType::Softmax => 1,
        LayerType::SoftmaxLoss => 2,
    }
}

/// The number of output blobs a layer of kind `kind` fills.
pub open spec fn exact_tops(kind: LayerType) -> nat {
    1
}

/// Whether the network makes the output blobs that the description of a
/// layer of kind `kind` does not name.
pub open spec fn auto_tops(kind: LayerType) -> bool {
    kind == LayerType::SoftmaxLoss
}

/// Whether input `input` of a layer of kind `kind` can be given a gradient.
/// The class labels of a loss layer cannot.
pub open spec fn takes_gradient(kind: LayerType, input: int) -> bool {
    !(kind == LayerType::SoftmaxLoss && input == 1)
}

/// The kernel that computes the output of a layer.
pub open spec fn forward_kernel(kind: LayerType, bottoms: Seq<usize>, tops: Seq<usize>) -> Kernel<
    Operand,
> {
    match kind {
        LayerType::Sigmoid => Kernel::Sigmoid {
            input: data_of(bottoms[0]),
            output: data_of(tops[0]),
        },
        _ => Kernel::Softmax { input: data_of(bottoms[0]), output: data_of(tops[0]) },
    }
}

/// The kernel that computes the gradient of the first input of a layer.
pub open spec fn backward_kernel(kind: LayerType, bottoms: Seq<usize>, tops: Seq<usize>) -> Kernel<
    Operand,
> {
    match kind {
        LayerType::Sigmoid => Kernel::SigmoidGradient {
            output: data_of(tops[0]),
            output_gradient: diff_of(tops[0]),
            input: data_of(bottoms[0]),
            input_gradient: diff_of(bottoms[0]),
        },
        _ => Kernel::SoftmaxGradient {
            output: data_of(tops[0]),
            output_gradient: diff_of(tops[0]),
            input_gradient: diff_of(bottoms[0]),
        },
    }
}

/// The steps of a forward pass through layer `index`: the output is given
/// the shape of the first input if `reshape` says that it has another, and
/// then the layer computes.
pub open spec fn forward_steps(
    kind: LayerType,
    index: usize,
    device: Device,
    bottoms: Seq<usize>,
    tops: Seq<usize>,
    reshape: bool,
) -> Seq<Step> {
    let sizing = if reshape {
        seq![Step::Reshape { blob: tops[0], like: bottoms[0] }]
    } else {
        Seq::empty()
    };
    sizing + match kind {
        LayerType::SoftmaxLoss => loss_forward_steps(index, device, bottoms, tops),
        _ => compute_steps(index, forward_kernel(kind, bottoms, tops), device),
    }
}

/// The steps of a backward pass through layer `index`: the gradient of the
/// first input is computed if its flag in `propagate_down` asks for it, and
/// nothing happens otherwise.
pub open spec fn backward_steps(
    kind: LayerType,
    index: usize,
    device: Device,
    bottoms: Seq<usize>,
    tops: Seq<usize>,
    propagate_down: Seq<bool>,
) -> Seq<Step> {
    if propagate_down[0] {
        compute_steps(index, backward_kernel(kind, bottoms, tops), device)
    } else {
        Seq::empty()
    }
}

/// A backward pass through a layer writes one buffer at most: the gradient
/// of the first input, and only if the flag of that input asks for it. The
/// other steps bring copies up to date. So the gradient of an input that is
/// not marked for propagation is never written.
pub proof fn lemma_backward_writes_marked_gradient_only(
    layer: LayerView,
    index: usize,
    device: Device,
    k: int,
)
    requires
        layer.wf(),
        0 <= k < layer.backward_steps(index, device).len(),
    ensures
        layer.propagate_down[0],
        match layer.backward_steps(index, device)[k] {
            Step::Compute { layer: at, kernel } => at == index && kernel.writes() == Some(
                diff_of(layer.bottoms[0]),
            ),
            Step::Synchronize { operand, device: to } => to == device,
            _ => false,
        },
{
}

/// A forward pass through a layer writes values only, and only those of
/// the output of the layer: no gradient is touched but for the sizing of
/// the output.
pub proof fn lemma_forward_writes_output_only(
    layer: LayerView,
    index: usize,
    device: Device,
    reshape: bool,
    k: int,
)
    requires
        layer.wf(),
        0 <= k < layer.forward_steps(index, device, reshape).len(),
    ensures
        match layer.forward_steps(index, device, reshape)[k] {
            Step::Compute { layer: at, kernel } => at == index && kernel.writes() == Some(
                data_of(layer.tops[0]),
            ) && kernel.reads() == seq![data_of(layer.bottoms[0])],
            Step::Reshape { blob, like } => reshape && k == 0 && blob == layer.tops[0] && like
                == layer.bottoms[0],
            Step::Synchronize { operand, device: to } => operand.part == Part::Data,
            Step::AccumulateLoss { layer: at, labels, probability } => at == index && layer.kind
                == LayerType::SoftmaxLoss && labels == data_of(layer.bottoms[1]) && probability
                == data_of(layer.tops[0]),
        },
{
}

/// The steps of a forward pass through a layer come in a fixed order: the
/// copies that are brought up to date before the kernel runs are copies on
/// the device of the network, and each buffer that the kernel reads is
/// among them; the copies that a loss layer reads on the host are brought
/// up to date behind the kernel and before the loss is added up.
pub proof fn lemma_forward_steps_shape(
    layer: LayerView,
    index: usize,
    device: Device,
    reshape: bool,
    j: int,
    k: int,
)
    requires
        layer.wf(),
        0 <= j < k < layer.forward_steps(index, device, reshape).len(),
    ensures
        ({
            let steps = layer.forward_steps(index, device, reshape);
            &&& steps[k] is Compute ==> match steps[j] {
                Step::Synchronize { operand, device: to } => to == device,
                Step::Reshape { blob, like } => true,
                _ => false,
            }
            &&& steps[k] is Compute ==> steps[k - 1] == (Step::Synchronize {
                operand: data_of(layer.bottoms[0]),
                device,
            })
            &&& steps[k] is AccumulateLoss ==> {
                &&& k >= 3
                &&& steps[k - 3] is Compute
                &&& steps[k - 2] == (Step::Synchronize {
                    operand: data_of(layer.bottoms[1]),
                    device: Device::Host,
                })
                &&& steps[k - 1] == (Step::Synchronize {
                    operand: data_of(layer.tops[0]),
                    device: Device::Host,
                })
            }
        }),
{
}

/// How a layer is described before it is wired: its kind and the names of
/// the blobs that it takes and fills.
#[derive(Debug)]
pub struct LayerConfig {
    /// The name of the layer.
    pub name: String,
    /// The kind of the layer.
    pub layer_type: LayerType,
    /// The names of its input blobs.
    pub bottoms: Vec<String>,
    /// The names of its output blobs.
    pub tops: Vec<String>,
}

/// What a [`LayerConfig`] stands for.
pub struct LayerConfigView {
    pub name: Seq<char>,
    pub kind: LayerType,
    pub bottoms: Seq<Seq<char>>,
    pub tops: Seq<Seq<char>>,
}

impl View for LayerConfig {
    type V = LayerConfigView;

    open spec fn view(&self) -> LayerConfigView {
        LayerConfigView {
            name: self.name@,
            kind: self.layer_type,
            bottoms: self.bottoms@.map_values(|name: String| name@),
            tops: self.tops@.map_values(|name: String| name@),
        }
    }
}

impl LayerConfig {
    /// The description of a layer `name` of kind `layer_type` that takes
    /// and fills no blobs yet.
    pub fn new(name: String, layer_type: LayerType) -> (config: LayerConfig)
        ensures
            config@ == (LayerConfigView {
                name: name@,
                kind: layer_type,
                bottoms: Seq::empty(),
                tops: Seq::empty(),
            }),
    {
        let config = LayerConfig { name, layer_type, bottoms: Vec::new(), tops: Vec::new() };
        assert(config@.bottoms =~= Seq::empty());
        config
    }
}

/// The code of a layer, by kind.
#[derive(Debug)]
pub enum Worker {
    Sigmoid(Sigmoid),
    Softmax(Softmax),
    SoftmaxLoss(SoftmaxLoss),
}

/// A layer that is wired into a network.
#[derive(Debug)]
pub struct Layer {
    /// The name of the layer.
    pub name: String,
    /// The code of the layer.
    pub worker: Worker,
    /// Its input blobs, as positions in the table of the network.
    pub bottoms: Vec<usize>,
    /// Its output blobs, as positions in the table of the network.
    pub tops: Vec<usize>,
    /// For each input, whether a backward pass computes its gradient.
    pub propagate_down: Vec<bool>,
    /// Where the layer stands in its life.
    pub state: LayerState,
}

/// What a [`Layer`] stands for.
pub struct LayerView {
    pub name: Seq<char>,
    pub kind: LayerType,
    /// The axis along which a loss layer normalises; none for other kinds.
    pub axis: Option<usize>,
    pub bottoms: Seq<usize>,
    pub tops: Seq<usize>,
    pub propagate_down: Seq<bool>,
    pub state: LayerState,
}

/// The softmax axis that a layer of kind `kind` is wired with: axis 1 for
/// a loss layer.
pub open spec fn wired_axis(kind: LayerType) -> Option<usize> {
    if kind == LayerType::SoftmaxLoss {
        Some(1usize)
    } else {
        None
    }
}

impl LayerView {
    /// The blob counts fit the kind of the layer, there is a flag for each
    /// input, and no flag asks for a gradient that the layer cannot give.
    pub open spec fn wf(self) -> bool {
        &&& self.kind == LayerType::SoftmaxLoss ==> self.axis is Some
        &&& self.bottoms.len() == exact_bottoms(self.kind)
        &&& self.tops.len() == exact_tops(self.kind)
        &&& self.propagate_down.len() == self.bottoms.len()
        &&& forall|i: int|
            0 <= i < self.propagate_down.len() && self.propagate_down[i] ==> takes_gradient(
                self.kind,
                i,
            )
    }

    /// Every blob that the layer names is one of the first `blobs` blobs.
    pub open spec fn within(self, blobs: nat) -> bool {
        &&& forall|i: int| 0 <= i < self.bottoms.len() ==> self.bottoms[i] < blobs
        &&& forall|i: int| 0 <= i < self.tops.len() ==> self.tops[i] < blobs
    }

    /// The steps of a forward pass through the layer.
    pub open spec fn forward_steps(self, index: usize, device: Device, reshape: bool) -> Seq<Step> {
        forward_steps(self.kind, index, device, self.bottoms, self.tops, reshape)
    }

    /// The steps of a backward pass through the layer.
    pub open spec fn backward_steps(self, index: usize, device: Device) -> Seq<Step> {
        backward_steps(self.kind, index, device, self.bottoms, self.tops, self.propagate_down)
    }
}

impl Worker {
    /// The kind of layer that this is the code of.
    pub open spec fn kind(&self) -> LayerType {
        match self {
            Worker::Sigmoid(_) => LayerType::Sigmoid,
            Worker::Softmax(_) => LayerType::Softmax,
            Worker::SoftmaxLoss(_) => LayerType::SoftmaxLoss,
        }
    }

    /// The axis along which a loss layer normalises; none for other kinds.
    pub open spec fn axis(&self) -> Option<usize> {
        match self {
            Worker::SoftmaxLoss(loss) => loss.axis(),
            _ => None,
        }
    }

    /// The code for a layer of kind `kind`, ready to run.
    pub fn new(kind: LayerType) -> (worker: Worker)
        ensures
            worker.kind() == kind,
            worker.axis() == wired_axis(kind),
    {
        match kind {
            LayerType::Sigmoid => Worker::Sigmoid(Sigmoid),
            LayerType::Softmax => Worker::Softmax(Softmax),
            LayerType::SoftmaxLoss => {
                let mut loss = SoftmaxLoss::default();
                loss.init();
                Worker::SoftmaxLoss(loss)
            },
        }
    }

    /// The kind of layer that this is the code of.
    pub fn layer_type(&self) -> (kind: LayerType)
        ensures
            kind == self.kind(),
    {
        match self {
            Worker::Sigmoid(_) => LayerType::Sigmoid,
            Worker::Softmax(_) => LayerType::Softmax,
            Worker::SoftmaxLoss(_) => LayerType::SoftmaxLoss,
        }
    }

    /// The number of input blobs the layer takes.
    pub fn exact_num_bottom_blobs(&self) -> (n: usize)
        ensures
            n == exact_bottoms(self.kind()),
    {
        match self {
            Worker::Sigmoid(layer) => layer.exact_num_bottom_blobs(),
            Worker::Softmax(layer) => layer.exact_num_bottom_blobs(),
            Worker::SoftmaxLoss(layer) => layer.exact_num_bottom_blobs(),
        }
    }

    /// The number of output blobs the layer fills.
    pub fn exact_num_top_blobs(&self) -> (n: usize)
        ensures
            n == exact_tops(self.kind()),
    {
        match self {
            Worker::Sigmoid(layer) => layer.exact_num_top_blobs(),
            Worker::Softmax(layer) => layer.exact_num_top_blobs(),
            Worker::SoftmaxLoss(layer) => layer.exact_num_top_blobs(),
        }
    }

    /// Whether the network makes the output blobs that the description of
    /// the layer does not name.
    pub fn auto_top_blobs(&self) -> (yes: bool)
        ensures
            yes == auto_tops(self.kind()),
    {
        match self {
            Worker::SoftmaxLoss(layer) => layer.auto_top_blobs(),
            _ => false,
        }
    }

    /// Gives the output the shape `input` of the first input; see
    /// [`Sigmoid::reshape`].
    pub fn reshape(&self, input: &Vec<usize>, output: &mut Blob) -> (r: Result<bool, Error>)
        requires
            old(output).wf(),
        ensures
            final(output).wf(),
            r is Ok <==> countable(input@),
            r is Ok ==> r->Ok_0 == (old(output)@.data.shape != input@) && final(output)@ == old(
                output,
            )@.reshaped(input@),
            r is Err ==> r->Err_0 == Error::ShapeMismatch && final(output)@ == old(output)@,
    {
        match self {
            Worker::Sigmoid(layer) => layer.reshape(input, output),
            Worker::Softmax(layer) => layer.reshape(input, output),
            Worker::SoftmaxLoss(layer) => layer.reshape(input, output),
        }
    }

    /// Whether input `input` of the layer can be given a gradient.
    pub fn allows_gradient(&self, input: usize) -> (yes: bool)
        ensures
            yes == takes_gradient(self.kind(), input as int),
    {
        match self {
            Worker::SoftmaxLoss(_) => input != 1,
            _ => true,
        }
    }
}

impl View for Layer {
    type V = LayerView;

    open spec fn view(&self) -> LayerView {
        LayerView {
            name: self.name@,
            kind: self.worker.kind(),
            axis: self.worker.axis(),
            bottoms: self.bottoms@,
            tops: self.tops@,
            propagate_down: self.propagate_down@,
            state: self.state,
        }
    }
}

impl Layer {
    /// The layer fits its kind and its code is ready to run.
    pub open spec fn wf(&self) -> bool {
        self@.wf()
    }

    /// Wires a layer of kind `kind` to the inputs `bottoms` and the outputs
    /// `tops`. `wanted[i]` says whether anything wants the gradient of
    /// input `i`; the layer propagates to that input if it also can.
    ///
    /// Fails with `ConfigurationError` unless the blob counts are those of
    /// the kind and there is one entry of `wanted` per input.
    pub fn new(
        name: String,
        kind: LayerType,
        bottoms: Vec<usize>,
        tops: Vec<usize>,
        wanted: &Vec<bool>,
    ) -> (r: Result<Layer, Error>)
        ensures
            r is Ok <==> bottoms@.len() == exact_bottoms(kind) && tops@.len() == exact_tops(kind)
                && wanted@.len() == bottoms@.len(),
            r is Ok ==> r->Ok_0.wf() && r->Ok_0@ == (LayerView {
                name: name@,
                kind,
                axis: wired_axis(kind),
                bottoms: bottoms@,
                tops: tops@,
                propagate_down: Seq::new(
                    wanted@.len(),
                    |i: int| wanted@[i] && takes_gradient(kind, i),
                ),
                state: LayerState::Uninitialized,
            }),
            r is Err ==> r->Err_0 == Error::ConfigurationError,
    {
        let worker = Worker::new(kind);
        if bottoms.len() != worker.exact_num_bottom_blobs() || tops.len()
            != worker.exact_num_top_blobs() || wanted.len() != bottoms.len() {
            return Err(Error::ConfigurationError);
        }
        let mut propagate_down: Vec<bool> = Vec::new();
        let mut i: usize = 0;
        while i < wanted.len()
            invariant
                0 <= i <= wanted@.len(),
                worker.kind() == kind,
                worker.axis() == wired_axis(kind),
                propagate_down@.len() == i,
                forall|k: int|
                    0 <= k < i ==> #[trigger] propagate_down@[k] == (wanted@[k] && takes_gradient(
                        kind,
                        k,
                    )),
            decreases wanted@.len() - i,
        {
            let allowed = worker.allows_gradient(i);
            let flag = wanted[i] && allowed;
            propagate_down.push(flag);
            i += 1;
        }
        let layer = Layer {
            name,
            worker,
            bottoms,
            tops,
            propagate_down,
            state: LayerState::Uninitialized,
        };
        assert(layer@.propagate_down =~= Seq::new(
            wanted@.len(),
            |i: int| wanted@[i] && takes_gradient(kind, i),
        ));
        Ok(layer)
    }

    /// The kind of the layer.
    pub fn layer_type(&self) -> (kind: LayerType)
        ensures
            kind == self@.kind,
    {
        self.worker.layer_type()
    }

    /// Lists the steps of a forward pass through the layer, which is layer
    /// `index` of its network and computes on `device`. `reshape` says
    /// whether the output has another shape than the first input.
    pub fn forward_steps(&self, index: usize, device: Device, reshape: bool) -> (steps: Vec<Step>)
        requires
            self.wf(),
        ensures
            steps@ == self@.forward_steps(index, device, reshape),
    {
        let mut steps: Vec<Step> = Vec::new();
        if reshape {
            steps.push(Step::Reshape { blob: self.tops[0], like: self.bottoms[0] });
        }
        let mut work = match &self.worker {
            Worker::Sigmoid(layer) => match layer.compute_output(&self.bottoms, &self.tops) {
                Ok(kernel) => steps_to_compute(index, kernel, device),
                Err(_) => unreached(),
            },
            Worker::Softmax(layer) => match layer.forward_layer(&self.bottoms, &self.tops) {
                Ok(kernel) => steps_to_compute(index, kernel, device),
                Err(_) => unreached(),
            },
            Worker::SoftmaxLoss(layer) => match layer.forward_layer(
                index,
                device,
                &self.bottoms,
                &self.tops,
            ) {
                Ok(work) => work,
                Err(_) => unreached(),
            },
        };
        steps.append(&mut work);
        steps
    }

    /// Lists the steps of a backward pass through the layer, which is layer
    /// `index` of its network and computes on `device`.
    pub fn backward_steps(&self, index: usize, device: Device) -> (steps: Vec<Step>)
        requires
            self.wf(),
        ensures
            steps@ == self@.backward_steps(index, device),
    {
        let kernel = match &self.worker {
            Worker::Sigmoid(layer) => match layer.compute_input_gradient(
                &self.bottoms,
                &self.tops,
                &self.propagate_down,
            ) {
                Ok(kernel) => kernel,
                Err(_) => unreached(),
            },
            Worker::Softmax(layer) => match layer.backward_layer(
                &self.tops,
                &self.propagate_down,
                &self.bottoms,
            ) {
                Ok(kernel) => kernel,
                Err(_) => unreached(),
            },
            Worker::SoftmaxLoss(layer) => match layer.backward_layer(
                &self.tops,
                &self.propagate_down,
                &self.bottoms,
            ) {
                Ok(kernel) => kernel,
                Err(_) => unreached(),
            },
        };
        match kernel {
            Some(kernel) => steps_to_compute(index, kernel, device),
            None => Vec::new(),
        }
    }
}

} // verus!
