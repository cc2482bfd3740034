//! What a network stands for, and what its passes do, as mathematics.

use crate::error::Error;
use crate::layer::{
    auto_tops, exact_bottoms, exact_tops, takes_gradient, wired_axis, LayerConfigView,
    LayerState, LayerType, LayerView,
};
use crate::plan::Step;
use crate::shape::element_count;
use crate::shared_memory::BlobView;
use crate::tensor::{Device, TensorView};
use vstd::prelude::*;

verus! {

/// What a network is doing.
#[derive(Clone, Copy, Debug, PartialEq, Eq, Structural)]
pub enum Phase {
    /// No pass was started yet.
    Idle,
    /// A forward pass is under way.
    Forward,
    /// The last forward pass ran to its end.
    Forwarded,
    /// A backward pass is under way.
    Backward,
    /// The last backward pass ran to its end.
    Backwarded,
    /// The last pass was given up; the blobs hold what it did until then.
    Failed,
}

/// How a step ended.
#[derive(Clone, Copy, Debug, PartialEq, Eq, Structural)]
pub enum Outcome {
    /// The step was carried out.
    Completed,
    /// The step could not be carried out.
    Failed,
}

/// What the network asks for next.
#[derive(Clone, Copy, Debug, PartialEq, Eq)]
pub enum Action {
    /// Carry this step out and report how it ended.
    Run(Step),
    /// The pass is over (or none was started).
    Finished,
    /// The pass was given up for this reason.
    Aborted(Error),
}

/// What a [`Network`] stands for.
pub struct NetworkView {
    /// The device on which the kernels run.
    pub device: Device,
    /// The table of blobs.
    pub blobs: Seq<BlobView>,
    /// The name of each blob.
    pub names: Seq<Seq<char>>,
    /// For each blob, whether layers can name it as an input.
    pub listed: Seq<bool>,
    /// For each blob, whether anything wants its gradient.
    pub wanted: Seq<bool>,
    /// The blobs that are handed in from outside, in the order in which
    /// they were declared.
    pub inputs: Seq<usize>,
    /// The layers, in the order in which a forward pass runs them.
    pub layers: Seq<LayerView>,
    /// What the network is doing.
    pub phase: Phase,
    /// Forward: the number of layers entered. Backward: the number of
    /// layers not entered yet.
    pub cursor: usize,
    /// The steps of the layer that is being run.
    pub pending: Seq<Step>,
    /// How many of them were handed out.
    pub position: usize,
    /// The step that was handed out and not reported yet.
    pub in_flight: Option<Step>,
    /// Why the last pass was given up.
    pub failure: Option<Error>,
}

/// Every blob that `step` names is one of the first `blobs` blobs.
pub open spec fn step_within(step: Step, blobs: nat) -> bool {
    match step {
        Step::Reshape { blob, like } => blob < blobs && like < blobs,
        Step::Synchronize { operand, device } => operand.blob < blobs,
        Step::Compute { layer, kernel } => {
            &&& forall|i: int| 0 <= i < kernel.reads().len() ==> kernel.reads()[i].blob < blobs
            &&& kernel.writes() is Some ==> kernel.writes()->0.blob < blobs
        },
        Step::AccumulateLoss { layer, labels, probability } => labels.blob < blobs
            && probability.blob < blobs,
    }
}

impl NetworkView {
    /// The table is consistent and the pass, if any, stays within it.
    pub open spec fn wf(self) -> bool {
        &&& self.blobs.len() <= usize::MAX
        &&& self.layers.len() <= usize::MAX
        &&& self.pending.len() <= usize::MAX
        &&& self.names.len() == self.blobs.len()
        &&& self.listed.len() == self.blobs.len()
        &&& self.wanted.len() == self.blobs.len()
        &&& forall|i: int| 0 <= i < self.blobs.len() ==> (#[trigger] self.blobs[i]).wf()
        &&& forall|i: int, j: int|
            0 <= i < j < self.blobs.len() && self.listed[i] && self.listed[j] ==> self.names[i]
                != self.names[j]
        &&& forall|i: int|
            0 <= i < self.inputs.len() ==> #[trigger] self.inputs[i] < self.blobs.len()
        &&& forall|i: int, j: int|
            0 <= i < j < self.inputs.len() ==> self.inputs[i] != self.inputs[j]
        &&& forall|l: int|
            0 <= l < self.layers.len() ==> {
                &&& (#[trigger] self.layers[l]).wf()
                &&& self.layers[l].within(self.blobs.len())
            }
        &&& self.cursor <= self.layers.len()
        &&& self.position <= self.pending.len()
        &&& forall|k: int|
            0 <= k < self.pending.len() ==> step_within(
                #[trigger] self.pending[k],
                self.blobs.len(),
            )
        &&& self.in_flight is Some ==> step_within(self.in_flight->0, self.blobs.len())
        &&& self.phase == Phase::Failed ==> self.failure is Some
        &&& self.phase == Phase::Forward ==> self.in_forward() && self.sized_or_sizing()
        &&& self.phase == Phase::Backward ==> self.in_backward()
        &&& self.phase == Phase::Forward || self.phase == Phase::Backward
            ==> self.synchronized_so_far()
        &&& self.in_flight is Some ==> {
            &&& self.phase == Phase::Forward || self.phase == Phase::Backward
            &&& self.position > 0
            &&& self.in_flight->0 == self.pending[self.position - 1]
        }
    }

    /// In a forward pass the pending steps are those of the layer that was
    /// entered last, and there are none before the first layer is entered.
    pub open spec fn in_forward(self) -> bool {
        if self.cursor == 0 {
            self.pending.len() == 0
        } else {
            let l = self.cursor - 1;
            ||| self.pending == self.layers[l].forward_steps(l as usize, self.device, true)
            ||| self.pending == self.layers[l].forward_steps(l as usize, self.device, false)
        }
    }

    /// The number of pending steps that were carried out.
    pub open spec fn carried_out(self) -> int {
        if self.in_flight is Some {
            self.position - 1
        } else {
            self.position as int
        }
    }

    /// Every copy that a step of the layer being run brought up to date
    /// is up to date still.
    pub open spec fn synchronized_so_far(self) -> bool {
        forall|k: int|
            0 <= k < self.carried_out() ==> match #[trigger] self.pending[k] {
                Step::Synchronize { operand, device } => self.blobs[operand.blob as int].part(
                    operand.part,
                ).current.contains(device),
                _ => true,
            }
    }

    /// The output of the layer that a forward pass entered last has the
    /// shape of its first input, or the step that gives it that shape is
    /// the first of the pending steps and is not carried out yet.
    pub open spec fn sized_or_sizing(self) -> bool {
        self.cursor > 0 ==> {
            let l = self.cursor - 1;
            ||| !self.needs_reshape(l)
            ||| {
                &&& self.pending.len() > 0
                &&& self.pending[0] == (Step::Reshape {
                    blob: self.layers[l].tops[0],
                    like: self.layers[l].bottoms[0],
                })
                &&& self.position <= 1
                &&& self.position == 1 ==> self.in_flight is Some
            }
        }
    }

    /// In a backward pass the pending steps are those of the layer that
    /// was entered last, and there are none before the first layer is
    /// entered.
    pub open spec fn in_backward(self) -> bool {
        ||| self.pending.len() == 0
        ||| {
            &&& self.cursor < self.layers.len()
            &&& self.pending == self.layers[self.cursor as int].backward_steps(
                self.cursor,
                self.device,
            )
        }
    }

    /// A network on `device` without blobs and layers.
    pub open spec fn empty(device: Device) -> NetworkView {
        NetworkView {
            device,
            blobs: Seq::empty(),
            names: Seq::empty(),
            listed: Seq::empty(),
            wanted: Seq::empty(),
            inputs: Seq::empty(),
            layers: Seq::empty(),
            phase: Phase::Idle,
            cursor: 0,
            pending: Seq::empty(),
            position: 0,
            in_flight: None,
            failure: None,
        }
    }

    /// Whether layers can name a blob `name`.
    pub open spec fn knows(self, name: Seq<char>) -> bool {
        exists|i: int| self.lists(i, name)
    }

    /// Blob `i` is the one that layers reach under `name`.
    pub open spec fn lists(self, i: int, name: Seq<char>) -> bool {
        0 <= i < self.blobs.len() && self.listed[i] && self.names[i] == name
    }

    /// The blob that layers reach under `name`.
    pub open spec fn index_of(self, name: Seq<char>) -> int {
        choose|i: int| self.lists(i, name)
    }

    /// The network with one more blob at the end of the table.
    pub open spec fn with_blob(
        self,
        name: Seq<char>,
        listed: bool,
        wanted: bool,
        blob: BlobView,
    ) -> NetworkView {
        NetworkView {
            blobs: self.blobs.push(blob),
            names: self.names.push(name),
            listed: self.listed.push(listed),
            wanted: self.wanted.push(wanted),
            ..self
        }
    }

    /// The network with one more input, a new blob `name` of shape `shape`
    /// on the device of the network.
    pub open spec fn with_input(
        self,
        name: Seq<char>,
        shape: Seq<usize>,
        wanted: bool,
    ) -> NetworkView {
        let blob = BlobView {
            data: TensorView::fresh(self.device, shape),
            diff: TensorView::fresh(self.device, shape),
        };
        NetworkView {
            inputs: self.inputs.push(self.blobs.len() as usize),
            ..self.with_blob(name, true, wanted, blob)
        }
    }

    /// Whether a layer described by `config` can be wired into the
    /// network: it takes as many inputs as its kind asks for, layers can
    /// reach every one of them, and it names its one output or is of a kind
    /// whose output the network makes. An output either is the first input
    /// again (the layer then works in place) or has a name that is not
    /// taken.
    pub open spec fn accepts(self, config: LayerConfigView) -> bool {
        &&& config.bottoms.len() == exact_bottoms(config.kind)
        &&& forall|j: int|
            0 <= j < config.bottoms.len() ==> self.knows(#[trigger] config.bottoms[j])
        &&& config.tops.len() <= exact_tops(config.kind)
        &&& config.tops.len() == exact_tops(config.kind) || auto_tops(config.kind)
        &&& config.tops.len() == 1 ==> config.tops[0] == config.bottoms[0] || !self.knows(
            config.tops[0],
        )
    }

    /// Whether a layer described by `config` works in place: its output is
    /// its first input.
    pub open spec fn in_place(config: LayerConfigView) -> bool {
        config.tops.len() == 1 && config.tops[0] == config.bottoms[0]
    }

    /// The inputs of a layer described by `config`, as positions in the
    /// table.
    pub open spec fn bottoms_of(self, config: LayerConfigView) -> Seq<usize> {
        Seq::new(config.bottoms.len(), |j: int| self.index_of(config.bottoms[j]) as usize)
    }

    /// For each input of a layer described by `config`, whether a backward
    /// pass computes its gradient: something wants it and the layer can
    /// give it.
    pub open spec fn propagation_of(self, config: LayerConfigView) -> Seq<bool> {
        Seq::new(
            config.bottoms.len(),
            |j: int|
                self.wanted[self.index_of(config.bottoms[j])] && takes_gradient(config.kind, j),
        )
    }

    /// The network with the layer described by `config` wired in behind
    /// the others. Unless the layer works in place, its output is a new
    /// blob: a scalar on the device of the network, which the first forward
    /// pass gives its shape. A blob that the network makes without being
    /// told a name cannot be reached by later layers. The gradient of the
    /// output is wanted if the layer propagates to any of its inputs.
    pub open spec fn with_layer(self, config: LayerConfigView) -> NetworkView {
        let propagate_down = self.propagation_of(config);
        let bottoms = self.bottoms_of(config);
        let table = if Self::in_place(config) {
            self
        } else {
            self.with_blob(
                if config.tops.len() == 1 {
                    config.tops[0]
                } else {
                    "(automatic)"@
                },
                config.tops.len() == 1,
                propagate_down.contains(true),
                BlobView {
                    data: TensorView::fresh(self.device, Seq::empty()),
                    diff: TensorView::fresh(self.device, Seq::empty()),
                },
            )
        };
        let top = if Self::in_place(config) {
            bottoms[0]
        } else {
            self.blobs.len() as usize
        };
        NetworkView {
            layers: self.layers.push(
                LayerView {
                    name: config.name,
                    kind: config.kind,
                    axis: wired_axis(config.kind),
                    bottoms,
                    tops: seq![top],
                    propagate_down,
                    state: LayerState::Uninitialized,
                },
            ),
            ..table
        }
    }

    /// Input `i`, one of the first `given` inputs, is blob `j`.
    pub open spec fn feeds(self, given: nat, i: int, j: int) -> bool {
        0 <= i < given && i < self.inputs.len() && self.inputs[i] == j
    }

    /// The table after the blobs `given` were bound to the first inputs,
    /// in the order in which the inputs were declared. The other blobs stay
    /// as they are.
    pub open spec fn bound(self, given: Seq<BlobView>) -> Seq<BlobView> {
        Seq::new(
            self.blobs.len(),
            |j: int|
                if exists|i: int| self.feeds(given.len(), i, j) {
                    given[choose|i: int| self.feeds(given.len(), i, j)]
                } else {
                    self.blobs[j]
                },
        )
    }

    /// The network at the start of a pass.
    pub open spec fn started(self, phase: Phase, cursor: usize) -> NetworkView {
        NetworkView {
            phase,
            cursor,
            pending: Seq::empty(),
            position: 0,
            in_flight: None,
            failure: None,
            ..self
        }
    }

    /// The network with layer `l` in another state.
    pub open spec fn with_state(self, l: int, state: LayerState) -> NetworkView {
        NetworkView {
            layers: self.layers.update(l, LayerView { state, ..self.layers[l] }),
            ..self
        }
    }

    /// Whether the output of layer `l` has another shape than its first
    /// input.
    pub open spec fn needs_reshape(self, l: int) -> bool {
        self.blobs[self.layers[l].tops[0] as int].data.shape
            != self.blobs[self.layers[l].bottoms[0] as int].data.shape
    }

    /// The next pending step is handed out.
    pub open spec fn hand_out(self) -> (NetworkView, Action) {
        (
            NetworkView {
                position: (self.position + 1) as usize,
                in_flight: Some(self.pending[self.position as int]),
                ..self
            },
            Action::Run(self.pending[self.position as int]),
        )
    }

    /// The layer that a forward pass ran last has its result.
    pub open spec fn leave_forward(self) -> NetworkView {
        if self.cursor > 0 {
            self.with_state(self.cursor - 1, LayerState::Forwarded)
        } else {
            self
        }
    }

    /// A forward pass enters the next layer: its steps are pending. The
    /// layer counts as reshaped if its output is about to be sized, or if
    /// it was never sized and has the right shape by chance.
    pub open spec fn enter_forward(self) -> NetworkView {
        let l = self.cursor as int;
        let reshape = self.needs_reshape(l);
        let entered = if reshape || self.layers[l].state == LayerState::Uninitialized {
            self.with_state(l, LayerState::Reshaped)
        } else {
            self
        };
        NetworkView {
            cursor: (l + 1) as usize,
            pending: self.layers[l].forward_steps(l as usize, self.device, reshape),
            position: 0,
            ..entered
        }
    }

    /// What a forward pass does next: the layers run in the order in which
    /// they were wired, each one after the last step of the one before.
    pub open spec fn next_forward(self) -> (NetworkView, Action) {
        if self.position < self.pending.len() {
            self.hand_out()
        } else if self.cursor < self.layers.len() {
            self.leave_forward().enter_forward().hand_out()
        } else {
            (
                NetworkView {
                    phase: Phase::Forwarded,
                    pending: Seq::empty(),
                    position: 0,
                    ..self.leave_forward()
                },
                Action::Finished,
            )
        }
    }

    /// A backward pass enters the layer before the one it ran last.
    pub open spec fn enter_backward(self) -> NetworkView {
        let l = self.cursor - 1;
        NetworkView {
            cursor: l as usize,
            pending: self.layers[l].backward_steps(l as usize, self.device),
            position: 0,
            ..self.with_state(l, LayerState::Backwarded)
        }
    }

    /// What a backward pass does next: the layers run in the reverse of
    /// the order in which they were wired. A layer that propagates to none
    /// of its inputs has no step and is passed over.
    pub open spec fn next_backward(self) -> (NetworkView, Action)
        decreases self.cursor,
    {
        if self.position < self.pending.len() {
            self.hand_out()
        } else if self.cursor > 0 {
            self.enter_backward().next_backward()
        } else {
            (
                NetworkView {
                    phase: Phase::Backwarded,
                    pending: Seq::empty(),
                    position: 0,
                    ..self
                },
                Action::Finished,
            )
        }
    }

    /// What the network asks for next, and what it is afterwards. A step
    /// that was handed out and not reported yet is handed out again.
    pub open spec fn next(self) -> (NetworkView, Action) {
        if self.in_flight is Some {
            (self, Action::Run(self.in_flight->0))
        } else {
            match self.phase {
                Phase::Forward => self.next_forward(),
                Phase::Backward => self.next_backward(),
                Phase::Failed => (self, Action::Aborted(self.failure->0)),
                _ => (self, Action::Finished),
            }
        }
    }

    /// The network after some rounds: in each of them the next step is
    /// asked for and, if one is handed out, reported to have ended with the
    /// outcome of that round.
    pub open spec fn after_rounds(self, outcomes: Seq<Outcome>) -> NetworkView
        decreases outcomes.len(),
    {
        if outcomes.len() == 0 {
            self
        } else {
            self.after_rounds(outcomes.drop_last()).next().0.reported(outcomes.last())
        }
    }

    /// Whether some layer is marked to propagate to blob `blob`: the blob
    /// is an input of the layer and the flag of that input is set.
    pub open spec fn propagates_to(self, blob: int) -> bool {
        exists|l: int, i: int|
            0 <= l < self.layers.len() && 0 <= i < self.layers[l].bottoms.len()
                && #[trigger] self.layers[l].propagate_down[i] && self.layers[l].bottoms[i] == blob
    }

    /// Whether layer `layer` is a loss layer of the network.
    pub open spec fn has_loss(self, layer: usize) -> bool {
        layer < self.layers.len() && self.layers[layer as int].kind == LayerType::SoftmaxLoss
    }

    /// The shape of the prediction that loss layer `layer` takes.
    pub open spec fn prediction_shape(self, layer: usize) -> Seq<usize> {
        self.blobs[self.layers[layer as int].bottoms[0] as int].data.shape
    }

    /// The number of probabilities that loss layer `layer` fills in.
    pub open spec fn probability_count(self, layer: usize) -> usize {
        element_count(self.blobs[self.layers[layer as int].tops[0] as int].data.shape) as usize
    }

    /// The table after `step` was carried out.
    pub open spec fn effect(self, step: Step) -> Seq<BlobView> {
        match step {
            Step::Reshape { blob, like } => self.blobs.update(
                blob as int,
                self.blobs[blob as int].reshaped(self.blobs[like as int].data.shape),
            ),
            Step::Synchronize { operand, device } => self.blobs.update(
                operand.blob as int,
                self.blobs[operand.blob as int].with_part(
                    operand.part,
                    self.blobs[operand.blob as int].part(operand.part).synchronized(device),
                ),
            ),
            Step::Compute { layer, kernel } => match kernel.writes() {
                Some(operand) => self.blobs.update(
                    operand.blob as int,
                    self.blobs[operand.blob as int].with_part(
                        operand.part,
                        self.blobs[operand.blob as int].part(operand.part).written(self.device),
                    ),
                ),
                None => self.blobs,
            },
            Step::AccumulateLoss { layer, labels, probability } => self.blobs,
        }
    }

    /// The network after the step in flight was reported to have ended
    /// with `outcome`. A step that was carried out leaves its mark on the
    /// table; one that was not ends the pass, and what earlier steps did
    /// stays. With no step in flight nothing happens.
    pub open spec fn reported(self, outcome: Outcome) -> NetworkView {
        match self.in_flight {
            None => self,
            Some(step) => match outcome {
                Outcome::Completed => NetworkView {
                    blobs: self.effect(step),
                    in_flight: None,
                    ..self
                },
                Outcome::Failed => NetworkView {
                    phase: Phase::Failed,
                    failure: Some(error_for(step)),
                    in_flight: None,
                    ..self
                },
            },
        }
    }
}

/// The error that a failed step stands for: memory could not be had for a
/// new shape or a copy, a kernel failed, or the labels do not fit the
/// probabilities.
pub open spec fn error_for(step: Step) -> Error {
    match step {
        Step::Reshape { blob, like } => Error::DeviceUnavailable,
        Step::Synchronize { operand, device } => Error::DeviceUnavailable,
        Step::Compute { layer, kernel } => Error::BackendOperationFailed,
        Step::AccumulateLoss { layer, labels, probability } => Error::ShapeMismatch,
    }
}

} // verus!
