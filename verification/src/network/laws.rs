//! What holds of every consistent network, whatever pass it is in.
//!
//! Every function of [`Network`](crate::network::Network) keeps the network
//! consistent, so what is proved here of a consistent network and one more
//! step holds of every step of every pass.

use crate::layer::{
    lemma_backward_writes_marked_gradient_only, lemma_forward_steps_shape,
    lemma_forward_writes_output_only, LayerState, LayerType, LayerView,
};
use crate::network::model::{step_within, Action, NetworkView, Outcome, Phase};
use crate::plan::{diff_of, Operand, Step};
use crate::tensor::Device;
use vstd::prelude::*;

verus! {

/// Another state of a layer leaves the network consistent.
pub proof fn lemma_state_is_consistent(network: NetworkView, l: int, state: LayerState)
    requires
        network.wf(),
        0 <= l < network.layers.len(),
    ensures
        network.with_state(l, state).wf(),
{
}

/// Handing out the next pending step keeps the network consistent.
pub proof fn lemma_hand_out_is_consistent(network: NetworkView)
    requires
        network.wf(),
        network.phase == Phase::Forward || network.phase == Phase::Backward,
        network.in_flight is None,
        network.position < network.pending.len(),
    ensures
        network.hand_out().0.wf(),
{
}

/// Entering the next layer of a forward pass keeps the network
/// consistent, and the layer has a step to hand out.
pub proof fn lemma_enter_forward_is_consistent(network: NetworkView)
    requires
        network.wf(),
        network.phase == Phase::Forward,
        network.in_flight is None,
        network.cursor < network.layers.len(),
    ensures
        network.enter_forward().wf(),
        network.enter_forward().pending.len() > 0,
{
    let l = network.cursor as int;
    lemma_steps_stay_within(
        network.layers[l],
        l as usize,
        network.device,
        network.needs_reshape(l),
        network.blobs.len(),
    );
    if network.needs_reshape(l) || network.layers[l].state == LayerState::Uninitialized {
        lemma_state_is_consistent(network, l, LayerState::Reshaped);
    }
}

/// Entering the next layer of a backward pass keeps the network
/// consistent.
pub proof fn lemma_enter_backward_is_consistent(network: NetworkView)
    requires
        network.wf(),
        network.phase == Phase::Backward,
        network.in_flight is None,
        network.cursor > 0,
    ensures
        network.enter_backward().wf(),
{
    let l = network.cursor - 1;
    lemma_steps_stay_within(
        network.layers[l],
        l as usize,
        network.device,
        false,
        network.blobs.len(),
    );
    lemma_state_is_consistent(network, l, LayerState::Backwarded);
}

/// Asking for the next step keeps the network consistent.
pub proof fn lemma_next_is_consistent(network: NetworkView)
    requires
        network.wf(),
    ensures
        network.next().0.wf(),
    decreases network.cursor,
{
    if network.in_flight is None {
        if network.phase == Phase::Forward {
            if network.position < network.pending.len() {
                lemma_hand_out_is_consistent(network);
            } else {
                let left = network.leave_forward();
                if network.cursor > 0 {
                    lemma_state_is_consistent(network, network.cursor - 1, LayerState::Forwarded);
                }
                if network.cursor < network.layers.len() {
                    lemma_enter_forward_is_consistent(left);
                    lemma_hand_out_is_consistent(left.enter_forward());
                }
            }
        } else if network.phase == Phase::Backward {
            if network.position < network.pending.len() {
                lemma_hand_out_is_consistent(network);
            } else if network.cursor > 0 {
                lemma_enter_backward_is_consistent(network);
                lemma_next_is_consistent(network.enter_backward());
            }
        }
    }
}

/// Only a forward pass sizes outputs: a sizing step in flight is the first
/// step of the layer that the forward pass entered last.
pub proof fn lemma_sizing_is_forward(network: NetworkView)
    requires
        network.wf(),
        network.in_flight is Some,
        network.in_flight->0 is Reshape,
    ensures
        network.phase == Phase::Forward,
        0 < network.cursor <= network.layers.len(),
        network.in_flight->0 == (Step::Reshape {
            blob: network.layers[network.cursor - 1].tops[0],
            like: network.layers[network.cursor - 1].bottoms[0],
        }),
{
    let k = network.position - 1;
    if network.phase == Phase::Forward {
        let l = network.cursor - 1;
        let layer = network.layers[l];
        let reshape = network.pending == layer.forward_steps(l as usize, network.device, true);
        lemma_forward_writes_output_only(layer, l as usize, network.device, reshape, k);
    } else {
        let l = network.cursor as int;
        lemma_backward_writes_marked_gradient_only(network.layers[l], l as usize, network.device, k);
    }
}

/// Carrying out the step in flight leaves every blob consistent. In a
/// forward pass the output of the layer that is being run has the shape of
/// its first input afterwards.
pub proof fn lemma_effect_is_consistent(network: NetworkView)
    requires
        network.wf(),
        network.in_flight is Some,
    ensures
        network.effect(network.in_flight->0).len() == network.blobs.len(),
        forall|i: int|
            0 <= i < network.blobs.len() ==> (#[trigger] network.effect(
                network.in_flight->0,
            )[i]).wf(),
        network.phase == Phase::Forward ==> network.cursor > 0 && !(NetworkView {
            blobs: network.effect(network.in_flight->0),
            ..network
        }).needs_reshape(network.cursor - 1),
{
    let step = network.in_flight->0;
    assert(step_within(step, network.blobs.len()));
    match step {
        Step::Reshape { blob, like } => {
            assert(network.blobs[blob as int].wf() && network.blobs[like as int].wf());
        },
        Step::Synchronize { operand, device } => {
            assert(network.blobs[operand.blob as int].wf());
        },
        Step::Compute { layer, kernel } => {
            if kernel.writes() is Some {
                assert(network.blobs[kernel.writes()->0.blob as int].wf());
            }
        },
        Step::AccumulateLoss { layer, labels, probability } => {},
    }
    if network.phase == Phase::Forward {
        let l = network.cursor - 1;
        let layer = network.layers[l];
        let reshape = network.pending == layer.forward_steps(l as usize, network.device, true);
        lemma_forward_writes_output_only(
            layer,
            l as usize,
            network.device,
            reshape,
            network.position - 1,
        );
    }
}

/// Carrying out the step in flight puts no copy out of date that an
/// earlier step of the layer brought up to date, and if the step brings a
/// copy up to date itself, that copy is up to date afterwards.
pub proof fn lemma_effect_keeps_copies(network: NetworkView)
    requires
        network.wf(),
        network.in_flight is Some,
    ensures
        (NetworkView {
            blobs: network.effect(network.in_flight->0),
            in_flight: None,
            ..network
        }).synchronized_so_far(),
{
    let k = network.position - 1;
    let step = network.pending[k];
    assert(step_within(step, network.blobs.len()));
    if network.phase == Phase::Forward {
        let l = network.cursor - 1;
        let layer = network.layers[l];
        let reshape = network.pending == layer.forward_steps(l as usize, network.device, true);
        lemma_forward_writes_output_only(layer, l as usize, network.device, reshape, k);
        assert forall|j: int| 0 <= j < k && step is Compute implies match
            (#[trigger] network.pending[j]) {
            Step::Synchronize { operand, device } => device == network.device,
            _ => true,
        } by {
            lemma_forward_steps_shape(layer, l as usize, network.device, reshape, j, k);
        }
    } else {
        let l = network.cursor as int;
        let layer = network.layers[l];
        assert forall|j: int| 0 <= j < k implies match #[trigger] network.pending[j] {
            Step::Synchronize { operand, device } => device == network.device,
            _ => true,
        } by {
            lemma_backward_writes_marked_gradient_only(layer, l as usize, network.device, j);
        }
    }
}

/// Reporting how a step ended keeps the network consistent.
pub proof fn lemma_report_is_consistent(network: NetworkView, outcome: Outcome)
    requires
        network.wf(),
    ensures
        network.reported(outcome).wf(),
{
    if network.in_flight is Some && outcome == Outcome::Completed {
        lemma_effect_is_consistent(network);
        lemma_effect_keeps_copies(network);
    }
}

/// The steps of a pass through a layer stay within the table if the layer
/// does, and a forward pass through a layer has at least one step.
pub proof fn lemma_steps_stay_within(
    layer: LayerView,
    index: usize,
    device: Device,
    reshape: bool,
    blobs: nat,
)
    requires
        layer.wf(),
        layer.within(blobs),
    ensures
        layer.forward_steps(index, device, reshape).len() > 0,
        forall|k: int|
            0 <= k < layer.forward_steps(index, device, reshape).len() ==> step_within(
                #[trigger] layer.forward_steps(index, device, reshape)[k],
                blobs,
            ),
        forall|k: int|
            0 <= k < layer.backward_steps(index, device).len() ==> step_within(
                #[trigger] layer.backward_steps(index, device)[k],
                blobs,
            ),
{
    assert(layer.tops[0] < blobs && layer.bottoms[0] < blobs);
    if layer.kind == LayerType::SoftmaxLoss {
        assert(layer.bottoms[1] < blobs);
    }
}

/// Asking for the next step touches no blob and no wiring: the table stays
/// as it is, and of the layers only the states change.
pub proof fn lemma_next_keeps_table(network: NetworkView)
    requires
        network.wf(),
    ensures
        network.next().0.blobs == network.blobs,
        network.next().0.device == network.device,
        network.next().0.layers.len() == network.layers.len(),
        forall|l: int|
            0 <= l < network.layers.len() ==> (LayerView {
                state: network.layers[l].state,
                ..#[trigger] network.next().0.layers[l]
            }) == network.layers[l],
    decreases network.cursor,
{
    if network.in_flight is None && network.phase == Phase::Backward && network.position
        >= network.pending.len() && network.cursor > 0 {
        lemma_next_keeps_table(network.enter_backward());
    }
}

/// A forward pass runs the layers in the order in which they were wired:
/// asking for the next step stays in the layer or enters the one behind it,
/// and every step that is handed out belongs to the layer that was entered
/// last. The pass ends behind the last layer.
pub proof fn lemma_forward_in_order(network: NetworkView)
    requires
        network.wf(),
        network.phase == Phase::Forward,
    ensures
        ({
            let (next, action) = network.next();
            &&& network.cursor <= next.cursor <= network.cursor + 1
            &&& match action {
                Action::Run(step) => next.phase == Phase::Forward && next.cursor > 0 && match step {
                    Step::Compute { layer, kernel } => layer == next.cursor - 1,
                    Step::AccumulateLoss { layer, labels, probability } => layer == next.cursor - 1,
                    Step::Reshape { blob, like } => blob == next.layers[next.cursor - 1].tops[0],
                    Step::Synchronize { operand, device } => true,
                },
                Action::Finished => next.phase == Phase::Forwarded && network.cursor
                    == network.layers.len(),
                Action::Aborted(e) => false,
            }
        }),
{
}

/// A backward pass runs the layers in the reverse of the order in which
/// they were wired: asking for the next step never goes back to a layer
/// behind the one that was entered last, and every step that is handed out
/// belongs to the layer that was entered last. The pass ends before the
/// first layer.
pub proof fn lemma_backward_in_reverse(network: NetworkView)
    requires
        network.wf(),
        network.phase == Phase::Backward,
    ensures
        ({
            let (next, action) = network.next();
            &&& next.cursor <= network.cursor
            &&& match action {
                Action::Run(step) => next.phase == Phase::Backward && next.cursor
                    < next.layers.len() && match step {
                    Step::Compute { layer, kernel } => layer == next.cursor,
                    Step::Synchronize { operand, device } => true,
                    _ => false,
                },
                Action::Finished => next.phase == Phase::Backwarded && next.cursor == 0,
                Action::Aborted(e) => false,
            }
        }),
    decreases network.cursor,
{
    if network.in_flight is None && network.position >= network.pending.len() && network.cursor
        > 0 {
        lemma_backward_in_reverse(network.enter_backward());
    }
}

/// In a forward pass every step but the sizing of an output finds the
/// output of its layer with the shape of the first input of the layer: a
/// layer never computes on an output that was not sized for its input.
pub proof fn lemma_compute_on_sized_output(network: NetworkView)
    requires
        network.wf(),
        network.phase == Phase::Forward,
    ensures
        ({
            let (next, action) = network.next();
            match action {
                Action::Run(Step::Reshape { blob, like }) => true,
                Action::Run(_) => next.cursor > 0 && !next.needs_reshape(next.cursor - 1),
                _ => true,
            }
        }),
{
}

/// Whether the copy of the buffer `operand` on `device` is up to date.
pub open spec fn up_to_date(network: NetworkView, operand: Operand, device: Device) -> bool {
    network.blobs[operand.blob as int].part(operand.part).current.contains(device)
}

/// No step reads a copy that was not synchronised: when a kernel is handed
/// out, every buffer that it reads is up to date on the device of the
/// network, and when the loss is to be added up, labels and probabilities
/// are up to date on the host.
pub proof fn lemma_reads_are_synchronized(network: NetworkView)
    requires
        network.wf(),
        network.phase == Phase::Forward || network.phase == Phase::Backward,
    ensures
        ({
            let (next, action) = network.next();
            match action {
                Action::Run(Step::Compute { layer, kernel }) => forall|i: int|
                    0 <= i < kernel.reads().len() ==> up_to_date(
                        next,
                        #[trigger] kernel.reads()[i],
                        next.device,
                    ),
                Action::Run(Step::AccumulateLoss { layer, labels, probability }) => up_to_date(
                    next,
                    labels,
                    Device::Host,
                ) && up_to_date(next, probability, Device::Host),
                _ => true,
            }
        }),
    decreases network.cursor,
{
    if network.in_flight is Some || network.position < network.pending.len() {
        let k = network.carried_out();
        if network.phase == Phase::Forward && k > 0 {
            let l = network.cursor - 1;
            let layer = network.layers[l];
            let reshape = network.pending == layer.forward_steps(l as usize, network.device, true);
            lemma_forward_steps_shape(layer, l as usize, network.device, reshape, 0, k);
        }
    } else if network.phase == Phase::Backward && network.cursor > 0 {
        lemma_reads_are_synchronized(network.enter_backward());
    }
}

/// In a forward pass, reporting a step leaves every blob alone but the
/// output of the layer that is being run. The gradient of that output is
/// never written either: it is resized along with the values, or it is
/// left as it is.
pub proof fn lemma_forward_touches_the_output_only(
    network: NetworkView,
    outcome: Outcome,
    blob: int,
)
    requires
        network.wf(),
        network.phase == Phase::Forward,
        network.in_flight is Some,
        0 <= blob < network.blobs.len(),
    ensures
        network.cursor > 0,
        network.reported(outcome).blobs.len() == network.blobs.len(),
        blob != network.layers[network.cursor - 1].tops[0] ==> {
            &&& network.blobs[blob].data.unwritten_in(network.reported(outcome).blobs[blob].data)
            &&& network.blobs[blob].diff.unwritten_in(network.reported(outcome).blobs[blob].diff)
        },
        blob == network.layers[network.cursor - 1].tops[0] ==> {
            let after = network.reported(outcome).blobs[blob].diff;
            let input = network.layers[network.cursor - 1].bottoms[0] as int;
            let like = network.blobs[input].data.shape;
            after == network.blobs[blob].diff || after == network.blobs[blob].diff.resized(like)
        },
{
}

/// In a backward pass, reporting a step leaves every value alone, and the
/// gradient of every blob that no layer is marked to propagate to: such a
/// buffer is not written, whatever the outcome. At most a copy of it is
/// brought up to date.
pub proof fn lemma_backward_keeps_unmarked_gradients(
    network: NetworkView,
    outcome: Outcome,
    blob: int,
)
    requires
        network.wf(),
        network.phase == Phase::Backward,
        0 <= blob < network.blobs.len(),
    ensures
        network.reported(outcome).blobs.len() == network.blobs.len(),
        network.blobs[blob].data.unwritten_in(network.reported(outcome).blobs[blob].data),
        !network.propagates_to(blob) ==> network.blobs[blob].diff.unwritten_in(
            network.reported(outcome).blobs[blob].diff,
        ),
{
}

/// A backward pass, however far it gets and however its steps end, leaves
/// every value alone, and the gradient of every blob that no layer is
/// marked to propagate to: such a buffer is never written.
pub proof fn lemma_backward_pass_keeps_unmarked_gradients(
    network: NetworkView,
    outcomes: Seq<Outcome>,
    blob: int,
)
    requires
        network.wf(),
        network.phase == Phase::Backward,
        0 <= blob < network.blobs.len(),
    ensures
        ({
            let end = network.after_rounds(outcomes);
            &&& end.wf()
            &&& end.phase == Phase::Backward || end.phase == Phase::Backwarded || end.phase
                == Phase::Failed
            &&& end.blobs.len() == network.blobs.len()
            &&& end.propagates_to(blob) == network.propagates_to(blob)
            &&& network.blobs[blob].data.unwritten_in(end.blobs[blob].data)
            &&& !network.propagates_to(blob) ==> network.blobs[blob].diff.unwritten_in(
                end.blobs[blob].diff,
            )
        }),
    decreases outcomes.len(),
{
    if outcomes.len() > 0 {
        let before = network.after_rounds(outcomes.drop_last());
        lemma_backward_pass_keeps_unmarked_gradients(network, outcomes.drop_last(), blob);
        let asked = before.next().0;
        lemma_next_is_consistent(before);
        lemma_next_keeps_table(before);
        lemma_marks_follow_the_wiring(before, asked, blob);
        if before.phase == Phase::Backward {
            lemma_backward_in_reverse(before);
        }
        lemma_report_is_consistent(asked, outcomes.last());
        if asked.phase == Phase::Backward {
            lemma_backward_keeps_unmarked_gradients(asked, outcomes.last(), blob);
        }
    }
}

/// The class labels of a loss layer never get a gradient: the layer is
/// never marked to propagate to them, and no step ever writes their
/// gradient on its account.
pub proof fn lemma_labels_get_no_gradient(network: NetworkView, l: int)
    requires
        network.wf(),
        0 <= l < network.layers.len(),
        network.layers[l].kind == LayerType::SoftmaxLoss,
    ensures
        network.layers[l].bottoms.len() == 2,
        !network.layers[l].propagate_down[1],
        forall|k: int|
            0 <= k < network.layers[l].backward_steps(l as usize, network.device).len() ==> match
                (#[trigger] network.layers[l].backward_steps(l as usize, network.device)[k]) {
                Step::Compute { layer, kernel } => kernel.writes() == Some(
                    diff_of(network.layers[l].bottoms[0]),
                ),
                _ => true,
            },
{
    let layer = network.layers[l];
    assert(layer.wf());
    assert forall|k: int|
        0 <= k < layer.backward_steps(l as usize, network.device).len() implies match
        (#[trigger] layer.backward_steps(l as usize, network.device)[k]) {
        Step::Compute { layer: at, kernel } => kernel.writes() == Some(diff_of(layer.bottoms[0])),
        _ => true,
    } by {
        lemma_backward_writes_marked_gradient_only(layer, l as usize, network.device, k);
    }
}

/// Whether a blob is marked for propagation depends on the wiring of the
/// layers alone, not on the states that they are in.
pub proof fn lemma_marks_follow_the_wiring(network: NetworkView, other: NetworkView, blob: int)
    requires
        other.layers.len() == network.layers.len(),
        forall|l: int|
            0 <= l < network.layers.len() ==> (LayerView {
                state: network.layers[l].state,
                ..#[trigger] other.layers[l]
            }) == network.layers[l],
    ensures
        other.propagates_to(blob) == network.propagates_to(blob),
{
    if network.propagates_to(blob) {
        let (l, i) = choose|l: int, i: int|
            0 <= l < network.layers.len() && 0 <= i < network.layers[l].bottoms.len()
                && #[trigger] network.layers[l].propagate_down[i] && network.layers[l].bottoms[i]
                == blob;
        assert(other.layers[l].propagate_down[i]);
    }
    if other.propagates_to(blob) {
        let (l, i) = choose|l: int, i: int|
            0 <= l < other.layers.len() && 0 <= i < other.layers[l].bottoms.len()
                && #[trigger] other.layers[l].propagate_down[i] && other.layers[l].bottoms[i]
                == blob;
        assert(network.layers[l].propagate_down[i]);
    }
}

/// Once the output of layer `l` was given the shape of its first input,
/// the layer needs no reshaping: entering it again without a change of the
/// input shape touches no memory.
pub proof fn lemma_reshape_settles(network: NetworkView, l: int)
    requires
        network.wf(),
        0 <= l < network.layers.len(),
    ensures
        ({
            let step = Step::Reshape {
                blob: network.layers[l].tops[0],
                like: network.layers[l].bottoms[0],
            };
            !(NetworkView { blobs: network.effect(step), ..network }).needs_reshape(l)
        }),
{
}

} // verus!
