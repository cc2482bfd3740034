//! A network: layers in a fixed order over a table of named blobs, and the
//! passes that run them.
//!
//! The network does not compute. A pass hands out one [`Step`] after the
//! other; the embedding application carries each step out on the real
//! memory and reports how it ended, and the network keeps its books
//! accordingly.

pub mod config;
pub mod laws;
pub mod model;

pub use self::config::{wired, NetworkConfig, NetworkConfigView};
pub use self::model::{Action, NetworkView, Outcome, Phase};

use self::config::{wire_inputs, wire_layers};
use self::laws::{
    lemma_enter_backward_is_consistent, lemma_enter_forward_is_consistent,
    lemma_hand_out_is_consistent, lemma_report_is_consistent, lemma_sizing_is_forward,
    lemma_state_is_consistent,
};
use self::model::step_within;
use crate::error::Error;
use crate::layer::{takes_gradient, Layer, LayerConfig, LayerState, LayerView, Worker};
use crate::layers::loss::softmax::{loss_terms_of, partition_defined, partition_of, terms_in_reach};
use crate::plan::Step;
use crate::shape::countable;
use crate::shared_memory::Blob;
use crate::tensor::{
    copy_dims, lemma_synchronized_current, same_dims, Allocation, Device, TensorBuffer,
};
use vstd::pervasive::unreached;
use vstd::prelude::*;

verus! {

/// A network of layers over shared blobs.
#[derive(Debug)]
pub struct Network {
    device: Device,
    blobs: Vec<Blob>,
    names: Vec<String>,
    listed: Vec<bool>,
    wanted: Vec<bool>,
    inputs: Vec<usize>,
    layers: Vec<Layer>,
    phase: Phase,
    cursor: usize,
    pending: Vec<Step>,
    position: usize,
    in_flight: Option<Step>,
    failure: Option<Error>,
}

impl View for Network {
    type V = NetworkView;

    closed spec fn view(&self) -> NetworkView {
        NetworkView {
            device: self.device,
            blobs: self.blobs@.map_values(|blob: Blob| blob@),
            names: self.names@.map_values(|name: String| name@),
            listed: self.listed@,
            wanted: self.wanted@,
            inputs: self.inputs@,
            layers: self.layers@.map_values(|layer: Layer| layer@),
            phase: self.phase,
            cursor: self.cursor,
            pending: self.pending@,
            position: self.position,
            in_flight: self.in_flight,
            failure: self.failure,
        }
    }
}

impl Network {
    /// The books are consistent.
    pub closed spec fn wf(&self) -> bool {
        &&& self@.wf()
        &&& forall|i: int| 0 <= i < self.blobs@.len() ==> (#[trigger] self.blobs@[i]).wf()
    }

    /// A consistent network stands for a consistent view.
    pub proof fn lemma_view_wf(&self)
        requires
            self.wf(),
        ensures
            self@.wf(),
    {
    }

    /// A network on `device` without blobs and layers.
    pub fn new(device: Device) -> (network: Network)
        ensures
            network.wf(),
            network@ == NetworkView::empty(device),
    {
        let network = Network {
            device,
            blobs: Vec::new(),
            names: Vec::new(),
            listed: Vec::new(),
            wanted: Vec::new(),
            inputs: Vec::new(),
            layers: Vec::new(),
            phase: Phase::Idle,
            cursor: 0,
            pending: Vec::new(),
            position: 0,
            in_flight: None,
            failure: None,
        };
        assert(network@.blobs =~= Seq::empty());
        assert(network@.names =~= Seq::empty());
        assert(network@.layers =~= Seq::empty());
        network
    }

    /// The device on which the kernels run.
    pub fn device(&self) -> (device: Device)
        ensures
            device == self@.device,
    {
        self.device
    }

    /// What the network is doing.
    pub fn phase(&self) -> (phase: Phase)
        ensures
            phase == self@.phase,
    {
        self.phase
    }

    /// The number of blobs in the table.
    pub fn num_blobs(&self) -> (n: usize)
        ensures
            n == self@.blobs.len(),
    {
        self.blobs.len()
    }

    /// The number of layers.
    pub fn num_layers(&self) -> (n: usize)
        ensures
            n == self@.layers.len(),
    {
        self.layers.len()
    }

    /// The blobs that are handed in from outside, as positions in the
    /// table and in the order in which they were declared.
    pub fn inputs(&self) -> (inputs: &Vec<usize>)
        ensures
            inputs@ == self@.inputs,
    {
        &self.inputs
    }

    /// Blob `index` of the table.
    pub fn blob(&self, index: usize) -> (blob: &Blob)
        requires
            index < self@.blobs.len(),
        ensures
            blob@ == self@.blobs[index as int],
            self.wf() ==> blob.wf(),
    {
        &self.blobs[index]
    }

    /// Layer `index`.
    pub fn layer(&self, index: usize) -> (layer: &Layer)
        requires
            index < self@.layers.len(),
        ensures
            layer@ == self@.layers[index as int],
            self.wf() ==> layer.wf(),
    {
        &self.layers[index]
    }

    /// The blob that layers reach under `name`, if there is one.
    pub fn blob_index(&self, name: &String) -> (index: Option<usize>)
        requires
            self.wf(),
        ensures
            index is Some <==> self@.knows(name@),
            index is Some ==> self@.lists(index->0 as int, name@) && index->0 == self@.index_of(
                name@,
            ),
    {
        let mut i: usize = 0;
        while i < self.names.len()
            invariant
                0 <= i <= self.names@.len(),
                self.wf(),
                forall|k: int| 0 <= k < i ==> !self@.lists(k, name@),
            decreases self.names@.len() - i,
        {
            if self.listed[i] && self.names[i] == *name {
                assert(self@.lists(i as int, name@));
                return Some(i);
            }
            i += 1;
        }
        None
    }

    /// Declares the input `name` of shape `shape`: a new blob with a
    /// single copy of values and gradient on the device of the network.
    /// `wanted` says whether backward passes compute gradients down to this
    /// input.
    ///
    /// Fails with `ConfigurationError` when layers can reach a blob under
    /// that name already, and else with `ShapeMismatch` when the element
    /// count of `shape` does not fit a machine word. A failed call changes
    /// nothing.
    pub fn add_input(&mut self, name: &String, shape: &Vec<usize>, wanted: bool) -> (r: Result<
        usize,
        Error,
    >)
        requires
            old(self).wf(),
        ensures
            final(self).wf(),
            match r {
                Ok(index) => {
                    &&& !old(self)@.knows(name@)
                    &&& countable(shape@)
                    &&& index == old(self)@.blobs.len()
                    &&& final(self)@ == old(self)@.with_input(name@, shape@, wanted)
                },
                Err(e) => {
                    &&& final(self)@ == old(self)@
                    &&& e == if old(self)@.knows(name@) {
                        Error::ConfigurationError
                    } else {
                        Error::ShapeMismatch
                    }
                    &&& old(self)@.knows(name@) || !countable(shape@)
                },
            },
    {
        if self.blob_index(name).is_some() {
            return Err(Error::ConfigurationError);
        }
        let data = match TensorBuffer::new(self.device, shape) {
            Ok(data) => data,
            Err(e) => {
                return Err(e);
            },
        };
        let blob = Blob::from_data(data);
        let index = self.blobs.len();
        self.push_blob(name.clone(), true, wanted, blob);
        self.inputs.push(index);
        Ok(index)
    }

    /// Adds a blob at the end of the table.
    fn push_blob(&mut self, name: String, listed: bool, wanted: bool, blob: Blob)
        requires
            old(self).wf(),
            blob.wf(),
            listed ==> !old(self)@.knows(name@),
        ensures
            final(self).wf(),
            final(self)@ == old(self)@.with_blob(name@, listed, wanted, blob@),
    {
        proof {
            blob.lemma_view_wf();
        }
        self.blobs.push(blob);
        self.names.push(name);
        self.listed.push(listed);
        self.wanted.push(wanted);
        // the length of a vector fits a machine word; asking for it tells the prover so
        let _ = self.blobs.len();
        proof {
            let before = old(self)@;
            let after = self@;
            assert(after.blobs =~= before.blobs.push(blob@));
            assert(after.names =~= before.names.push(name@));
            assert forall|i: int, j: int|
                0 <= i < j < after.blobs.len() && after.listed[i]
                    && after.listed[j] implies after.names[i] != after.names[j] by {
                if j == before.blobs.len() {
                    assert(!before.lists(i, name@));
                }
            }
        }
    }

    /// Wires the layer described by `config` in behind the others and
    /// returns its position.
    ///
    /// Fails with `ConfigurationError`, and changes nothing, when the
    /// network cannot accept the layer: see [`NetworkView::accepts`].
    pub fn add_layer(&mut self, config: &LayerConfig) -> (r: Result<usize, Error>)
        requires
            old(self).wf(),
        ensures
            final(self).wf(),
            r is Ok <==> old(self)@.accepts(config@),
            r is Ok ==> r->Ok_0 == old(self)@.layers.len() && final(self)@ == old(self)@.with_layer(
                config@,
            ),
            r is Err ==> r->Err_0 == Error::ConfigurationError && final(self)@ == old(self)@,
    {
        let ghost before = self@;
        let ghost described = config@;
        let worker = Worker::new(config.layer_type);
        if config.bottoms.len() != worker.exact_num_bottom_blobs() {
            return Err(Error::ConfigurationError);
        }
        let tops = worker.exact_num_top_blobs();
        if config.tops.len() > tops || (config.tops.len() < tops && !worker.auto_top_blobs()) {
            return Err(Error::ConfigurationError);
        }
        let mut bottoms: Vec<usize> = Vec::new();
        let mut wanted: Vec<bool> = Vec::new();
        let mut needed = false;
        let mut j: usize = 0;
        while j < config.bottoms.len()
            invariant
                0 <= j <= config.bottoms@.len(),
                self.wf(),
                self@ == before,
                described == config@,
                worker.kind() == config.layer_type,
                bottoms@.len() == j,
                wanted@.len() == j,
                forall|k: int| 0 <= k < j ==> before.knows(#[trigger] described.bottoms[k]),
                forall|k: int|
                    0 <= k < j ==> #[trigger] bottoms@[k] == before.index_of(described.bottoms[k])
                        && bottoms@[k] < before.blobs.len(),
                forall|k: int|
                    0 <= k < j ==> #[trigger] wanted@[k] == before.wanted[before.index_of(
                        described.bottoms[k],
                    )],
                needed == exists|k: int|
                    0 <= k < j && #[trigger] wanted@[k] && takes_gradient(described.kind, k),
            decreases config.bottoms@.len() - j,
        {
            let index = match self.blob_index(&config.bottoms[j]) {
                Some(index) => index,
                None => {
                    assert(!before.knows(described.bottoms[j as int]));
                    return Err(Error::ConfigurationError);
                },
            };
            let wants = self.wanted[index];
            let allowed = worker.allows_gradient(j);
            let ghost flags = wanted@;
            let ghost needed_so_far = needed;
            bottoms.push(index);
            wanted.push(wants);
            if wants && allowed {
                needed = true;
            }
            proof {
                let kind = described.kind;
                if needed_so_far {
                    let k = choose|k: int|
                        0 <= k < j && #[trigger] flags[k] && takes_gradient(kind, k);
                    assert(wanted@[k] && takes_gradient(kind, k));
                }
                if wants && allowed {
                    assert(wanted@[j as int] && takes_gradient(kind, j as int));
                }
            }
            j += 1;
        }
        let in_place = config.tops.len() == 1 && config.tops[0] == config.bottoms[0];
        if config.tops.len() == 1 && !in_place && self.blob_index(&config.tops[0]).is_some() {
            return Err(Error::ConfigurationError);
        }
        proof {
            assert(bottoms@ =~= before.bottoms_of(described));
            let flags = before.propagation_of(described);
            if needed {
                let k = choose|k: int|
                    0 <= k < wanted@.len() && #[trigger] wanted@[k] && takes_gradient(
                        described.kind,
                        k,
                    );
                assert(flags[k]);
            }
        }
        let top = if in_place {
            bottoms[0]
        } else {
            let name = if config.tops.len() == 1 {
                config.tops[0].clone()
            } else {
                String::from_str("(automatic)")
            };
            let scalar: Vec<usize> = Vec::new();
            let data = match TensorBuffer::new(self.device, &scalar) {
                Ok(data) => data,
                Err(_) => unreached(),
            };
            let index = self.blobs.len();
            self.push_blob(name, config.tops.len() == 1, needed, Blob::from_data(data));
            index
        };
        let mut tops: Vec<usize> = Vec::new();
        tops.push(top);
        let name = config.name.clone();
        let layer = match Layer::new(name, config.layer_type, bottoms, tops, &wanted) {
            Ok(layer) => layer,
            Err(_) => unreached(),
        };
        let position = self.layers.len();
        let ghost table = self@;
        self.layers.push(layer);
        // the length of a vector fits a machine word; asking for it tells the prover so
        let _ = self.layers.len();
        proof {
            assert(layer@.propagate_down =~= before.propagation_of(described));
            assert(self@.layers =~= table.layers.push(layer@));
        }
        Ok(position)
    }

    /// Starts a forward pass on the blobs `inputs`, which take the place
    /// of the first inputs of the network in the order in which those were
    /// declared. The steps of the pass are then had from
    /// [`Network::next_step`].
    ///
    /// Fails with `ShapeMismatch`, and changes nothing, when more blobs are
    /// given than the network has inputs.
    pub fn forward(&mut self, inputs: Vec<Blob>) -> (r: Result<(), Error>)
        requires
            old(self).wf(),
            forall|i: int| 0 <= i < inputs@.len() ==> (#[trigger] inputs@[i]).wf(),
        ensures
            final(self).wf(),
            r is Ok <==> inputs@.len() <= old(self)@.inputs.len(),
            r is Ok ==> final(self)@ == (NetworkView {
                blobs: old(self)@.bound(inputs@.map_values(|blob: Blob| blob@)),
                ..old(self)@.started(Phase::Forward, 0)
            }),
            r is Err ==> r->Err_0 == Error::ShapeMismatch && final(self)@ == old(self)@,
    {
        if inputs.len() > self.inputs.len() {
            return Err(Error::ShapeMismatch);
        }
        let ghost earlier = self@;
        self.phase = Phase::Forward;
        self.cursor = 0;
        self.pending = Vec::new();
        self.position = 0;
        self.in_flight = None;
        self.failure = None;
        let ghost before = self@;
        let ghost given = inputs@.map_values(|blob: Blob| blob@);
        let ghost total = inputs@.len();
        let mut inputs = inputs;
        while inputs.len() > 0
            invariant
                self.wf(),
                before == earlier.started(Phase::Forward, 0),
                inputs@.len() <= total <= before.inputs.len(),
                given.len() == total,
                before.wf(),
                forall|i: int| 0 <= i < inputs@.len() ==> (#[trigger] inputs@[i]).wf(),
                forall|i: int| 0 <= i < inputs@.len() ==> (#[trigger] inputs@[i])@ == given[i],
                self@ == (NetworkView { blobs: self@.blobs, ..before }),
                self@.blobs.len() == before.blobs.len(),
                forall|j: int|
                    0 <= j < before.blobs.len() ==> #[trigger] self@.blobs[j] == if exists|i: int|
                        inputs@.len() <= i && before.feeds(total, i, j) {
                        given[choose|i: int| inputs@.len() <= i && before.feeds(total, i, j)]
                    } else {
                        before.blobs[j]
                    },
            decreases inputs@.len(),
        {
            let i = inputs.len() - 1;
            let blob = match inputs.pop() {
                Some(blob) => blob,
                None => unreached(),
            };
            let at = self.inputs[i];
            self.put_blob(at, blob);
            proof {
                assert forall|j: int| 0 <= j < before.blobs.len() implies #[trigger] self@.blobs[j]
                    == if exists|k: int| inputs@.len() <= k && before.feeds(total, k, j) {
                    given[choose|k: int| inputs@.len() <= k && before.feeds(total, k, j)]
                } else {
                    before.blobs[j]
                } by {
                    if j == at {
                        assert(before.feeds(total, i as int, j));
                    }
                }
            }
        }
        proof {
            assert(self@.blobs =~= before.bound(given));
            assert forall|j: int| 0 <= j < before.blobs.len() implies #[trigger] before.bound(
                given,
            )[j] == earlier.bound(given)[j] by {
                if exists|i: int| before.feeds(given.len(), i, j) {
                    let a = choose|i: int| before.feeds(given.len(), i, j);
                    assert(earlier.feeds(given.len(), a, j));
                }
                if exists|i: int| earlier.feeds(given.len(), i, j) {
                    let b = choose|i: int| earlier.feeds(given.len(), i, j);
                    assert(before.feeds(given.len(), b, j));
                }
            }
            assert(before.bound(given) =~= earlier.bound(given));
        }
        Ok(())
    }

    /// Puts `blob` in the place of blob `at`.
    fn put_blob(&mut self, at: usize, blob: Blob)
        requires
            old(self).wf(),
            at < old(self)@.blobs.len(),
            blob.wf(),
            old(self)@.cursor == 0,
            old(self)@.pending.len() == 0,
        ensures
            final(self).wf(),
            final(self)@ == (NetworkView {
                blobs: old(self)@.blobs.update(at as int, blob@),
                ..old(self)@
            }),
    {
        proof {
            blob.lemma_view_wf();
        }
        self.blobs.set(at, blob);
        proof {
            assert(self@.blobs =~= old(self)@.blobs.update(at as int, blob@));
        }
    }

    /// Starts a backward pass. The steps of the pass are then had from
    /// [`Network::next_step`].
    ///
    /// A backward pass follows a forward pass that ran to its end.
    pub fn backward(&mut self)
        requires
            old(self).wf(),
            old(self)@.phase == Phase::Forwarded,
        ensures
            final(self).wf(),
            final(self)@ == old(self)@.started(Phase::Backward, old(self)@.layers.len() as usize),
    {
        self.phase = Phase::Backward;
        self.cursor = self.layers.len();
        self.pending = Vec::new();
        self.position = 0;
        self.in_flight = None;
        self.failure = None;
    }

    /// What a network stands for when one of its blobs changed.
    proof fn lemma_blob_changed(before: &Network, after: &Network, at: int)
        requires
            0 <= at < before.blobs@.len(),
            after.blobs@.len() == before.blobs@.len(),
            forall|k: int|
                0 <= k < before.blobs@.len() && k != at ==> after.blobs@[k] == before.blobs@[k],
            after.device == before.device,
            after.names == before.names,
            after.listed == before.listed,
            after.wanted == before.wanted,
            after.inputs == before.inputs,
            after.layers == before.layers,
            after.phase == before.phase,
            after.cursor == before.cursor,
            after.pending == before.pending,
            after.position == before.position,
            after.in_flight == before.in_flight,
            after.failure == before.failure,
        ensures
            after@ == (NetworkView {
                blobs: before@.blobs.update(at, after.blobs@[at]@),
                ..before@
            }),
    {
        assert(after@.blobs =~= before@.blobs.update(at, after.blobs@[at]@));
    }

    /// Puts layer `l` in the state `state`.
    fn set_state(&mut self, l: usize, state: LayerState)
        requires
            old(self).wf(),
            l < old(self)@.layers.len(),
        ensures
            final(self).wf(),
            final(self)@ == old(self)@.with_state(l as int, state),
    {
        self.layers[l].state = state;
        proof {
            assert(self@.layers =~= old(self)@.layers.update(
                l as int,
                LayerView { state, ..old(self)@.layers[l as int] },
            ));
            lemma_state_is_consistent(old(self)@, l as int, state);
        }
    }

    /// Hands the next pending step out.
    fn hand_out(&mut self) -> (action: Action)
        requires
            old(self).wf(),
            old(self)@.position < old(self)@.pending.len(),
            old(self)@.phase == Phase::Forward || old(self)@.phase == Phase::Backward,
            old(self)@.in_flight is None,
        ensures
            final(self).wf(),
            (final(self)@, action) == old(self)@.hand_out(),
    {
        let step = self.pending[self.position];
        self.position = self.position + 1;
        self.in_flight = Some(step);
        proof {
            lemma_hand_out_is_consistent(old(self)@);
        }
        Action::Run(step)
    }

    /// Makes the steps of the next layer of a forward pass pending.
    fn enter_forward(&mut self)
        requires
            old(self).wf(),
            old(self)@.cursor < old(self)@.layers.len(),
            old(self)@.phase == Phase::Forward,
            old(self)@.in_flight is None,
        ensures
            final(self).wf(),
            final(self)@ == old(self)@.enter_forward(),
            final(self)@.position < final(self)@.pending.len(),
    {
        let l = self.cursor;
        proof {
            assert(old(self)@.layers[l as int].wf());
            lemma_enter_forward_is_consistent(old(self)@);
        }
        let top = self.layers[l].tops[0];
        let bottom = self.layers[l].bottoms[0];
        let reshape = !same_dims(self.blobs[top].shape(), self.blobs[bottom].shape());
        let steps = self.layers[l].forward_steps(l, self.device, reshape);
        let uninitialized = match self.layers[l].state {
            LayerState::Uninitialized => true,
            _ => false,
        };
        if reshape || uninitialized {
            self.set_state(l, LayerState::Reshaped);
        }
        self.cursor = l + 1;
        self.pending = steps;
        self.position = 0;
    }

    /// Makes the steps of the next layer of a backward pass pending.
    fn enter_backward(&mut self)
        requires
            old(self).wf(),
            old(self)@.cursor > 0,
            old(self)@.phase == Phase::Backward,
            old(self)@.in_flight is None,
        ensures
            final(self).wf(),
            final(self)@ == old(self)@.enter_backward(),
    {
        let l = self.cursor - 1;
        proof {
            assert(old(self)@.layers[l as int].wf());
            lemma_enter_backward_is_consistent(old(self)@);
        }
        let steps = self.layers[l].backward_steps(l, self.device);
        self.set_state(l, LayerState::Backwarded);
        self.cursor = l;
        self.pending = steps;
        self.position = 0;
    }

    /// Ends the pass under way with the phase `phase`.
    fn finish(&mut self, phase: Phase)
        requires
            old(self).wf(),
            phase == Phase::Forwarded || phase == Phase::Backwarded,
            old(self)@.in_flight is None,
        ensures
            final(self).wf(),
            final(self)@ == (NetworkView {
                phase,
                pending: Seq::empty(),
                position: 0,
                ..old(self)@
            }),
    {
        self.phase = phase;
        self.pending = Vec::new();
        self.position = 0;
    }

    /// Says what to do next in the pass under way.
    ///
    /// A forward pass runs the layers in the order in which they were
    /// wired, a backward pass in the reverse order. Each step that is
    /// handed out has to be reported with [`Network::complete`] before the
    /// next one is; until then the same step is handed out again. After the
    /// last step the answer is `Finished`, and after a failed step it is
    /// `Aborted` with the error, until a new pass is started.
    pub fn next_step(&mut self) -> (action: Action)
        requires
            old(self).wf(),
        ensures
            final(self).wf(),
            (final(self)@, action) == old(self)@.next(),
    {
        match self.in_flight {
            Some(step) => {
                return Action::Run(step);
            },
            None => {},
        }
        match self.phase {
            Phase::Forward => {
                if self.position < self.pending.len() {
                    return self.hand_out();
                }
                if self.cursor > 0 {
                    self.set_state(self.cursor - 1, LayerState::Forwarded);
                }
                if self.cursor < self.layers.len() {
                    self.enter_forward();
                    self.hand_out()
                } else {
                    self.finish(Phase::Forwarded);
                    Action::Finished
                }
            },
            Phase::Backward => {
                while self.position >= self.pending.len()
                    invariant
                        self.wf(),
                        self@.in_flight is None,
                        self@.phase == Phase::Backward,
                        self@.next_backward() == old(self)@.next_backward(),
                        old(self)@.next() == old(self)@.next_backward(),
                    decreases self@.cursor,
                {
                    if self.cursor == 0 {
                        self.finish(Phase::Backwarded);
                        return Action::Finished;
                    }
                    self.enter_backward();
                }
                self.hand_out()
            },
            Phase::Failed => {
                match self.failure {
                    Some(e) => Action::Aborted(e),
                    None => unreached(),
                }
            },
            _ => Action::Finished,
        }
    }

    /// Leaves the mark of a step that was carried out on the table.
    fn carry_out(&mut self, step: Step)
        requires
            old(self).wf(),
            old(self)@.in_flight == Some(step),
        ensures
            final(self)@ == (NetworkView { blobs: old(self)@.effect(step), ..old(self)@ }),
            forall|i: int|
                0 <= i < final(self).blobs@.len() ==> (#[trigger] final(self).blobs@[i]).wf(),
    {
        let ghost before = *self;
        proof {
            assert(step_within(step, before@.blobs.len()));
        }
        match step {
            Step::Reshape { blob, like } => {
                proof {
                    assert(before@.blobs[like as int].wf());
                    lemma_sizing_is_forward(before@);
                }
                let shape = copy_dims(self.blobs[like].shape());
                let l = self.cursor - 1;
                let _ = self.layers[l].worker.reshape(&shape, &mut self.blobs[blob]);
                proof {
                    Self::lemma_blob_changed(&before, self, blob as int);
                }
            },
            Step::Synchronize { operand, device } => {
                proof {
                    let tensor = before@.blobs[operand.blob as int].part(operand.part);
                    assert(before@.blobs[operand.blob as int].wf());
                    if tensor.current.contains(device) {
                        lemma_synchronized_current(tensor, device);
                    }
                }
                let _ = self.blobs[operand.blob].synchronize(
                    operand.part,
                    device,
                    Allocation::Granted,
                );
                proof {
                    Self::lemma_blob_changed(&before, self, operand.blob as int);
                }
            },
            Step::Compute { layer, kernel } => {
                match kernel.operand_written() {
                    Some(operand) => {
                        let device = self.device;
                        let _ = self.blobs[operand.blob].write(
                            operand.part,
                            device,
                            Allocation::Granted,
                        );
                        proof {
                            Self::lemma_blob_changed(&before, self, operand.blob as int);
                        }
                    },
                    None => {},
                }
            },
            Step::AccumulateLoss { .. } => {},
        }
        proof {
            assert(self@.blobs =~= before@.effect(step));
        }
    }

    /// Reports how the step that was handed out last ended.
    ///
    /// A step that was carried out leaves its mark on the table: a blob
    /// has a new shape, a copy is up to date, or the buffer that a kernel
    /// wrote has its authoritative copy on the device of the network. A
    /// step that failed ends the pass with the error that belongs to it.
    /// Nothing that earlier steps did is taken back. With no step handed
    /// out, nothing happens.
    pub fn complete(&mut self, outcome: Outcome)
        requires
            old(self).wf(),
        ensures
            final(self).wf(),
            final(self)@ == old(self)@.reported(outcome),
    {
        let step = match self.in_flight {
            Some(step) => step,
            None => {
                return ;
            },
        };
        proof {
            lemma_report_is_consistent(old(self)@, outcome);
        }
        match outcome {
            Outcome::Failed => {
                self.phase = Phase::Failed;
                self.failure = Some(
                    match step {
                        Step::Reshape { .. } => Error::DeviceUnavailable,
                        Step::Synchronize { .. } => Error::DeviceUnavailable,
                        Step::Compute { .. } => Error::BackendOperationFailed,
                        Step::AccumulateLoss { .. } => Error::ShapeMismatch,
                    },
                );
            },
            Outcome::Completed => {
                self.carry_out(step);
            },
        }
        self.in_flight = None;
    }

    /// Wires the network that `config` describes, with all its blobs on
    /// `device`.
    ///
    /// Fails with the error of the first input or layer that cannot be
    /// wired; see [`wired`].
    pub fn from_config(device: Device, config: &NetworkConfig) -> (r: Result<Network, Error>)
        ensures
            match r {
                Ok(network) => network.wf() && wired(device, config@) == Ok::<NetworkView, Error>(
                    network@,
                ),
                Err(e) => wired(device, config@) == Err::<NetworkView, Error>(e),
            },
    {
        if config.inputs.len() != config.input_shapes.len() {
            return Err(Error::ConfigurationError);
        }
        let mut network = Network::new(device);
        let mut i: usize = 0;
        while i < config.inputs.len()
            invariant
                0 <= i <= config.inputs@.len(),
                config.inputs@.len() == config.input_shapes@.len(),
                network.wf(),
                wire_inputs(NetworkView::empty(device), config@, i as nat) == Ok::<
                    NetworkView,
                    Error,
                >(network@),
            decreases config.inputs@.len() - i,
        {
            let wanted = config.force_backward;
            match network.add_input(&config.inputs[i], &config.input_shapes[i], wanted) {
                Ok(_) => {},
                Err(e) => {
                    proof {
                        Self::lemma_wire_inputs_fails(
                            NetworkView::empty(device),
                            config@,
                            (i + 1) as nat,
                            config.inputs@.len() as nat,
                        );
                    }
                    return Err(e);
                },
            }
            i += 1;
        }
        let ghost declared = network@;
        let mut l: usize = 0;
        while l < config.layers.len()
            invariant
                0 <= l <= config.layers@.len(),
                config.inputs@.len() == config.input_shapes@.len(),
                network.wf(),
                wire_inputs(NetworkView::empty(device), config@, config.inputs@.len() as nat)
                    == Ok::<NetworkView, Error>(declared),
                wire_layers(declared, config@, l as nat) == Ok::<NetworkView, Error>(network@),
            decreases config.layers@.len() - l,
        {
            match network.add_layer(&config.layers[l]) {
                Ok(_) => {},
                Err(e) => {
                    proof {
                        Self::lemma_wire_layers_fails(
                            declared,
                            config@,
                            (l + 1) as nat,
                            config.layers@.len() as nat,
                        );
                    }
                    return Err(e);
                },
            }
            l += 1;
        }
        Ok(network)
    }

    /// Once an input cannot be declared, declaring more of them fails in
    /// the same way.
    proof fn lemma_wire_inputs_fails(
        network: NetworkView,
        config: NetworkConfigView,
        n: nat,
        m: nat,
    )
        requires
            n <= m,
            wire_inputs(network, config, n) is Err,
        ensures
            wire_inputs(network, config, m) == wire_inputs(network, config, n),
        decreases m,
    {
        if n < m {
            Self::lemma_wire_inputs_fails(network, config, n, (m - 1) as nat);
        }
    }

    /// Once a layer cannot be wired in, wiring more of them in fails in
    /// the same way.
    proof fn lemma_wire_layers_fails(
        network: NetworkView,
        config: NetworkConfigView,
        n: nat,
        m: nat,
    )
        requires
            n <= m,
            wire_layers(network, config, n) is Err,
        ensures
            wire_layers(network, config, m) == wire_layers(network, config, n),
        decreases m,
    {
        if n < m {
            Self::lemma_wire_layers_fails(network, config, n, (m - 1) as nat);
        }
    }

    /// Lists the probability entries whose negative logarithms add up to
    /// the loss of layer `layer`, for the class labels `labels`: what an
    /// `AccumulateLoss` step of that layer has to add up. The prediction is
    /// the first input of the layer and the probabilities are its output.
    ///
    /// Fails with `ConfigurationError` when `layer` is no loss layer of the
    /// network, and with `ShapeMismatch` as
    /// [`crate::layers::loss::softmax::SoftmaxLoss::loss_terms`] does.
    pub fn loss_terms(&self, layer: usize, labels: &Vec<usize>) -> (r: Result<Vec<usize>, Error>)
        requires
            self.wf(),
        ensures
            !self@.has_loss(layer) ==> r == Err::<Vec<usize>, Error>(Error::ConfigurationError),
            self@.has_loss(layer) ==> {
                let partition = partition_of(
                    self@.prediction_shape(layer),
                    self@.layers[layer as int].axis->0,
                    self@.probability_count(layer),
                );
                &&& r is Ok <==> partition_defined(
                    self@.prediction_shape(layer),
                    self@.layers[layer as int].axis->0,
                ) && terms_in_reach(partition, labels@, self@.probability_count(layer))
                &&& r is Ok ==> r->Ok_0@.map_values(|t: usize| t as int) == loss_terms_of(
                    partition,
                    labels@,
                )
                &&& r is Err ==> r->Err_0 == Error::ShapeMismatch
            },
    {
        if layer >= self.layers.len() {
            return Err(Error::ConfigurationError);
        }
        match &self.layers[layer].worker {
            Worker::SoftmaxLoss(loss) => {
                let bottom = self.layers[layer].bottoms[0];
                let top = self.layers[layer].tops[0];
                let count = self.blobs[top].size();
                loss.loss_terms(self.blobs[bottom].shape(), count, labels)
            },
            _ => Err(Error::ConfigurationError),
        }
    }
}

} // verus!
