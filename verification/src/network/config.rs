//! How a network is described before it is wired.

use crate::error::Error;
use crate::layer::{LayerConfig, LayerConfigView};
use crate::network::model::NetworkView;
use crate::shape::countable;
use crate::tensor::Device;
use vstd::prelude::*;

verus! {

/// How a network is described before it is wired: the inputs that are
/// handed in from outside, with their shapes, and the layers in the order
/// in which a forward pass runs them.
#[derive(Debug)]
pub struct NetworkConfig {
    /// The names of the inputs.
    pub inputs: Vec<String>,
    /// The shape of each input.
    pub input_shapes: Vec<Vec<usize>>,
    /// The layers.
    pub layers: Vec<LayerConfig>,
    /// Whether backward passes compute gradients all the way down to the
    /// inputs. Without it nothing asks for the gradient of an input.
    pub force_backward: bool,
}

/// What a [`NetworkConfig`] stands for.
pub struct NetworkConfigView {
    pub inputs: Seq<Seq<char>>,
    pub input_shapes: Seq<Seq<usize>>,
    pub layers: Seq<LayerConfigView>,
    pub force_backward: bool,
}

impl View for NetworkConfig {
    type V = NetworkConfigView;

    open spec fn view(&self) -> NetworkConfigView {
        NetworkConfigView {
            inputs: self.inputs@.map_values(|name: String| name@),
            input_shapes: self.input_shapes@.map_values(|shape: Vec<usize>| shape@),
            layers: self.layers@.map_values(|layer: LayerConfig| layer@),
            force_backward: self.force_backward,
        }
    }
}

impl Default for NetworkConfig {
    /// The description of a network without inputs and layers.
    fn default() -> (config: NetworkConfig)
        ensures
            config@ == (NetworkConfigView {
                inputs: Seq::empty(),
                input_shapes: Seq::empty(),
                layers: Seq::empty(),
                force_backward: false,
            }),
    {
        let config = NetworkConfig {
            inputs: Vec::new(),
            input_shapes: Vec::new(),
            layers: Vec::new(),
            force_backward: false,
        };
        assert(config@.inputs =~= Seq::empty());
        assert(config@.input_shapes =~= Seq::empty());
        assert(config@.layers =~= Seq::empty());
        config
    }
}

/// The network after the first `n` inputs of `config` were declared, or
/// the error of the first that could not be: its name is taken
/// (`ConfigurationError`), or else its element count does not fit a machine
/// word (`ShapeMismatch`).
pub open spec fn wire_inputs(network: NetworkView, config: NetworkConfigView, n: nat) -> Result<
    NetworkView,
    Error,
>
    decreases n,
{
    if n == 0 {
        Ok(network)
    } else {
        match wire_inputs(network, config, (n - 1) as nat) {
            Err(e) => Err(e),
            Ok(wired) => if wired.knows(config.inputs[n - 1]) {
                Err(Error::ConfigurationError)
            } else if !countable(config.input_shapes[n - 1]) {
                Err(Error::ShapeMismatch)
            } else {
                Ok(
                    wired.with_input(
                        config.inputs[n - 1],
                        config.input_shapes[n - 1],
                        config.force_backward,
                    ),
                )
            },
        }
    }
}

/// The network after the first `n` layers of `config` were wired in, or
/// `ConfigurationError` if one of them could not be.
pub open spec fn wire_layers(network: NetworkView, config: NetworkConfigView, n: nat) -> Result<
    NetworkView,
    Error,
>
    decreases n,
{
    if n == 0 {
        Ok(network)
    } else {
        match wire_layers(network, config, (n - 1) as nat) {
            Err(e) => Err(e),
            Ok(wired) => if wired.accepts(config.layers[n - 1]) {
                Ok(wired.with_layer(config.layers[n - 1]))
            } else {
                Err(Error::ConfigurationError)
            },
        }
    }
}

/// The network that `config` describes, on `device`: the inputs are
/// declared in their order, then the layers are wired in in theirs. A
/// description with another number of shapes than of inputs is a
/// `ConfigurationError`.
pub open spec fn wired(device: Device, config: NetworkConfigView) -> Result<NetworkView, Error> {
    if config.inputs.len() != config.input_shapes.len() {
        Err(Error::ConfigurationError)
    } else {
        match wire_inputs(NetworkView::empty(device), config, config.inputs.len()) {
            Err(e) => Err(e),
            Ok(network) => wire_layers(network, config, config.layers.len()),
        }
    }
}

/// Wiring resolves every name: the inputs of a layer that was wired in are
/// the blobs that layers could reach under the names in its description,
/// and an output that the description names is a blob of that name. All of
/// them are entries of the table.
pub proof fn lemma_wiring_resolves_names(network: NetworkView, config: LayerConfigView)
    requires
        network.wf(),
        network.accepts(config),
    ensures
        ({
            let wired = network.with_layer(config);
            let layer = wired.layers.last();
            &&& layer.bottoms.len() == config.bottoms.len()
            &&& layer.tops.len() == 1
            &&& layer.within(wired.blobs.len())
            &&& forall|j: int|
                0 <= j < config.bottoms.len() ==> network.lists(
                    #[trigger] layer.bottoms[j] as int,
                    config.bottoms[j],
                )
            &&& config.tops.len() == 1 ==> wired.names[layer.tops[0] as int] == config.tops[0]
        }),
{
    let wired = network.with_layer(config);
    let layer = wired.layers.last();
    assert forall|j: int| 0 <= j < config.bottoms.len() implies network.lists(
        #[trigger] layer.bottoms[j] as int,
        config.bottoms[j],
    ) by {
        assert(network.knows(config.bottoms[j]));
        assert(network.lists(network.index_of(config.bottoms[j]), config.bottoms[j]));
    }
}

/// No gradient is wanted anywhere in the network, and so no layer
/// propagates to any of its inputs.
pub open spec fn nothing_wanted(network: NetworkView) -> bool {
    &&& forall|i: int| 0 <= i < network.wanted.len() ==> !#[trigger] network.wanted[i]
    &&& forall|l: int, i: int|
        0 <= l < network.layers.len() && 0 <= i < network.layers[l].propagate_down.len()
            ==> !#[trigger] network.layers[l].propagate_down[i]
}

/// Gradients are computed only where something asks for them: in a
/// network that is wired without forcing gradients down to the inputs, no
/// blob wants a gradient and no layer propagates to any of its inputs, so a
/// backward pass has no step at all.
pub proof fn lemma_nothing_propagates_unless_forced(device: Device, config: NetworkConfigView)
    requires
        !config.force_backward,
        wired(device, config) is Ok,
    ensures
        nothing_wanted(wired(device, config)->Ok_0),
{
    lemma_inputs_want_nothing(NetworkView::empty(device), config, config.inputs.len());
    let declared = wire_inputs(NetworkView::empty(device), config, config.inputs.len())->Ok_0;
    lemma_layers_want_nothing(declared, config, config.layers.len());
}

/// Declaring inputs without forcing gradients leaves a network in which
/// nothing is wanted as it is in that.
proof fn lemma_inputs_want_nothing(network: NetworkView, config: NetworkConfigView, n: nat)
    requires
        !config.force_backward,
        nothing_wanted(network),
        network.wanted.len() == network.blobs.len(),
        wire_inputs(network, config, n) is Ok,
    ensures
        nothing_wanted(wire_inputs(network, config, n)->Ok_0),
        wire_inputs(network, config, n)->Ok_0.wanted.len() == wire_inputs(
            network,
            config,
            n,
        )->Ok_0.blobs.len(),
    decreases n,
{
    if n > 0 {
        lemma_inputs_want_nothing(network, config, (n - 1) as nat);
    }
}

/// Wiring layers into a network in which nothing is wanted leaves it so.
proof fn lemma_layers_want_nothing(network: NetworkView, config: NetworkConfigView, n: nat)
    requires
        nothing_wanted(network),
        network.wanted.len() == network.blobs.len(),
        wire_layers(network, config, n) is Ok,
    ensures
        nothing_wanted(wire_layers(network, config, n)->Ok_0),
        wire_layers(network, config, n)->Ok_0.wanted.len() == wire_layers(
            network,
            config,
            n,
        )->Ok_0.blobs.len(),
    decreases n,
{
    if n > 0 {
        lemma_layers_want_nothing(network, config, (n - 1) as nat);
        let before = wire_layers(network, config, (n - 1) as nat)->Ok_0;
        let layer = config.layers[n - 1];
        let flags = before.propagation_of(layer);
        assert forall|j: int| 0 <= j < flags.len() implies !flags[j] by {
            assert(before.knows(layer.bottoms[j]));
            let at = before.index_of(layer.bottoms[j]);
            assert(before.lists(at, layer.bottoms[j]));
        }
        assert(!flags.contains(true));
    }
}

} // verus!
