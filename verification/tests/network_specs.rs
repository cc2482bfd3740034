use collenchyma::backend::{Backend, BackendConfig};
use collenchyma::framework::IFramework;
use collenchyma::frameworks::Native;
use collenchyma::tensor::SharedTensor;
use collenchyma_nn::{Sigmoid as SigmoidKernels, Softmax as SoftmaxKernels};
use leaf::error::Error;
use leaf::layer::{LayerConfig, LayerState, LayerType};
use leaf::network::{Action, Network, NetworkConfig, Outcome, Phase};
use leaf::plan::{Kernel, Operand, Part, Step};
use leaf::shared_memory::Blob;
use leaf::tensor::{Device, TensorBuffer};

// What the embedding application does, on the host CPU: it keeps the memory
// of every blob and carries out the steps that the network hands out.

fn backend() -> Backend<Native> {
    let framework = Native::new();
    let hardwares = framework.hardwares().to_vec();
    let backend_config = BackendConfig::new(framework, &hardwares);
    Backend::new(backend_config).unwrap()
}

struct Memory {
    backend: Backend<Native>,
    buffers: Vec<[Option<SharedTensor<f32>>; 2]>,
    fail_kernels: bool,
}

fn slot(part: Part) -> usize {
    match part {
        Part::Data => 0,
        Part::Diff => 1,
    }
}

fn tensor(backend: &Backend<Native>, shape: &Vec<usize>) -> SharedTensor<f32> {
    SharedTensor::<f32>::new(backend.device(), shape).unwrap()
}

fn fill(backend: &Backend<Native>, tensor: &mut SharedTensor<f32>, values: &[f32]) {
    let memory = tensor.get_mut(backend.device()).unwrap().as_mut_native().unwrap();
    let slice = memory.as_mut_slice::<f32>();
    for (i, value) in values.iter().enumerate() {
        slice[i] = *value;
    }
}

fn values(backend: &Backend<Native>, tensor: &SharedTensor<f32>) -> Vec<f32> {
    tensor.get(backend.device()).unwrap().as_native().unwrap().as_slice::<f32>().to_vec()
}

impl Memory {
    fn for_network(network: &Network) -> Memory {
        let backend = backend();
        let mut buffers = Vec::new();
        for i in 0..network.num_blobs() {
            let shape = network.blob(i).shape().clone();
            buffers.push([Some(tensor(&backend, &shape)), Some(tensor(&backend, &shape))]);
        }
        Memory { backend, buffers, fail_kernels: false }
    }

    fn set(&mut self, operand: Operand, values: &[f32]) {
        let tensor = self.buffers[operand.blob][slot(operand.part)].as_mut().unwrap();
        fill(&self.backend, tensor, values);
    }

    fn get(&self, operand: Operand) -> Vec<f32> {
        values(&self.backend, self.buffers[operand.blob][slot(operand.part)].as_ref().unwrap())
    }

    fn bits(&self, operand: Operand) -> Vec<u32> {
        self.get(operand).iter().map(|value| value.to_bits()).collect()
    }

    fn read(&self, operand: Operand) -> &SharedTensor<f32> {
        self.buffers[operand.blob][slot(operand.part)].as_ref().unwrap()
    }

    fn compute(&mut self, kernel: Kernel<Operand>) -> bool {
        if self.fail_kernels {
            return false;
        }
        let written = match kernel {
            Kernel::Sigmoid { output, .. } => output,
            Kernel::SigmoidGradient { input_gradient, .. } => input_gradient,
            Kernel::Softmax { output, .. } => output,
            Kernel::SoftmaxGradient { input_gradient, .. } => input_gradient,
            _ => return false,
        };
        let mut result = self.buffers[written.blob][slot(written.part)].take().unwrap();
        let done = match kernel {
            Kernel::Sigmoid { input, .. } => {
                self.backend.sigmoid_plain(self.read(input), &mut result).is_ok()
            }
            Kernel::SigmoidGradient { output, output_gradient, input, .. } => self
                .backend
                .sigmoid_grad_plain(
                    self.read(output),
                    self.read(output_gradient),
                    self.read(input),
                    &mut result,
                )
                .is_ok(),
            Kernel::Softmax { input, .. } => {
                self.backend.softmax_plain(self.read(input), &mut result).is_ok()
            }
            Kernel::SoftmaxGradient { output, output_gradient, .. } => self
                .backend
                .softmax_grad_plain(self.read(output), self.read(output_gradient), &mut result)
                .is_ok(),
            _ => false,
        };
        self.buffers[written.blob][slot(written.part)] = Some(result);
        done
    }

    fn perform(&mut self, network: &Network, step: Step, loss: &mut f32) -> bool {
        match step {
            Step::Reshape { blob, like } => {
                let shape = network.blob(like).shape().clone();
                let data = self.buffers[blob][0].as_mut().unwrap().resize(&shape).is_ok();
                let diff = self.buffers[blob][1].as_mut().unwrap().resize(&shape).is_ok();
                data && diff
            }
            // the host is the only device here
            Step::Synchronize { device, .. } => device == Device::Host,
            Step::Compute { kernel, .. } => self.compute(kernel),
            Step::AccumulateLoss { layer, labels, probability } => {
                let labels: Vec<usize> = self.get(labels).iter().map(|l| *l as usize).collect();
                match network.loss_terms(layer, &labels) {
                    Ok(terms) => {
                        let probability = self.get(probability);
                        for term in terms {
                            *loss -= probability[term].max(f32::MIN_POSITIVE).ln();
                        }
                        true
                    }
                    Err(_) => false,
                }
            }
        }
    }

    /// Runs the pass that was started to its end and returns the loss and the steps taken.
    fn run(&mut self, network: &mut Network) -> (Result<f32, Error>, Vec<Step>) {
        let mut loss = 0f32;
        let mut steps = Vec::new();
        loop {
            match network.next_step() {
                Action::Run(step) => {
                    steps.push(step);
                    let done = self.perform(network, step, &mut loss);
                    network.complete(if done { Outcome::Completed } else { Outcome::Failed });
                }
                Action::Finished => return (Ok(loss), steps),
                Action::Aborted(e) => return (Err(e), steps),
            }
        }
    }
}

fn host_blob(shape: &Vec<usize>) -> Blob {
    Blob::from_data(TensorBuffer::new(Device::Host, shape).unwrap())
}

fn data(blob: usize) -> Operand {
    Operand { blob, part: Part::Data }
}

fn diff(blob: usize) -> Operand {
    Operand { blob, part: Part::Diff }
}

fn sigmoid_config(shape: Vec<usize>, force_backward: bool) -> NetworkConfig {
    let mut cfg = NetworkConfig::default();
    cfg.inputs.push("in".to_owned());
    cfg.input_shapes.push(shape);
    cfg.force_backward = force_backward;
    let mut sig_cfg = LayerConfig::new("sig".to_owned(), LayerType::Sigmoid);
    sig_cfg.bottoms.push("in".to_owned());
    sig_cfg.tops.push("sig_out".to_owned());
    cfg.layers.push(sig_cfg);
    cfg
}

fn loss_config(prediction: Vec<usize>, labels: Vec<usize>, force_backward: bool) -> NetworkConfig {
    let mut cfg = NetworkConfig::default();
    cfg.inputs.push("prediction".to_owned());
    cfg.input_shapes.push(prediction);
    cfg.inputs.push("label".to_owned());
    cfg.input_shapes.push(labels);
    cfg.force_backward = force_backward;
    let mut loss_cfg = LayerConfig::new("loss".to_owned(), LayerType::SoftmaxLoss);
    loss_cfg.bottoms.push("prediction".to_owned());
    loss_cfg.bottoms.push("label".to_owned());
    cfg.layers.push(loss_cfg);
    cfg
}

#[test]
fn new_network() {
    let cfg = NetworkConfig::default();
    Network::from_config(Device::Host, &cfg).unwrap();
}

#[test]
fn single_sigmoid_layer_forward() {
    let mut cfg = NetworkConfig::default();
    // set up input
    cfg.inputs.push("in".to_owned());
    cfg.input_shapes.push(vec![1, 30, 30]);
    cfg.inputs.push("label".to_owned());
    cfg.input_shapes.push(vec![1, 1, 10]);
    // set up sigmoid
    let mut sig_cfg = LayerConfig::new("sig".to_owned(), LayerType::Sigmoid);
    sig_cfg.bottoms.push("in".to_owned());
    sig_cfg.tops.push("sig_out".to_owned());
    cfg.layers.push(sig_cfg);
    // set up softmax_loss
    let mut loss_cfg = LayerConfig::new("loss".to_owned(), LayerType::SoftmaxLoss);
    loss_cfg.bottoms.push("sig_out".to_owned());
    loss_cfg.bottoms.push("label".to_owned());
    cfg.layers.push(loss_cfg);

    let mut network = Network::from_config(Device::Host, &cfg).unwrap();
    let mut memory = Memory::for_network(&network);
    let inp = host_blob(&vec![1, 30, 30]);

    network.forward(vec![inp]).unwrap();
    let (loss, _) = memory.run(&mut network);
    println!("LOSS: {:?}", loss);
}

#[test]
fn empty_network_has_nothing_to_do() {
    let mut network = Network::from_config(Device::Host, &NetworkConfig::default()).unwrap();
    assert_eq!(network.num_blobs(), 0);
    assert_eq!(network.num_layers(), 0);
    assert_eq!(network.phase(), Phase::Idle);
    assert_eq!(network.next_step(), Action::Finished);
    network.forward(Vec::new()).unwrap();
    assert_eq!(network.phase(), Phase::Forward);
    assert_eq!(network.next_step(), Action::Finished);
    assert_eq!(network.phase(), Phase::Forwarded);
    network.backward();
    assert_eq!(network.next_step(), Action::Finished);
    assert_eq!(network.phase(), Phase::Backwarded);
}

#[test]
fn sigmoid_keeps_the_shape_and_stays_between_zero_and_one() {
    let mut network = Network::from_config(Device::Host, &sigmoid_config(vec![1, 30, 30], false)).unwrap();
    let mut memory = Memory::for_network(&network);
    let input: Vec<f32> = (0..900).map(|i| (i as f32 - 450.0) / 45.0).collect();
    memory.set(data(0), &input);
    network.forward(vec![host_blob(&vec![1, 30, 30])]).unwrap();
    let (loss, _) = memory.run(&mut network);
    assert_eq!(loss, Ok(0.0));
    assert_eq!(network.blob(1).shape(), &vec![1, 30, 30]);
    assert_eq!(network.blob(1).shape_string(), "1 30 30 (3)");
    let output = memory.get(data(1));
    assert_eq!(output.len(), 900);
    for (x, y) in input.iter().zip(output.iter()) {
        assert!(*y > 0.0 && *y < 1.0);
        assert!((*y - 1.0 / (1.0 + (-*x).exp())).abs() < 1e-6);
    }
}

#[test]
fn sigmoid_of_zero_is_one_half() {
    let mut network = Network::from_config(Device::Host, &sigmoid_config(vec![1, 30, 30], false)).unwrap();
    let mut memory = Memory::for_network(&network);
    memory.set(data(0), &vec![0.0; 900]);
    network.forward(vec![host_blob(&vec![1, 30, 30])]).unwrap();
    assert_eq!(memory.run(&mut network).0, Ok(0.0));
    let output = memory.get(data(1));
    assert_eq!(output.len(), 900);
    for y in output {
        assert_eq!(y, 0.5);
    }
}

#[test]
fn softmax_loss_of_a_single_slice() {
    // One outer and one inner slice: the class probabilities of one sample.
    let mut network = Network::from_config(Device::Host, &loss_config(vec![1, 3], vec![1], false)).unwrap();
    let mut memory = Memory::for_network(&network);
    memory.set(data(0), &[2.0, 1.0, 0.1]);
    memory.set(data(1), &[0.0]);
    network.forward(vec![host_blob(&vec![1, 3]), host_blob(&vec![1])]).unwrap();
    let (loss, _) = memory.run(&mut network);
    // The probabilities are those of the softmax, and the term of the labelled class is 0.4170.
    let probability = memory.get(data(2));
    assert_eq!(network.blob(2).shape(), &vec![1, 3]);
    assert!((probability.iter().sum::<f32>() - 1.0).abs() < 1e-6);
    assert!((-probability[0].ln() - 0.4170).abs() < 1e-4);
    // The accumulation leaves the last outer and inner index out, so with a single inner
    // position nothing is added up and the loss that is reported is zero.
    assert_eq!(network.loss_terms(0, &vec![0]), Ok(Vec::new()));
    assert_eq!(loss, Ok(0.0));
}

#[test]
fn softmax_loss_adds_the_terms_that_are_visited() {
    // outer 2, inner 2, dim 2: only (0, 0) is visited.
    let mut network = Network::from_config(Device::Host, &loss_config(vec![1, 2, 2], vec![4], false)).unwrap();
    let mut memory = Memory::for_network(&network);
    memory.set(data(0), &[2.0, 1.0, 0.1, -1.0]);
    memory.set(data(1), &[1.0, 0.0, 0.0, 0.0]);
    network.forward(vec![host_blob(&vec![1, 2, 2]), host_blob(&vec![4])]).unwrap();
    let (loss, _) = memory.run(&mut network);
    assert_eq!(network.loss_terms(0, &vec![1, 0, 0, 0]), Ok(vec![2]));
    let probability = memory.get(data(2));
    assert_eq!(loss, Ok(-probability[2].ln()));
    let exps: Vec<f32> = [2.0f32, 1.0, 0.1, -1.0].iter().map(|x| x.exp()).collect();
    let expected = -(exps[2] / exps.iter().sum::<f32>()).ln();
    assert!((loss.unwrap() - expected).abs() < 1e-5);
}

#[test]
fn loss_with_one_outer_or_one_inner_slice_is_zero() {
    for (prediction, labels) in [(vec![1, 1, 5], vec![5]), (vec![4, 3], vec![12]), (vec![1, 1], vec![1])] {
        let count: usize = prediction.iter().product();
        let mut network =
            Network::from_config(Device::Host, &loss_config(prediction.clone(), labels.clone(), false)).unwrap();
        let mut memory = Memory::for_network(&network);
        memory.set(data(0), &vec![0.25; count]);
        network.forward(vec![host_blob(&prediction), host_blob(&labels)]).unwrap();
        assert_eq!(memory.run(&mut network).0, Ok(0.0));
    }
}

#[test]
fn forward_steps_of_a_sigmoid_layer() {
    let mut network = Network::from_config(Device::Host, &sigmoid_config(vec![2, 3], false)).unwrap();
    let mut memory = Memory::for_network(&network);
    network.forward(vec![host_blob(&vec![2, 3])]).unwrap();
    let (_, steps) = memory.run(&mut network);
    assert_eq!(
        steps,
        vec![
            Step::Reshape { blob: 1, like: 0 },
            Step::Synchronize { operand: data(0), device: Device::Host },
            Step::Compute { layer: 0, kernel: Kernel::Sigmoid { input: data(0), output: data(1) } },
        ]
    );
}

#[test]
fn forward_steps_of_a_loss_layer() {
    let mut network = Network::from_config(Device::Accelerator(0), &loss_config(vec![3, 4, 5], vec![60], false)).unwrap();
    network.forward(Vec::new()).unwrap();
    let mut steps = Vec::new();
    loop {
        match network.next_step() {
            Action::Run(step) => {
                steps.push(step);
                network.complete(Outcome::Completed);
            }
            action => {
                assert_eq!(action, Action::Finished);
                break;
            }
        }
    }
    assert_eq!(
        steps,
        vec![
            Step::Reshape { blob: 2, like: 0 },
            Step::Synchronize { operand: data(0), device: Device::Accelerator(0) },
            Step::Compute { layer: 0, kernel: Kernel::Softmax { input: data(0), output: data(2) } },
            Step::Synchronize { operand: data(1), device: Device::Host },
            Step::Synchronize { operand: data(2), device: Device::Host },
            Step::AccumulateLoss { layer: 0, labels: data(1), probability: data(2) },
        ]
    );
    // the books follow the steps
    assert_eq!(network.blob(2).shape(), &vec![3, 4, 5]);
    assert!(network.blob(1).data().current(Device::Host));
    assert!(network.blob(1).data().current(Device::Accelerator(0)));
    assert_eq!(network.blob(2).data().latest_device(), Device::Accelerator(0));
    assert!(network.blob(2).data().current(Device::Host));
    assert!(!network.blob(0).data().resident(Device::Host));
    assert!(!network.blob(2).diff().resident(Device::Host));
}

#[test]
fn layers_run_in_declared_order_and_backwards_in_reverse() {
    let mut cfg = sigmoid_config(vec![2, 3], true);
    let mut softmax = LayerConfig::new("soft".to_owned(), LayerType::Softmax);
    softmax.bottoms.push("sig_out".to_owned());
    softmax.tops.push("soft_out".to_owned());
    cfg.layers.push(softmax);
    let mut second = LayerConfig::new("sig2".to_owned(), LayerType::Sigmoid);
    second.bottoms.push("soft_out".to_owned());
    second.tops.push("out".to_owned());
    cfg.layers.push(second);
    let mut network = Network::from_config(Device::Host, &cfg).unwrap();
    let mut memory = Memory::for_network(&network);
    network.forward(vec![host_blob(&vec![2, 3])]).unwrap();
    let (loss, steps) = memory.run(&mut network);
    assert_eq!(loss, Ok(0.0));
    let order: Vec<usize> = steps
        .iter()
        .filter_map(|step| match step {
            Step::Compute { layer, .. } => Some(*layer),
            _ => None,
        })
        .collect();
    assert_eq!(order, vec![0, 1, 2]);
    network.backward();
    let (_, steps) = memory.run(&mut network);
    let order: Vec<usize> = steps
        .iter()
        .filter_map(|step| match step {
            Step::Compute { layer, .. } => Some(*layer),
            _ => None,
        })
        .collect();
    assert_eq!(order, vec![2, 1, 0]);
    assert_eq!(network.phase(), Phase::Backwarded);
}

#[test]
fn reshape_happens_once_per_shape() {
    let mut network = Network::from_config(Device::Host, &sigmoid_config(vec![1, 4], false)).unwrap();
    let mut memory = Memory::for_network(&network);
    network.forward(vec![host_blob(&vec![1, 4])]).unwrap();
    let (_, first) = memory.run(&mut network);
    assert_eq!(first[0], Step::Reshape { blob: 1, like: 0 });
    assert_eq!(first.len(), 3);
    // same shape again: nothing is sized
    network.forward(vec![host_blob(&vec![1, 4])]).unwrap();
    let (_, second) = memory.run(&mut network);
    assert_eq!(second.len(), 2);
    assert!(second.iter().all(|step| !matches!(step, Step::Reshape { .. })));
    // another batch size: the output follows
    memory.buffers[0] = [Some(tensor(&memory.backend, &vec![3, 4])), Some(tensor(&memory.backend, &vec![3, 4]))];
    network.forward(vec![host_blob(&vec![3, 4])]).unwrap();
    let (_, third) = memory.run(&mut network);
    assert_eq!(third[0], Step::Reshape { blob: 1, like: 0 });
    assert_eq!(network.blob(1).shape(), &vec![3, 4]);
    assert_eq!(memory.get(data(1)).len(), 12);
}

#[test]
fn layer_states_follow_the_passes() {
    let mut network = Network::from_config(Device::Host, &sigmoid_config(vec![1, 4], true)).unwrap();
    let mut memory = Memory::for_network(&network);
    assert_eq!(network.layer(0).state, LayerState::Uninitialized);
    network.forward(vec![host_blob(&vec![1, 4])]).unwrap();
    assert_eq!(network.next_step(), Action::Run(Step::Reshape { blob: 1, like: 0 }));
    assert_eq!(network.layer(0).state, LayerState::Reshaped);
    assert_eq!(memory.run(&mut network).0, Ok(0.0));
    assert_eq!(network.layer(0).state, LayerState::Forwarded);
    assert_eq!(network.phase(), Phase::Forwarded);
    network.backward();
    assert_eq!(memory.run(&mut network).0, Ok(0.0));
    assert_eq!(network.layer(0).state, LayerState::Backwarded);
    network.forward(Vec::new()).unwrap();
    assert_eq!(memory.run(&mut network).0, Ok(0.0));
    assert_eq!(network.layer(0).state, LayerState::Forwarded);
}

#[test]
fn step_is_handed_out_again_until_it_is_reported() {
    let mut network = Network::from_config(Device::Host, &sigmoid_config(vec![1, 4], false)).unwrap();
    network.forward(Vec::new()).unwrap();
    let first = network.next_step();
    assert_eq!(first, Action::Run(Step::Reshape { blob: 1, like: 0 }));
    assert_eq!(network.next_step(), first);
    assert_eq!(network.next_step(), first);
    assert_eq!(network.blob(1).shape(), &Vec::<usize>::new());
    network.complete(Outcome::Completed);
    assert_eq!(network.blob(1).shape(), &vec![1, 4]);
    // a second report has nothing to refer to
    network.complete(Outcome::Failed);
    assert_eq!(network.phase(), Phase::Forward);
    assert_eq!(
        network.next_step(),
        Action::Run(Step::Synchronize { operand: data(0), device: Device::Host })
    );
}

#[test]
fn output_made_at_wiring_is_a_scalar_until_the_first_forward() {
    let network = Network::from_config(Device::Accelerator(2), &sigmoid_config(vec![5, 6], false)).unwrap();
    assert_eq!(network.device(), Device::Accelerator(2));
    assert_eq!(network.num_blobs(), 2);
    assert_eq!(network.blob(0).shape(), &vec![5, 6]);
    assert_eq!(network.blob(0).data().latest_device(), Device::Accelerator(2));
    assert_eq!(network.blob(1).shape(), &Vec::<usize>::new());
    assert_eq!(network.blob(1).size(), 1);
    assert_eq!(network.inputs(), &vec![0]);
    assert_eq!(network.blob_index(&"in".to_owned()), Some(0));
    assert_eq!(network.blob_index(&"sig_out".to_owned()), Some(1));
    assert_eq!(network.blob_index(&"sig".to_owned()), None);
    assert_eq!(network.layer(0).layer_type(), LayerType::Sigmoid);
    assert_eq!(network.layer(0).bottoms, vec![0]);
    assert_eq!(network.layer(0).tops, vec![1]);
}

#[test]
fn loss_layer_gets_its_output_from_the_network() {
    let network = Network::from_config(Device::Host, &loss_config(vec![2, 3], vec![2], true)).unwrap();
    assert_eq!(network.num_blobs(), 3);
    assert_eq!(network.layer(0).bottoms, vec![0, 1]);
    assert_eq!(network.layer(0).tops, vec![2]);
    // the blob has no name that layers could use
    assert_eq!(network.blob_index(&"(automatic)".to_owned()), None);
    // the labels never get a gradient
    assert_eq!(network.layer(0).propagate_down, vec![true, false]);
}

#[test]
fn nothing_is_propagated_unless_asked_for() {
    let mut network = Network::from_config(Device::Host, &sigmoid_config(vec![1, 4], false)).unwrap();
    let mut memory = Memory::for_network(&network);
    assert_eq!(network.layer(0).propagate_down, vec![false]);
    memory.set(diff(0), &[1.5, -2.5, 3.5, f32::NAN]);
    network.forward(vec![host_blob(&vec![1, 4])]).unwrap();
    memory.run(&mut network).0.unwrap();
    let before = memory.bits(diff(0));
    network.backward();
    let (loss, steps) = memory.run(&mut network);
    assert_eq!(loss, Ok(0.0));
    assert_eq!(steps, Vec::new());
    assert_eq!(memory.bits(diff(0)), before);
    assert_eq!(network.layer(0).state, LayerState::Backwarded);
}

#[test]
fn backward_computes_the_sigmoid_gradient() {
    let mut network = Network::from_config(Device::Host, &sigmoid_config(vec![1, 4], true)).unwrap();
    let mut memory = Memory::for_network(&network);
    let input = [-1.0f32, 0.0, 0.5, 2.0];
    let upstream = [1.0f32, -2.0, 0.25, 3.0];
    memory.set(data(0), &input);
    network.forward(vec![host_blob(&vec![1, 4])]).unwrap();
    memory.run(&mut network).0.unwrap();
    memory.set(diff(1), &upstream);
    network.backward();
    let (_, steps) = memory.run(&mut network);
    assert_eq!(
        steps,
        vec![
            Step::Synchronize { operand: data(1), device: Device::Host },
            Step::Synchronize { operand: diff(1), device: Device::Host },
            Step::Synchronize { operand: data(0), device: Device::Host },
            Step::Compute {
                layer: 0,
                kernel: Kernel::SigmoidGradient {
                    output: data(1),
                    output_gradient: diff(1),
                    input: data(0),
                    input_gradient: diff(0),
                },
            },
        ]
    );
    let gradient = memory.get(diff(0));
    for i in 0..4 {
        let s = 1.0 / (1.0 + (-input[i]).exp());
        assert!((gradient[i] - s * (1.0 - s) * upstream[i]).abs() < 1e-6);
    }
}

#[test]
fn backward_leaves_unmarked_gradients_bit_identical() {
    let mut network = Network::from_config(Device::Host, &loss_config(vec![1, 2, 2], vec![4], true)).unwrap();
    let mut memory = Memory::for_network(&network);
    memory.set(data(0), &[2.0, 1.0, 0.1, -1.0]);
    memory.set(diff(1), &[7.0, f32::NAN, -0.0, f32::INFINITY]);
    network.forward(vec![host_blob(&vec![1, 2, 2]), host_blob(&vec![4])]).unwrap();
    memory.run(&mut network).0.unwrap();
    memory.set(diff(2), &[0.5, -0.5, 1.0, 2.0]);
    let labels = memory.bits(diff(1));
    let top = memory.bits(diff(2));
    let prediction = memory.bits(diff(0));
    network.backward();
    let (loss, steps) = memory.run(&mut network);
    assert_eq!(loss, Ok(0.0));
    assert_eq!(network.layer(0).propagate_down, vec![true, false]);
    assert_eq!(memory.bits(diff(1)), labels);
    assert_eq!(memory.bits(diff(2)), top);
    assert_ne!(memory.bits(diff(0)), prediction);
    for step in steps {
        if let Step::Compute { kernel, .. } = step {
            assert_eq!(
                kernel,
                Kernel::SoftmaxGradient { output: data(2), output_gradient: diff(2), input_gradient: diff(0) }
            );
        }
    }
}

#[test]
fn failed_kernel_aborts_the_pass_and_keeps_what_was_done() {
    let mut cfg = sigmoid_config(vec![1, 4], false);
    let mut second = LayerConfig::new("sig2".to_owned(), LayerType::Sigmoid);
    second.bottoms.push("sig_out".to_owned());
    second.tops.push("out".to_owned());
    cfg.layers.push(second);
    let mut network = Network::from_config(Device::Host, &cfg).unwrap();
    let mut memory = Memory::for_network(&network);
    network.forward(vec![host_blob(&vec![1, 4])]).unwrap();
    // the first layer runs, the kernel of the second fails
    loop {
        match network.next_step() {
            Action::Run(step) => {
                if let Step::Compute { layer: 1, .. } = step {
                    memory.fail_kernels = true;
                }
                let mut loss = 0f32;
                let done = memory.perform(&network, step, &mut loss);
                network.complete(if done { Outcome::Completed } else { Outcome::Failed });
            }
            action => {
                assert_eq!(action, Action::Aborted(Error::BackendOperationFailed));
                break;
            }
        }
    }
    assert_eq!(network.phase(), Phase::Failed);
    assert_eq!(network.next_step(), Action::Aborted(Error::BackendOperationFailed));
    // what was done before stays: both outputs were sized, the first layer has its result
    assert_eq!(network.blob(1).shape(), &vec![1, 4]);
    assert_eq!(network.blob(2).shape(), &vec![1, 4]);
    assert_eq!(memory.get(data(1)), vec![0.5; 4]);
    assert_eq!(network.layer(0).state, LayerState::Forwarded);
    assert_eq!(network.layer(1).state, LayerState::Reshaped);
    // a fresh forward pass runs to its end
    memory.fail_kernels = false;
    network.forward(Vec::new()).unwrap();
    assert_eq!(memory.run(&mut network).0, Ok(0.0));
    assert_eq!(network.phase(), Phase::Forwarded);
    assert_eq!(memory.get(data(2)).len(), 4);
}

#[test]
fn device_without_memory_aborts_with_device_unavailable() {
    // the books say accelerator, the machine has none
    let mut network = Network::from_config(Device::Accelerator(0), &sigmoid_config(vec![1, 4], false)).unwrap();
    let mut memory = Memory::for_network(&network);
    network.forward(Vec::new()).unwrap();
    let (loss, steps) = memory.run(&mut network);
    assert_eq!(loss, Err(Error::DeviceUnavailable));
    assert_eq!(
        steps,
        vec![
            Step::Reshape { blob: 1, like: 0 },
            Step::Synchronize { operand: data(0), device: Device::Accelerator(0) },
        ]
    );
    assert_eq!(network.phase(), Phase::Failed);
}

#[test]
fn failed_reshape_is_device_unavailable_and_failed_loss_is_a_shape_mismatch() {
    let mut network = Network::from_config(Device::Host, &loss_config(vec![2, 2, 3], vec![2], false)).unwrap();
    network.forward(Vec::new()).unwrap();
    assert_eq!(network.next_step(), Action::Run(Step::Reshape { blob: 2, like: 0 }));
    network.complete(Outcome::Failed);
    assert_eq!(network.next_step(), Action::Aborted(Error::DeviceUnavailable));
    assert_eq!(network.blob(2).shape(), &Vec::<usize>::new());

    // two labels are too few for the positions that are visited
    let mut memory = Memory::for_network(&network);
    network.forward(Vec::new()).unwrap();
    let (loss, steps) = memory.run(&mut network);
    assert_eq!(loss, Err(Error::ShapeMismatch));
    assert_eq!(steps.last(), Some(&Step::AccumulateLoss { layer: 0, labels: data(1), probability: data(2) }));
}

#[test]
fn forward_binds_the_inputs_in_their_order() {
    let mut network = Network::from_config(Device::Host, &loss_config(vec![2, 3], vec![2], false)).unwrap();
    let mut prediction = host_blob(&vec![4, 3]);
    prediction.mut_data().synchronize(Device::Accelerator(9), leaf::tensor::Allocation::Granted).unwrap();
    assert_eq!(network.forward(vec![prediction]), Ok(()));
    assert_eq!(network.blob(0).shape(), &vec![4, 3]);
    assert!(network.blob(0).data().resident(Device::Accelerator(9)));
    assert_eq!(network.blob(1).shape(), &vec![2]);
    assert_eq!(network.forward(vec![host_blob(&vec![1, 3]), host_blob(&vec![7])]), Ok(()));
    assert_eq!(network.blob(0).shape(), &vec![1, 3]);
    assert_eq!(network.blob(1).shape(), &vec![7]);
}

#[test]
fn forward_with_too_many_inputs_is_a_shape_mismatch() {
    let mut network = Network::from_config(Device::Host, &sigmoid_config(vec![1, 4], false)).unwrap();
    let r = network.forward(vec![host_blob(&vec![1, 4]), host_blob(&vec![1, 4])]);
    assert_eq!(r, Err(Error::ShapeMismatch));
    assert_eq!(network.phase(), Phase::Idle);
    assert_eq!(network.blob(0).shape(), &vec![1, 4]);
}

#[test]
fn loss_terms_of_a_layer_that_is_no_loss_layer() {
    let network = Network::from_config(Device::Host, &sigmoid_config(vec![1, 4], false)).unwrap();
    assert_eq!(network.loss_terms(0, &Vec::new()), Err(Error::ConfigurationError));
    assert_eq!(network.loss_terms(1, &Vec::new()), Err(Error::ConfigurationError));
}

#[test]
fn undeclared_bottom_is_a_configuration_error() {
    let mut cfg = NetworkConfig::default();
    cfg.inputs.push("in".to_owned());
    cfg.input_shapes.push(vec![2]);
    let mut layer = LayerConfig::new("sig".to_owned(), LayerType::Sigmoid);
    layer.bottoms.push("other".to_owned());
    layer.tops.push("out".to_owned());
    cfg.layers.push(layer);
    assert_eq!(Network::from_config(Device::Host, &cfg).err(), Some(Error::ConfigurationError));
}

#[test]
fn output_of_a_later_layer_is_not_known_yet() {
    let mut cfg = NetworkConfig::default();
    cfg.inputs.push("in".to_owned());
    cfg.input_shapes.push(vec![2]);
    let mut first = LayerConfig::new("a".to_owned(), LayerType::Sigmoid);
    first.bottoms.push("b_out".to_owned());
    first.tops.push("a_out".to_owned());
    cfg.layers.push(first);
    let mut second = LayerConfig::new("b".to_owned(), LayerType::Sigmoid);
    second.bottoms.push("in".to_owned());
    second.tops.push("b_out".to_owned());
    cfg.layers.push(second);
    assert_eq!(Network::from_config(Device::Host, &cfg).err(), Some(Error::ConfigurationError));
}

#[test]
fn wrong_blob_counts_are_a_configuration_error() {
    // a loss layer with one input
    let mut cfg = NetworkConfig::default();
    cfg.inputs.push("in".to_owned());
    cfg.input_shapes.push(vec![2]);
    let mut loss = LayerConfig::new("loss".to_owned(), LayerType::SoftmaxLoss);
    loss.bottoms.push("in".to_owned());
    cfg.layers.push(loss);
    assert_eq!(Network::from_config(Device::Host, &cfg).err(), Some(Error::ConfigurationError));

    // a sigmoid layer with two inputs
    let mut cfg = sigmoid_config(vec![2], false);
    cfg.layers[0].bottoms.push("in".to_owned());
    assert_eq!(Network::from_config(Device::Host, &cfg).err(), Some(Error::ConfigurationError));

    // a sigmoid layer without an output: only a loss layer has its output made
    let mut cfg = sigmoid_config(vec![2], false);
    cfg.layers[0].tops.clear();
    assert_eq!(Network::from_config(Device::Host, &cfg).err(), Some(Error::ConfigurationError));

    // two outputs
    let mut cfg = sigmoid_config(vec![2], false);
    cfg.layers[0].tops.push("more".to_owned());
    assert_eq!(Network::from_config(Device::Host, &cfg).err(), Some(Error::ConfigurationError));
}

#[test]
fn output_name_that_is_taken_is_a_configuration_error() {
    let mut cfg = loss_config(vec![2, 3], vec![2], false);
    cfg.layers[0].tops.push("label".to_owned());
    assert_eq!(Network::from_config(Device::Host, &cfg).err(), Some(Error::ConfigurationError));
}

#[test]
fn layer_can_work_in_place() {
    let mut cfg = sigmoid_config(vec![2, 2], false);
    cfg.layers[0].tops[0] = "in".to_owned();
    let mut network = Network::from_config(Device::Host, &cfg).unwrap();
    assert_eq!(network.num_blobs(), 1);
    assert_eq!(network.layer(0).tops, vec![0]);
    network.forward(Vec::new()).unwrap();
    assert_eq!(network.next_step(), Action::Run(Step::Synchronize { operand: data(0), device: Device::Host }));
    network.complete(Outcome::Completed);
    assert_eq!(
        network.next_step(),
        Action::Run(Step::Compute { layer: 0, kernel: Kernel::Sigmoid { input: data(0), output: data(0) } })
    );
}

#[test]
fn input_declared_twice_is_a_configuration_error() {
    let mut cfg = NetworkConfig::default();
    cfg.inputs.push("in".to_owned());
    cfg.input_shapes.push(vec![2]);
    cfg.inputs.push("in".to_owned());
    cfg.input_shapes.push(vec![3]);
    assert_eq!(Network::from_config(Device::Host, &cfg).err(), Some(Error::ConfigurationError));
}

#[test]
fn input_without_a_shape_is_a_configuration_error() {
    let mut cfg = NetworkConfig::default();
    cfg.inputs.push("in".to_owned());
    assert_eq!(Network::from_config(Device::Host, &cfg).err(), Some(Error::ConfigurationError));
}

#[test]
fn input_that_cannot_be_counted_is_a_shape_mismatch() {
    let mut cfg = NetworkConfig::default();
    cfg.inputs.push("in".to_owned());
    cfg.input_shapes.push(vec![usize::MAX, 2]);
    assert_eq!(Network::from_config(Device::Host, &cfg).err(), Some(Error::ShapeMismatch));
}

#[test]
fn network_can_be_built_step_by_step() {
    let mut network = Network::new(Device::Host);
    assert_eq!(network.add_input(&"in".to_owned(), &vec![2, 2], true), Ok(0));
    assert_eq!(network.add_input(&"in".to_owned(), &vec![2, 2], true), Err(Error::ConfigurationError));
    assert_eq!(network.add_input(&"big".to_owned(), &vec![usize::MAX, 2], true), Err(Error::ShapeMismatch));
    assert_eq!(network.num_blobs(), 1);
    let mut layer = LayerConfig::new("soft".to_owned(), LayerType::Softmax);
    layer.bottoms.push("in".to_owned());
    assert_eq!(network.add_layer(&layer), Err(Error::ConfigurationError));
    layer.tops.push("out".to_owned());
    assert_eq!(network.add_layer(&layer), Ok(0));
    assert_eq!(network.add_layer(&layer), Err(Error::ConfigurationError));
    assert_eq!(network.num_layers(), 1);
    assert_eq!(network.num_blobs(), 2);
    assert_eq!(network.layer(0).propagate_down, vec![true]);
}
