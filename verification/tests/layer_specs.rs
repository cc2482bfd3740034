use leaf::error::Error;
use leaf::layer::{Layer, LayerConfig, LayerState, LayerType, Worker};
use leaf::layers::activation::Sigmoid;
use leaf::layers::common::Softmax;
use leaf::layers::loss::SoftmaxLoss;
use leaf::plan::{steps_to_compute, Kernel, Operand, Part, Step};
use leaf::shared_memory::Blob;
use leaf::tensor::{Allocation, Device, TensorBuffer};

fn blob(device: Device, dims: Vec<usize>) -> Blob {
    Blob::from_data(TensorBuffer::new(device, &dims).unwrap())
}

fn data(blob: usize) -> Operand {
    Operand { blob, part: Part::Data }
}

fn diff(blob: usize) -> Operand {
    Operand { blob, part: Part::Diff }
}

fn loss() -> SoftmaxLoss {
    let mut loss = SoftmaxLoss::default();
    loss.init();
    loss
}

#[test]
fn sigmoid_takes_one_blob_and_fills_one() {
    assert_eq!(Sigmoid.exact_num_bottom_blobs(), 1);
    assert_eq!(Sigmoid.exact_num_top_blobs(), 1);
    assert_eq!(Softmax.exact_num_bottom_blobs(), 1);
    assert_eq!(Softmax.exact_num_top_blobs(), 1);
}

#[test]
fn reshape_gives_the_output_the_shape_of_the_input() {
    let mut output = blob(Device::Accelerator(0), vec![7]);
    output.mut_data().synchronize(Device::Host, Allocation::Granted).unwrap();
    assert_eq!(Sigmoid.reshape(&vec![1, 30, 30], &mut output), Ok(true));
    assert_eq!(output.shape(), &vec![1, 30, 30]);
    assert_eq!(output.diff().desc(), &vec![1, 30, 30]);
    assert_eq!(output.size(), 900);
    // the new memory is on the device of the authoritative copy only
    assert!(!output.data().resident(Device::Host));
    assert_eq!(output.data().latest_device(), Device::Accelerator(0));
}

#[test]
fn reshape_twice_touches_memory_once() {
    for kind in [LayerType::Sigmoid, LayerType::Softmax, LayerType::SoftmaxLoss] {
        let worker = Worker::new(kind);
        let mut output = blob(Device::Accelerator(0), Vec::new());
        assert_eq!(worker.reshape(&vec![4, 5], &mut output), Ok(true));
        output.mut_data().synchronize(Device::Host, Allocation::Granted).unwrap();
        assert_eq!(worker.reshape(&vec![4, 5], &mut output), Ok(false));
        assert_eq!(output.shape(), &vec![4, 5]);
        // the copy on the host is still there: nothing was allocated anew
        assert!(output.data().current(Device::Host));
        assert_eq!(worker.reshape(&vec![2, 5], &mut output), Ok(true));
        assert_eq!(output.shape(), &vec![2, 5]);
        assert!(!output.data().resident(Device::Host));
    }
}

#[test]
fn reshape_to_a_shape_that_cannot_be_counted_is_a_shape_mismatch() {
    let mut output = blob(Device::Host, vec![3]);
    assert_eq!(Softmax.reshape(&vec![usize::MAX, 2], &mut output), Err(Error::ShapeMismatch));
    assert_eq!(loss().reshape(&vec![usize::MAX, 2], &mut output), Err(Error::ShapeMismatch));
    assert_eq!(output.shape(), &vec![3]);
}

#[test]
fn sigmoid_reads_the_input_values_and_writes_the_output_values() {
    assert_eq!(
        Sigmoid.compute_output(&vec![4], &vec![9]),
        Ok(Kernel::Sigmoid { input: data(4), output: data(9) })
    );
}

#[test]
fn sigmoid_with_wrong_blob_counts_is_a_configuration_error() {
    assert_eq!(Sigmoid.compute_output(&vec![], &vec![9]), Err(Error::ConfigurationError));
    assert_eq!(Sigmoid.compute_output(&vec![1, 2], &vec![9]), Err(Error::ConfigurationError));
    assert_eq!(Sigmoid.compute_output(&vec![1], &vec![]), Err(Error::ConfigurationError));
    assert_eq!(
        Sigmoid.compute_input_gradient(&vec![1], &vec![2], &vec![]),
        Err(Error::ConfigurationError)
    );
    assert_eq!(
        Sigmoid.compute_input_gradient(&vec![1], &vec![2, 3], &vec![true]),
        Err(Error::ConfigurationError)
    );
}

#[test]
fn sigmoid_gradient_takes_output_values_output_gradient_and_input_values() {
    assert_eq!(
        Sigmoid.compute_input_gradient(&vec![4], &vec![9], &vec![true]),
        Ok(Some(Kernel::SigmoidGradient {
            output: data(9),
            output_gradient: diff(9),
            input: data(4),
            input_gradient: diff(4),
        }))
    );
}

#[test]
fn no_gradient_is_computed_where_none_is_asked_for() {
    assert_eq!(Sigmoid.compute_input_gradient(&vec![4], &vec![9], &vec![false]), Ok(None));
    assert_eq!(Softmax.backward_layer(&vec![9], &vec![false], &vec![4]), Ok(None));
    assert_eq!(loss().backward_layer(&vec![9], &vec![false, false], &vec![4, 5]), Ok(None));
    assert_eq!(loss().backward_layer(&vec![9], &vec![false, true], &vec![4, 5]), Ok(None));
}

#[test]
fn softmax_kernels() {
    assert_eq!(
        Softmax.forward_layer(&vec![4], &vec![9]),
        Ok(Kernel::Softmax { input: data(4), output: data(9) })
    );
    assert_eq!(
        Softmax.backward_layer(&vec![9], &vec![true], &vec![4]),
        Ok(Some(Kernel::SoftmaxGradient { output: data(9), output_gradient: diff(9), input_gradient: diff(4) }))
    );
    assert_eq!(Softmax.forward_layer(&vec![4, 5], &vec![9]), Err(Error::ConfigurationError));
    assert_eq!(Softmax.backward_layer(&vec![9], &vec![true, true], &vec![4]), Err(Error::ConfigurationError));
}

#[test]
fn loss_layer_computes_then_reads_on_the_host() {
    let steps = loss().forward_layer(3, Device::Accelerator(1), &vec![4, 5], &vec![9]).unwrap();
    assert_eq!(
        steps,
        vec![
            Step::Synchronize { operand: data(4), device: Device::Accelerator(1) },
            Step::Compute { layer: 3, kernel: Kernel::Softmax { input: data(4), output: data(9) } },
            Step::Synchronize { operand: data(5), device: Device::Host },
            Step::Synchronize { operand: data(9), device: Device::Host },
            Step::AccumulateLoss { layer: 3, labels: data(5), probability: data(9) },
        ]
    );
}

#[test]
fn loss_layer_propagates_to_the_prediction_only() {
    assert_eq!(
        loss().backward_layer(&vec![9], &vec![true, true], &vec![4, 5]),
        Ok(Some(Kernel::SoftmaxGradient { output: data(9), output_gradient: diff(9), input_gradient: diff(4) }))
    );
}

#[test]
fn loss_layer_with_wrong_blob_counts_is_a_configuration_error() {
    assert_eq!(loss().forward_layer(0, Device::Host, &vec![4], &vec![9]), Err(Error::ConfigurationError));
    assert_eq!(loss().forward_layer(0, Device::Host, &vec![4, 5], &vec![]), Err(Error::ConfigurationError));
    assert_eq!(loss().backward_layer(&vec![9], &vec![true], &vec![4, 5]), Err(Error::ConfigurationError));
    assert_eq!(loss().backward_layer(&vec![9], &vec![true, false], &vec![4]), Err(Error::ConfigurationError));
}

#[test]
fn kernel_reads_are_synchronized_in_the_order_in_which_it_takes_them() {
    let kernel = Kernel::SigmoidGradient {
        output: data(2),
        output_gradient: diff(2),
        input: data(1),
        input_gradient: diff(1),
    };
    assert_eq!(kernel.operands_read(), vec![data(2), diff(2), data(1)]);
    assert_eq!(kernel.operand_written(), Some(diff(1)));
    assert_eq!(
        steps_to_compute(5, kernel, Device::Host),
        vec![
            Step::Synchronize { operand: data(2), device: Device::Host },
            Step::Synchronize { operand: diff(2), device: Device::Host },
            Step::Synchronize { operand: data(1), device: Device::Host },
            Step::Compute { layer: 5, kernel },
        ]
    );
    let dot = Kernel::DotProduct { x: diff(0), y: diff(0) };
    assert_eq!(dot.operands_read(), vec![diff(0), diff(0)]);
    assert_eq!(dot.operand_written(), None);
}

#[test]
fn wired_layer_knows_its_kind_and_flags() {
    let layer = Layer::new("loss".to_owned(), LayerType::SoftmaxLoss, vec![0, 1], vec![2], &vec![true, true]).unwrap();
    assert_eq!(layer.layer_type(), LayerType::SoftmaxLoss);
    assert_eq!(layer.name, "loss");
    assert_eq!(layer.state, LayerState::Uninitialized);
    assert_eq!(layer.propagate_down, vec![true, false]);
    assert!(layer.worker.auto_top_blobs());
    assert_eq!(layer.worker.exact_num_bottom_blobs(), 2);
    assert!(layer.worker.allows_gradient(0));
    assert!(!layer.worker.allows_gradient(1));
    let plain = Layer::new("sig".to_owned(), LayerType::Sigmoid, vec![0], vec![1], &vec![false]).unwrap();
    assert_eq!(plain.propagate_down, vec![false]);
    assert!(!plain.worker.auto_top_blobs());
    assert_eq!(plain.backward_steps(0, Device::Host), Vec::new());
    assert_eq!(plain.forward_steps(0, Device::Host, true).len(), 3);
    assert_eq!(plain.forward_steps(0, Device::Host, false).len(), 2);
}

#[test]
fn layer_with_wrong_blob_counts_is_a_configuration_error() {
    assert_eq!(
        Layer::new("sig".to_owned(), LayerType::Sigmoid, vec![0, 1], vec![2], &vec![true, true]).err(),
        Some(Error::ConfigurationError)
    );
    assert_eq!(
        Layer::new("loss".to_owned(), LayerType::SoftmaxLoss, vec![0], vec![2], &vec![true]).err(),
        Some(Error::ConfigurationError)
    );
    assert_eq!(
        Layer::new("soft".to_owned(), LayerType::Softmax, vec![0], vec![], &vec![true]).err(),
        Some(Error::ConfigurationError)
    );
    assert_eq!(
        Layer::new("soft".to_owned(), LayerType::Softmax, vec![0], vec![1], &vec![]).err(),
        Some(Error::ConfigurationError)
    );
}

#[test]
fn layer_description_starts_without_blobs() {
    let config = LayerConfig::new("sig".to_owned(), LayerType::Sigmoid);
    assert_eq!(config.name, "sig");
    assert_eq!(config.layer_type, LayerType::Sigmoid);
    assert!(config.bottoms.is_empty());
    assert!(config.tops.is_empty());
}
