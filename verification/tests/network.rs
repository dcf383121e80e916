use rustai::activator::ReLU;
use rustai::activator::Softmax;
use rustai::layer::DenseLayer;
use rustai::loss::CrossEntropyLoss;
use rustai::metrics::Accuracy;
use rustai::metrics::Targets;
use rustai::tensor::Axis;
use rustai::tensor::IndexError;
use rustai::tensor::Tensor;

fn softmax<const B: usize, const N: usize>(inputs: &Tensor<f32, B, N>) -> Tensor<f32, B, N> {
    let activation: Softmax<B, N> = Softmax;
    activation.forward(inputs, |el| el.exp())
}

fn clip(el: &f32) -> f32 {
    if *el == 1.0 {
        1.0 - f32::MIN_POSITIVE
    } else if *el == 0.0 {
        f32::MIN_POSITIVE
    } else {
        *el
    }
}

fn cross_entropy<const B: usize, const N: usize>(
    predictions: Tensor<f32, B, N>,
    targets: Targets<B, N>,
) -> Result<Option<f32>, IndexError> {
    let loss: CrossEntropyLoss<B, N> = CrossEntropyLoss {};
    loss.forward(predictions, targets, clip, |el| -el.ln())
}

#[test]
fn relu_zeroes_what_is_below_zero() {
    let relu: ReLU<2, 3> = ReLU;
    let t: Tensor<i32, 2, 3> = Tensor::from_data([[-1, 0, 1], [5, -7, 2]]);
    assert_eq!(relu.forward(&t).into_data(), [[0, 0, 1], [5, 0, 2]]);
    let rf: ReLU<1, 3> = ReLU;
    let f: Tensor<f32, 1, 3> = Tensor::from_data([[-0.5, 0.0, 2.5]]);
    assert_eq!(rf.forward(&f).into_data(), [[0.0, 0.0, 2.5]]);
}

#[test]
fn dense_layer_is_an_affine_map() {
    let weights: Tensor<i32, 2, 3> = Tensor::from_data([[1, 2, 3], [4, 5, 6]]);
    let biases: Tensor<i32, 1, 3> = Tensor::from_data([[10, 20, 30]]);
    let layer: DenseLayer<i32, 2, 3, 2> = DenseLayer::with_parameters(weights, biases);
    let inputs: Tensor<i32, 2, 2> = Tensor::from_data([[1, 0], [1, 1]]);
    assert_eq!(layer.forward(inputs).into_data(), [[11, 22, 33], [15, 27, 39]]);
    assert_eq!(layer.weights().into_data(), weights.into_data());
    assert_eq!(layer.biases().into_data(), biases.into_data());
}

#[test]
fn new_dense_layer_has_small_weights_and_zero_biases() {
    let layer: DenseLayer<f32, 4, 3, 2> = DenseLayer::new(0.01);
    assert_eq!(layer.biases().into_data(), [[0.0, 0.0, 0.0]]);
    let w = layer.weights();
    for i in 0..4 {
        for j in 0..3 {
            assert!((0.0..0.01).contains(&w.get(i, j)));
        }
    }
}

#[test]
fn dense_layer_then_relu_keeps_the_signs_of_what_is_not_negative() {
    let weights: Tensor<f32, 2, 2> = Tensor::from_data([[0.01, 0.0], [0.0, 0.01]]);
    let biases: Tensor<f32, 1, 2> = Tensor::new();
    let layer: DenseLayer<f32, 2, 2, 2> = DenseLayer::with_parameters(weights, biases);
    let inputs: Tensor<f32, 2, 2> = Tensor::from_data([[1.0, 2.0], [3.0, 4.0]]);
    let before = layer.forward(inputs);
    let relu: ReLU<2, 2> = ReLU;
    let after = relu.forward(&before);
    for i in 0..2 {
        for j in 0..2 {
            assert!(after.get(i, j) >= 0.0);
            assert_eq!(after.get(i, j) > 0.0, before.get(i, j) > 0.0);
            assert_eq!(after.get(i, j), before.get(i, j));
        }
    }
    assert!((after.get(0, 0) - 0.01).abs() < 1e-7);
    assert!((after.get(0, 1) - 0.02).abs() < 1e-7);
    assert!((after.get(1, 0) - 0.03).abs() < 1e-7);
    assert!((after.get(1, 1) - 0.04).abs() < 1e-7);
}

#[test]
fn dense_layer_then_relu_zeroes_negative_outputs() {
    let weights: Tensor<f32, 2, 2> = Tensor::from_data([[0.01, 0.0], [0.0, 0.01]]);
    let biases: Tensor<f32, 1, 2> = Tensor::new();
    let layer: DenseLayer<f32, 2, 2, 1> = DenseLayer::with_parameters(weights, biases);
    let inputs: Tensor<f32, 1, 2> = Tensor::from_data([[-1.0, 2.0]]);
    let relu: ReLU<1, 2> = ReLU;
    let after = relu.forward(&layer.forward(inputs));
    assert_eq!(after.get(0, 0), 0.0);
    assert!(after.get(0, 1) > 0.0);
}

#[test]
fn softmax_rows_sum_to_one() {
    let inputs: Tensor<f32, 3, 4> = Tensor::from_data(
        [[1.0, 2.0, 3.0, 4.0], [-5.0, 0.0, 5.0, 100.0], [0.25, 0.25, 0.25, 0.25]],
    );
    let out = softmax(&inputs);
    let sums = out.sum_axis(Axis::Row).unwrap_row();
    for i in 0..3 {
        assert!((sums.get(i, 0) - 1.0).abs() < 1e-5);
        for j in 0..4 {
            assert!(out.get(i, j) >= 0.0);
        }
    }
    assert!((out.get(2, 0) - 0.25).abs() < 1e-6);
}

#[test]
fn softmax_does_not_change_when_a_row_is_shifted() {
    let inputs: Tensor<f32, 2, 3> = Tensor::from_data([[1.0, 2.0, 3.0], [0.5, -0.5, 0.0]]);
    let shift: Tensor<f32, 2, 1> = Tensor::from_data([[10.0], [-3.0]]);
    let shifted = inputs + shift.broadcast::<2, 3>();
    let a = softmax(&inputs);
    let b = softmax(&shifted);
    for i in 0..2 {
        for j in 0..3 {
            assert!((a.get(i, j) - b.get(i, j)).abs() < 1e-5);
        }
    }
}

#[test]
fn cross_entropy_is_the_mean_negative_log_of_the_true_class() {
    let predictions: Tensor<f32, 2, 3> = Tensor::from_data([[0.7, 0.2, 0.1], [0.1, 0.8, 0.1]]);
    let targets: Targets<2, 3> = Targets::OneHot(Tensor::from_data([[1, 0, 0], [0, 1, 0]]));
    let loss = cross_entropy(predictions, targets).unwrap().unwrap();
    let expected = -(0.7f32.ln() + 0.8f32.ln()) / 2.0;
    assert!((loss - expected).abs() < 1e-6);
    assert!((loss - 0.28991).abs() < 1e-4);
}

#[test]
fn cross_entropy_of_sure_predictions_is_finite() {
    let predictions: Tensor<f32, 2, 2> = Tensor::from_data([[1.0, 0.0], [1.0, 0.0]]);
    let targets: Targets<2, 2> = Targets::OneHot(Tensor::from_data([[1, 0], [0, 1]]));
    let loss = cross_entropy(predictions, targets).unwrap().unwrap();
    assert!(loss.is_finite());
    assert!(loss > 0.0);
}

#[test]
fn cross_entropy_fails_on_a_row_without_a_class() {
    let predictions: Tensor<f32, 2, 3> = Tensor::from_data([[0.7, 0.2, 0.1], [0.1, 0.8, 0.1]]);
    let targets: Targets<2, 3> = Targets::OneHot(Tensor::from_data([[1, 0, 0], [0, 0, 0]]));
    assert_eq!(cross_entropy(predictions, targets).unwrap_err(), IndexError::InvalidMask);
}

#[test]
fn cross_entropy_works_on_other_cells_than_floats() {
    let predictions: Tensor<i32, 2, 2> = Tensor::from_data([[10, 20], [30, 40]]);
    let targets: Targets<2, 2> = Targets::OneHot(Tensor::from_data([[0, 1], [1, 0]]));
    let loss: CrossEntropyLoss<2, 2> = CrossEntropyLoss {};
    let mean = loss.forward(predictions, targets, |el| (*el).min(25), |el| 100 - *el);
    assert_eq!(mean, Ok(Some(77)));
}

#[test]
fn cross_entropy_is_absent_where_the_rows_cannot_be_counted() {
    let wide: Tensor<i8, 200, 1> = Tensor::fill(0);
    let marks: Targets<200, 1> = Targets::OneHot(Tensor::fill(1));
    let wide_loss: CrossEntropyLoss<200, 1> = CrossEntropyLoss {};
    assert_eq!(wide_loss.forward(wide, marks, |el| *el, |el| *el), Ok(None));
}

#[test]
fn softmax_of_rows_without_cells_is_empty() {
    let inputs: Tensor<f32, 0, 3> = Tensor::new();
    let out = softmax(&inputs);
    assert_eq!(out.into_data().len(), 0);
}

#[test]
fn targets_name_the_class_of_each_row() {
    let targets: Targets<3, 3> =
        Targets::OneHot(Tensor::from_data([[0, 0, 1], [1, 0, 0], [0, 1, 0]]));
    assert_eq!(targets.classes().unwrap().into_data(), [[2], [0], [1]]);
    let values: Tensor<i32, 3, 3> = Tensor::from_data([[1, 2, 3], [4, 5, 6], [7, 8, 9]]);
    assert_eq!(targets.select(&values).unwrap().into_data(), [[3], [4], [8]]);
}

#[test]
fn accuracy_of_three_right_in_four_is_three_quarters() {
    let predictions: Tensor<f32, 4, 3> = Tensor::from_data(
        [[0.7, 0.2, 0.1], [0.1, 0.8, 0.1], [0.2, 0.3, 0.5], [0.6, 0.3, 0.1]],
    );
    let targets: Targets<4, 3> =
        Targets::OneHot(Tensor::from_data([[1, 0, 0], [0, 1, 0], [0, 0, 1], [0, 0, 1]]));
    let accuracy: Accuracy<4, 3> = Accuracy {};
    assert_eq!(accuracy.matches(&predictions, &targets), Some(3));
    let share: Option<f32> = accuracy.calculate(predictions, targets);
    assert_eq!(share, Some(0.75));
}

#[test]
fn share_is_a_quotient_and_absent_of_nothing() {
    assert_eq!(Accuracy::<4, 3>::share(3.0f32, 4.0), Some(0.75));
    assert_eq!(Accuracy::<4, 3>::share(6u32, 4), Some(1));
    assert_eq!(Accuracy::<4, 3>::share(1u32, 0), None);
    assert_eq!(Accuracy::<4, 3>::share(0.0f64, 0.0), None);
}

#[test]
fn share_from_follows_what_the_counts_converted_to() {
    assert_eq!(Accuracy::<4, 3>::share_from(Some(3.0f32), Some(4.0)), Some(0.75));
    assert_eq!(Accuracy::<4, 3>::share_from(Some(6u32), Some(4)), Some(1));
    assert_eq!(Accuracy::<4, 3>::share_from(Some(1u32), Some(0)), None);
    assert_eq!(Accuracy::<4, 3>::share_from(None, Some(4u32)), None);
    assert_eq!(Accuracy::<4, 3>::share_from(Some(3u32), None), None);
    assert_eq!(Accuracy::<4, 3>::share_from(None::<f32>, None), None);
}

#[test]
fn accuracy_counts_a_tie_for_the_lowest_class() {
    let predictions: Tensor<i32, 2, 3> = Tensor::from_data([[5, 5, 1], [2, 2, 2]]);
    let targets: Targets<2, 3> = Targets::OneHot(Tensor::from_data([[1, 0, 0], [0, 1, 0]]));
    let accuracy: Accuracy<2, 3> = Accuracy {};
    assert_eq!(accuracy.matches(&predictions, &targets), Some(1));
    let share: Option<f64> = accuracy.calculate(predictions, targets);
    assert_eq!(share, Some(0.5));
}

#[test]
fn accuracy_of_a_batch_without_rows_is_absent() {
    let predictions: Tensor<f32, 0, 3> = Tensor::new();
    let targets: Targets<0, 3> = Targets::OneHot(Tensor::new());
    let accuracy: Accuracy<0, 3> = Accuracy {};
    assert_eq!(accuracy.matches(&predictions, &targets), Some(0));
    let share: Option<f32> = accuracy.calculate(predictions, targets);
    assert_eq!(share, None);
}

#[test]
fn cross_entropy_of_a_batch_without_rows_is_absent() {
    let predictions: Tensor<f32, 0, 3> = Tensor::new();
    let targets: Targets<0, 3> = Targets::OneHot(Tensor::new());
    assert_eq!(cross_entropy(predictions, targets), Ok(None));
    let loss: CrossEntropyLoss<0, 2> = CrossEntropyLoss {};
    let integers: Tensor<u8, 0, 2> = Tensor::new();
    let marks: Targets<0, 2> = Targets::OneHot(Tensor::new());
    assert_eq!(loss.forward(integers, marks, |el| *el, |el| *el), Ok(None));
}

#[test]
fn accuracy_without_classes_is_absent() {
    let predictions: Tensor<f32, 2, 0> = Tensor::new();
    let targets: Targets<2, 0> = Targets::OneHot(Tensor::new());
    let accuracy: Accuracy<2, 0> = Accuracy {};
    assert_eq!(accuracy.matches(&predictions, &targets), None);
    let share: Option<f32> = accuracy.calculate(predictions, targets);
    assert_eq!(share, None);
}
