use rustai::tensor::IndexError;
use rustai::tensor::Tensor;
use rustai::tensor::TensorIndex;

#[test]
fn scalar_index_picks_one_column() {
    let t: Tensor<i32, 2, 3> = Tensor::from_data([[1, 2, 3], [4, 5, 6]]);
    let picked = t.index_cols(TensorIndex::Scalar(2)).unwrap();
    assert_eq!(picked.into_data(), [[3], [6]]);
    let first = t.index_cols(TensorIndex::Scalar(0)).unwrap();
    assert_eq!(first.into_data(), [[1], [4]]);
}

#[test]
fn scalar_index_past_the_last_column_is_an_error() {
    let t: Tensor<i32, 2, 3> = Tensor::from_data([[1, 2, 3], [4, 5, 6]]);
    let at_count = t.index_cols(TensorIndex::Scalar(3));
    assert_eq!(at_count.unwrap_err(), IndexError::ScalarOutOfRange { index: 3, cols: 3 });
    let beyond = t.index_cols(TensorIndex::Scalar(10));
    assert_eq!(beyond.unwrap_err(), IndexError::ScalarOutOfRange { index: 10, cols: 3 });
}

#[test]
fn one_hot_mask_picks_the_marked_cell_of_each_row() {
    let t: Tensor<i32, 3, 3> = Tensor::from_data([[1, 2, 3], [4, 5, 6], [7, 8, 9]]);
    let mask: Tensor<usize, 3, 3> = Tensor::from_data([[0, 0, 1], [1, 0, 0], [0, 1, 0]]);
    let picked = t.index_cols(TensorIndex::Mask(mask)).unwrap();
    assert_eq!(picked.into_data(), [[3], [4], [8]]);
}

#[test]
fn mask_with_several_ones_picks_the_first() {
    let t: Tensor<i32, 2, 3> = Tensor::from_data([[1, 2, 3], [4, 5, 6]]);
    let mask: Tensor<usize, 2, 3> = Tensor::from_data([[0, 1, 1], [1, 1, 1]]);
    let picked = t.index_cols(TensorIndex::Mask(mask)).unwrap();
    assert_eq!(picked.into_data(), [[2], [4]]);
}

#[test]
fn mask_row_without_a_one_is_an_error() {
    let t: Tensor<i32, 2, 3> = Tensor::from_data([[1, 2, 3], [4, 5, 6]]);
    let mask: Tensor<usize, 2, 3> = Tensor::from_data([[0, 1, 0], [0, 0, 0]]);
    assert_eq!(t.index_cols(TensorIndex::Mask(mask)).unwrap_err(), IndexError::InvalidMask);
}

#[test]
fn mask_counts_only_ones_as_marks() {
    let t: Tensor<i32, 1, 3> = Tensor::from_data([[1, 2, 3]]);
    let twos: Tensor<usize, 1, 3> = Tensor::from_data([[2, 0, 5]]);
    assert_eq!(t.index_cols(TensorIndex::Mask(twos)).unwrap_err(), IndexError::InvalidMask);
    let mixed: Tensor<usize, 1, 3> = Tensor::from_data([[2, 0, 1]]);
    assert_eq!(t.index_cols(TensorIndex::Mask(mixed)).unwrap().into_data(), [[3]]);
}

#[test]
fn indexing_a_tensor_without_rows_succeeds() {
    let t: Tensor<i32, 0, 3> = Tensor::new();
    let mask: Tensor<usize, 0, 3> = Tensor::new();
    assert!(t.index_cols(TensorIndex::Mask(mask)).is_ok());
    assert!(t.index_cols(TensorIndex::Scalar(1)).is_ok());
    assert!(t.index_cols(TensorIndex::Scalar(3)).is_err());
}

#[test]
fn eq_compares_cell_by_cell() {
    let a: Tensor<usize, 2, 2> = Tensor::from_data([[1, 2], [3, 4]]);
    let b: Tensor<usize, 2, 2> = Tensor::from_data([[1, 0], [0, 4]]);
    assert_eq!(a.eq(&b).into_data(), [[true, false], [false, true]]);
}

#[test]
fn convert_turns_truth_into_numbers() {
    let t: Tensor<bool, 1, 3> = Tensor::from_data([[true, false, true]]);
    assert_eq!(t.convert(1.0f32, 0.0f32).into_data(), [[1.0, 0.0, 1.0]]);
    assert_eq!(t.convert(1usize, 0usize).into_data(), [[1, 0, 1]]);
}
