use rustai::tensor::Axis;
use rustai::tensor::Tensor;

#[test]
fn sum_adds_all_cells() {
    let t: Tensor<i32, 2, 3> = Tensor::from_data([[1, 2, 3], [4, 5, 6]]);
    assert_eq!(t.sum(), 21);
    let empty: Tensor<i32, 0, 3> = Tensor::new();
    assert_eq!(empty.sum(), 0);
}

#[test]
fn sum_axis_row_gives_one_sum_per_row() {
    let t: Tensor<i32, 2, 3> = Tensor::from_data([[1, 2, 3], [4, 5, 6]]);
    let rows: Tensor<i32, 2, 1> = t.sum_axis(Axis::Row).unwrap_row();
    assert_eq!(rows.into_data(), [[6], [15]]);
}

#[test]
fn sum_axis_col_gives_one_sum_per_column() {
    let t: Tensor<i32, 2, 3> = Tensor::from_data([[1, 2, 3], [4, 5, 6]]);
    let cols: Tensor<i32, 1, 3> = t.sum_axis(Axis::Col).unwrap_col();
    assert_eq!(cols.into_data(), [[5, 7, 9]]);
}

#[test]
fn the_three_ways_to_the_total_agree() {
    let t: Tensor<i64, 3, 4> =
        Tensor::from_data([[1, -2, 3, 4], [5, 6, -7, 8], [9, 10, 11, -12]]);
    let by_rows = t.sum_axis(Axis::Row).unwrap_row().sum();
    let by_cols = t.sum_axis(Axis::Col).unwrap_col().sum();
    assert_eq!(by_rows, 36);
    assert_eq!(by_cols, 36);
    assert_eq!(t.sum(), 36);
}

#[test]
fn max_is_the_greatest_cell() {
    let t: Tensor<i32, 2, 3> = Tensor::from_data([[1, 9, 3], [4, -5, 6]]);
    assert_eq!(t.max(), 9);
    let negative: Tensor<i32, 1, 3> = Tensor::from_data([[-3, -1, -2]]);
    assert_eq!(negative.max(), -1);
    let f: Tensor<f32, 2, 2> = Tensor::from_data([[0.5, -2.0], [3.25, 1.0]]);
    assert_eq!(f.max(), 3.25);
}

#[test]
fn max_axis_is_a_maximum_and_not_a_sum() {
    let t: Tensor<i32, 2, 3> = Tensor::from_data([[1, 2, 3], [4, 5, 6]]);
    let rows = t.max_axis(Axis::Row).unwrap_row();
    assert_eq!(rows.into_data(), [[3], [6]]);
    assert_ne!(rows.into_data(), t.sum_axis(Axis::Row).unwrap_row().into_data());
    let cols = t.max_axis(Axis::Col).unwrap_col();
    assert_eq!(cols.into_data(), [[4, 5, 6]]);
}

#[test]
fn max_axis_of_negative_cells_is_not_zero() {
    let t: Tensor<i32, 2, 2> = Tensor::from_data([[-5, -2], [-9, -7]]);
    assert_eq!(t.max_axis(Axis::Row).unwrap_row().into_data(), [[-2], [-7]]);
    assert_eq!(t.max_axis(Axis::Col).unwrap_col().into_data(), [[-5, -2]]);
}

#[test]
fn argmax_names_the_place_of_the_greatest_cell() {
    let t: Tensor<i32, 2, 3> = Tensor::from_data([[1, 9, 3], [7, 5, 6]]);
    let rows = t.argmax(Axis::Row).unwrap().unwrap_row();
    assert_eq!(rows.into_data(), [[1], [0]]);
    let cols = t.argmax(Axis::Col).unwrap().unwrap_col();
    assert_eq!(cols.into_data(), [[1, 0, 1]]);
}

#[test]
fn argmax_gives_the_lowest_place_among_equals() {
    let t: Tensor<i32, 2, 4> = Tensor::from_data([[2, 5, 5, 1], [3, 3, 3, 3]]);
    let rows = t.argmax(Axis::Row).unwrap().unwrap_row();
    assert_eq!(rows.into_data(), [[1], [0]]);
}

#[test]
fn argmax_of_lines_without_cells_is_absent() {
    let no_cols: Tensor<i32, 2, 0> = Tensor::new();
    assert!(no_cols.argmax(Axis::Row).is_none());
    assert!(no_cols.argmax(Axis::Col).is_some());
    let no_rows: Tensor<i32, 0, 2> = Tensor::new();
    assert!(no_rows.argmax(Axis::Col).is_none());
    assert!(no_rows.argmax(Axis::Row).is_some());
}

#[test]
fn any_tells_where_the_predicate_holds_once() {
    let t: Tensor<i32, 2, 3> = Tensor::from_data([[0, 0, 0], [0, 5, 0]]);
    let rows = t.any(Axis::Row, |x| *x != 0).unwrap_row();
    assert_eq!(rows.into_data(), [[false], [true]]);
    let cols = t.any(Axis::Col, |x| *x != 0).unwrap_col();
    assert_eq!(cols.into_data(), [[false, true, false]]);
}

#[test]
fn all_tells_where_the_predicate_holds_throughout() {
    let t: Tensor<i32, 2, 3> = Tensor::from_data([[0, 0, 0], [0, 5, 0]]);
    let rows = t.all(Axis::Row, |x| *x == 0).unwrap_row();
    assert_eq!(rows.into_data(), [[true], [false]]);
    let cols = t.all(Axis::Col, |x| *x == 0).unwrap_col();
    assert_eq!(cols.into_data(), [[true, false, true]]);
}

#[test]
fn any_and_all_of_lines_without_cells() {
    let t: Tensor<i32, 2, 0> = Tensor::new();
    assert_eq!(t.any(Axis::Row, |_| true).unwrap_row().into_data(), [[false], [false]]);
    assert_eq!(t.all(Axis::Row, |_| false).unwrap_row().into_data(), [[true], [true]]);
}

#[test]
fn mean_divides_the_sum_by_the_number_of_cells() {
    let f: Tensor<f32, 2, 2> = Tensor::from_data([[1.0, 2.0], [3.0, 4.0]]);
    assert_eq!(f.mean(), Some(2.5));
    let i: Tensor<i32, 2, 2> = Tensor::from_data([[1, 2], [3, 5]]);
    assert_eq!(i.mean(), Some(2));
}

#[test]
fn mean_is_absent_where_the_count_has_no_value() {
    let t: Tensor<u8, 20, 20> = Tensor::fill(0);
    assert_eq!(t.mean(), None);
    let small: Tensor<u8, 5, 5> = Tensor::fill(2);
    assert_eq!(small.mean(), Some(2));
}

#[test]
fn mean_of_a_tensor_without_cells_is_absent() {
    let floats: Tensor<f32, 0, 3> = Tensor::new();
    assert_eq!(floats.mean(), None);
    let integers: Tensor<i32, 2, 0> = Tensor::new();
    assert_eq!(integers.mean(), None);
}

#[test]
fn mean_from_follows_what_the_count_converted_to() {
    let t: Tensor<i32, 1, 3> = Tensor::from_data([[3, 6, 9]]);
    assert_eq!(t.mean_from(Some(3)), Some(6));
    assert_eq!(t.mean_from(Some(2)), Some(9));
    assert_eq!(t.mean_from(Some(0)), None);
    assert_eq!(t.mean_from(None), None);
    let f: Tensor<f32, 2, 2> = Tensor::from_data([[1.0, 2.0], [3.0, 4.0]]);
    assert_eq!(f.mean_from(Some(4.0)), Some(2.5));
    assert_eq!(f.mean_from(Some(0.0)), None);
}

#[test]
fn mean_with_divides_by_the_given_count() {
    let t: Tensor<i32, 1, 3> = Tensor::from_data([[3, 6, 9]]);
    assert_eq!(t.mean_with(3), 6);
    assert_eq!(t.mean_with(2), 9);
}
