use rustai::tensor::Tensor;

#[test]
fn new_is_all_zero() {
    let t: Tensor<i32, 2, 3> = Tensor::new();
    assert_eq!(t.into_data(), [[0, 0, 0], [0, 0, 0]]);
    let f: Tensor<f32, 1, 2> = Tensor::new();
    assert_eq!(f.into_data(), [[0.0, 0.0]]);
    let b: Tensor<bool, 2, 1> = Tensor::new();
    assert_eq!(b.into_data(), [[false], [false]]);
}

#[test]
fn fill_puts_the_value_everywhere() {
    let t: Tensor<i64, 3, 2> = Tensor::fill(7);
    assert_eq!(t.into_data(), [[7, 7], [7, 7], [7, 7]]);
}

#[test]
fn from_data_keeps_rows_in_order() {
    let t: Tensor<u8, 2, 3> = Tensor::from_data([[1, 2, 3], [4, 5, 6]]);
    assert_eq!(t.get(0, 0), 1);
    assert_eq!(t.get(0, 2), 3);
    assert_eq!(t.get(1, 0), 4);
    assert_eq!(*t.get_ref(1, 2), 6);
    assert_eq!(t.into_data(), [[1, 2, 3], [4, 5, 6]]);
}

#[test]
fn set_changes_one_cell_only() {
    let mut t: Tensor<i32, 2, 2> = Tensor::from_data([[1, 2], [3, 4]]);
    t.set(1, 0, 9);
    assert_eq!(t.into_data(), [[1, 2], [9, 4]]);
}

#[test]
fn tensors_are_copied_not_shared() {
    let a: Tensor<i32, 1, 2> = Tensor::from_data([[1, 2]]);
    let mut b = a;
    b.set(0, 0, 5);
    assert_eq!(a.into_data(), [[1, 2]]);
    assert_eq!(b.into_data(), [[5, 2]]);
}

#[test]
fn rand_fill_draws_each_cell_on_its_own() {
    let t: Tensor<u64, 4, 4> = Tensor::rand_fill();
    let first = t.get(0, 0);
    let mut differs = false;
    for i in 0..4 {
        for j in 0..4 {
            if t.get(i, j) != first {
                differs = true;
            }
        }
    }
    assert!(differs);
}

#[test]
fn rand_fill_of_floats_stays_in_the_unit_interval() {
    let t: Tensor<f32, 3, 5> = Tensor::rand_fill();
    for i in 0..3 {
        for j in 0..5 {
            let v = t.get(i, j);
            assert!((0.0..1.0).contains(&v));
        }
    }
}

#[test]
fn transpose_swaps_rows_and_columns() {
    let t: Tensor<i32, 2, 3> = Tensor::from_data([[1, 2, 3], [4, 5, 6]]);
    let tt: Tensor<i32, 3, 2> = t.transpose();
    assert_eq!(tt.into_data(), [[1, 4], [2, 5], [3, 6]]);
    assert_eq!(tt.transpose().into_data(), t.into_data());
}

#[test]
fn broadcast_repeats_a_row() {
    let row: Tensor<i32, 1, 3> = Tensor::from_data([[1, 2, 3]]);
    let b: Tensor<i32, 2, 3> = row.broadcast::<2, 3>();
    assert_eq!(b.into_data(), [[1, 2, 3], [1, 2, 3]]);
}

#[test]
fn broadcast_repeats_a_column() {
    let col: Tensor<i32, 2, 1> = Tensor::from_data([[1], [2]]);
    let b: Tensor<i32, 2, 3> = col.broadcast::<2, 3>();
    assert_eq!(b.into_data(), [[1, 1, 1], [2, 2, 2]]);
}

#[test]
fn broadcast_repeats_a_single_cell() {
    let one: Tensor<i32, 1, 1> = Tensor::from_data([[9]]);
    let b: Tensor<i32, 2, 2> = one.broadcast::<2, 2>();
    assert_eq!(b.into_data(), [[9, 9], [9, 9]]);
}

#[test]
fn broadcast_to_own_extents_changes_nothing() {
    let t: Tensor<i32, 2, 3> = Tensor::from_data([[1, 2, 3], [4, 5, 6]]);
    assert_eq!(t.broadcast::<2, 3>().into_data(), t.into_data());
    let single: Tensor<i32, 1, 1> = Tensor::from_data([[4]]);
    assert_eq!(single.broadcast::<1, 1>().into_data(), [[4]]);
    let f: Tensor<f64, 1, 2> = Tensor::from_data([[0.5, -1.5]]);
    assert_eq!(f.broadcast::<1, 2>().into_data(), [[0.5, -1.5]]);
}

#[test]
fn apply_maps_every_cell() {
    let mut t: Tensor<i32, 2, 2> = Tensor::from_data([[1, -2], [3, -4]]);
    t.apply(|x| x * x);
    assert_eq!(t.into_data(), [[1, 4], [9, 16]]);
}

#[test]
fn apply_with_leaves_the_function_with_the_caller() {
    let double = |x: &i32| 2 * x;
    let mut a: Tensor<i32, 1, 2> = Tensor::from_data([[1, 2]]);
    let mut b: Tensor<i32, 2, 1> = Tensor::from_data([[3], [4]]);
    a.apply_with(&double);
    b.apply_with(&double);
    assert_eq!(a.into_data(), [[2, 4]]);
    assert_eq!(b.into_data(), [[6], [8]]);
}

#[test]
fn add_and_sub_work_cell_by_cell() {
    let a: Tensor<i32, 2, 2> = Tensor::from_data([[1, 2], [3, 4]]);
    let b: Tensor<i32, 2, 2> = Tensor::from_data([[10, 20], [30, 40]]);
    assert_eq!((a + b).into_data(), [[11, 22], [33, 44]]);
    assert_eq!((b - a).into_data(), [[9, 18], [27, 36]]);
}

#[test]
fn scalars_meet_every_cell() {
    let a: Tensor<i32, 2, 2> = Tensor::from_data([[2, 4], [6, 8]]);
    assert_eq!((a + 1).into_data(), [[3, 5], [7, 9]]);
    assert_eq!((a - 2).into_data(), [[0, 2], [4, 6]]);
    assert_eq!((a * 3).into_data(), [[6, 12], [18, 24]]);
    assert_eq!((a / 2).into_data(), [[1, 2], [3, 4]]);
}

#[test]
fn division_is_cell_by_cell() {
    let a: Tensor<i32, 1, 3> = Tensor::from_data([[7, 8, -9]]);
    let b: Tensor<i32, 1, 3> = Tensor::from_data([[2, 4, 2]]);
    assert_eq!((a / b).into_data(), [[3, 2, -4]]);
}

#[test]
fn division_of_floats_by_zero_is_left_to_the_floats() {
    let a: Tensor<f32, 1, 2> = Tensor::from_data([[1.0, -1.0]]);
    let q = a / 0.0;
    assert_eq!(q.get(0, 0), f32::INFINITY);
    assert_eq!(q.get(0, 1), f32::NEG_INFINITY);
}

#[test]
fn float_arithmetic_goes_through_the_same_operators() {
    let a: Tensor<f32, 1, 2> = Tensor::from_data([[1.5, 2.5]]);
    let b: Tensor<f32, 1, 2> = Tensor::from_data([[0.5, 0.25]]);
    assert_eq!((a + b).into_data(), [[2.0, 2.75]]);
    assert_eq!((a - b).into_data(), [[1.0, 2.25]]);
    assert_eq!((a * 2.0).into_data(), [[3.0, 5.0]]);
    assert_eq!((a / b).into_data(), [[3.0, 10.0]]);
}

#[test]
fn dot_is_the_sum_of_products() {
    let row: Tensor<i32, 1, 3> = Tensor::from_data([[1, 2, 3]]);
    let col: Tensor<i32, 3, 1> = Tensor::from_data([[4], [5], [6]]);
    assert_eq!(row.dot(col), 32);
}

#[test]
fn matrix_product_contracts_rows_with_columns() {
    let a: Tensor<i32, 2, 3> = Tensor::from_data([[1, 2, 3], [4, 5, 6]]);
    let b: Tensor<i32, 3, 2> = Tensor::from_data([[7, 8], [9, 10], [11, 12]]);
    let p: Tensor<i32, 2, 2> = a * b;
    assert_eq!(p.into_data(), [[58, 64], [139, 154]]);
}

#[test]
fn matrix_product_with_identity_is_the_operand() {
    let a: Tensor<i64, 2, 3> = Tensor::from_data([[1, -2, 3], [4, 5, -6]]);
    let id: Tensor<i64, 3, 3> = Tensor::from_data([[1, 0, 0], [0, 1, 0], [0, 0, 1]]);
    assert_eq!((a * id).into_data(), a.into_data());
    let extreme: Tensor<i8, 1, 2> = Tensor::from_data([[i8::MAX, i8::MIN]]);
    let id2: Tensor<i8, 2, 2> = Tensor::from_data([[1, 0], [0, 1]]);
    assert_eq!((extreme * id2).into_data(), [[i8::MAX, i8::MIN]]);
}

#[test]
fn adding_then_subtracting_gives_the_first_tensor_back() {
    let a: Tensor<i32, 2, 2> = Tensor::from_data([[1, -2], [i32::MAX - 5, i32::MIN + 5]]);
    let b: Tensor<i32, 2, 2> = Tensor::from_data([[10, 20], [5, -5]]);
    assert_eq!(((a + b) - b).into_data(), a.into_data());
    let x: Tensor<f32, 1, 2> = Tensor::from_data([[0.25, 1.5]]);
    let y: Tensor<f32, 1, 2> = Tensor::from_data([[0.5, 2.0]]);
    let back = (x + y) - y;
    assert!((back.get(0, 0) - 0.25).abs() < 1e-6);
    assert!((back.get(0, 1) - 1.5).abs() < 1e-6);
}
