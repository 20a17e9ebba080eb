use sierpinski::dimension::Dimension;
use sierpinski::matrix::{Matrix, MatrixError};

#[test]
pub fn test_matmul() {
    let matrix1 = Matrix::from_data(vec![1, 2, 3, 4, 5, 6, 7, 8, 9], Dimension::new(3, 3)).unwrap();
    let res = matrix1.multiply(&matrix1).unwrap();
    assert!(vec![30, 36, 42, 66, 81, 96, 102, 126, 150] == res.data);
}

#[test]
fn index_round_trip_over_a_shape() {
    let d = Dimension::new(3, 4);
    for i in d.iter() {
        let (row, column) = d.to_xy(i);
        assert!(row < 3 && column < 4);
        assert_eq!(d.to_index(row, column), i);
    }
    assert_eq!(d.iter(), 0..12);
    assert_eq!(d.to_xy(7), (1, 3));
    assert_eq!(d.to_index(2, 1), 9);
}

#[test]
fn from_data_rejects_wrong_length_and_empty() {
    let short = Matrix::from_data(vec![1, 2, 3], Dimension::new(2, 2));
    assert_eq!(short.err(), Some(MatrixError::InvalidShape));
    let empty: Result<Matrix<i32>, MatrixError> = Matrix::from_data(vec![], Dimension::new(0, 3));
    assert_eq!(empty.err(), Some(MatrixError::InvalidShape));
    let ok = Matrix::from_data(vec![1, 2, 3, 4, 5, 6], Dimension::new(2, 3)).unwrap();
    assert_eq!(ok.dimension, Dimension::new(2, 3));
    assert_eq!(ok.data, vec![1, 2, 3, 4, 5, 6]);
}

#[test]
fn elementwise_add_and_sub() {
    let a = Matrix::from_data(vec![1, 2, 3, 4], Dimension::new(2, 2)).unwrap();
    let b = Matrix::from_data(vec![10, 20, 30, 40], Dimension::new(2, 2)).unwrap();
    assert_eq!(a.add(&b).unwrap().data, vec![11, 22, 33, 44]);
    assert_eq!(b.sub(&a).unwrap().data, vec![9, 18, 27, 36]);
    let c = Matrix::from_data(vec![1, 2, 3, 4], Dimension::new(4, 1)).unwrap();
    assert_eq!(a.add(&c).err(), Some(MatrixError::ShapeMismatch));
    assert_eq!(a.sub(&c).err(), Some(MatrixError::ShapeMismatch));
}

#[test]
fn scalar_operations() {
    let a = Matrix::from_data(vec![1i64, -2, 3, 4, 5, 6], Dimension::new(3, 2)).unwrap();
    assert_eq!(a.add_scalar(10).data, vec![11, 8, 13, 14, 15, 16]);
    assert_eq!(a.sub_scalar(1).data, vec![0, -3, 2, 3, 4, 5]);
    let m = a.mul_scalar(-3);
    assert_eq!(m.data, vec![-3, 6, -9, -12, -15, -18]);
    assert_eq!(m.dimension, Dimension::new(3, 2));
}

#[test]
fn rectangular_product() {
    let a = Matrix::from_data(vec![1, 2, 3, 4, 5, 6], Dimension::new(2, 3)).unwrap();
    let b = Matrix::from_data(vec![7, 8, 9, 10, 11, 12], Dimension::new(3, 2)).unwrap();
    let ab = a.multiply(&b).unwrap();
    assert_eq!(ab.dimension, Dimension::new(2, 2));
    assert_eq!(ab.data, vec![58, 64, 139, 154]);
    let ba = b.multiply(&a).unwrap();
    assert_eq!(ba.dimension, Dimension::new(3, 3));
    assert_eq!(ba.data, vec![39, 54, 69, 49, 68, 87, 59, 82, 105]);
    assert_eq!(a.multiply(&a).err(), Some(MatrixError::ShapeMismatch));
}

#[test]
fn buffered_mul_matches_multiply() {
    let a = Matrix::from_data(vec![1, 2, 3, 4, 5, 6], Dimension::new(2, 3)).unwrap();
    let b = Matrix::from_data(vec![7, 8, 9, 10, 11, 12], Dimension::new(3, 2)).unwrap();
    let mut out = Matrix::from_data(vec![-1, -1, -1, -1], Dimension::new(2, 2)).unwrap();
    assert_eq!(out.buffered_mul(&a, &b), Ok(()));
    assert_eq!(out.data, a.multiply(&b).unwrap().data);
    assert_eq!(out.data, vec![58, 64, 139, 154]);
}

#[test]
fn buffered_mul_rejects_wrong_shapes_and_keeps_output() {
    let a = Matrix::from_data(vec![1, 2, 3, 4, 5, 6], Dimension::new(2, 3)).unwrap();
    let b = Matrix::from_data(vec![7, 8, 9, 10, 11, 12], Dimension::new(3, 2)).unwrap();
    let mut wrong_out = Matrix::from_data(vec![5, 5, 5], Dimension::new(3, 1)).unwrap();
    assert_eq!(wrong_out.buffered_mul(&a, &b), Err(MatrixError::ShapeMismatch));
    assert_eq!(wrong_out.data, vec![5, 5, 5]);
    let mut out = Matrix::from_data(vec![0, 0, 0, 0], Dimension::new(2, 2)).unwrap();
    assert_eq!(out.buffered_mul(&a, &a), Err(MatrixError::ShapeMismatch));
    assert_eq!(out.data, vec![0, 0, 0, 0]);
}

#[test]
fn product_is_associative() {
    let a = Matrix::from_data(vec![1, -2, 3, 0, 4, 5], Dimension::new(2, 3)).unwrap();
    let b = Matrix::from_data(vec![2, 1, 0, -1, 3, 3], Dimension::new(3, 2)).unwrap();
    let c = Matrix::from_data(vec![1, 2, 3, 4, -5, 6, 7, 8], Dimension::new(2, 4)).unwrap();
    let left = a.multiply(&b).unwrap().multiply(&c).unwrap();
    let right = a.multiply(&b.multiply(&c).unwrap()).unwrap();
    assert_eq!(left.dimension, Dimension::new(2, 4));
    assert_eq!(left.data, right.data);
}

#[test]
fn closures_fill_and_map_entries() {
    let d = Dimension::new(2, 3);
    let mut m: Matrix<i32> = Matrix::from_closure(|i| i as i32 * 2, d);
    assert_eq!(m.data, vec![0, 2, 4, 6, 8, 10]);
    m.apply_closure(|t, i| t + i as i32);
    assert_eq!(m.data, vec![0, 3, 6, 9, 12, 15]);
    m.closure_into_buffer(|i| 100 - i as i32);
    assert_eq!(m.data, vec![100, 99, 98, 97, 96, 95]);
    assert_eq!(m.dimension, d);
}
