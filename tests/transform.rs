use sierpinski::dimension::Dimension;
use sierpinski::matrix::Matrix;

#[test]
fn identity_leaves_points_unchanged() {
    let id: Matrix<i64> = Matrix::identity4();
    assert_eq!(id.data, vec![1, 0, 0, 0, 0, 1, 0, 0, 0, 0, 1, 0, 0, 0, 0, 1]);
    let p = Matrix::from_data(vec![-7i64, 3, 12, 1], Dimension::new(4, 1)).unwrap();
    let q = id.multiply(&p).unwrap();
    assert_eq!(q.dimension, p.dimension);
    assert_eq!(q.data, p.data);
}

#[test]
fn translation_and_its_inverse_compose_to_identity() {
    let forward: Matrix<i32> = Matrix::translate4(3, -4, 9);
    assert_eq!(forward.data, vec![1, 0, 0, 3, 0, 1, 0, -4, 0, 0, 1, 9, 0, 0, 0, 1]);
    let backward: Matrix<i32> = Matrix::translate4(-3, 4, -9);
    let both = forward.multiply(&backward).unwrap();
    assert_eq!(both.data, Matrix::<i32>::identity4().data);
}

#[test]
fn translation_moves_a_point() {
    let t: Matrix<i32> = Matrix::translate4(1, 2, 3);
    let p = Matrix::from_data(vec![10, 20, 30, 1], Dimension::new(4, 1)).unwrap();
    assert_eq!(t.multiply(&p).unwrap().data, vec![11, 22, 33, 1]);
    let tt: Matrix<i32> = Matrix::ttranslate4(5);
    assert_eq!(tt.multiply(&p).unwrap().data, vec![15, 25, 35, 1]);
}

#[test]
fn scale_builders() {
    let s: Matrix<i32> = Matrix::scale4(2, 3, 4);
    assert_eq!(s.data, vec![2, 0, 0, 0, 0, 3, 0, 0, 0, 0, 4, 0, 0, 0, 0, 1]);
    let p = Matrix::from_data(vec![1, 1, 1, 1], Dimension::new(4, 1)).unwrap();
    assert_eq!(s.multiply(&p).unwrap().data, vec![2, 3, 4, 1]);
    let u: Matrix<i64> = Matrix::sscale4(-2);
    assert_eq!(u.data, vec![-2, 0, 0, 0, 0, -2, 0, 0, 0, 0, -2, 0, 0, 0, 0, 1]);
}

#[test]
fn zero_builder() {
    let z: Matrix<i32> = Matrix::zero4();
    assert_eq!(z.dimension, Dimension::new(4, 4));
    assert_eq!(z.data, vec![0; 16]);
}
