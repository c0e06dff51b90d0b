use neural_network::matrix::{Matrix, MatrixError};

fn m(rows: Vec<Vec<f64>>) -> Matrix<f64> {
    Matrix::from(rows).unwrap()
}

fn plus(a: f64, b: f64) -> f64 {
    a + b
}

fn minus(a: f64, b: f64) -> f64 {
    a - b
}

fn times(a: f64, b: f64) -> f64 {
    a * b
}

#[test]
fn from_infers_shape() {
    let a = m(vec![vec![1.0, 2.0, 3.0], vec![4.0, 5.0, 6.0]]);
    assert_eq!(a.rows(), 2);
    assert_eq!(a.cols(), 3);
    assert_eq!(a.get(1, 2), 6.0);
}

#[test]
fn from_rejects_empty_and_jagged() {
    assert_eq!(Matrix::<f64>::from(vec![]).err(), Some(MatrixError::ShapeError));
    assert_eq!(Matrix::<f64>::from(vec![vec![]]).err(), Some(MatrixError::ShapeError));
    assert_eq!(
        Matrix::from(vec![vec![1.0, 2.0], vec![3.0]]).err(),
        Some(MatrixError::ShapeError)
    );
}

#[test]
fn filled_gives_constant_matrix() {
    let z = Matrix::filled(2, 3, 0.0).unwrap();
    assert_eq!(z.to_rows(), vec![vec![0.0; 3]; 2]);
    assert_eq!(Matrix::filled(0, 3, 0.0).err(), Some(MatrixError::ShapeError));
    assert_eq!(Matrix::filled(3, 0, 0.0).err(), Some(MatrixError::ShapeError));
}

#[test]
fn from_fn_draws_every_entry() {
    let r = Matrix::from_fn(3, 2, &|| 0.25).unwrap();
    assert_eq!(r.to_rows(), vec![vec![0.25, 0.25]; 3]);
    assert_eq!(Matrix::from_fn(0, 2, &|| 0.25).err(), Some(MatrixError::ShapeError));
}

#[test]
fn from_column_and_column_vec() {
    let c = Matrix::from_column(vec![1.0, 2.0, 3.0]).unwrap();
    assert_eq!(c.rows(), 3);
    assert_eq!(c.cols(), 1);
    assert_eq!(c.column_vec(0), vec![1.0, 2.0, 3.0]);
    assert_eq!(Matrix::<f64>::from_column(vec![]).err(), Some(MatrixError::ShapeError));
}

#[test]
fn multiply_square() {
    let a = m(vec![vec![1.0, 2.0], vec![3.0, 4.0]]);
    let b = m(vec![vec![5.0, 6.0], vec![7.0, 8.0]]);
    let c = a.multiply(&b, 0.0, &plus, &times).unwrap();
    assert_eq!(c.to_rows(), vec![vec![19.0, 22.0], vec![43.0, 50.0]]);
}

#[test]
fn multiply_rectangular() {
    let a = m(vec![vec![1.0, 2.0, 3.0], vec![4.0, 5.0, 6.0]]);
    let b = m(vec![vec![7.0, 8.0], vec![9.0, 10.0], vec![11.0, 12.0]]);
    let c = a.multiply(&b, 0.0, &plus, &times).unwrap();
    assert_eq!(c.rows(), 2);
    assert_eq!(c.cols(), 2);
    assert_eq!(c.to_rows(), vec![vec![58.0, 64.0], vec![139.0, 154.0]]);
    let v = m(vec![vec![1.0], vec![0.0], vec![-1.0]]);
    let d = a.multiply(&v, 0.0, &plus, &times).unwrap();
    assert_eq!(d.to_rows(), vec![vec![-2.0], vec![-2.0]]);
}

#[test]
fn multiply_mismatch_leaves_operands() {
    let a = m(vec![vec![1.0, 2.0], vec![3.0, 4.0]]);
    let b = m(vec![vec![1.0, 2.0, 3.0]]);
    assert_eq!(
        a.multiply(&b, 0.0, &plus, &times).err(),
        Some(MatrixError::DimensionMismatch)
    );
    assert_eq!(a.to_rows(), vec![vec![1.0, 2.0], vec![3.0, 4.0]]);
    assert_eq!(b.to_rows(), vec![vec![1.0, 2.0, 3.0]]);
}

#[test]
fn elementwise_operations() {
    let a = m(vec![vec![1.0, 2.0], vec![3.0, 4.0]]);
    let b = m(vec![vec![10.0, 20.0], vec![30.0, 40.0]]);
    assert_eq!(
        a.zip_with(&b, &plus).unwrap().to_rows(),
        vec![vec![11.0, 22.0], vec![33.0, 44.0]]
    );
    assert_eq!(
        b.zip_with(&a, &minus).unwrap().to_rows(),
        vec![vec![9.0, 18.0], vec![27.0, 36.0]]
    );
    assert_eq!(
        a.zip_with(&b, &times).unwrap().to_rows(),
        vec![vec![10.0, 40.0], vec![90.0, 160.0]]
    );
}

#[test]
fn elementwise_mismatch_leaves_operands() {
    let a = m(vec![vec![1.0, 2.0], vec![3.0, 4.0]]);
    let b = m(vec![vec![1.0, 2.0]]);
    let c = m(vec![vec![1.0], vec![2.0]]);
    for f in [plus, minus, times] {
        assert_eq!(a.zip_with(&b, &f).err(), Some(MatrixError::DimensionMismatch));
        assert_eq!(a.zip_with(&c, &f).err(), Some(MatrixError::DimensionMismatch));
    }
    assert_eq!(a.to_rows(), vec![vec![1.0, 2.0], vec![3.0, 4.0]]);
    assert_eq!(b.to_rows(), vec![vec![1.0, 2.0]]);
}

#[test]
fn transpose_swaps_entries() {
    let a = m(vec![vec![1.0, 2.0, 3.0], vec![4.0, 5.0, 6.0]]);
    let t = a.transpose();
    assert_eq!(t.rows(), 3);
    assert_eq!(t.cols(), 2);
    assert_eq!(t.to_rows(), vec![vec![1.0, 4.0], vec![2.0, 5.0], vec![3.0, 6.0]]);
    assert_eq!(t.transpose().to_rows(), a.to_rows());
}

#[test]
fn map_applies_function() {
    let a = m(vec![vec![1.0, 2.0], vec![3.0, 4.0]]);
    assert_eq!(
        a.map(&|x: f64| x * 2.0).to_rows(),
        vec![vec![2.0, 4.0], vec![6.0, 8.0]]
    );
    assert_eq!(a.map(&|x: f64| x).to_rows(), a.to_rows());
}

#[test]
fn subtract_undoes_add_on_integers() {
    let a = Matrix::from(vec![vec![1i64, -2, 3], vec![7, 0, -9]]).unwrap();
    let b = Matrix::from(vec![vec![100i64, 5, -6], vec![2, 2, 2]]).unwrap();
    let sum = a.zip_with(&b, &|x: i64, y: i64| x.wrapping_add(y)).unwrap();
    let back = sum.zip_with(&b, &|x: i64, y: i64| x.wrapping_sub(y)).unwrap();
    assert_eq!(back.to_rows(), a.to_rows());
}
