use smatrix::geometry::{Point3, Vec3};
use smatrix::matrix::{Matrix, MatrixError};
use smatrix::rotation::ROTATION_ONE;

fn grid(rows: usize, cols: usize, den: i64, vals: &[i64]) -> Matrix {
    let data = (0..rows).map(|i| vals[i * cols..(i + 1) * cols].to_vec()).collect();
    Matrix { rows, cols, den, data }
}

fn transform(m: &Matrix, p: Point3) -> Point3 {
    Point3::from_matrix(&Matrix::mul(m, &p.to_matrix()).unwrap()).unwrap()
}

#[test]
fn multiplication_is_associative() {
    let a = grid(2, 3, 1, &[1, 2, 3, -4, 5, 6]);
    let b = grid(3, 2, 2, &[7, -8, 9, 10, 11, 12]);
    let c = grid(2, 4, 3, &[1, 0, -1, 2, 3, 4, 5, -6]);
    let left = Matrix::mul(&Matrix::mul(&a, &b).unwrap(), &c).unwrap();
    let right = Matrix::mul(&a, &Matrix::mul(&b, &c).unwrap()).unwrap();
    assert_eq!(left.data, right.data);
    assert_eq!(left.den, right.den);
    assert_eq!(left.den, 6);
    assert_eq!((left.rows, left.cols), (2, 4));
}

#[test]
fn product_has_exact_entries() {
    let a = grid(2, 2, 1, &[1, 2, 3, 4]);
    let b = grid(2, 2, 1, &[5, 6, 7, 8]);
    let m = Matrix::mul(&a, &b).unwrap();
    assert_eq!(m.data, vec![vec![19, 22], vec![43, 50]]);
    assert_eq!(a.data, vec![vec![1, 2], vec![3, 4]]);
}

#[test]
fn identity_keeps_point() {
    let p = Point3::new(-7, 11, 1234);
    let id = Matrix::identity(4);
    let col = Matrix::mul(&id, &p.to_matrix()).unwrap();
    assert_eq!(col.data, p.to_matrix().data);
    assert_eq!(Point3::from_matrix(&col).unwrap(), p);
}

#[test]
fn move_matrix_translates_exactly() {
    let m = Matrix::move_matrix(-2000, -2500, 7500);
    let q = transform(&m, Point3::new(1000, 2000, -9500));
    assert_eq!(q, Point3::new(-1000, -500, -2000));
}

#[test]
fn shape_mismatch_is_rejected() {
    let a = grid(2, 3, 1, &[1, 2, 3, 4, 5, 6]);
    assert!(matches!(Matrix::mul(&a, &a), Err(MatrixError::ShapeError)));
    let p = Point3::new(1, 2, 3).to_matrix();
    assert!(matches!(Matrix::mul(&p, &Matrix::identity(4)), Err(MatrixError::ShapeError)));
}

#[test]
fn overflow_is_rejected() {
    let a = grid(1, 2, 1, &[i64::MAX, i64::MAX]);
    let b = grid(2, 1, 1, &[1, 1]);
    assert!(matches!(Matrix::mul(&a, &b), Err(MatrixError::OverflowError)));
    let c = grid(1, 1, i64::MAX, &[1]);
    assert!(matches!(Matrix::mul(&c, &c), Err(MatrixError::OverflowError)));
}

#[test]
fn from_matrix_needs_three_rows() {
    let short = grid(2, 1, 1, &[1, 2]);
    assert!(matches!(Point3::from_matrix(&short), Err(MatrixError::ShapeError)));
    let three = grid(3, 1, 1, &[4, 5, 6]);
    assert_eq!(Point3::from_matrix(&three).unwrap(), Point3::new(4, 5, 6));
}

#[test]
fn from_matrix_divides_by_den_rounding_down() {
    let m = grid(4, 1, 4, &[9, -9, 8, 4]);
    assert_eq!(Point3::from_matrix(&m).unwrap(), Point3::new(2, -3, 2));
}

#[test]
fn zero_axis_is_degenerate() {
    let r = Vec3::new(0, 0, 0).to_rotation_matrix(ROTATION_ONE, 0);
    assert!(matches!(r, Err(MatrixError::DegenerateAxisError)));
}

#[test]
fn zero_angle_rotation_is_scaled_identity() {
    let m = Vec3::new(0, 5, 0).to_rotation_matrix(ROTATION_ONE, 0).unwrap();
    let one = ROTATION_ONE * ROTATION_ONE * ROTATION_ONE;
    assert_eq!(m.den, one);
    for i in 0..4 {
        for j in 0..4 {
            assert_eq!(m.data[i][j], if i == j { one } else { 0 });
        }
    }
}

#[test]
fn quarter_turn_about_y() {
    let m = Vec3::new(0, 1, 0).to_rotation_matrix(0, ROTATION_ONE).unwrap();
    let q = transform(&m, Point3::new(1000, 0, 0));
    assert_eq!(q, Point3::new(0, 0, -1000));
}

#[test]
fn rotation_round_trip() {
    let theta: f64 = 0.7;
    let c = (theta.cos() * ROTATION_ONE as f64).round() as i64;
    let s = (theta.sin() * ROTATION_ONE as f64).round() as i64;
    let axis = Vec3::new(1, 2, 3);
    let forward = axis.to_rotation_matrix(c, s).unwrap();
    let back = axis.to_rotation_matrix(c, -s).unwrap();
    let p = Point3::new(1000, -2000, 3000);
    let q = transform(&back, transform(&forward, p));
    assert!((q.x - p.x).abs() <= 8, "{:?}", q);
    assert!((q.y - p.y).abs() <= 8, "{:?}", q);
    assert!((q.z - p.z).abs() <= 8, "{:?}", q);
}

#[test]
fn rotation_about_pivot() {
    let c = 0;
    let s = ROTATION_ONE;
    let to_origin = Matrix::move_matrix(-2000, -2500, 7500);
    let rot = Vec3::new(0, 1, 0).to_rotation_matrix(c, s).unwrap();
    let back = Matrix::move_matrix(2000, 2500, -7500);
    let m = Matrix::mul(&Matrix::mul(&back, &rot).unwrap(), &to_origin).unwrap();
    assert_eq!(transform(&m, Point3::new(2000, 2500, -7500)), Point3::new(2000, 2500, -7500));
    assert_eq!(transform(&m, Point3::new(3000, 2500, -7500)), Point3::new(2000, 2500, -8500));
}
