use optimization::quadratic::{Column, Matrix, Row, SquareMatrix, Value};

#[test]
fn transpose_swaps_rows_and_columns() {
    let m = Matrix([[1, 2, 3], [4, 5, 6]]);
    let t = m.transpose();
    assert_eq!(t.0, [[1, 4], [2, 5], [3, 6]]);
    assert_eq!(t.transpose().0, m.0);
}

#[test]
fn transpose_of_column_is_row() {
    let c = Column::new_column([1, 2, 3]);
    assert_eq!(c.transpose().0, Row::new_row([1, 2, 3]).0);
}

#[test]
fn column_row_and_value_round_trips() {
    let c = Column::new_column([7, 8, 9]);
    assert_eq!(c.0, [[7], [8], [9]]);
    assert_eq!(c.into_column(), [7, 8, 9]);
    let r = Row::new_row([1, 2]);
    assert_eq!(r.0, [[1, 2]]);
    assert_eq!(r.into_row(), [1, 2]);
    let v = Value::new_value(5);
    assert_eq!(v.0, [[5]]);
    assert_eq!(v.into_value(), 5);
}

#[test]
fn entrywise_arithmetic() {
    let a = Matrix([[1i64, 2], [3, 4]]);
    let b = Matrix([[10i64, 20], [30, 40]]);
    assert_eq!((a + b).0, [[11, 22], [33, 44]]);
    assert_eq!((b - a).0, [[9, 18], [27, 36]]);
    assert_eq!((-a).0, [[-1, -2], [-3, -4]]);
    assert_eq!((a * 3i64).0, [[3, 6], [9, 12]]);
}

#[test]
fn transpose_commutes_with_sum() {
    let a = Matrix([[1i64, 2, 3], [4, 5, 6]]);
    let b = Matrix([[6i64, 5, 4], [3, 2, 1]]);
    assert_eq!((a + b).transpose().0, (a.transpose() + b.transpose()).0);
    assert_eq!((-a).transpose().0, (-a.transpose()).0);
}

#[test]
fn compound_assignments() {
    let mut a = Matrix([[1i32, 2], [3, 4]]);
    a.add_assign(Matrix([[1, 1], [1, 1]]));
    assert_eq!(a.0, [[2, 3], [4, 5]]);
    a.sub_assign(Matrix([[2, 2], [2, 2]]));
    assert_eq!(a.0, [[0, 1], [2, 3]]);
    a.mul_assign(Matrix([[5, 6], [7, 8]]));
    assert_eq!(a.0, [[0, 6], [14, 24]]);
}

#[test]
fn matrix_product() {
    let a = Matrix([[1i64, 2, 3], [4, 5, 6]]);
    let b = Matrix([[7i64, 8], [9, 10], [11, 12]]);
    let p: Matrix<2, 2, i64> = a ^ b;
    assert_eq!(p.0, [[58, 64], [139, 154]]);
}

#[test]
fn square_product_in_place() {
    let mut a: SquareMatrix<2, i64> = Matrix([[1, 1], [0, 1]]);
    a.bitxor_assign(Matrix([[1, 1], [0, 1]]));
    assert_eq!(a.0, [[1, 2], [0, 1]]);
}

#[test]
fn product_with_identity_keeps_matrix() {
    let a = Matrix([[2i64, -1], [5, 3]]);
    let i = Matrix([[1i64, 0], [0, 1]]);
    let p: Matrix<2, 2, i64> = a ^ i;
    assert_eq!(p.0, a.0);
}

#[test]
fn index_reads_and_writes_entries() {
    let mut a = Matrix([[1, 2, 3], [4, 5, 6]]);
    assert_eq!(a[(1, 2)], 6);
    *a.index_mut((0, 1)) = 20;
    assert_eq!(a[(0, 1)], 20);
    assert_eq!(a.0, [[1, 20, 3], [4, 5, 6]]);
}

#[test]
fn select_columns_picks_and_orders_columns() {
    let a = Matrix([[1, 2, 3], [4, 5, 6]]);
    let s = a.select_columns(&[2, 0]);
    assert_eq!(s.0, [[3, 1], [6, 4]]);
    let d = a.select_columns(&[1, 1, 1, 1]);
    assert_eq!(d.0, [[2, 2, 2, 2], [5, 5, 5, 5]]);
}

#[test]
fn default_matrix_holds_default_entries() {
    let z: Matrix<2, 3, i32> = Default::default();
    assert_eq!(z.0, [[0, 0, 0], [0, 0, 0]]);
}

#[test]
fn empty_matrices() {
    let e: Matrix<0, 3, i32> = Matrix([]);
    let t = e.transpose();
    assert_eq!(t.0, [[], [], []]);
}

#[test]
fn sum_and_difference_of_owned_entries() {
    let words = Matrix([[String::from("ab"), String::from("c")]]);
    let joined = words + Matrix([["x", "yz"]]);
    assert_eq!(joined.0, [[String::from("abx"), String::from("cyz")]]);
    let counts = Matrix([[std::num::Wrapping(5u8), std::num::Wrapping(0u8)]]);
    let less = counts - Matrix([[std::num::Wrapping(2u8), std::num::Wrapping(1u8)]]);
    assert_eq!(less.0, [[std::num::Wrapping(3u8), std::num::Wrapping(255u8)]]);
}
