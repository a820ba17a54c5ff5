use optimization::linalg::{Column, Matrix, SquareMatrix};
use optimization::multivariate::active_set::working_set_kkt;

#[test]
fn block_concat_builds_the_constrained_system() {
    let q: SquareMatrix<2, i32> = Matrix([[1, 2], [3, 4]]);
    let a = Matrix([[5, 6]]);
    let k: SquareMatrix<3, i32> = q.block_concat(&a);
    assert_eq!(k.0, [[1, 2, 5], [3, 4, 6], [5, 6, 0]]);
}

#[test]
fn stack_and_extract_round_trip() {
    let x = Column::new_column([1, 2, 3]);
    let y = Column::new_column([9, 8]);
    let s: Column<5, i32> = x.stack(&y);
    assert_eq!(s.into_column(), [1, 2, 3, 9, 8]);
    let p: Column<3, i32> = s.extract_p();
    let l: Column<2, i32> = s.extract_lambda();
    assert_eq!(p.0, x.0);
    assert_eq!(l.0, y.0);
}

#[test]
fn zero_column() {
    let z: Column<4, i64> = Column::zeros();
    assert_eq!(z.into_column(), [0, 0, 0, 0]);
}

#[test]
fn working_set_system() {
    let q: SquareMatrix<2, i32> = Matrix([[2, 0], [0, 2]]);
    let a = Matrix([[1, 1], [1, -1], [0, 1]]);
    let k = working_set_kkt(&q, &a, &vec![2, 0]);
    assert_eq!(
        k,
        vec![vec![2, 0, 0, 1], vec![0, 2, 1, 1], vec![0, 1, 0, 0], vec![1, 1, 0, 0]]
    );
    let k = working_set_kkt(&q, &a, &vec![]);
    assert_eq!(k, vec![vec![2, 0], vec![0, 2]]);
}
