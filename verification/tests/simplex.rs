use optimization::multivariate::active_set::ActiveSetMethod;
use optimization::multivariate::simplex::{basis_permutation, Simplex, ARTIFICIAL_IN_BASIS};
use optimization::helpers::Iterations;

#[test]
fn basis_variables_first_then_the_rest_in_order() {
    let p: [usize; 5] = basis_permutation::<5, 2>(&[5, 3]).unwrap();
    assert_eq!(p, [3, 1, 0, 2, 4]);
    let p: [usize; 3] = basis_permutation::<3, 3>(&[3, 4, 5]).unwrap();
    assert_eq!(p, [0, 1, 2]);
    let p: [usize; 4] = basis_permutation::<4, 0>(&[]).unwrap();
    assert_eq!(p, [0, 1, 2, 3]);
}

#[test]
fn basis_permutation_is_a_permutation() {
    let p: [usize; 6] = basis_permutation::<6, 3>(&[8, 3, 6]).unwrap();
    let mut seen = [false; 6];
    for &v in &p {
        assert!(!seen[v]);
        seen[v] = true;
    }
    assert_eq!(p, [5, 0, 3, 1, 2, 4]);
}

#[test]
fn artificial_variable_in_basis_is_an_error() {
    let r = basis_permutation::<3, 2>(&[3, 1]);
    assert_eq!(r, Err("Artificial variable remains in basis; problem might be infeasible".to_string()));
    assert_eq!(r, Err(ARTIFICIAL_IN_BASIS.to_string()));
    let r = basis_permutation::<3, 2>(&[0, 4]);
    assert!(r.is_err());
}

#[test]
fn methods_keep_their_stopping_condition() {
    let s = Simplex::new(Iterations(7));
    assert_eq!(s.stopping_condition().0, 7);
    let q = optimization::quadratic::simplex::Simplex::new(Iterations(3));
    assert_eq!(q.stopping_condition().0, 3);
    let a = ActiveSetMethod::new(Iterations(11));
    assert_eq!(a.stopping_criterion.0, 11);
}
