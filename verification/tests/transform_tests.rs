use ministark::field::{Felt, MODULUS};
use ministark::matrix::Matrix;
use ministark::transform::Domain;

fn f(x: u64) -> Felt {
    Felt::new(x)
}

fn col(xs: &[u64]) -> Vec<Felt> {
    xs.iter().map(|&x| f(x)).collect()
}

#[test]
fn evaluations_of_degree_one_polynomial_exact() {
    // 3 + 5x over the order-2 subgroup {1, p - 1}: [8, 3 - 5 mod p]
    let m = Matrix::new(vec![col(&[3, 5])]);
    let d = Domain::new(2, f(1));
    let ev = m.into_evaluations(d);
    assert_eq!(ev.cols[0], col(&[8, MODULUS - 2]));
}

#[test]
fn evaluations_of_constant_polynomial_on_coset() {
    // a constant polynomial evaluates to its constant on any coset
    let m = Matrix::new(vec![col(&[9, 0])]);
    let d = Domain::new(2, f(7));
    let ev = m.into_evaluations(d);
    assert_eq!(ev.cols[0], col(&[9, 9]));
}

#[test]
fn round_trip_through_zero_padding() {
    // columns shorter than the domain are zero-padded, and the transform
    // pair reproduces the padded columns exactly
    let m = Matrix::new(vec![col(&[1, 2, 3]), col(&[7, 0, 5])]);
    let d = Domain::new(8, f(7));
    let ev = m.evaluate(d);
    assert_eq!(ev.num_rows(), 8);
    let back = ev.into_polynomials(d);
    assert_eq!(back.cols[0], col(&[1, 2, 3, 0, 0, 0, 0, 0]));
    assert_eq!(back.cols[1], col(&[7, 0, 5, 0, 0, 0, 0, 0]));
    // the original matrix was untouched by `evaluate`
    assert_eq!(m.cols[0], col(&[1, 2, 3]));
}

#[test]
fn interpolate_then_evaluate_round_trip() {
    let m = Matrix::new(vec![col(&[4, 9, 16, 25])]);
    let d = Domain::new(4, f(3));
    let polys = m.interpolate(d);
    let back = polys.into_evaluations(d);
    assert_eq!(back.cols[0], m.cols[0]);
}

#[test]
fn bit_reversed_evaluations_match_reordered_evaluations() {
    let m = Matrix::new(vec![col(&[1, 2, 3, 4])]);
    let d = Domain::new(4, f(5));
    let plain = m.evaluate(d);
    let reversed = m.bit_reversed_evaluate(d);
    let e = &plain.cols[0];
    assert_eq!(reversed.cols[0], vec![e[0], e[2], e[1], e[3]]);
}
