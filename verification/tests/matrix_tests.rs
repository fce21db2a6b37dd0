use ministark::field::Felt;
use ministark::matrix::{Matrix, MatrixError};

fn f(x: u64) -> Felt {
    Felt::new(x)
}

fn col(xs: &[u64]) -> Vec<Felt> {
    xs.iter().map(|&x| f(x)).collect()
}

#[test]
fn from_rows_transposes() {
    let rows = vec![col(&[1, 2, 3]), col(&[4, 5, 6])];
    let m = Matrix::from_rows(rows);
    assert_eq!(m.num_cols(), 3);
    assert_eq!(m.num_rows(), 2);
    assert_eq!(m.cols[0], col(&[1, 4]));
    assert_eq!(m.cols[1], col(&[2, 5]));
    assert_eq!(m.cols[2], col(&[3, 6]));
}

#[test]
fn from_rows_empty_input() {
    let m = Matrix::from_rows(Vec::new());
    assert_eq!(m.num_cols(), 0);
    assert_eq!(m.num_rows(), 0);
    assert!(m.is_empty());
}

#[test]
fn from_arrays_uses_given_width() {
    let rows = vec![col(&[7, 8]), col(&[9, 10])];
    let m = Matrix::from_arrays(&rows, 2);
    assert_eq!(m.num_cols(), 2);
    assert_eq!(m.cols[0], col(&[7, 9]));
    assert_eq!(m.cols[1], col(&[8, 10]));
}

#[test]
fn append_concatenates_columns() {
    let mut m = Matrix::new(vec![col(&[1, 2])]);
    let other = Matrix::new(vec![col(&[3, 4]), col(&[5, 6])]);
    m.append(other);
    assert_eq!(m.num_cols(), 3);
    assert_eq!(m.cols[1], col(&[3, 4]));
    assert_eq!(m.cols[2], col(&[5, 6]));
}

#[test]
fn join_concatenates_matrices_in_order() {
    let a = Matrix::new(vec![col(&[1])]);
    let b = Matrix::new(vec![col(&[2]), col(&[3])]);
    let c = Matrix::new(vec![]);
    let joined = Matrix::join(vec![a, b, c]);
    assert_eq!(joined.num_cols(), 3);
    assert_eq!(joined.cols[0], col(&[1]));
    assert_eq!(joined.cols[1], col(&[2]));
    assert_eq!(joined.cols[2], col(&[3]));
}

#[test]
fn get_row_and_rows() {
    let m = Matrix::new(vec![col(&[1, 2]), col(&[3, 4])]);
    assert_eq!(m.get_row(0).unwrap(), col(&[1, 3]));
    assert_eq!(m.get_row(1).unwrap(), col(&[2, 4]));
    assert!(m.get_row(2).is_none());
    let rows = m.rows();
    assert_eq!(rows.len(), 2);
    assert_eq!(rows[0], col(&[1, 3]));
    assert_eq!(rows[1], col(&[2, 4]));
}

#[test]
fn read_row_fills_leading_entries() {
    let m = Matrix::new(vec![col(&[1, 2]), col(&[3, 4])]);
    let mut buf = col(&[9, 9, 9]);
    m.read_row(1, &mut buf);
    assert_eq!(buf, col(&[2, 4, 9]));
}

#[test]
fn column_degrees_trims_trailing_zeros() {
    let m = Matrix::new(vec![col(&[0, 5, 0, 0]), col(&[0, 0, 0, 0]), col(&[1, 2, 3, 4])]);
    assert_eq!(m.column_degrees(), vec![1, 0, 3]);
}

#[test]
fn evaluate_at_horner_exact() {
    // column [2, 3, 4] is 2 + 3x + 4x^2; at x = 5 it is 117
    let m = Matrix::new(vec![col(&[2, 3, 4])]);
    let r = m.evaluate_at(f(5));
    assert_eq!(r, col(&[117]));
}

#[test]
fn sum_columns_elementwise() {
    let m = Matrix::new(vec![col(&[1, 2]), col(&[3, 4]), col(&[5, 6])]);
    let s = m.sum_columns();
    assert_eq!(s.num_cols(), 1);
    assert_eq!(s.cols[0], col(&[9, 12]));
}

#[test]
fn sum_columns_no_columns_gives_empty_zero_column() {
    let m = Matrix::new(vec![]);
    let s = m.sum_columns();
    assert_eq!(s.num_cols(), 1);
    assert_eq!(s.cols[0].len(), 0);
}

#[test]
fn bit_reverse_rows_permutes_each_column() {
    let mut m = Matrix::new(vec![col(&[10, 11, 12, 13])]);
    m.bit_reverse_rows();
    assert_eq!(m.cols[0], col(&[10, 12, 11, 13]));
    // applying the permutation twice restores the column
    m.bit_reverse_rows();
    assert_eq!(m.cols[0], col(&[10, 11, 12, 13]));
}

#[test]
fn try_into_column_three_cases() {
    let one = Matrix::new(vec![col(&[1, 2])]);
    assert_eq!(one.try_into_column().unwrap(), col(&[1, 2]));
    let none = Matrix::new(vec![]);
    assert_eq!(none.try_into_column().unwrap_err(), MatrixError::NoColumns);
    let many = Matrix::new(vec![col(&[1]), col(&[2])]);
    assert_eq!(many.try_into_column().unwrap_err(), MatrixError::ManyColumns);
}

#[test]
fn hash_rows_is_deterministic() {
    let m = Matrix::new(vec![col(&[1, 2, 3]), col(&[4, 5, 6])]);
    let d1 = m.hash_rows();
    let d2 = m.hash_rows();
    assert_eq!(d1.len(), 3);
    assert_eq!(d1, d2);
    for d in &d1 {
        assert_eq!(d.len(), 32);
    }
}

#[test]
fn hash_rows_swapping_two_rows_changes_exactly_those_digests() {
    let m1 = Matrix::new(vec![col(&[1, 2, 3]), col(&[4, 5, 6])]);
    // rows 0 and 2 swapped, row 1 untouched
    let m2 = Matrix::new(vec![col(&[3, 2, 1]), col(&[6, 5, 4])]);
    let d1 = m1.hash_rows();
    let d2 = m2.hash_rows();
    assert_ne!(d1[0], d2[0]);
    assert_eq!(d1[1], d2[1]);
    assert_ne!(d1[2], d2[2]);
    // the swapped rows carry their digests with them
    assert_eq!(d1[0], d2[2]);
    assert_eq!(d1[2], d2[0]);
}
