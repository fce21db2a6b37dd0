use ministark::constraints::Multivariate;
use ministark::field::Felt;
use ministark::table::{InputTable, IoTable, OutputTable};

fn f(x: u64) -> Felt {
    Felt::new(x)
}

fn col(xs: &[u64]) -> Vec<Felt> {
    xs.iter().map(|&x| f(x)).collect()
}

fn eleven_challenges() -> Vec<Felt> {
    // a, b, c, d, e, f, alpha, beta, gamma, delta, eta
    col(&[101, 102, 103, 104, 105, 106, 107, 108, 2, 3, 111])
}

fn five_terminals() -> Vec<Felt> {
    col(&[201, 202, 57, 179, 205])
}

#[test]
fn new_table_is_empty() {
    let t = IoTable::new();
    assert_eq!(t.len(), 0);
    assert_eq!(t.height(), 0);
    assert_eq!(t.num_padded_rows, 0);
    assert!(t.extended_matrix.is_none());
}

#[test]
fn set_matrix_resets_padding() {
    let mut t = IoTable::new();
    t.set_matrix(col(&[1, 2, 3]));
    t.pad(4);
    assert_eq!(t.num_padded_rows, 1);
    t.set_matrix(col(&[7]));
    assert_eq!(t.num_padded_rows, 0);
    assert_eq!(t.len(), 1);
    assert_eq!(t.height(), 1);
}

#[test]
fn pad_appends_zero_rows_and_is_idempotent() {
    let mut t = IoTable::new();
    t.set_matrix(col(&[1, 2, 3, 4, 5]));
    t.pad(8);
    assert_eq!(t.len(), 5);
    assert_eq!(t.height(), 8);
    assert_eq!(t.num_padded_rows, 3);
    assert_eq!(t.matrix, col(&[1, 2, 3, 4, 5, 0, 0, 0]));
    t.pad(8);
    assert_eq!(t.height(), 8);
    assert_eq!(t.num_padded_rows, 3);
    assert_eq!(t.interpolant_degree(), 8);
}

#[test]
fn extend_builds_running_evaluation() {
    // base values [1,2,3,4,5] padded to 8, challenge 2, initial 1:
    // 1, 1*2+2, 4*2+3, 11*2+4, 26*2+5, then padded rows times 2
    let mut t = IoTable::new();
    t.set_matrix(col(&[1, 2, 3, 4, 5]));
    t.pad(8);
    t.extend(f(2), f(1));
    let ext = t.extended_matrix.as_ref().unwrap();
    assert_eq!(ext.num_cols(), 2);
    assert_eq!(ext.cols[0], col(&[1, 2, 3, 4, 5, 0, 0, 0]));
    assert_eq!(ext.cols[1], col(&[1, 4, 11, 26, 57, 114, 228, 456]));
}

#[test]
fn running_evaluation_closed_form_unrolled() {
    // row i equals v0*c^i + sum of value_j * c^(i-j), for i in 0..10
    let values = col(&[7, 13, 2, 9, 4, 11, 6, 3, 8, 1]);
    let c = f(3);
    let v0 = f(7);
    let mut t = IoTable::new();
    t.set_matrix(values.clone());
    t.extend(c, v0);
    let ev = t.extended_matrix.as_ref().unwrap().cols[1].clone();
    for i in 0..10usize {
        let mut expected = v0.mul(c.pow(i as u64));
        for j in 1..=i {
            expected = expected.add(values[j].mul(c.pow((i - j) as u64)));
        }
        assert_eq!(ev[i], expected, "row {i}");
    }
}

#[test]
fn boundary_constraint_vanishes_iff_evaluation_matches_value() {
    let cs = IoTable::extension_boundary_constraints();
    assert_eq!(cs.len(), 1);
    assert_eq!(cs[0].evaluate(&col(&[5, 5])).val, 0);
    assert_ne!(cs[0].evaluate(&col(&[5, 6])).val, 0);
}

#[test]
fn transition_constraint_vanishes_on_recurrence_step() {
    // evaluation' = evaluation * c + value' with c = 2: (4, 3) -> 11
    let cs = IoTable::extension_transition_constraints(f(2));
    assert_eq!(cs.len(), 1);
    // assignment: [value, evaluation, value', evaluation']
    assert_eq!(cs[0].evaluate(&col(&[2, 4, 3, 11])).val, 0);
    assert_ne!(cs[0].evaluate(&col(&[2, 4, 3, 12])).val, 0);
}

#[test]
fn terminal_constraint_with_offset_vanishes_on_actual_extension() {
    // the table of extend_builds_running_evaluation: 3 padded rows,
    // terminal 57 (the last real row), final evaluation 456 = 57 * 2^3
    let mut t = IoTable::new();
    t.set_matrix(col(&[1, 2, 3, 4, 5]));
    t.pad(8);
    t.extend(f(2), f(1));
    let cs = t.extension_terminal_constraints(f(2), f(57));
    assert_eq!(cs.len(), 1);
    // last row of the extension: value 0, evaluation 456
    assert_eq!(cs[0].evaluate(&col(&[0, 456])).val, 0);
}

#[test]
fn terminal_constraint_without_offset_fails_on_padded_table() {
    // the naive check `evaluation - terminal` does not vanish when
    // padding rows were appended
    let vars = Multivariate::variables(2);
    let naive = vars[1].sub(&Multivariate::constant(f(57)));
    assert_ne!(naive.evaluate(&col(&[0, 456])).val, 0);
    // while the compensated expected value does match
    let compensated = vars[1].sub(&Multivariate::constant(f(57).mul(f(2).pow(3))));
    assert_eq!(compensated.evaluate(&col(&[0, 456])).val, 0);
}

#[test]
fn base_constraints_are_empty() {
    assert_eq!(IoTable::base_boundary_constraints().len(), 0);
    assert_eq!(IoTable::base_transition_constraints().len(), 0);
    assert_eq!(OutputTable::base_boundary_constraints().len(), 0);
    assert_eq!(InputTable::base_transition_constraints().len(), 0);
}

#[test]
fn base_lde_codeword_interpolates_back() {
    let mut t = IoTable::new();
    t.set_matrix(col(&[1, 2, 3]));
    t.pad(4);
    let codewords = t.base_lde(f(7), 8);
    assert_eq!(codewords.len(), 1);
    assert_eq!(codewords[0].len(), 8);
    // the codeword evaluates the interpolant of the padded column: on the
    // same coset it interpolates back to the column's coefficients
    let m = ministark::matrix::Matrix::new(codewords);
    let d = ministark::transform::Domain::new(8, f(7));
    let coeffs = m.into_polynomials(d);
    let trace_d = ministark::transform::Domain::new(4, f(1));
    let back = ministark::matrix::Matrix::new(vec![coeffs.cols[0][0..4].to_vec()])
        .into_evaluations(trace_d);
    assert_eq!(back.cols[0], col(&[1, 2, 3, 0]));
    // the higher coefficients of the degree-bounded interpolant are zero
    for k in 4..8 {
        assert_eq!(coeffs.cols[0][k].val, 0);
    }
}

#[test]
fn extension_lde_covers_both_columns() {
    let mut t = IoTable::new();
    t.set_matrix(col(&[1, 2, 3, 4]));
    t.extend(f(2), f(1));
    let codewords = t.extension_lde(f(7), 2);
    assert_eq!(codewords.len(), 2);
    assert_eq!(codewords[0].len(), 8);
    assert_eq!(codewords[1].len(), 8);
}

#[test]
fn output_table_uses_tenth_challenge_and_fourth_terminal() {
    let mut t = OutputTable::new();
    t.set_matrix(col(&[1, 2, 3, 4, 5]));
    t.pad(8);
    t.extend(&eleven_challenges(), &col(&[1]));
    // delta = 3: running evaluation 1, 1*3+2=5, 5*3+3=18, 18*3+4=58, ...
    let ext = t.0.extended_matrix.as_ref().unwrap();
    assert_eq!(ext.cols[1][0], f(1));
    assert_eq!(ext.cols[1][1], f(5));
    assert_eq!(ext.cols[1][2], f(18));
    let cs = OutputTable::extension_transition_constraints(&eleven_challenges());
    assert_eq!(cs[0].evaluate(&col(&[0, 5, 3, 18])).val, 0);
    // the last real row evaluates to 179; padded by 3 rows, the final
    // evaluation is 179 * 3^3 and must match terminal 179 times delta^3
    let term = t.extension_terminal_constraints(&eleven_challenges(), &five_terminals());
    let last_eval = ext.cols[1][7];
    assert_eq!(last_eval, f(179).mul(f(3).pow(3)));
    assert_eq!(term[0].evaluate(&vec![f(0), last_eval]).val, 0);
    assert_eq!(t.len(), 5);
    assert_eq!(t.height(), 8);
    assert_eq!(t.interpolant_degree(), 8);
}

#[test]
fn input_table_uses_ninth_challenge_and_third_terminal() {
    let mut t = InputTable::new();
    t.set_matrix(col(&[10, 20]));
    t.extend(&eleven_challenges(), &col(&[10]));
    // gamma = 2: running evaluation 10, 10*2+20 = 40
    let ext = t.0.extended_matrix.as_ref().unwrap();
    assert_eq!(ext.cols[1], col(&[10, 40]));
    let cs = InputTable::extension_transition_constraints(&eleven_challenges());
    assert_eq!(cs[0].evaluate(&col(&[10, 10, 20, 40])).val, 0);
    // no padding: terminal 57 compared directly
    let term = t.extension_terminal_constraints(&eleven_challenges(), &five_terminals());
    assert_eq!(term[0].evaluate(&col(&[20, 57])).val, 0);
    assert_ne!(term[0].evaluate(&col(&[20, 58])).val, 0);
    let boundary = InputTable::extension_boundary_constraints(&eleven_challenges());
    assert_eq!(boundary[0].evaluate(&col(&[10, 10])).val, 0);
}

#[test]
fn multivariate_ring_operations_evaluate_exactly() {
    let vars = Multivariate::variables(3);
    // p = 2*x0 + x2 - 5
    let p = vars[0].scale(f(2)).add(&vars[2]).sub(&Multivariate::constant(f(5)));
    assert_eq!(p.evaluate(&col(&[10, 99, 7])).val, 22);
    let z = Multivariate::zero();
    assert_eq!(z.evaluate(&col(&[1, 2, 3])).val, 0);
    let n = p.neg();
    assert_eq!(n.evaluate(&col(&[10, 99, 7])).add(p.evaluate(&col(&[10, 99, 7]))).val, 0);
}
