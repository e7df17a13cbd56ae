use matrix_calc::matrix::{
    invert_matrix, multiply_matrices, parse_matrix_data, scale_matrix, subtract_matrices,
    sum_matrices, transpose_matrix, DecodeError, Matrix, MatrixError,
};

fn from_rows(rows: Vec<Vec<i64>>) -> Matrix {
    let r = rows.len();
    let c = if r > 0 { rows[0].len() } else { 0 };
    Matrix { rows: r, cols: c, data: rows }
}

#[test]
fn new_is_zero_filled() {
    let m = Matrix::new(2, 3);
    assert_eq!(m.rows, 2);
    assert_eq!(m.cols, 3);
    assert_eq!(m.data, vec![vec![0, 0, 0], vec![0, 0, 0]]);
}

#[test]
fn sum_is_elementwise() {
    let a = from_rows(vec![vec![1, 2], vec![3, 4]]);
    let b = from_rows(vec![vec![10, 20], vec![30, 40]]);
    let s = sum_matrices(a, b).unwrap();
    assert_eq!(s.data, vec![vec![11, 22], vec![33, 44]]);
}

#[test]
fn sum_requires_identical_shape() {
    let a = Matrix::new(2, 2);
    let b = Matrix::new(2, 3);
    assert_eq!(sum_matrices(a, b).unwrap_err(), MatrixError::DimensionMismatch);
    let c = Matrix::new(1, 2);
    let d = Matrix::new(2, 2);
    assert_eq!(subtract_matrices(c, d).unwrap_err(), MatrixError::DimensionMismatch);
}

#[test]
fn sum_reports_overflow() {
    let a = from_rows(vec![vec![i64::MAX]]);
    let b = from_rows(vec![vec![1]]);
    assert_eq!(sum_matrices(a, b).unwrap_err(), MatrixError::Overflow);
}

#[test]
fn add_then_subtract_reconstructs() {
    let a = from_rows(vec![vec![5, -7], vec![0, 12]]);
    let b = from_rows(vec![vec![3, 3], vec![-9, 1]]);
    let sum = sum_matrices(a.duplicate(), b.duplicate()).unwrap();
    let back = subtract_matrices(sum, b).unwrap();
    assert_eq!(back.data, a.data);
}

#[test]
fn multiply_shapes_and_values() {
    let a = from_rows(vec![vec![1, 2, 3], vec![4, 5, 6]]);
    let b = from_rows(vec![vec![7, 8], vec![9, 10], vec![11, 12]]);
    let p = multiply_matrices(a, b).unwrap();
    assert_eq!(p.rows, 2);
    assert_eq!(p.cols, 2);
    assert_eq!(p.data, vec![vec![58, 64], vec![139, 154]]);
}

#[test]
fn multiply_requires_matching_inner_dimension() {
    let a = Matrix::new(2, 3);
    let b = Matrix::new(2, 3);
    assert_eq!(multiply_matrices(a, b).unwrap_err(), MatrixError::DimensionMismatch);
}

#[test]
fn multiply_by_zero_matrix_is_zero() {
    let a = from_rows(vec![vec![3, -4], vec![5, 6]]);
    let z = Matrix::new(2, 2);
    let p = multiply_matrices(a, z).unwrap();
    assert_eq!(p.data, vec![vec![0, 0], vec![0, 0]]);
}

#[test]
fn scale_multiplies_every_cell() {
    let a = from_rows(vec![vec![1, -2], vec![3, 0]]);
    let s = scale_matrix(a, -3).unwrap();
    assert_eq!(s.data, vec![vec![-3, 6], vec![-9, 0]]);
    let big = from_rows(vec![vec![i64::MAX]]);
    assert_eq!(scale_matrix(big, 2).unwrap_err(), MatrixError::Overflow);
}

#[test]
fn transpose_is_involutive() {
    let a = from_rows(vec![vec![1, 2, 3], vec![4, 5, 6]]);
    let t = transpose_matrix(a.duplicate());
    assert_eq!(t.rows, 3);
    assert_eq!(t.cols, 2);
    assert_eq!(t.data, vec![vec![1, 4], vec![2, 5], vec![3, 6]]);
    let tt = transpose_matrix(t);
    assert_eq!(tt.data, a.data);
}

#[test]
fn invert_is_an_honest_gap() {
    assert_eq!(invert_matrix(Matrix::new(2, 3)).unwrap_err(), MatrixError::DimensionMismatch);
    assert_eq!(invert_matrix(Matrix::new(2, 2)).unwrap_err(), MatrixError::NotImplemented);
}

#[test]
fn rendering_matches_the_fixture_format() {
    let m = from_rows(vec![vec![1, 2], vec![3, 4]]);
    assert_eq!(m.to_string(), "| 1  2 |\n| 3  4 |\n");
    let wide = from_rows(vec![vec![-5, 10, 123]]);
    assert_eq!(wide.to_string(), "| -5 10 123|\n");
    let empty = Matrix::new(0, 0);
    assert_eq!(empty.to_string(), "");
}

#[test]
fn decode_round_trips_a_rectangular_literal() {
    let d = parse_matrix_data("[[1,2][3,4]]").unwrap();
    assert_eq!(d, vec![vec![1, 2], vec![3, 4]]);
}

#[test]
fn decode_accepts_negative_values_and_loose_separators() {
    let d = parse_matrix_data("[[-1 2][30,-40]]").unwrap();
    assert_eq!(d, vec![vec![-1, 2], vec![30, -40]]);
}

#[test]
fn decode_of_empty_text_is_no_rows() {
    assert_eq!(parse_matrix_data("").unwrap(), Vec::<Vec<i64>>::new());
    assert_eq!(parse_matrix_data("no brackets 12").unwrap(), Vec::<Vec<i64>>::new());
}

#[test]
fn decode_rejects_ragged_rows() {
    assert_eq!(
        parse_matrix_data("[[1,2][3]]").unwrap_err(),
        DecodeError::InconsistentRowLengths
    );
}

#[test]
fn decode_rejects_fractional_and_oversized_values() {
    assert_eq!(parse_matrix_data("[[1.5]]").unwrap_err(), DecodeError::InvalidNumber);
    assert_eq!(
        parse_matrix_data("[[99999999999999999999]]").unwrap_err(),
        DecodeError::InvalidNumber
    );
}

#[test]
fn decode_skips_unclosed_brackets() {
    let d = parse_matrix_data("[[1,2][3,4").unwrap();
    assert_eq!(d, vec![vec![1, 2]]);
}
