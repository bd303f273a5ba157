use frodokexp::params::Q;
use frodokexp::{Matrix, MatrixError};

#[test]
fn create_matrix() {
    let v: Vec<i32> = (0..15).collect();
    let m = Matrix::new(5, 3, v);
    assert!(m.is_ok());
}

#[test]
fn create_matrix_with_wrong_length_fails() {
    let v: Vec<i32> = (0..14).collect();
    assert_eq!(Matrix::new(5, 3, v).err(), Some(MatrixError::DimensionMismatch));
}

#[test]
fn mutiply_transpose_test() {
    let m = Matrix::new(3, 2, vec![1, 1, 2, 2, 3, 3]).unwrap();
    let rhs = Matrix::new(8, 2, vec![1, 1, 2, 2, 3, 3, 4, 4, 5, 5, 6, 6, 7, 7, 8, 8]).unwrap();
    let add = Matrix::new(8, 3, vec![0; 24]).unwrap();
    let mat_res = m.mul_add_transpose(&rhs, &add).unwrap();
    let correct = vec![2, 4, 6, 4, 8, 12, 6, 12, 18, 8, 16, 24, 10, 20, 30, 12, 24, 36, 14, 28, 42, 16, 32, 48];
    assert_eq!(mat_res.get_data(), correct);
}

#[test]
fn multiply_transpose_reduces_and_adds() {
    let m = Matrix::new(1, 2, vec![Q - 1, -3]).unwrap();
    let rhs = Matrix::new(8, 2, vec![2, 1, 0, 0, 0, 0, 0, 0, 0, 0, 0, 0, 0, 0, 0, 1]).unwrap();
    let add = Matrix::new(8, 1, vec![5, 0, 0, 0, 0, 0, 0, 0]).unwrap();
    let res = m.mul_add_transpose(&rhs, &add).unwrap();
    // (Q-1)*2 - 3 + 5 = 2Q, which is 0 mod Q; the last row gives -3 mod Q.
    assert_eq!(res.get_data(), vec![0, 0, 0, 0, 0, 0, 0, Q - 3]);
}

#[test]
fn multiply_transpose_rejects_bad_block_size() {
    let m = Matrix::new(3, 2, vec![1, 1, 2, 2, 3, 3]).unwrap();
    let rhs = Matrix::new(4, 2, vec![1, 1, 2, 2, 3, 3, 4, 4]).unwrap();
    let add = Matrix::new(4, 3, vec![0; 12]).unwrap();
    assert_eq!(m.mul_add_transpose(&rhs, &add).err(), Some(MatrixError::InvalidBlockSize));
}

#[test]
fn multiply_transpose_rejects_mismatched_shapes() {
    let m = Matrix::new(3, 2, vec![1, 1, 2, 2, 3, 3]).unwrap();
    let rhs = Matrix::new(8, 3, vec![1; 24]).unwrap();
    let add = Matrix::new(8, 3, vec![0; 24]).unwrap();
    assert_eq!(m.mul_add_transpose(&rhs, &add).err(), Some(MatrixError::DimensionMismatch));
    let rhs2 = Matrix::new(8, 2, vec![1; 16]).unwrap();
    let add2 = Matrix::new(3, 8, vec![0; 24]).unwrap();
    assert_eq!(m.mul_add_transpose(&rhs2, &add2).err(), Some(MatrixError::DimensionMismatch));
}

#[test]
fn byte_conversion_test() {
    let m = Matrix::new(3, 4, vec![-1021, 1123, 1224, 3243, 4324, 31750, 10001, -213, 2, 0, 32, 25 - 1]).unwrap();
    let m_copy = m.clone();
    let b = m.to_bytes();
    let m_p = Matrix::from_bytes(&b, 3, 4).unwrap();
    assert_eq!(m_copy.get_data(), m_p.get_data());
}

#[test]
fn to_bytes_is_big_endian() {
    let m = Matrix::new(1, 3, vec![-1021, 258, 32767]).unwrap();
    assert_eq!(m.to_bytes(), vec![0xFC, 0x03, 0x01, 0x02, 0x7F, 0xFF]);
}

#[test]
fn from_bytes_sign_extends() {
    let m = Matrix::from_bytes(&[0xFF, 0xFF, 0x80, 0x00, 0x12, 0x34], 1, 3).unwrap();
    assert_eq!(m.get_data(), vec![-1, -32768, 0x1234]);
}

#[test]
fn from_bytes_rejects_wrong_length() {
    assert_eq!(Matrix::from_bytes(&[1, 2, 3], 1, 2).err(), Some(MatrixError::DimensionMismatch));
    assert_eq!(Matrix::from_bytes(&[1, 2, 3, 4], 1, 1).err(), Some(MatrixError::DimensionMismatch));
}

#[test]
fn add_mat_reduces_into_range() {
    let a = Matrix::new(1, 3, vec![1, Q - 1, -1]).unwrap();
    let b = Matrix::new(1, 3, vec![2, 5, 0]).unwrap();
    assert_eq!(a.add_mat(b).unwrap().get_data(), vec![3, 4, Q - 1]);
}

#[test]
fn add_mat_rejects_mismatched_shapes() {
    let a = Matrix::new(1, 2, vec![1, 2]).unwrap();
    let b = Matrix::new(2, 1, vec![1, 2]).unwrap();
    assert_eq!(a.add_mat(b).err(), Some(MatrixError::DimensionMismatch));
}

#[test]
fn double_doubles_without_reduction() {
    let a = Matrix::new(1, 3, vec![1, -2, Q - 1]).unwrap();
    assert_eq!(a.double().get_data(), vec![2, -4, 2 * Q - 2]);
}

#[test]
fn get_reads_row_major() {
    let a = Matrix::new(2, 3, vec![1, 2, 3, 4, 5, 6]).unwrap();
    assert_eq!(a.get(1, 0), 4);
    assert_eq!(a.get(0, 2), 3);
}

#[test]
fn create_empty_matrix() {
    let m = Matrix::new(0, 3, vec![]).unwrap();
    assert_eq!(m.to_bytes(), Vec::<u8>::new());
}

#[test]
fn create_matrix_with_overflowing_shape_fails() {
    assert_eq!(Matrix::new(usize::MAX, 2, vec![]).err(), Some(MatrixError::DimensionMismatch));
}

#[test]
fn wire_form_truncates_wide_coefficients() {
    let m = Matrix::new(1, 2, vec![32768, -32769]).unwrap();
    let back = Matrix::from_bytes(&m.to_bytes(), 1, 2).unwrap();
    assert_eq!(back.get_data(), vec![-32768, 32767]);
}
