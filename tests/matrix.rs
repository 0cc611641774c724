use static_matrix::Matrix;

#[test]
fn matrix_test() {
    let mat_colonne = Matrix::<i64, 5, 1>::zero();
    for i in 0..5 {
        assert_eq!(mat_colonne.values[i][0], 0);
    }
    let mat_ligne = Matrix::<i64, 1, 5>::zero();
    for i in 0..5 {
        assert_eq!(mat_ligne.values[0][i], 0);
    }
}

#[test]
fn matrix_col_and_row_fn() {
    let mut mat_colonne = Matrix::<i64, 5, 5>::zero();
    for i in 0..5 {
        for j in 0..5 {
            mat_colonne.values[i][0] = (i * 5 + j) as i64;
        }
    }
    let c = mat_colonne.col(0);
    for i in 0..5 {
        assert_eq!(c.values[i][0], mat_colonne.values[i][0]);
    }
    let r = mat_colonne.row(1);
    for i in 0..5 {
        assert_eq!(r.values[0][i], mat_colonne.values[1][i]);
    }
}

#[test]
fn matrix_set_col_row_fn() {
    let mut mat = Matrix::<i64, 5, 5>::zero();
    for i in 0..5 {
        for j in 0..5 {
            mat.values[i][0] = (i * 5 + j) as i64;
        }
    }
    let col = [121, 122, 123, 124, 125].map(|e| e as i64);
    let c = Matrix::<i64, 1, 5>::from_1d_array(col);
    mat.set_col(0, c);
    for i in 0..5 {
        assert_eq!(mat.values[i][0], col[i]);
    }
}

fn two_by_two() -> Matrix<i64, 2, 2> {
    Matrix::from_2d_array([[1, 2], [3, 4]])
}

#[test]
fn zero_reads_zero_everywhere() {
    let m = Matrix::<i64, 3, 4>::zero();
    for r in 0..3 {
        for c in 0..4 {
            assert_eq!(m.values[r][c], 0);
        }
    }
}

#[test]
fn filled_with_value() {
    let m = Matrix::<i64, 2, 3>::values(7);
    assert_eq!(m.values, [[7, 7, 7], [7, 7, 7]]);
    let f = Matrix::<f64, 1, 2>::values(1.5);
    assert_eq!(f.values, [[1.5, 1.5]]);
}

#[test]
fn size_reports_shape() {
    let m = Matrix::<i64, 2, 3>::zero();
    assert_eq!(m.size(), (2, 3));
}

#[test]
fn transpose_two_by_two() {
    assert_eq!(two_by_two().transposed().values, [[1, 3], [2, 4]]);
}

#[test]
fn transpose_changes_shape() {
    let m = Matrix::from_2d_array([[1.0, 2.0, 3.0], [4.0, 5.0, 6.0]]);
    let t = m.transposed();
    assert_eq!(t.size(), (3, 2));
    assert_eq!(t.values, [[1.0, 4.0], [2.0, 5.0], [3.0, 6.0]]);
}

#[test]
fn transpose_twice_round_trip() {
    let m = Matrix::from_2d_array([[1, -2, 3], [4, 5, -6]]);
    assert_eq!(m.transposed().transposed().values, m.values);
}

#[test]
fn from_1d_array_is_column() {
    let m = Matrix::<i64, 1, 3>::from_1d_array([4, 5, 6]);
    assert_eq!(m.values, [[4], [5], [6]]);
}

#[test]
fn column_and_row_of_two_by_two() {
    let m = two_by_two();
    assert_eq!(m.col(0).values, [[1], [3]]);
    assert_eq!(m.col(1).values, [[2], [4]]);
    assert_eq!(m.row(1).values, [[3, 4]]);
    assert_eq!(m.row(0).values, [[1, 2]]);
}

#[test]
fn out_of_range_index_is_refused() {
    let m = two_by_two();
    assert!(m.try_col(2).is_none());
    assert!(m.try_col(7).is_none());
    assert!(m.try_row(2).is_none());
    assert!(m.try_row(usize::MAX).is_none());
    assert_eq!(m.try_col(1).map(|c| c.values), Some([[2], [4]]));
    assert_eq!(m.try_row(0).map(|r| r.values), Some([[1, 2]]));
}

#[test]
fn set_column_with_own_column_keeps_matrix() {
    let mut m = Matrix::from_2d_array([[1, 2, 3], [4, 5, 6]]);
    for i in 0..3 {
        let c = m.col(i);
        m.set_col(i, c);
        assert_eq!(m.values, [[1, 2, 3], [4, 5, 6]]);
    }
}

#[test]
fn set_column_replaces_one_column() {
    let mut m = Matrix::from_2d_array([[1, 2, 3], [4, 5, 6]]);
    m.set_col(1, Matrix::from_2d_array([[8], [9]]));
    assert_eq!(m.values, [[1, 8, 3], [4, 9, 6]]);
}

#[test]
fn set_row_replaces_one_row() {
    let mut m = Matrix::from_2d_array([[1, 2, 3], [4, 5, 6]]);
    m.set_row(0, Matrix::from_2d_array([[7, 8, 9]]));
    assert_eq!(m.values, [[7, 8, 9], [4, 5, 6]]);
    let r = m.row(1);
    m.set_row(1, r);
    assert_eq!(m.values, [[7, 8, 9], [4, 5, 6]]);
}

#[test]
fn scale_two_by_two_by_two() {
    let mut m = two_by_two();
    m.scale(2);
    assert_eq!(m.values, [[2, 4], [6, 8]]);
}

#[test]
fn scaled_leaves_receiver() {
    let m = two_by_two();
    let s = m.scaled(-3);
    assert_eq!(s.values, [[-3, -6], [-9, -12]]);
    assert_eq!(m.values, [[1, 2], [3, 4]]);
}

#[test]
fn scale_twice_is_scale_by_product() {
    let mut a = Matrix::from_2d_array([[1, -2], [0, 5]]);
    a.scale(3);
    a.scale(-4);
    let b = Matrix::from_2d_array([[1, -2], [0, 5]]).scaled(-12);
    assert_eq!(a.values, b.values);
}

#[test]
fn multiply_two_by_three_by_three_by_two() {
    let a = Matrix::from_2d_array([[1, 2, 3], [4, 5, 6]]);
    let b = Matrix::from_2d_array([[7, 8], [9, 10], [11, 12]]);
    let p = a.mul(&b);
    assert_eq!(p.size(), (2, 2));
    assert_eq!(p.values, [[58, 64], [139, 154]]);
}

#[test]
fn multiply_by_identity() {
    let m = Matrix::from_2d_array([[2, -1, 0], [5, 7, 3], [-4, 8, 1]]);
    let id = Matrix::from_2d_array([[1, 0, 0], [0, 1, 0], [0, 0, 1]]);
    assert_eq!(m.mul(&id).values, m.values);
    assert_eq!(id.mul(&m).values, m.values);
}

#[test]
fn row_times_column_is_dot_product() {
    let m = two_by_two();
    let p = m.row(0).mul(&m.col(1));
    assert_eq!(p.values, [[10]]);
}

#[test]
fn get_and_set_cells() {
    let mut m = two_by_two();
    assert_eq!(m.get(1, 0), Some(3));
    assert_eq!(m.get(2, 0), None);
    assert_eq!(m.get(0, 2), None);
    m.set(0, 1, 9);
    assert_eq!(m.values, [[1, 9], [3, 4]]);
}
